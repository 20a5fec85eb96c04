//! Re-renders a compiler's machine-readable diagnostics.
//!
//! The library parses a structured diagnostics stream into typed records,
//! computes a source-context window for every reported location, and builds
//! a rendering plan (styled text lines and excerpt requests) that a thin
//! front end executes against the terminal.

mod diag;
mod render;
mod wire;

pub use diag::DiagV;
pub use diag::ErrKind;
pub use diag::GccErr;
pub use diag::PosV;
pub use diag::SrcLocation;
pub use diag::SrcPos;
pub use render::build_args;
pub use render::esc_free;
pub use render::excerpt_window;
pub use render::i32_to_string;
pub use render::is_headline;
pub use render::is_loc_line;
pub use render::kind_label;
pub use render::loc_ops_ok;
pub use render::plan_ok;
pub use render::plan_output;
pub use render::spec_int_str;
pub use render::spec_window_from;
pub use render::wraps;
pub use render::Plan;
pub use render::RenderOp;
pub use wire::diags_seq_view;
pub use wire::spec_parse_diags;
