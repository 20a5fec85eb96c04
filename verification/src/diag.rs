//! The diagnostic record model: severity, message, and source locations.

use vstd::prelude::*;

verus! {

/// Severity of a diagnostic record; the wire format tags each record with
/// exactly one of these.
#[derive(Clone, Copy, Debug, PartialEq, Eq, Structural)]
pub enum ErrKind {
    Note,
    Error,
    Warning,
}

/// A caret position: file path plus 1-based line and column numbers.
pub struct SrcPos {
    pub file: String,
    pub line: i32,
    pub column: i32,
}

/// One source location of a diagnostic, identified by its caret position.
pub struct SrcLocation {
    pub caret: SrcPos,
}

/// One structured diagnostic record: severity, message, and an ordered
/// sequence of source locations.
pub struct GccErr {
    pub kind: ErrKind,
    pub locations: Vec<SrcLocation>,
    pub message: String,
}

/// Mathematical model of a caret position.
pub struct PosV {
    pub file: Seq<char>,
    pub line: int,
    pub column: int,
}

/// Mathematical model of a diagnostic record.
pub struct DiagV {
    pub kind: ErrKind,
    pub message: Seq<char>,
    pub locations: Seq<PosV>,
}

impl View for SrcPos {
    type V = PosV;

    open spec fn view(&self) -> PosV {
        PosV { file: self.file@, line: self.line as int, column: self.column as int }
    }
}

impl View for SrcLocation {
    type V = PosV;

    open spec fn view(&self) -> PosV {
        self.caret@
    }
}

impl View for GccErr {
    type V = DiagV;

    open spec fn view(&self) -> DiagV {
        DiagV {
            kind: self.kind,
            message: self.message@,
            locations: self.locations@.map(|i: int, l: SrcLocation| l@),
        }
    }
}

} // verus!
