//! Rendering of diagnostic records.
//!
//! A record renders to a plan: a headline with a color-coded severity tag
//! and the message, then for each source location an indented header line
//! and a request for a highlighted source excerpt, and a trailing blank
//! line. The excerpt window spans three lines of context on either side of
//! the reported line, clamped at line 0. The plan is plain data; a thin
//! front end executes it against the terminal and the highlighter.

use vstd::prelude::*;

use colored::Colorize;

use crate::diag::DiagV;
use crate::diag::ErrKind;
use crate::diag::GccErr;
use crate::diag::PosV;
use crate::wire::chars_to_string;
use crate::wire::diags_seq_view;
use crate::wire::spec_parse_diags;

verus! {

/// First line of the excerpt window around `line`: three lines of leading
/// context, clamped at line 0.
pub open spec fn spec_window_from(line: int) -> int {
    if line < 3 {
        0
    } else {
        line - 3
    }
}

/// Computes the excerpt window around a 1-based source line: three lines of
/// context on either side, with the start clamped at 0.
pub fn excerpt_window(line: i32) -> (w: (i64, i64))
    ensures
        w.0 == spec_window_from(line as int),
        w.1 == line + 3,
{
    let from: i64 = if line < 3 {
        0
    } else {
        (line as i64) - 3
    };
    (from, (line as i64) + 3)
}

/// The decimal digit character for a value of zero through nine.
pub open spec fn spec_digit_char(d: int) -> char {
    if d == 0 {
        '0'
    } else if d == 1 {
        '1'
    } else if d == 2 {
        '2'
    } else if d == 3 {
        '3'
    } else if d == 4 {
        '4'
    } else if d == 5 {
        '5'
    } else if d == 6 {
        '6'
    } else if d == 7 {
        '7'
    } else if d == 8 {
        '8'
    } else {
        '9'
    }
}

/// Decimal digits of a non-negative value; empty for zero.
pub open spec fn spec_nat_str(n: int) -> Seq<char>
    decreases n,
{
    if n <= 0 {
        Seq::empty()
    } else {
        spec_nat_str(n / 10).push(spec_digit_char(n % 10))
    }
}

/// Decimal rendering of an integer, sign and all.
pub open spec fn spec_int_str(n: int) -> Seq<char> {
    if n == 0 {
        seq!['0']
    } else if n < 0 {
        seq!['-'] + spec_nat_str(-n)
    } else {
        spec_nat_str(n)
    }
}

/// No escape character anywhere in the text. Terminal styling leaves such
/// a text intact inside the styled result.
pub open spec fn esc_free(t: Seq<char>) -> bool {
    forall|k: int| 0 <= k < t.len() ==> t[k] != '\u{1b}'
}

/// The text appears intact, in one piece, inside the styled result.
pub open spec fn wraps(r: Seq<char>, inner: Seq<char>) -> bool {
    exists|p: Seq<char>, q: Seq<char>| r == p + inner + q
}

proof fn lemma_nat_str_esc_free(n: int)
    ensures
        esc_free(spec_nat_str(n)),
    decreases n,
{
    if n > 0 {
        lemma_nat_str_esc_free(n / 10);
    }
}

proof fn lemma_int_str_esc_free(n: int)
    ensures
        esc_free(spec_int_str(n)),
{
    lemma_nat_str_esc_free(n);
    if n < 0 {
        lemma_nat_str_esc_free(-n);
        assert(forall|k: int|
            0 <= k < spec_int_str(n).len() ==> spec_int_str(n)[k] != '\u{1b}');
    }
}

fn digit_char(d: i64) -> (c: char)
    requires
        0 <= d <= 9,
    ensures
        c == spec_digit_char(d as int),
{
    if d == 0 {
        '0'
    } else if d == 1 {
        '1'
    } else if d == 2 {
        '2'
    } else if d == 3 {
        '3'
    } else if d == 4 {
        '4'
    } else if d == 5 {
        '5'
    } else if d == 6 {
        '6'
    } else if d == 7 {
        '7'
    } else if d == 8 {
        '8'
    } else {
        '9'
    }
}

/// Renders an integer in decimal, as the location header shows line and
/// column numbers.
pub fn i32_to_string(n: i32) -> (s: String)
    ensures
        s@ == spec_int_str(n as int),
{
    if n == 0 {
        let v: Vec<char> = vec!['0'];
        proof {
            assert(v@ =~= seq!['0']);
        }
        return chars_to_string(&v);
    }
    let neg = n < 0;
    let mut m: i64 = n as i64;
    if neg {
        m = -m;
    }
    let ghost mag = m as int;
    let mut digits: Vec<char> = Vec::new();
    proof {
        assert(spec_nat_str(mag) + digits@ =~= spec_nat_str(mag));
    }
    while m > 0
        invariant
            0 <= m <= mag,
            spec_nat_str(mag) == spec_nat_str(m as int) + digits@,
        decreases m,
    {
        let d: i64 = m % 10;
        let c = digit_char(d);
        proof {
            assert(spec_nat_str(m as int) == spec_nat_str(m as int / 10).push(
                spec_digit_char(m as int % 10),
            ));
            assert(spec_nat_str(m as int / 10).push(c) + digits@ =~= spec_nat_str(m as int / 10)
                + digits@.insert(0, c));
        }
        digits.insert(0, c);
        m = m / 10;
    }
    proof {
        assert(spec_nat_str(0) + digits@ =~= digits@);
    }
    if neg {
        proof {
            assert(seq!['-'] + digits@ =~= digits@.insert(0, '-'));
        }
        digits.insert(0, '-');
    }
    chars_to_string(&digits)
}

/// Relies on colored's Colorize::cyan and bold: the styled text is escape
/// sequences around the input, which stays intact when it holds no escape
/// character itself.
#[verifier::external_body]
fn style_cyan_bold(s: &str) -> (r: String)
    ensures
        esc_free(s@) ==> wraps(r@, s@),
{
    format!("{}", s.cyan().bold())
}

/// Relies on colored's Colorize::red and bold, as `style_cyan_bold` does on
/// cyan and bold.
#[verifier::external_body]
fn style_red_bold(s: &str) -> (r: String)
    ensures
        esc_free(s@) ==> wraps(r@, s@),
{
    format!("{}", s.red().bold())
}

/// Relies on colored's Colorize::yellow and bold, as `style_cyan_bold` does
/// on cyan and bold.
#[verifier::external_body]
fn style_yellow_bold(s: &str) -> (r: String)
    ensures
        esc_free(s@) ==> wraps(r@, s@),
{
    format!("{}", s.yellow().bold())
}

/// Relies on colored's Colorize::green, as `style_cyan_bold` does on cyan
/// and bold.
#[verifier::external_body]
fn style_green(s: &str) -> (r: String)
    ensures
        esc_free(s@) ==> wraps(r@, s@),
{
    format!("{}", s.green())
}

/// Relies on colored's Colorize::cyan, as `style_cyan_bold` does on cyan
/// and bold.
#[verifier::external_body]
fn style_cyan(s: &str) -> (r: String)
    ensures
        esc_free(s@) ==> wraps(r@, s@),
{
    format!("{}", s.cyan())
}

/// One step of a rendering plan: a finished text line, or a request to show
/// a highlighted excerpt of a source file.
pub enum RenderOp {
    Line(String),
    Excerpt { file: String, from: i64, to: i64, highlight: i32 },
}

/// The severity tag text of each severity.
pub open spec fn kind_label(k: ErrKind) -> Seq<char> {
    match k {
        ErrKind::Note => "Note"@,
        ErrKind::Error => "Error"@,
        ErrKind::Warning => "Warning"@,
    }
}

/// The headline of a record: a bracketed styled severity tag, then the
/// message.
pub open spec fn is_headline(h: Seq<char>, d: DiagV) -> bool {
    exists|st: Seq<char>|
        wraps(st, kind_label(d.kind)) && h == "["@ + st + "] "@ + d.message
}

/// The header line of one source location: the styled file path and the
/// styled 1-based line and column numbers, in the fixed wording.
pub open spec fn is_loc_line(h: Seq<char>, p: PosV) -> bool {
    exists|fs: Seq<char>, ls: Seq<char>, cs: Seq<char>|
        {
            &&& (esc_free(p.file) ==> wraps(fs, p.file))
            &&& wraps(ls, spec_int_str(p.line))
            &&& wraps(cs, spec_int_str(p.column))
            &&& h == " File `"@ + fs + "` line "@ + ls + " col "@ + cs + ":"@
        }
}

/// The two plan steps of location `k`: its header line and its excerpt
/// request, with the window around the reported line.
pub open spec fn loc_ops_ok(ops: Seq<RenderOp>, d: DiagV, k: int) -> bool {
    &&& (ops[1 + 2 * k] matches RenderOp::Line(h) && is_loc_line(h@, d.locations[k]))
    &&& (ops[2 + 2 * k] matches RenderOp::Excerpt { file, from, to, highlight }
        && file@ == d.locations[k].file && from == spec_window_from(d.locations[k].line) && to
        == d.locations[k].line + 3 && highlight == d.locations[k].line)
}

/// The whole rendering plan of one record: the headline, two steps per
/// location in order, and a trailing blank line — nothing else. A record
/// with no locations renders as the headline and the blank line alone.
pub open spec fn plan_ok(d: DiagV, ops: Seq<RenderOp>) -> bool {
    &&& ops.len() == 2 * d.locations.len() + 2
    &&& (ops[0] matches RenderOp::Line(h) && is_headline(h@, d))
    &&& forall|k: int| 0 <= k < d.locations.len() ==> #[trigger] loc_ops_ok(ops, d, k)
    &&& (ops[ops.len() - 1] matches RenderOp::Line(e) && e@ == Seq::<char>::empty())
}

impl GccErr {
    /// Builds the rendering plan of this record.
    pub fn render(&self) -> (ops: Vec<RenderOp>)
        ensures
            plan_ok(self@, ops@),
    {
        let label: String = match self.kind {
            ErrKind::Note => style_cyan_bold("Note"),
            ErrKind::Error => style_red_bold("Error"),
            ErrKind::Warning => style_yellow_bold("Warning"),
        };
        proof {
            reveal_strlit("Note");
            reveal_strlit("Error");
            reveal_strlit("Warning");
            assert(esc_free(kind_label(self.kind)));
            assert(wraps(label@, kind_label(self.kind)));
        }
        let mut h = String::from_str("[");
        h.append(label.as_str());
        h.append("] ");
        h.append(self.message.as_str());
        proof {
            assert(h@ == "["@ + label@ + "] "@ + self@.message);
            assert(is_headline(h@, self@));
        }
        let mut ops: Vec<RenderOp> = Vec::new();
        ops.push(RenderOp::Line(h));
        let mut t: usize = 0;
        while t < self.locations.len()
            invariant
                t <= self.locations@.len(),
                self@.locations.len() == self.locations@.len(),
                ops@.len() == 1 + 2 * t,
                (ops@[0] matches RenderOp::Line(h) && is_headline(h@, self@)),
                forall|k: int| 0 <= k < t ==> #[trigger] loc_ops_ok(ops@, self@, k),
            decreases self.locations@.len() - t,
        {
            let line = self.locations[t].caret.line;
            let column = self.locations[t].caret.column;
            let line_s = i32_to_string(line);
            let col_s = i32_to_string(column);
            let fs = style_green(self.locations[t].caret.file.as_str());
            let ls = style_cyan(line_s.as_str());
            let cs = style_cyan(col_s.as_str());
            proof {
                lemma_int_str_esc_free(line as int);
                lemma_int_str_esc_free(column as int);
            }
            let mut lh = String::from_str(" File `");
            lh.append(fs.as_str());
            lh.append("` line ");
            lh.append(ls.as_str());
            lh.append(" col ");
            lh.append(cs.as_str());
            lh.append(":");
            proof {
                assert(lh@ == " File `"@ + fs@ + "` line "@ + ls@ + " col "@ + cs@ + ":"@);
                assert(is_loc_line(lh@, self@.locations[t as int]));
            }
            let ghost ops_before = ops@;
            ops.push(RenderOp::Line(lh));
            let w = excerpt_window(line);
            ops.push(
                RenderOp::Excerpt {
                    file: self.locations[t].caret.file.clone(),
                    from: w.0,
                    to: w.1,
                    highlight: line,
                },
            );
            proof {
                assert(loc_ops_ok(ops@, self@, t as int));
                assert forall|k: int| 0 <= k < t + 1 implies #[trigger] loc_ops_ok(
                    ops@,
                    self@,
                    k,
                ) by {
                    if k < t {
                        assert(loc_ops_ok(ops_before, self@, k));
                        assert(ops@[1 + 2 * k] == ops_before[1 + 2 * k]);
                        assert(ops@[2 + 2 * k] == ops_before[2 + 2 * k]);
                    }
                }
            }
            t = t + 1;
        }
        let ghost ops_before = ops@;
        let blank = String::new();
        ops.push(RenderOp::Line(blank));
        proof {
            assert forall|k: int| 0 <= k < self@.locations.len() implies #[trigger] loc_ops_ok(
                ops@,
                self@,
                k,
            ) by {
                assert(loc_ops_ok(ops_before, self@, k));
                assert(ops@[1 + 2 * k] == ops_before[1 + 2 * k]);
                assert(ops@[2 + 2 * k] == ops_before[2 + 2 * k]);
            }
        }
        ops
    }
}

/// The outcome decided once per invocation: render every parsed record in
/// order, or pass the captured streams through unchanged.
pub enum Plan {
    Structured(Vec<Vec<RenderOp>>),
    Passthrough,
}

/// Decides between the structured path and the fallback path for the
/// captured error-stream text: a well-formed stream yields one rendering
/// plan per record, in order, and anything else yields passthrough.
pub fn plan_output(err_text: &str) -> (p: Plan)
    ensures
        match spec_parse_diags(err_text@) {
            Some(ds) => (p matches Plan::Structured(plans) && plans@.len() == ds.len()
                && forall|k: int| 0 <= k < ds.len() ==> #[trigger] plan_ok(ds[k], plans@[k]@)),
            None => p is Passthrough,
        },
{
    match GccErr::from(err_text) {
        None => Plan::Passthrough,
        Some(records) => {
            let ghost ds = diags_seq_view(records@);
            let mut plans: Vec<Vec<RenderOp>> = Vec::new();
            let mut t: usize = 0;
            while t < records.len()
                invariant
                    t <= records@.len(),
                    ds == diags_seq_view(records@),
                    ds.len() == records@.len(),
                    plans@.len() == t,
                    forall|k: int| 0 <= k < t ==> #[trigger] plan_ok(ds[k], plans@[k]@),
                decreases records@.len() - t,
            {
                let ops = records[t].render();
                plans.push(ops);
                t = t + 1;
            }
            Plan::Structured(plans)
        },
    }
}

/// Appends the flag that asks the compiler for structured diagnostics to
/// the forwarded argument list, which stays verbatim and in order.
pub fn build_args(args: Vec<String>) -> (r: Vec<String>)
    ensures
        r@.len() == args@.len() + 1,
        forall|k: int| 0 <= k < args@.len() ==> r@[k] == args@[k],
        r@[args@.len() as int]@ == "-fdiagnostics-format=json"@,
{
    let mut r = args;
    r.push(String::from_str("-fdiagnostics-format=json"));
    r
}

} // verus!
