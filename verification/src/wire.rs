//! The diagnostics wire format and its parser.
//!
//! The wire format is a JSON-shaped text: an array of diagnostic objects,
//! each holding the members `kind` (one of the strings `"note"`, `"error"`,
//! `"warning"`), `message` (a string), and `locations` (an array of objects
//! each holding a `caret` object with `file`, `line` and `column`). Members
//! of an object may come in any order; a duplicate or missing named member
//! makes the whole text malformed, while an unrecognized member is skipped
//! together with its value, whatever value of the format it holds. The
//! grammar is defined here by spec functions over the character sequence,
//! and the executable parser is proved to accept exactly the texts of the
//! grammar, returning the records the grammar assigns to them. Parsing is
//! all-or-nothing: any deviation yields no records at all.

use vstd::prelude::*;
use vstd::std_specs::iter::IteratorSpec;

use crate::diag::DiagV;
use crate::diag::ErrKind;
use crate::diag::GccErr;
use crate::diag::PosV;
use crate::diag::SrcLocation;
use crate::diag::SrcPos;

verus! {

/// The wire format's whitespace characters.
pub open spec fn is_ws(c: char) -> bool {
    c == ' ' || c == '\n' || c == '\r' || c == '\t'
}

/// Index of the first non-whitespace character at or after `i`.
pub open spec fn spec_skip_ws(s: Seq<char>, i: int) -> int
    decreases s.len() - i,
{
    if 0 <= i < s.len() && is_ws(s[i]) {
        spec_skip_ws(s, i + 1)
    } else {
        i
    }
}

fn is_ws_char(c: char) -> (b: bool)
    ensures
        b == is_ws(c),
{
    c == ' ' || c == '\n' || c == '\r' || c == '\t'
}

fn skip_ws(s: &Vec<char>, i: usize) -> (r: usize)
    requires
        i <= s@.len(),
    ensures
        r == spec_skip_ws(s@, i as int),
        i <= r <= s@.len(),
{
    let mut j = i;
    while j < s.len() && is_ws_char(s[j])
        invariant
            i <= j <= s@.len(),
            spec_skip_ws(s@, i as int) == spec_skip_ws(s@, j as int),
        decreases s@.len() - j,
    {
        j = j + 1;
    }
    j
}

/// Decimal digit characters.
pub open spec fn is_digit(c: char) -> bool {
    '0' <= c && c <= '9'
}

/// Value of a hexadecimal digit character, if it is one.
pub open spec fn spec_hex_val(c: char) -> Option<int> {
    if '0' <= c && c <= '9' {
        Some(c as int - '0' as int)
    } else if 'a' <= c && c <= 'f' {
        Some(c as int - 'a' as int + 10)
    } else if 'A' <= c && c <= 'F' {
        Some(c as int - 'A' as int + 10)
    } else {
        None
    }
}

/// Value of the four hexadecimal digits starting at `i`, if they are there.
pub open spec fn spec_hex4(s: Seq<char>, i: int) -> Option<int> {
    if 0 <= i && i + 4 <= s.len() {
        match (spec_hex_val(s[i]), spec_hex_val(s[i + 1]), spec_hex_val(s[i + 2]), spec_hex_val(
            s[i + 3],
        )) {
            (Some(a), Some(b), Some(c), Some(d)) => Some(a * 4096 + b * 256 + c * 16 + d),
            _ => None,
        }
    } else {
        None
    }
}

fn hex_digit(c: char) -> (r: Option<u32>)
    ensures
        match r {
            Some(v) => spec_hex_val(c) == Some(v as int) && v < 16,
            None => spec_hex_val(c) is None,
        },
{
    if '0' <= c && c <= '9' {
        Some(c as u32 - '0' as u32)
    } else if 'a' <= c && c <= 'f' {
        Some(c as u32 - 'a' as u32 + 10)
    } else if 'A' <= c && c <= 'F' {
        Some(c as u32 - 'A' as u32 + 10)
    } else {
        None
    }
}

fn hex4(s: &Vec<char>, i: usize) -> (r: Option<u32>)
    requires
        i <= s@.len(),
    ensures
        match r {
            Some(u) => spec_hex4(s@, i as int) == Some(u as int) && u < 0x10000,
            None => spec_hex4(s@, i as int) is None,
        },
{
    if s.len() - i < 4 {
        return None;
    }
    let a = hex_digit(s[i]);
    let b = hex_digit(s[i + 1]);
    let c = hex_digit(s[i + 2]);
    let d = hex_digit(s[i + 3]);
    match (a, b, c, d) {
        (Some(a), Some(b), Some(c), Some(d)) => Some(a * 4096 + b * 256 + c * 16 + d),
        _ => None,
    }
}

/// Replacement character for a single-character escape sequence, if the
/// character may follow a backslash.
pub open spec fn spec_esc_map(c: char) -> Option<char> {
    if c == '"' {
        Some('"')
    } else if c == '\\' {
        Some('\\')
    } else if c == '/' {
        Some('/')
    } else if c == 'b' {
        Some('\u{8}')
    } else if c == 'f' {
        Some('\u{c}')
    } else if c == 'n' {
        Some('\n')
    } else if c == 'r' {
        Some('\r')
    } else if c == 't' {
        Some('\t')
    } else {
        None
    }
}

fn esc_map(c: char) -> (r: Option<char>)
    ensures
        r == spec_esc_map(c),
{
    if c == '"' {
        Some('"')
    } else if c == '\\' {
        Some('\\')
    } else if c == '/' {
        Some('/')
    } else if c == 'b' {
        Some('\u{8}')
    } else if c == 'f' {
        Some('\u{c}')
    } else if c == 'n' {
        Some('\n')
    } else if c == 'r' {
        Some('\r')
    } else if c == 't' {
        Some('\t')
    } else {
        None
    }
}

/// The scalar value written by a surrogate pair: a high surrogate `u` and a
/// low surrogate `u2`.
pub open spec fn spec_surrogate_val(u: int, u2: int) -> int {
    0x10000 + (u - 0xD800) * 0x400 + (u2 - 0xDC00)
}

/// Relies on core::char::from_u32: the result is the character with the
/// given scalar value, and None exactly on surrogate values and values
/// beyond the last code point.
#[verifier::external_body]
fn char_from_u32(u: u32) -> (r: Option<char>)
    ensures
        (u < 0xD800 || (0xDFFF < u && u <= 0x10FFFF)) ==> r == Some(u as char),
        !(u < 0xD800 || (0xDFFF < u && u <= 0x10FFFF)) ==> r is None,
{
    char::from_u32(u)
}

/// Relies on String::push: appends the one character to the end of the
/// string.
#[verifier::external_body]
fn string_push(s: &mut String, c: char)
    ensures
        final(s)@ == old(s)@.push(c),
{
    s.push(c)
}

/// Builds the string that holds exactly the characters of the vector, in
/// order.
pub(crate) fn chars_to_string(v: &Vec<char>) -> (r: String)
    ensures
        r@ == v@,
{
    let mut s = String::new();
    let mut i: usize = 0;
    while i < v.len()
        invariant
            i <= v@.len(),
            s@ =~= v@.subrange(0, i as int),
        decreases v@.len() - i,
    {
        string_push(&mut s, v[i]);
        proof {
            assert(v@.subrange(0, i as int).push(v@[i as int]) =~= v@.subrange(0, i as int + 1));
        }
        i = i + 1;
    }
    proof {
        assert(v@.subrange(0, v@.len() as int) =~= v@);
    }
    s
}

/// String body starting at `i` (just after the opening quote), with the
/// characters read so far in `acc`: the decoded characters and the index
/// just after the closing quote.
pub open spec fn spec_str_body(s: Seq<char>, i: int, acc: Seq<char>) -> Option<(Seq<char>, int)>
    decreases s.len() - i,
{
    if !(0 <= i < s.len()) {
        None
    } else {
        let c = s[i];
        if c == '"' {
            Some((acc, i + 1))
        } else if c == '\\' {
            if i + 1 < s.len() {
                let e = s[i + 1];
                if e == 'u' {
                    match spec_hex4(s, i + 2) {
                        Some(u) => if u < 0xD800 || 0xDFFF < u {
                            spec_str_body(s, i + 6, acc.push((u as u32) as char))
                        } else if u <= 0xDBFF {
                            if i + 8 <= s.len() && s[i + 6] == '\\' && s[i + 7] == 'u' {
                                match spec_hex4(s, i + 8) {
                                    Some(u2) => if 0xDC00 <= u2 <= 0xDFFF {
                                        spec_str_body(
                                            s,
                                            i + 12,
                                            acc.push((spec_surrogate_val(u, u2) as u32) as char),
                                        )
                                    } else {
                                        None
                                    },
                                    None => None,
                                }
                            } else {
                                None
                            }
                        } else {
                            None
                        },
                        None => None,
                    }
                } else {
                    match spec_esc_map(e) {
                        Some(d) => spec_str_body(s, i + 2, acc.push(d)),
                        None => None,
                    }
                }
            } else {
                None
            }
        } else if (c as u32) < 0x20 {
            None
        } else {
            spec_str_body(s, i + 1, acc.push(c))
        }
    }
}

/// A quoted string starting at `i`: the decoded characters and the index
/// just after the closing quote.
pub open spec fn spec_parse_string(s: Seq<char>, i: int) -> Option<(Seq<char>, int)> {
    if 0 <= i < s.len() && s[i] == '"' {
        spec_str_body(s, i + 1, Seq::empty())
    } else {
        None
    }
}

fn parse_string(s: &Vec<char>, i: usize) -> (r: Option<(Vec<char>, usize)>)
    requires
        i <= s@.len(),
    ensures
        match r {
            Some((v, j)) => spec_parse_string(s@, i as int) == Some((v@, j as int)) && i < j
                <= s@.len(),
            None => spec_parse_string(s@, i as int) is None,
        },
{
    if !(i < s.len() && s[i] == '"') {
        return None;
    }
    let mut acc: Vec<char> = Vec::new();
    let mut j = i + 1;
    loop
        invariant
            i + 1 <= j <= s@.len(),
            spec_str_body(s@, (i + 1) as int, Seq::empty()) == spec_str_body(s@, j as int, acc@),
            spec_parse_string(s@, i as int) == spec_str_body(s@, (i + 1) as int, Seq::empty()),
        decreases s@.len() - j,
    {
        if j >= s.len() {
            return None;
        }
        let c = s[j];
        if c == '"' {
            proof {
                assert(spec_str_body(s@, j as int, acc@) == Some((acc@, j as int + 1)));
            }
            return Some((acc, j + 1));
        } else if c == '\\' {
            if j + 1 >= s.len() {
                return None;
            }
            let e = s[j + 1];
            if e == 'u' {
                match hex4(s, j + 2) {
                    None => {
                        return None;
                    },
                    Some(u) => {
                        if u < 0xD800 || 0xDFFF < u {
                            match char_from_u32(u) {
                                Some(d) => {
                                    proof {
                                        assert(spec_str_body(s@, j as int, acc@)
                                            == spec_str_body(s@, j as int + 6, acc@.push(d)));
                                    }
                                    acc.push(d);
                                    j = j + 6;
                                },
                                None => {
                                    return unreached();
                                },
                            }
                        } else if u <= 0xDBFF {
                            if s.len() - j >= 8 && s[j + 6] == '\\' && s[j + 7] == 'u' {
                                match hex4(s, j + 8) {
                                    None => {
                                        return None;
                                    },
                                    Some(u2) => {
                                        if 0xDC00 <= u2 && u2 <= 0xDFFF {
                                            let v: u32 = 0x10000 + (u - 0xD800) * 0x400 + (u2
                                                - 0xDC00);
                                            match char_from_u32(v) {
                                                Some(d) => {
                                                    proof {
                                                        assert(spec_surrogate_val(
                                                            u as int,
                                                            u2 as int,
                                                        ) == v as int);
                                                        assert(spec_str_body(s@, j as int, acc@)
                                                            == spec_str_body(
                                                            s@,
                                                            j as int + 12,
                                                            acc@.push(d),
                                                        ));
                                                    }
                                                    acc.push(d);
                                                    j = j + 12;
                                                },
                                                None => {
                                                    return unreached();
                                                },
                                            }
                                        } else {
                                            return None;
                                        }
                                    },
                                }
                            } else {
                                return None;
                            }
                        } else {
                            return None;
                        }
                    },
                }
            } else {
                match esc_map(e) {
                    Some(d) => {
                        proof {
                            assert(spec_str_body(s@, j as int, acc@) == spec_str_body(
                                s@,
                                j as int + 2,
                                acc@.push(d),
                            ));
                        }
                        acc.push(d);
                        j = j + 2;
                    },
                    None => {
                        return None;
                    },
                }
            }
        } else if (c as u32) < 0x20 {
            return None;
        } else {
            proof {
                assert(spec_str_body(s@, j as int, acc@) == spec_str_body(
                    s@,
                    j as int + 1,
                    acc@.push(c),
                ));
            }
            acc.push(c);
            j = j + 1;
        }
    }
}

/// Index of the first non-digit character at or after `i`.
pub open spec fn spec_digits_end(s: Seq<char>, i: int) -> int
    decreases s.len() - i,
{
    if 0 <= i < s.len() && is_digit(s[i]) {
        spec_digits_end(s, i + 1)
    } else {
        i
    }
}

proof fn lemma_digits_end_bounds(s: Seq<char>, i: int)
    requires
        0 <= i <= s.len(),
    ensures
        i <= spec_digits_end(s, i) <= s.len(),
        forall|k: int| i <= k < spec_digits_end(s, i) ==> is_digit(s[k]),
    decreases s.len() - i,
{
    if i < s.len() && is_digit(s[i]) {
        lemma_digits_end_bounds(s, i + 1);
    }
}

/// Value of the digit run `s[i..j]`, read in base ten.
pub open spec fn spec_digits_val(s: Seq<char>, i: int, j: int) -> int
    decreases j - i,
{
    if i < j {
        spec_digits_val(s, i, j - 1) * 10 + (s[j - 1] as int - '0' as int)
    } else {
        0
    }
}

pub open spec fn pow10(n: nat) -> int
    decreases n,
{
    if n == 0 {
        1
    } else {
        10 * pow10((n - 1) as nat)
    }
}

proof fn lemma_digits_val_bound(s: Seq<char>, i: int, j: int)
    requires
        0 <= i <= j <= s.len(),
        forall|k: int| i <= k < j ==> is_digit(s[k]),
    ensures
        0 <= spec_digits_val(s, i, j) < pow10((j - i) as nat),
    decreases j - i,
{
    if i < j {
        lemma_digits_val_bound(s, i, j - 1);
    }
}

proof fn lemma_pow10_small()
    ensures
        pow10(9) == 1000000000,
        pow10(10) == 10000000000,
        forall|n: nat| n <= 9 ==> pow10(n) <= 1000000000,
{
    assert(pow10(0) == 1);
    assert(pow10(1) == 10);
    assert(pow10(2) == 100);
    assert(pow10(3) == 1000);
    assert(pow10(4) == 10000);
    assert(pow10(5) == 100000);
    assert(pow10(6) == 1000000);
    assert(pow10(7) == 10000000);
    assert(pow10(8) == 100000000);
    assert(pow10(9) == 1000000000);
    assert(pow10(10) == 10000000000);
    assert forall|n: nat| n <= 9 implies pow10(n) <= 1000000000 by {
        if n == 0 {
            assert(pow10(n) == 1);
        } else if n == 1 {
            assert(pow10(n) == 10);
        } else if n == 2 {
            assert(pow10(n) == 100);
        } else if n == 3 {
            assert(pow10(n) == 1000);
        } else if n == 4 {
            assert(pow10(n) == 10000);
        } else if n == 5 {
            assert(pow10(n) == 100000);
        } else if n == 6 {
            assert(pow10(n) == 1000000);
        } else if n == 7 {
            assert(pow10(n) == 10000000);
        } else if n == 8 {
            assert(pow10(n) == 100000000);
        } else {
            assert(pow10(n) == 1000000000);
        }
    }
}

/// An integer literal starting at `i`: an optional minus sign and a digit
/// run without a redundant leading zero, of at most ten digits, whose value
/// fits a 32-bit signed integer; yields the value and the index just after
/// the digits.
pub open spec fn spec_parse_int(s: Seq<char>, i: int) -> Option<(int, int)> {
    if !(0 <= i <= s.len()) {
        None
    } else {
        let neg = i < s.len() && s[i] == '-';
        let d0 = if neg {
            i + 1
        } else {
            i
        };
        let end = spec_digits_end(s, d0);
        if end == d0 {
            None
        } else if s[d0] == '0' && end > d0 + 1 {
            None
        } else if end - d0 > 10 {
            None
        } else {
            let mag = spec_digits_val(s, d0, end);
            let v = if neg {
                -mag
            } else {
                mag
            };
            if -0x80000000 <= v <= 0x7FFFFFFF {
                Some((v, end))
            } else {
                None
            }
        }
    }
}

fn parse_int(s: &Vec<char>, i: usize) -> (r: Option<(i32, usize)>)
    requires
        i <= s@.len(),
    ensures
        match r {
            Some((v, j)) => spec_parse_int(s@, i as int) == Some((v as int, j as int)) && i < j
                <= s@.len(),
            None => spec_parse_int(s@, i as int) is None,
        },
{
    let neg = i < s.len() && s[i] == '-';
    let d0 = if neg {
        i + 1
    } else {
        i
    };
    proof {
        lemma_digits_end_bounds(s@, d0 as int);
    }
    let mut end = d0;
    while end < s.len() && '0' <= s[end] && s[end] <= '9'
        invariant
            d0 <= end <= s@.len(),
            spec_digits_end(s@, d0 as int) == spec_digits_end(s@, end as int),
        decreases s@.len() - end,
    {
        end = end + 1;
    }
    if end == d0 {
        return None;
    }
    if s[d0] == '0' && end > d0 + 1 {
        return None;
    }
    if end - d0 > 10 {
        return None;
    }
    proof {
        lemma_pow10_small();
    }
    let mut mag: i64 = 0;
    let mut k = d0;
    while k < end
        invariant
            d0 <= k <= end <= s@.len(),
            end - d0 <= 10,
            end == spec_digits_end(s@, d0 as int),
            forall|t: int| d0 <= t < end ==> is_digit(s@[t]),
            mag == spec_digits_val(s@, d0 as int, k as int),
            pow10(9) == 1000000000,
            pow10(10) == 10000000000,
            forall|n: nat| n <= 9 ==> pow10(n) <= 1000000000,
        decreases end - k,
    {
        proof {
            lemma_digits_val_bound(s@, d0 as int, k as int);
            assert(pow10((k - d0) as nat) <= 1000000000);
        }
        let d = s[k] as u32 - '0' as u32;
        mag = mag * 10 + (d as i64);
        k = k + 1;
    }
    proof {
        lemma_digits_val_bound(s@, d0 as int, end as int);
    }
    let v: i64 = if neg {
        -mag
    } else {
        mag
    };
    if v < -0x80000000 || v > 0x7FFFFFFF {
        return None;
    }
    Some((v as i32, end))
}

/// End of the fraction part at `i`, if the text there may stand after the
/// integer digits of a number: either no fraction, or a point with at
/// least one digit.
pub open spec fn spec_frac_end(s: Seq<char>, i: int) -> Option<int> {
    if 0 <= i < s.len() && s[i] == '.' {
        let f = spec_digits_end(s, i + 1);
        if f == i + 1 {
            None
        } else {
            Some(f)
        }
    } else {
        Some(i)
    }
}

/// End of the exponent part at `i`: either no exponent, or an `e` with an
/// optional sign and at least one digit.
pub open spec fn spec_exp_end(s: Seq<char>, i: int) -> Option<int> {
    if 0 <= i < s.len() && (s[i] == 'e' || s[i] == 'E') {
        let p = if i + 1 < s.len() && (s[i + 1] == '+' || s[i + 1] == '-') {
            i + 2
        } else {
            i + 1
        };
        let f = spec_digits_end(s, p);
        if f == p {
            None
        } else {
            Some(f)
        }
    } else {
        Some(i)
    }
}

/// A number at `i`, in full generality, read only to find its end: an
/// optional minus sign, integer digits without a redundant leading zero,
/// and optional fraction and exponent parts. Such numbers stand only in
/// skipped members, so no value is taken from them.
pub open spec fn spec_skip_number(s: Seq<char>, i: int) -> Option<int> {
    if !(0 <= i < s.len()) {
        None
    } else {
        let p = if s[i] == '-' {
            i + 1
        } else {
            i
        };
        let e1 = spec_digits_end(s, p);
        if e1 == p {
            None
        } else if s[p] == '0' && e1 > p + 1 {
            None
        } else {
            match spec_frac_end(s, e1) {
                None => None,
                Some(e2) => spec_exp_end(s, e2),
            }
        }
    }
}

fn digits_end_from(s: &Vec<char>, i: usize) -> (r: usize)
    requires
        i <= s@.len(),
    ensures
        r == spec_digits_end(s@, i as int),
        i <= r <= s@.len(),
{
    let mut j = i;
    while j < s.len() && '0' <= s[j] && s[j] <= '9'
        invariant
            i <= j <= s@.len(),
            spec_digits_end(s@, i as int) == spec_digits_end(s@, j as int),
        decreases s@.len() - j,
    {
        j = j + 1;
    }
    j
}

fn skip_number(s: &Vec<char>, i: usize) -> (r: Option<usize>)
    requires
        i <= s@.len(),
    ensures
        match r {
            Some(j) => spec_skip_number(s@, i as int) == Some(j as int) && i < j <= s@.len(),
            None => spec_skip_number(s@, i as int) is None,
        },
{
    if i >= s.len() {
        return None;
    }
    let p = if s[i] == '-' {
        i + 1
    } else {
        i
    };
    let e1 = digits_end_from(s, p);
    if e1 == p {
        return None;
    }
    if s[p] == '0' && e1 > p + 1 {
        return None;
    }
    let e2 = if e1 < s.len() && s[e1] == '.' {
        let f = digits_end_from(s, e1 + 1);
        if f == e1 + 1 {
            return None;
        }
        f
    } else {
        e1
    };
    if e2 < s.len() && (s[e2] == 'e' || s[e2] == 'E') {
        let q = if e2 + 1 < s.len() && (s[e2 + 1] == '+' || s[e2 + 1] == '-') {
            e2 + 2
        } else {
            e2 + 1
        };
        let f = digits_end_from(s, q);
        if f == q {
            return None;
        }
        Some(f)
    } else {
        Some(e2)
    }
}

/// Bound on the nesting of skipped values, in the manner of a parser's
/// recursion limit.
pub open spec fn spec_skip_depth() -> nat {
    128
}

/// Any value at `i` of the wire format's tolerant value grammar — a
/// string, number, boolean, null, array or object — read only to find the
/// index just after it, with nesting bounded by `depth`. Unrecognized
/// members of an object hold such values.
pub open spec fn spec_skip_value(s: Seq<char>, i: int, depth: nat) -> Option<int>
    decreases depth, s.len() - i, 0int,
{
    if !(0 <= i < s.len()) {
        None
    } else {
        let c = s[i];
        if c == '"' {
            match spec_parse_string(s, i) {
                Some((t, j)) => Some(j),
                None => None,
            }
        } else if c == 't' {
            if i + 4 <= s.len() && s[i + 1] == 'r' && s[i + 2] == 'u' && s[i + 3] == 'e' {
                Some(i + 4)
            } else {
                None
            }
        } else if c == 'f' {
            if i + 5 <= s.len() && s[i + 1] == 'a' && s[i + 2] == 'l' && s[i + 3] == 's' && s[i
                + 4] == 'e' {
                Some(i + 5)
            } else {
                None
            }
        } else if c == 'n' {
            if i + 4 <= s.len() && s[i + 1] == 'u' && s[i + 2] == 'l' && s[i + 3] == 'l' {
                Some(i + 4)
            } else {
                None
            }
        } else if c == '-' || is_digit(c) {
            spec_skip_number(s, i)
        } else if c == '[' {
            if depth == 0 {
                None
            } else {
                let j = spec_skip_ws(s, i + 1);
                if 0 <= j < s.len() && s[j] == ']' {
                    Some(j + 1)
                } else if i < j <= s.len() {
                    spec_skip_elems(s, j, (depth - 1) as nat)
                } else {
                    None
                }
            }
        } else if c == '{' {
            if depth == 0 {
                None
            } else {
                let j = spec_skip_ws(s, i + 1);
                if 0 <= j < s.len() && s[j] == '}' {
                    Some(j + 1)
                } else if i < j <= s.len() {
                    spec_skip_members(s, j, (depth - 1) as nat)
                } else {
                    None
                }
            }
        } else {
            None
        }
    }
}

/// Elements of a skipped array from `i` on (at an element): the index just
/// after the closing bracket.
pub open spec fn spec_skip_elems(s: Seq<char>, i: int, depth: nat) -> Option<int>
    decreases depth, s.len() - i, 1int,
{
    match spec_skip_value(s, i, depth) {
        None => None,
        Some(j) => if i < j <= s.len() {
            let k = spec_skip_ws(s, j);
            if 0 <= k < s.len() && s[k] == ',' {
                let m = spec_skip_ws(s, k + 1);
                if i < m <= s.len() {
                    spec_skip_elems(s, m, depth)
                } else {
                    None
                }
            } else if 0 <= k < s.len() && s[k] == ']' {
                Some(k + 1)
            } else {
                None
            }
        } else {
            None
        },
    }
}

/// Members of a skipped object from `i` on (at a member key): the index
/// just after the closing brace.
pub open spec fn spec_skip_members(s: Seq<char>, i: int, depth: nat) -> Option<int>
    decreases depth, s.len() - i, 1int,
{
    match spec_parse_string(s, i) {
        None => None,
        Some((key, j)) => {
            let k = spec_skip_ws(s, j);
            if !(0 <= k < s.len() && s[k] == ':') {
                None
            } else {
                let m = spec_skip_ws(s, k + 1);
                if !(i < m <= s.len()) {
                    None
                } else {
                    match spec_skip_value(s, m, depth) {
                        None => None,
                        Some(n) => if i < n <= s.len() {
                            let q = spec_skip_ws(s, n);
                            if 0 <= q < s.len() && s[q] == ',' {
                                let r = spec_skip_ws(s, q + 1);
                                if i < r <= s.len() {
                                    spec_skip_members(s, r, depth)
                                } else {
                                    None
                                }
                            } else if 0 <= q < s.len() && s[q] == '}' {
                                Some(q + 1)
                            } else {
                                None
                            }
                        } else {
                            None
                        },
                    }
                }
            }
        },
    }
}

fn skip_value(s: &Vec<char>, i: usize, depth: u32) -> (r: Option<usize>)
    requires
        i <= s@.len(),
    ensures
        match r {
            Some(j) => spec_skip_value(s@, i as int, depth as nat) == Some(j as int) && i < j
                <= s@.len(),
            None => spec_skip_value(s@, i as int, depth as nat) is None,
        },
    decreases depth, s@.len() - i, 0int,
{
    if i >= s.len() {
        return None;
    }
    let c = s[i];
    if c == '"' {
        match parse_string(s, i) {
            Some((t, j)) => Some(j),
            None => None,
        }
    } else if c == 't' {
        if s.len() - i >= 4 && s[i + 1] == 'r' && s[i + 2] == 'u' && s[i + 3] == 'e' {
            Some(i + 4)
        } else {
            None
        }
    } else if c == 'f' {
        if s.len() - i >= 5 && s[i + 1] == 'a' && s[i + 2] == 'l' && s[i + 3] == 's' && s[i + 4]
            == 'e' {
            Some(i + 5)
        } else {
            None
        }
    } else if c == 'n' {
        if s.len() - i >= 4 && s[i + 1] == 'u' && s[i + 2] == 'l' && s[i + 3] == 'l' {
            Some(i + 4)
        } else {
            None
        }
    } else if c == '-' || ('0' <= c && c <= '9') {
        skip_number(s, i)
    } else if c == '[' {
        if depth == 0 {
            return None;
        }
        let j = skip_ws(s, i + 1);
        if j < s.len() && s[j] == ']' {
            Some(j + 1)
        } else {
            skip_elems(s, j, depth - 1)
        }
    } else if c == '{' {
        if depth == 0 {
            return None;
        }
        let j = skip_ws(s, i + 1);
        if j < s.len() && s[j] == '}' {
            Some(j + 1)
        } else {
            skip_members(s, j, depth - 1)
        }
    } else {
        None
    }
}

fn skip_elems(s: &Vec<char>, i: usize, depth: u32) -> (r: Option<usize>)
    requires
        i <= s@.len(),
    ensures
        match r {
            Some(j) => spec_skip_elems(s@, i as int, depth as nat) == Some(j as int) && i < j
                <= s@.len(),
            None => spec_skip_elems(s@, i as int, depth as nat) is None,
        },
    decreases depth, s@.len() - i, 1int,
{
    let mut idx = i;
    loop
        invariant
            i <= idx <= s@.len(),
            spec_skip_elems(s@, i as int, depth as nat) == spec_skip_elems(
                s@,
                idx as int,
                depth as nat,
            ),
        decreases s@.len() - idx,
    {
        match skip_value(s, idx, depth) {
            None => {
                return None;
            },
            Some(j) => {
                let k = skip_ws(s, j);
                if k < s.len() && s[k] == ',' {
                    let m = skip_ws(s, k + 1);
                    idx = m;
                } else if k < s.len() && s[k] == ']' {
                    return Some(k + 1);
                } else {
                    return None;
                }
            },
        }
    }
}

fn skip_members(s: &Vec<char>, i: usize, depth: u32) -> (r: Option<usize>)
    requires
        i <= s@.len(),
    ensures
        match r {
            Some(j) => spec_skip_members(s@, i as int, depth as nat) == Some(j as int) && i < j
                <= s@.len(),
            None => spec_skip_members(s@, i as int, depth as nat) is None,
        },
    decreases depth, s@.len() - i, 1int,
{
    let mut idx = i;
    loop
        invariant
            i <= idx <= s@.len(),
            spec_skip_members(s@, i as int, depth as nat) == spec_skip_members(
                s@,
                idx as int,
                depth as nat,
            ),
        decreases s@.len() - idx,
    {
        match parse_string(s, idx) {
            None => {
                return None;
            },
            Some((key, j)) => {
                let k = skip_ws(s, j);
                if !(k < s.len() && s[k] == ':') {
                    return None;
                }
                let m = skip_ws(s, k + 1);
                match skip_value(s, m, depth) {
                    None => {
                        return None;
                    },
                    Some(n) => {
                        let q = skip_ws(s, n);
                        if q < s.len() && s[q] == ',' {
                            let r2 = skip_ws(s, q + 1);
                            idx = r2;
                        } else if q < s.len() && s[q] == '}' {
                            return Some(q + 1);
                        } else {
                            return None;
                        }
                    },
                }
            },
        }
    }
}

/// Severity named by a wire string, if it names one.
pub open spec fn spec_kind_of(t: Seq<char>) -> Option<ErrKind> {
    if t == "note"@ {
        Some(ErrKind::Note)
    } else if t == "error"@ {
        Some(ErrKind::Error)
    } else if t == "warning"@ {
        Some(ErrKind::Warning)
    } else {
        None
    }
}

fn chars_eq_str(v: &Vec<char>, t: &str) -> (b: bool)
    ensures
        b == (v@ == t@),
{
    let n = t.unicode_len();
    if v.len() != n {
        return false;
    }
    let mut i: usize = 0;
    while i < n
        invariant
            i <= n,
            n == t@.len(),
            v@.len() == n,
            forall|k: int| 0 <= k < i ==> v@[k] == t@[k],
        decreases n - i,
    {
        if v[i] != t.get_char(i) {
            return false;
        }
        i = i + 1;
    }
    proof {
        assert(v@ =~= t@);
    }
    true
}

fn kind_of_chars(v: &Vec<char>) -> (r: Option<ErrKind>)
    ensures
        r == spec_kind_of(v@),
{
    if chars_eq_str(v, "note") {
        Some(ErrKind::Note)
    } else if chars_eq_str(v, "error") {
        Some(ErrKind::Error)
    } else if chars_eq_str(v, "warning") {
        Some(ErrKind::Warning)
    } else {
        None
    }
}

/// The members of a caret object gathered so far.
pub struct PartialPos {
    pub file: Option<Seq<char>>,
    pub line: Option<int>,
    pub column: Option<int>,
}

/// Members of a caret object from `i` on (at a member key), given the
/// members `p` already read: the finished position and the index just after
/// the closing brace. Each named member may come once and all three are
/// required; unrecognized members are skipped.
pub open spec fn spec_pos_members(s: Seq<char>, i: int, p: PartialPos) -> Option<(PosV, int)>
    decreases s.len() - i, 1int,
{
    match spec_parse_string(s, i) {
        None => None,
        Some((key, j)) => {
            let k = spec_skip_ws(s, j);
            if !(0 <= k < s.len() && s[k] == ':') {
                None
            } else {
                let m = spec_skip_ws(s, k + 1);
                if key == "file"@ {
                    if p.file is Some {
                        None
                    } else {
                        match spec_parse_string(s, m) {
                            None => None,
                            Some((f, n)) => if i < n <= s.len() {
                                spec_pos_tail(
                                    s,
                                    n,
                                    PartialPos { file: Some(f), line: p.line, column: p.column },
                                )
                            } else {
                                None
                            },
                        }
                    }
                } else if key == "line"@ {
                    if p.line is Some {
                        None
                    } else {
                        match spec_parse_int(s, m) {
                            None => None,
                            Some((v, n)) => if i < n <= s.len() {
                                spec_pos_tail(
                                    s,
                                    n,
                                    PartialPos { file: p.file, line: Some(v), column: p.column },
                                )
                            } else {
                                None
                            },
                        }
                    }
                } else if key == "column"@ {
                    if p.column is Some {
                        None
                    } else {
                        match spec_parse_int(s, m) {
                            None => None,
                            Some((v, n)) => if i < n <= s.len() {
                                spec_pos_tail(
                                    s,
                                    n,
                                    PartialPos { file: p.file, line: p.line, column: Some(v) },
                                )
                            } else {
                                None
                            },
                        }
                    }
                } else {
                    match spec_skip_value(s, m, spec_skip_depth()) {
                        None => None,
                        Some(n) => if i < n <= s.len() {
                            spec_pos_tail(s, n, p)
                        } else {
                            None
                        },
                    }
                }
            }
        },
    }
}

/// After one member of a caret object: either a comma and further members,
/// or the closing brace, which requires every member to be present.
pub open spec fn spec_pos_tail(s: Seq<char>, n: int, p: PartialPos) -> Option<(PosV, int)>
    decreases s.len() - n, 0int,
{
    let q = spec_skip_ws(s, n);
    if 0 <= q < s.len() && s[q] == ',' {
        let r = spec_skip_ws(s, q + 1);
        if n < r <= s.len() {
            spec_pos_members(s, r, p)
        } else {
            None
        }
    } else if 0 <= q < s.len() && s[q] == '}' {
        match (p.file, p.line, p.column) {
            (Some(f), Some(l), Some(c)) => Some((PosV { file: f, line: l, column: c }, q + 1)),
            _ => None,
        }
    } else {
        None
    }
}

/// A caret object starting at `i`: `{` then its members.
pub open spec fn spec_parse_pos(s: Seq<char>, i: int) -> Option<(PosV, int)> {
    if 0 <= i < s.len() && s[i] == '{' {
        spec_pos_members(
            s,
            spec_skip_ws(s, i + 1),
            PartialPos { file: None, line: None, column: None },
        )
    } else {
        None
    }
}

struct PartialSrcPos {
    file: Option<String>,
    line: Option<i32>,
    column: Option<i32>,
}

spec fn partial_pos_view(p: &PartialSrcPos) -> PartialPos {
    PartialPos {
        file: match p.file {
            Some(f) => Some(f@),
            None => None,
        },
        line: match p.line {
            Some(l) => Some(l as int),
            None => None,
        },
        column: match p.column {
            Some(c) => Some(c as int),
            None => None,
        },
    }
}

fn pos_members(s: &Vec<char>, i: usize, p: PartialSrcPos) -> (r: Option<(SrcPos, usize)>)
    requires
        i <= s@.len(),
    ensures
        match r {
            Some((pos, j)) => spec_pos_members(s@, i as int, partial_pos_view(&p)) == Some(
                (pos@, j as int),
            ) && i < j <= s@.len(),
            None => spec_pos_members(s@, i as int, partial_pos_view(&p)) is None,
        },
    decreases s@.len() - i, 1int,
{
    match parse_string(s, i) {
        None => None,
        Some((key, j)) => {
            let k = skip_ws(s, j);
            if !(k < s.len() && s[k] == ':') {
                return None;
            }
            let m = skip_ws(s, k + 1);
            if chars_eq_str(&key, "file") {
                if p.file.is_some() {
                    return None;
                }
                match parse_string(s, m) {
                    None => None,
                    Some((f, n)) => pos_members_tail(
                        s,
                        n,
                        PartialSrcPos {
                            file: Some(chars_to_string(&f)),
                            line: p.line,
                            column: p.column,
                        },
                        Ghost(i as int),
                    ),
                }
            } else if chars_eq_str(&key, "line") {
                if p.line.is_some() {
                    return None;
                }
                match parse_int(s, m) {
                    None => None,
                    Some((v, n)) => pos_members_tail(
                        s,
                        n,
                        PartialSrcPos { file: p.file, line: Some(v), column: p.column },
                        Ghost(i as int),
                    ),
                }
            } else if chars_eq_str(&key, "column") {
                if p.column.is_some() {
                    return None;
                }
                match parse_int(s, m) {
                    None => None,
                    Some((v, n)) => pos_members_tail(
                        s,
                        n,
                        PartialSrcPos { file: p.file, line: p.line, column: Some(v) },
                        Ghost(i as int),
                    ),
                }
            } else {
                match skip_value(s, m, 128) {
                    None => None,
                    Some(n) => pos_members_tail(s, n, p, Ghost(i as int)),
                }
            }
        },
    }
}

fn pos_members_tail(s: &Vec<char>, n: usize, p: PartialSrcPos, from: Ghost<int>) -> (r: Option<
    (SrcPos, usize),
>)
    requires
        n <= s@.len(),
        0 <= from@ < n,
    ensures
        match r {
            Some((pos, j)) => spec_pos_tail(s@, n as int, partial_pos_view(&p)) == Some(
                (pos@, j as int),
            ) && from@ < j <= s@.len(),
            None => spec_pos_tail(s@, n as int, partial_pos_view(&p)) is None,
        },
    decreases s@.len() - n, 0int,
{
    let q = skip_ws(s, n);
    if q < s.len() && s[q] == ',' {
        let r2 = skip_ws(s, q + 1);
        pos_members(s, r2, p)
    } else if q < s.len() && s[q] == '}' {
        match (p.file, p.line, p.column) {
            (Some(f), Some(l), Some(c)) => Some((SrcPos { file: f, line: l, column: c }, q + 1)),
            _ => None,
        }
    } else {
        None
    }
}

fn parse_pos(s: &Vec<char>, i: usize) -> (r: Option<(SrcPos, usize)>)
    requires
        i <= s@.len(),
    ensures
        match r {
            Some((pos, j)) => spec_parse_pos(s@, i as int) == Some((pos@, j as int)) && i < j
                <= s@.len(),
            None => spec_parse_pos(s@, i as int) is None,
        },
{
    if i < s.len() && s[i] == '{' {
        let j = skip_ws(s, i + 1);
        pos_members(s, j, PartialSrcPos { file: None, line: None, column: None })
    } else {
        None
    }
}

/// Members of a location object from `i` on (at a member key), given the
/// caret already read, if one was: the caret position and the index just
/// after the closing brace. The `caret` member may come once and is
/// required; unrecognized members are skipped.
pub open spec fn spec_loc_members(s: Seq<char>, i: int, caret: Option<PosV>) -> Option<
    (PosV, int),
>
    decreases s.len() - i, 1int,
{
    match spec_parse_string(s, i) {
        None => None,
        Some((key, j)) => {
            let k = spec_skip_ws(s, j);
            if !(0 <= k < s.len() && s[k] == ':') {
                None
            } else {
                let m = spec_skip_ws(s, k + 1);
                if key == "caret"@ {
                    if caret is Some {
                        None
                    } else {
                        match spec_parse_pos(s, m) {
                            None => None,
                            Some((pos, n)) => if i < n <= s.len() {
                                spec_loc_tail(s, n, Some(pos))
                            } else {
                                None
                            },
                        }
                    }
                } else {
                    match spec_skip_value(s, m, spec_skip_depth()) {
                        None => None,
                        Some(n) => if i < n <= s.len() {
                            spec_loc_tail(s, n, caret)
                        } else {
                            None
                        },
                    }
                }
            }
        },
    }
}

/// After one member of a location object: either a comma and further
/// members, or the closing brace, which requires the caret present.
pub open spec fn spec_loc_tail(s: Seq<char>, n: int, caret: Option<PosV>) -> Option<(PosV, int)>
    decreases s.len() - n, 0int,
{
    let q = spec_skip_ws(s, n);
    if 0 <= q < s.len() && s[q] == ',' {
        let r = spec_skip_ws(s, q + 1);
        if n < r <= s.len() {
            spec_loc_members(s, r, caret)
        } else {
            None
        }
    } else if 0 <= q < s.len() && s[q] == '}' {
        match caret {
            Some(pos) => Some((pos, q + 1)),
            None => None,
        }
    } else {
        None
    }
}

/// A location object starting at `i`: `{` then its members, among which a
/// `caret` object names the position.
pub open spec fn spec_parse_loc(s: Seq<char>, i: int) -> Option<(PosV, int)> {
    if 0 <= i < s.len() && s[i] == '{' {
        spec_loc_members(s, spec_skip_ws(s, i + 1), None)
    } else {
        None
    }
}

fn loc_members(s: &Vec<char>, i: usize, caret: Option<SrcPos>) -> (r: Option<
    (SrcLocation, usize),
>)
    requires
        i <= s@.len(),
    ensures
        match r {
            Some((loc, j)) => spec_loc_members(
                s@,
                i as int,
                match caret {
                    Some(pos) => Some(pos@),
                    None => None,
                },
            ) == Some((loc@, j as int)) && i < j <= s@.len(),
            None => spec_loc_members(
                s@,
                i as int,
                match caret {
                    Some(pos) => Some(pos@),
                    None => None,
                },
            ) is None,
        },
    decreases s@.len() - i, 1int,
{
    match parse_string(s, i) {
        None => None,
        Some((key, j)) => {
            let k = skip_ws(s, j);
            if !(k < s.len() && s[k] == ':') {
                return None;
            }
            let m = skip_ws(s, k + 1);
            if chars_eq_str(&key, "caret") {
                if caret.is_some() {
                    return None;
                }
                match parse_pos(s, m) {
                    None => None,
                    Some((pos, n)) => loc_members_tail(s, n, Some(pos), Ghost(i as int)),
                }
            } else {
                match skip_value(s, m, 128) {
                    None => None,
                    Some(n) => loc_members_tail(s, n, caret, Ghost(i as int)),
                }
            }
        },
    }
}

fn loc_members_tail(s: &Vec<char>, n: usize, caret: Option<SrcPos>, from: Ghost<int>) -> (r:
    Option<(SrcLocation, usize)>)
    requires
        n <= s@.len(),
        0 <= from@ < n,
    ensures
        match r {
            Some((loc, j)) => spec_loc_tail(
                s@,
                n as int,
                match caret {
                    Some(pos) => Some(pos@),
                    None => None,
                },
            ) == Some((loc@, j as int)) && from@ < j <= s@.len(),
            None => spec_loc_tail(
                s@,
                n as int,
                match caret {
                    Some(pos) => Some(pos@),
                    None => None,
                },
            ) is None,
        },
    decreases s@.len() - n, 0int,
{
    let q = skip_ws(s, n);
    if q < s.len() && s[q] == ',' {
        let r2 = skip_ws(s, q + 1);
        loc_members(s, r2, caret)
    } else if q < s.len() && s[q] == '}' {
        match caret {
            Some(pos) => Some((SrcLocation { caret: pos }, q + 1)),
            None => None,
        }
    } else {
        None
    }
}

fn parse_loc(s: &Vec<char>, i: usize) -> (r: Option<(SrcLocation, usize)>)
    requires
        i <= s@.len(),
    ensures
        match r {
            Some((loc, j)) => spec_parse_loc(s@, i as int) == Some((loc@, j as int)) && i < j
                <= s@.len(),
            None => spec_parse_loc(s@, i as int) is None,
        },
{
    if i < s.len() && s[i] == '{' {
        let j = skip_ws(s, i + 1);
        loc_members(s, j, None)
    } else {
        None
    }
}

/// The models of a sequence of location values.
pub open spec fn locs_seq_view(q: Seq<SrcLocation>) -> Seq<PosV> {
    q.map(|i: int, l: SrcLocation| l@)
}

/// Elements of a location array from `i` on (at an element), with the
/// elements read so far in `acc`: the positions and the index just after
/// the closing bracket.
pub open spec fn spec_locs_elems(s: Seq<char>, i: int, acc: Seq<PosV>) -> Option<
    (Seq<PosV>, int),
>
    decreases s.len() - i,
{
    match spec_parse_loc(s, i) {
        None => None,
        Some((p, j)) => if i < j <= s.len() {
            let k = spec_skip_ws(s, j);
            if 0 <= k < s.len() && s[k] == ',' {
                let m = spec_skip_ws(s, k + 1);
                if i < m <= s.len() {
                    spec_locs_elems(s, m, acc.push(p))
                } else {
                    None
                }
            } else if 0 <= k < s.len() && s[k] == ']' {
                Some((acc.push(p), k + 1))
            } else {
                None
            }
        } else {
            None
        },
    }
}

/// A location array starting at `i`: brackets around zero or more location
/// objects separated by commas.
pub open spec fn spec_parse_locs(s: Seq<char>, i: int) -> Option<(Seq<PosV>, int)> {
    if 0 <= i < s.len() && s[i] == '[' {
        let j = spec_skip_ws(s, i + 1);
        if 0 <= j < s.len() && s[j] == ']' {
            Some((Seq::empty(), j + 1))
        } else {
            spec_locs_elems(s, j, Seq::empty())
        }
    } else {
        None
    }
}

fn parse_locs(s: &Vec<char>, i: usize) -> (r: Option<(Vec<SrcLocation>, usize)>)
    requires
        i <= s@.len(),
    ensures
        match r {
            Some((v, j)) => spec_parse_locs(s@, i as int) == Some((locs_seq_view(v@), j as int))
                && i < j <= s@.len(),
            None => spec_parse_locs(s@, i as int) is None,
        },
{
    if !(i < s.len() && s[i] == '[') {
        return None;
    }
    let j0 = skip_ws(s, i + 1);
    if j0 < s.len() && s[j0] == ']' {
        let v: Vec<SrcLocation> = Vec::new();
        proof {
            assert(locs_seq_view(v@) =~= Seq::<PosV>::empty());
        }
        return Some((v, j0 + 1));
    }
    let mut acc: Vec<SrcLocation> = Vec::new();
    let mut idx = j0;
    proof {
        assert(locs_seq_view(acc@) =~= Seq::<PosV>::empty());
    }
    loop
        invariant
            i < j0 <= idx <= s@.len(),
            spec_parse_locs(s@, i as int) == spec_locs_elems(s@, j0 as int, Seq::empty()),
            spec_locs_elems(s@, j0 as int, Seq::empty()) == spec_locs_elems(
                s@,
                idx as int,
                locs_seq_view(acc@),
            ),
        decreases s@.len() - idx,
    {
        match parse_loc(s, idx) {
            None => {
                return None;
            },
            Some((loc, j)) => {
                let k = skip_ws(s, j);
                if k < s.len() && s[k] == ',' {
                    let m = skip_ws(s, k + 1);
                    proof {
                        assert(locs_seq_view(acc@.push(loc)) =~= locs_seq_view(acc@).push(loc@));
                    }
                    acc.push(loc);
                    idx = m;
                } else if k < s.len() && s[k] == ']' {
                    proof {
                        assert(locs_seq_view(acc@.push(loc)) =~= locs_seq_view(acc@).push(loc@));
                    }
                    acc.push(loc);
                    return Some((acc, k + 1));
                } else {
                    return None;
                }
            },
        }
    }
}

/// The members of a diagnostic object gathered so far.
pub struct PartialDiag {
    pub kind: Option<ErrKind>,
    pub message: Option<Seq<char>>,
    pub locations: Option<Seq<PosV>>,
}

/// Members of a diagnostic object from `i` on (at a member key), given the
/// members `p` already read: the finished record and the index just after
/// the closing brace. Each named member may come once and all three are
/// required; unrecognized members are skipped.
pub open spec fn spec_diag_members(s: Seq<char>, i: int, p: PartialDiag) -> Option<(DiagV, int)>
    decreases s.len() - i, 1int,
{
    match spec_parse_string(s, i) {
        None => None,
        Some((key, j)) => {
            let k = spec_skip_ws(s, j);
            if !(0 <= k < s.len() && s[k] == ':') {
                None
            } else {
                let m = spec_skip_ws(s, k + 1);
                if key == "kind"@ {
                    if p.kind is Some {
                        None
                    } else {
                        match spec_parse_string(s, m) {
                            None => None,
                            Some((t, n)) => match spec_kind_of(t) {
                                None => None,
                                Some(kd) => if i < n <= s.len() {
                                    spec_diag_tail(
                                        s,
                                        n,
                                        PartialDiag {
                                            kind: Some(kd),
                                            message: p.message,
                                            locations: p.locations,
                                        },
                                    )
                                } else {
                                    None
                                },
                            },
                        }
                    }
                } else if key == "message"@ {
                    if p.message is Some {
                        None
                    } else {
                        match spec_parse_string(s, m) {
                            None => None,
                            Some((t, n)) => if i < n <= s.len() {
                                spec_diag_tail(
                                    s,
                                    n,
                                    PartialDiag {
                                        kind: p.kind,
                                        message: Some(t),
                                        locations: p.locations,
                                    },
                                )
                            } else {
                                None
                            },
                        }
                    }
                } else if key == "locations"@ {
                    if p.locations is Some {
                        None
                    } else {
                        match spec_parse_locs(s, m) {
                            None => None,
                            Some((ls, n)) => if i < n <= s.len() {
                                spec_diag_tail(
                                    s,
                                    n,
                                    PartialDiag {
                                        kind: p.kind,
                                        message: p.message,
                                        locations: Some(ls),
                                    },
                                )
                            } else {
                                None
                            },
                        }
                    }
                } else {
                    match spec_skip_value(s, m, spec_skip_depth()) {
                        None => None,
                        Some(n) => if i < n <= s.len() {
                            spec_diag_tail(s, n, p)
                        } else {
                            None
                        },
                    }
                }
            }
        },
    }
}

/// After one member of a diagnostic object: either a comma and further
/// members, or the closing brace, which requires every member present.
pub open spec fn spec_diag_tail(s: Seq<char>, n: int, p: PartialDiag) -> Option<(DiagV, int)>
    decreases s.len() - n, 0int,
{
    let q = spec_skip_ws(s, n);
    if 0 <= q < s.len() && s[q] == ',' {
        let r = spec_skip_ws(s, q + 1);
        if n < r <= s.len() {
            spec_diag_members(s, r, p)
        } else {
            None
        }
    } else if 0 <= q < s.len() && s[q] == '}' {
        match (p.kind, p.message, p.locations) {
            (Some(kd), Some(msg), Some(ls)) => Some(
                (DiagV { kind: kd, message: msg, locations: ls }, q + 1),
            ),
            _ => None,
        }
    } else {
        None
    }
}

/// A diagnostic object starting at `i`: `{` then its members.
pub open spec fn spec_parse_diag(s: Seq<char>, i: int) -> Option<(DiagV, int)> {
    if 0 <= i < s.len() && s[i] == '{' {
        spec_diag_members(
            s,
            spec_skip_ws(s, i + 1),
            PartialDiag { kind: None, message: None, locations: None },
        )
    } else {
        None
    }
}

struct PartialGccErr {
    kind: Option<ErrKind>,
    message: Option<String>,
    locations: Option<Vec<SrcLocation>>,
}

spec fn partial_diag_view(p: &PartialGccErr) -> PartialDiag {
    PartialDiag {
        kind: p.kind,
        message: match p.message {
            Some(m) => Some(m@),
            None => None,
        },
        locations: match p.locations {
            Some(ls) => Some(locs_seq_view(ls@)),
            None => None,
        },
    }
}

fn diag_members(s: &Vec<char>, i: usize, p: PartialGccErr) -> (r: Option<(GccErr, usize)>)
    requires
        i <= s@.len(),
    ensures
        match r {
            Some((d, j)) => spec_diag_members(s@, i as int, partial_diag_view(&p)) == Some(
                (d@, j as int),
            ) && i < j <= s@.len(),
            None => spec_diag_members(s@, i as int, partial_diag_view(&p)) is None,
        },
    decreases s@.len() - i, 1int,
{
    match parse_string(s, i) {
        None => None,
        Some((key, j)) => {
            let k = skip_ws(s, j);
            if !(k < s.len() && s[k] == ':') {
                return None;
            }
            let m = skip_ws(s, k + 1);
            if chars_eq_str(&key, "kind") {
                if p.kind.is_some() {
                    return None;
                }
                match parse_string(s, m) {
                    None => None,
                    Some((t, n)) => match kind_of_chars(&t) {
                        None => None,
                        Some(kd) => diag_members_tail(
                            s,
                            n,
                            PartialGccErr {
                                kind: Some(kd),
                                message: p.message,
                                locations: p.locations,
                            },
                            Ghost(i as int),
                        ),
                    },
                }
            } else if chars_eq_str(&key, "message") {
                if p.message.is_some() {
                    return None;
                }
                match parse_string(s, m) {
                    None => None,
                    Some((t, n)) => diag_members_tail(
                        s,
                        n,
                        PartialGccErr {
                            kind: p.kind,
                            message: Some(chars_to_string(&t)),
                            locations: p.locations,
                        },
                        Ghost(i as int),
                    ),
                }
            } else if chars_eq_str(&key, "locations") {
                if p.locations.is_some() {
                    return None;
                }
                match parse_locs(s, m) {
                    None => None,
                    Some((ls, n)) => diag_members_tail(
                        s,
                        n,
                        PartialGccErr { kind: p.kind, message: p.message, locations: Some(ls) },
                        Ghost(i as int),
                    ),
                }
            } else {
                match skip_value(s, m, 128) {
                    None => None,
                    Some(n) => diag_members_tail(s, n, p, Ghost(i as int)),
                }
            }
        },
    }
}

fn diag_members_tail(s: &Vec<char>, n: usize, p: PartialGccErr, from: Ghost<int>) -> (r: Option<
    (GccErr, usize),
>)
    requires
        n <= s@.len(),
        0 <= from@ < n,
    ensures
        match r {
            Some((d, j)) => spec_diag_tail(s@, n as int, partial_diag_view(&p)) == Some(
                (d@, j as int),
            ) && from@ < j <= s@.len(),
            None => spec_diag_tail(s@, n as int, partial_diag_view(&p)) is None,
        },
    decreases s@.len() - n, 0int,
{
    let q = skip_ws(s, n);
    if q < s.len() && s[q] == ',' {
        let r2 = skip_ws(s, q + 1);
        diag_members(s, r2, p)
    } else if q < s.len() && s[q] == '}' {
        match (p.kind, p.message, p.locations) {
            (Some(kd), Some(msg), Some(ls)) => Some(
                (GccErr { kind: kd, locations: ls, message: msg }, q + 1),
            ),
            _ => None,
        }
    } else {
        None
    }
}

fn parse_diag(s: &Vec<char>, i: usize) -> (r: Option<(GccErr, usize)>)
    requires
        i <= s@.len(),
    ensures
        match r {
            Some((d, j)) => spec_parse_diag(s@, i as int) == Some((d@, j as int)) && i < j
                <= s@.len(),
            None => spec_parse_diag(s@, i as int) is None,
        },
{
    if i < s.len() && s[i] == '{' {
        let j = skip_ws(s, i + 1);
        diag_members(s, j, PartialGccErr { kind: None, message: None, locations: None })
    } else {
        None
    }
}

/// The models of a sequence of diagnostic records.
pub open spec fn diags_seq_view(q: Seq<GccErr>) -> Seq<DiagV> {
    q.map(|i: int, d: GccErr| d@)
}

/// Entries of the top-level array from `i` on (at an entry), with the
/// entries read so far in `acc`: the records and the index just after the
/// closing bracket.
pub open spec fn spec_diags_elems(s: Seq<char>, i: int, acc: Seq<DiagV>) -> Option<
    (Seq<DiagV>, int),
>
    decreases s.len() - i,
{
    match spec_parse_diag(s, i) {
        None => None,
        Some((d, j)) => if i < j <= s.len() {
            let k = spec_skip_ws(s, j);
            if 0 <= k < s.len() && s[k] == ',' {
                let m = spec_skip_ws(s, k + 1);
                if i < m <= s.len() {
                    spec_diags_elems(s, m, acc.push(d))
                } else {
                    None
                }
            } else if 0 <= k < s.len() && s[k] == ']' {
                Some((acc.push(d), k + 1))
            } else {
                None
            }
        } else {
            None
        },
    }
}

/// The whole wire text: optional surrounding whitespace around one array of
/// diagnostic objects, and nothing after it. The records of a well-formed
/// text, one per top-level entry and in their order; None on any deviation.
pub open spec fn spec_parse_diags(s: Seq<char>) -> Option<Seq<DiagV>> {
    let i = spec_skip_ws(s, 0);
    if 0 <= i < s.len() && s[i] == '[' {
        let j = spec_skip_ws(s, i + 1);
        let body = if 0 <= j < s.len() && s[j] == ']' {
            Some((Seq::<DiagV>::empty(), j + 1))
        } else {
            spec_diags_elems(s, j, Seq::empty())
        };
        match body {
            None => None,
            Some((ds, k)) => if spec_skip_ws(s, k) == s.len() {
                Some(ds)
            } else {
                None
            },
        }
    } else {
        None
    }
}

fn str_to_chars(s: &str) -> (v: Vec<char>)
    ensures
        v@ == s@,
{
    let mut it = s.chars();
    let mut v: Vec<char> = Vec::new();
    proof {
        vstd::string::axiom_spec_iter(s);
        assert(v@ + it.remaining() =~= s@);
    }
    loop
        invariant
            v@ + it.remaining() == s@,
            v@.len() <= s@.len(),
        decreases s@.len() - v@.len(),
    {
        let ghost prev = it;
        let r = it.next();
        proof {
            vstd::string::next_postcondition(&prev, &it, r);
        }
        match r {
            None => {
                proof {
                    assert(v@ + it.remaining() =~= v@);
                }
                return v;
            },
            Some(c) => {
                proof {
                    assert(v@.push(c) + it.remaining() =~= v@ + prev.remaining());
                }
                v.push(c);
            },
        }
    }
}

impl GccErr {
    /// Attempts to read the captured error-stream text as a structured
    /// sequence of diagnostic records. All or nothing: a well-formed text
    /// yields exactly its records, one per top-level entry and in order,
    /// and any deviation from the wire format yields None.
    pub fn from(s: &str) -> (r: Option<Vec<GccErr>>)
        ensures
            match r {
                Some(v) => spec_parse_diags(s@) == Some(diags_seq_view(v@)),
                None => spec_parse_diags(s@) is None,
            },
    {
        let cs = str_to_chars(s);
        let i = skip_ws(&cs, 0);
        if !(i < cs.len() && cs[i] == '[') {
            return None;
        }
        let j0 = skip_ws(&cs, i + 1);
        if j0 < cs.len() && cs[j0] == ']' {
            if skip_ws(&cs, j0 + 1) == cs.len() {
                let v: Vec<GccErr> = Vec::new();
                proof {
                    assert(diags_seq_view(v@) =~= Seq::<DiagV>::empty());
                }
                return Some(v);
            } else {
                return None;
            }
        }
        let mut acc: Vec<GccErr> = Vec::new();
        let mut idx = j0;
        proof {
            assert(diags_seq_view(acc@) =~= Seq::<DiagV>::empty());
        }
        loop
            invariant
                i < j0 <= idx <= cs@.len(),
                cs@ == s@,
                spec_parse_diags(s@) == (match spec_diags_elems(s@, j0 as int, Seq::empty()) {
                    None => None,
                    Some((ds, k)) => if spec_skip_ws(s@, k) == s@.len() {
                        Some(ds)
                    } else {
                        None::<Seq<DiagV>>
                    },
                }),
                spec_diags_elems(s@, j0 as int, Seq::empty()) == spec_diags_elems(
                    s@,
                    idx as int,
                    diags_seq_view(acc@),
                ),
            decreases cs@.len() - idx,
        {
            match parse_diag(&cs, idx) {
                None => {
                    return None;
                },
                Some((d, j)) => {
                    let k = skip_ws(&cs, j);
                    if k < cs.len() && cs[k] == ',' {
                        let m = skip_ws(&cs, k + 1);
                        proof {
                            assert(diags_seq_view(acc@.push(d)) =~= diags_seq_view(acc@).push(d@));
                        }
                        acc.push(d);
                        idx = m;
                    } else if k < cs.len() && cs[k] == ']' {
                        proof {
                            assert(diags_seq_view(acc@.push(d)) =~= diags_seq_view(acc@).push(d@));
                        }
                        acc.push(d);
                        if skip_ws(&cs, k + 1) == cs.len() {
                            return Some(acc);
                        } else {
                            return None;
                        }
                    } else {
                        return None;
                    }
                },
            }
        }
    }
}

} // verus!
