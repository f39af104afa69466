//! A reference parser for TOML documents.
//!
//! The parser works on the characters of a document. Every rejection names
//! the specification rule that was violated by a marker of the catalog in
//! [`crate::markers`]; a candidate document is judged by which marker fires.

pub mod scalar;
pub mod string;
pub mod value;
pub mod document;
pub mod calendar;
pub mod numerals;
pub mod escapes;

use vstd::prelude::*;
use crate::markers::{IMP_MARKER_COUNT, MARKER_COUNT, COMMENT_INVALID_CHAR};

verus! {

/// `m` identifies one of the TOML markers of the catalog.
pub open spec fn toml_marker(m: usize) -> bool {
    IMP_MARKER_COUNT <= m < MARKER_COUNT
}

/// The outcome of one parsing function.
#[derive(Debug)]
pub enum ParseResult<T> {
    /// The rule does not apply here; another rule may be tried.
    NoMatch,
    /// The rule matched, giving a value and the position after it.
    Value(T, usize),
    /// The input violates the rule; the marker names the violation.
    Error(usize),
}

impl<T: View> View for ParseResult<T> {
    type V = ParseResult<T::V>;

    open spec fn view(&self) -> ParseResult<T::V> {
        match self {
            ParseResult::NoMatch => ParseResult::NoMatch,
            ParseResult::Value(v, q) => ParseResult::Value(v@, *q),
            ParseResult::Error(m) => ParseResult::Error(*m),
        }
    }
}

impl<T> ParseResult<T> {
    /// A match from position `p` ends within the input, and an error names a
    /// TOML marker.
    pub open spec fn sound(&self, p: int, n: int) -> bool {
        match self {
            ParseResult::NoMatch => true,
            ParseResult::Value(_, q) => p <= *q <= n,
            ParseResult::Error(m) => toml_marker(*m),
        }
    }

    /// A match from position `p` consumes at least one character.
    pub open spec fn advances(&self, p: int) -> bool {
        self matches ParseResult::Value(_, q) ==> q > p
    }
}

/// Space or horizontal tab.
pub open spec fn is_wschar(c: char) -> bool {
    c == ' ' || c == '\t'
}

/// A line feed, or a carriage return followed by a line feed, at `p`.
pub open spec fn newline_at(s: Seq<char>, p: int) -> bool {
    (0 <= p < s.len() && s[p] == '\n') || (0 <= p && p + 1 < s.len() && s[p] == '\r' && s[p
        + 1] == '\n')
}

/// The position after the newline at `p`.
pub open spec fn newline_end(s: Seq<char>, p: int) -> int {
    if s[p] == '\n' {
        p + 1
    } else {
        p + 2
    }
}

/// The end of the run of spaces and tabs that starts at `p`.
pub open spec fn ws_end(s: Seq<char>, p: int) -> int
    decreases s.len() - p,
{
    if p < 0 || p >= s.len() || !is_wschar(s[p]) {
        p
    } else {
        ws_end(s, p + 1)
    }
}

/// A character other than ASCII: `%x80-D7FF / %xE000-10FFFF`.
pub open spec fn is_non_ascii(c: char) -> bool {
    0x80 <= (c as u32) <= 0x10FFFF
}

/// A character allowed in a comment: tab, `%x20-7E`, or non-ASCII.
pub open spec fn is_non_eol(c: char) -> bool {
    c == '\t' || (0x20 <= (c as u32) <= 0x7E) || is_non_ascii(c)
}

/// The end of the run of comment characters that starts at `p`.
pub open spec fn non_eol_end(s: Seq<char>, p: int) -> int
    decreases s.len() - p,
{
    if p < 0 || p >= s.len() || !is_non_eol(s[p]) {
        p
    } else {
        non_eol_end(s, p + 1)
    }
}

/// A comment at `p`: `#` and comment characters up to a newline or the end
/// of input; any other character ends it with `comment_invalid_char`.
pub open spec fn comment_spec(s: Seq<char>, p: int) -> ParseResult<()> {
    if 0 <= p < s.len() && s[p] == '#' {
        let q = non_eol_end(s, p + 1);
        if q >= s.len() || newline_at(s, q) {
            ParseResult::Value((), q as usize)
        } else {
            ParseResult::Error(COMMENT_INVALID_CHAR)
        }
    } else {
        ParseResult::NoMatch
    }
}

/// `lit` occurs in `s` at `p`.
pub open spec fn literal_at(s: Seq<char>, p: int, lit: Seq<char>) -> bool {
    0 <= p && p + lit.len() <= s.len() && s.subrange(p, p + lit.len()) == lit
}

pub proof fn lemma_ws_end(s: Seq<char>, p: int)
    requires
        0 <= p <= s.len(),
    ensures
        p <= ws_end(s, p) <= s.len(),
        forall|i: int| p <= i < ws_end(s, p) ==> is_wschar(#[trigger] s[i]),
        ws_end(s, p) < s.len() ==> !is_wschar(s[ws_end(s, p)]),
    decreases s.len() - p,
{
    if p < s.len() && is_wschar(s[p]) {
        lemma_ws_end(s, p + 1);
    }
}

pub proof fn lemma_non_eol_end(s: Seq<char>, p: int)
    requires
        0 <= p <= s.len(),
    ensures
        p <= non_eol_end(s, p) <= s.len(),
        non_eol_end(s, p) < s.len() ==> !is_non_eol(s[non_eol_end(s, p)]),
    decreases s.len() - p,
{
    if p < s.len() && is_non_eol(s[p]) {
        lemma_non_eol_end(s, p + 1);
    }
}

/// Executable `is_wschar`.
pub fn wschar(c: char) -> (r: bool)
    ensures
        r == is_wschar(c),
{
    c == ' ' || c == '\t'
}

/// Executable `is_non_eol`.
pub fn non_eol(c: char) -> (r: bool)
    ensures
        r == is_non_eol(c),
{
    let u = c as u32;
    c == '\t' || (0x20 <= u && u <= 0x7E) || (0x80 <= u && u <= 0x10FFFF)
}

/// Executable `is_non_ascii`.
pub fn non_ascii(c: char) -> (r: bool)
    ensures
        r == is_non_ascii(c),
{
    let u = c as u32;
    0x80 <= u && u <= 0x10FFFF
}

/// Whether a newline starts at `p`.
pub fn is_newline(s: &Vec<char>, p: usize) -> (r: bool)
    ensures
        r == newline_at(s@, p as int),
{
    if p < s.len() && s[p] == '\n' {
        true
    } else {
        p < s.len() && s.len() - p > 1 && s[p] == '\r' && s[p + 1] == '\n'
    }
}

/// The position after a newline at `p`, if one starts there.
pub fn parse_newline(s: &Vec<char>, p: usize) -> (r: Option<usize>)
    ensures
        match r {
            Some(q) => newline_at(s@, p as int) && q == newline_end(s@, p as int) && q <= s.len(),
            None => !newline_at(s@, p as int),
        },
{
    if p < s.len() && s[p] == '\n' {
        Some(p + 1)
    } else if p < s.len() && s.len() - p > 1 && s[p] == '\r' && s[p + 1] == '\n' {
        Some(p + 2)
    } else {
        None
    }
}

/// Skip spaces and tabs: `ws = *wschar`.
pub fn parse_ws(s: &Vec<char>, p: usize) -> (q: usize)
    requires
        p <= s.len(),
    ensures
        q == ws_end(s@, p as int),
        p <= q <= s.len(),
{
    let mut q = p;
    while q < s.len() && wschar(s[q])
        invariant
            p <= q <= s.len(),
            ws_end(s@, p as int) == ws_end(s@, q as int),
        decreases s.len() - q,
    {
        q = q + 1;
    }
    q
}

/// Parse a comment: `comment = "#" *non-eol`, which must end at a newline or
/// at the end of input.
pub fn parse_comment(s: &Vec<char>, p: usize) -> (r: ParseResult<()>)
    requires
        p <= s.len(),
    ensures
        r == comment_spec(s@, p as int),
        r.sound(p as int, s.len() as int),
        r.advances(p as int),
{
    if p < s.len() && s[p] == '#' {
        let mut q = p + 1;
        while q < s.len() && non_eol(s[q])
            invariant
                p < q <= s.len(),
                non_eol_end(s@, p + 1) == non_eol_end(s@, q as int),
            decreases s.len() - q,
        {
            q = q + 1;
        }
        if q >= s.len() || is_newline(s, q) {
            ParseResult::Value((), q)
        } else {
            ParseResult::Error(COMMENT_INVALID_CHAR)
        }
    } else {
        ParseResult::NoMatch
    }
}

/// Whether the characters of `lit` occur at `p`.
pub fn at_literal(s: &Vec<char>, p: usize, lit: &str) -> (r: bool)
    requires
        p <= s.len(),
    ensures
        r == literal_at(s@, p as int, lit@),
{
    let l = crate::text::chars_of(lit);
    if l.len() > s.len() - p {
        return false;
    }
    let mut i: usize = 0;
    while i < l.len()
        invariant
            i <= l.len(),
            p + l.len() <= s.len(),
            l@ == lit@,
            forall|j: int| 0 <= j < i ==> s@[p + j] == l@[j],
        decreases l.len() - i,
    {
        if s[p + i] != l[i] {
            assert(s@.subrange(p as int, p + l.len())[i as int] != l@[i as int]);
            return false;
        }
        i = i + 1;
    }
    assert(s@.subrange(p as int, p + l.len()) =~= l@);
    true
}

} // verus!
