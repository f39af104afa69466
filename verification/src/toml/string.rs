//! Strings: basic, literal, and their multi-line forms.
//!
//! `string = ml-basic-string / basic-string / ml-literal-string / literal-string`

use vstd::prelude::*;
use crate::toml::{
    ParseResult, is_newline, parse_newline, parse_ws, wschar, non_ascii, is_wschar, is_non_ascii,
    newline_at, newline_end, ws_end,
};
use crate::toml::scalar::{hex_digit, hex_value, is_hex, hex_val};
use crate::markers::{
    BASIC_STRING_INVALID_CHAR,
    BASIC_STRING_MISSING_CLOSE_EOF,
    BASIC_STRING_NEWLINE,
    LITERAL_STRING_INVALID_CHAR,
    LITERAL_STRING_MISSING_CLOSE_EOF,
    LITERAL_STRING_NEWLINE,
    ML_BASIC_ESCAPED_NEWLINE_MISSING_NEWLINE,
    ML_BASIC_MISSING_CLOSE_AFTER_NEWLINE,
    ML_BASIC_MISSING_CLOSE_NO_NEWLINE,
    ML_BASIC_OPEN_EOF,
    ML_BASIC_QUOTES_WITHOUT_CONTENT,
    ML_LITERAL_MISSING_CLOSE_AFTER_NEWLINE,
    ML_LITERAL_MISSING_CLOSE_NO_NEWLINE,
    ML_LITERAL_OPEN_EOF,
    ML_LITERAL_QUOTES_WITHOUT_CONTENT,
    STRING_INVALID_ESCAPE,
    STRING_UNICODE_ESCAPE_INVALID_HEX,
    STRING_UNICODE_ESCAPE_INVALID_SCALAR,
};

verus! {

/// `char::from_u32`: the character with the given code point, when the code
/// point is a Unicode scalar value (at most `0x10FFFF` and not a surrogate).
pub assume_specification[ core::char::from_u32 ](i: u32) -> (r: Option<char>)
    ensures
        r is Some <==> (i <= 0xD7FF || (0xE000 <= i && i <= 0x10FFFF)),
        r matches Some(c) ==> c as u32 == i,
;

/// Three copies of `q` at `p`.
fn triple_at(s: &Vec<char>, p: usize, q: char) -> (r: bool)
    requires
        p <= s.len(),
    ensures
        r == triple_at_spec(s@, p as int, q),
{
    s.len() - p >= 3 && s[p] == q && s[p + 1] == q && s[p + 2] == q
}

/// A character that a basic string holds as it is:
/// `wschar / %x21 / %x23-5B / %x5D-7E / non-ascii`.
pub open spec fn is_basic_unescaped(c: char) -> bool {
    let u = c as u32;
    is_wschar(c) || u == 0x21 || (0x23 <= u <= 0x5B) || (0x5D <= u <= 0x7E) || is_non_ascii(c)
}

/// A character that a literal string holds: `%x09 / %x20-26 / %x28-7E /
/// non-ascii`.
pub open spec fn is_literal_char(c: char) -> bool {
    let u = c as u32;
    u == 0x09 || (0x20 <= u <= 0x26) || (0x28 <= u <= 0x7E) || is_non_ascii(c)
}

/// Executable `is_basic_unescaped`.
fn basic_unescaped(c: char) -> (r: bool)
    ensures
        r == is_basic_unescaped(c),
{
    let u = c as u32;
    wschar(c) || u == 0x21 || (0x23 <= u && u <= 0x5B) || (0x5D <= u && u <= 0x7E) || non_ascii(c)
}

/// Executable `is_literal_char`.
fn literal_char(c: char) -> (r: bool)
    ensures
        r == is_literal_char(c),
{
    let u = c as u32;
    u == 0x09 || (0x20 <= u && u <= 0x26) || (0x28 <= u && u <= 0x7E) || non_ascii(c)
}

/// The number whose hexadecimal digits are `s[a..a + n]`.
pub open spec fn hex_number(s: Seq<char>, a: int, n: int) -> int
    decreases n,
{
    if n <= 0 {
        0
    } else {
        hex_number(s, a, n - 1) * 16 + hex_val(s[a + n - 1])
    }
}

/// A Unicode scalar value: at most `0x10FFFF` and not a surrogate.
pub open spec fn is_scalar_value(i: int) -> bool {
    (0 <= i <= 0xD7FF) || (0xE000 <= i <= 0x10FFFF)
}

/// The escape sequence whose backslash stands at `p - 1`: the character it
/// denotes. An unknown escape does not match in a multi-line string
/// (`strict == false`) and is an error in a basic string.
pub open spec fn escape_seq_spec(s: Seq<char>, p: int, strict: bool) -> ParseResult<char> {
    if p < 0 || p >= s.len() {
        ParseResult::NoMatch
    } else {
        let c = s[p];
        if c == '"' {
            ParseResult::Value('"', (p + 1) as usize)
        } else if c == '\\' {
            ParseResult::Value('\\', (p + 1) as usize)
        } else if c == 'b' {
            ParseResult::Value('\u{8}', (p + 1) as usize)
        } else if c == 'f' {
            ParseResult::Value('\u{c}', (p + 1) as usize)
        } else if c == 'n' {
            ParseResult::Value('\n', (p + 1) as usize)
        } else if c == 'r' {
            ParseResult::Value('\r', (p + 1) as usize)
        } else if c == 't' {
            ParseResult::Value('\t', (p + 1) as usize)
        } else if c == 'u' || c == 'U' {
            let needed: int = if c == 'u' {
                4
            } else {
                8
            };
            if s.len() - (p + 1) < needed {
                ParseResult::Error(STRING_UNICODE_ESCAPE_INVALID_HEX)
            } else if exists|i: int| 0 <= i < needed && !is_hex(#[trigger] s[p + 1 + i]) {
                ParseResult::Error(STRING_UNICODE_ESCAPE_INVALID_HEX)
            } else if is_scalar_value(hex_number(s, p + 1, needed)) {
                ParseResult::Value((hex_number(s, p + 1, needed) as u32) as char, (p + 1 + needed) as usize)
            } else {
                ParseResult::Error(STRING_UNICODE_ESCAPE_INVALID_SCALAR)
            }
        } else if strict {
            ParseResult::Error(STRING_INVALID_ESCAPE)
        } else {
            ParseResult::NoMatch
        }
    }
}

/// Parse the escape sequence after a backslash.
fn parse_escape_seq(s: &Vec<char>, p: usize, strict: bool) -> (r: ParseResult<char>)
    requires
        p <= s.len(),
    ensures
        r == escape_seq_spec(s@, p as int, strict),
        r.sound(p as int, s.len() as int),
        r.advances(p as int),
{
    if p >= s.len() {
        return ParseResult::NoMatch;
    }
    let c = s[p];
    if c == '"' {
        ParseResult::Value('"', p + 1)
    } else if c == '\\' {
        ParseResult::Value('\\', p + 1)
    } else if c == 'b' {
        ParseResult::Value('\u{8}', p + 1)
    } else if c == 'f' {
        ParseResult::Value('\u{c}', p + 1)
    } else if c == 'n' {
        ParseResult::Value('\n', p + 1)
    } else if c == 'r' {
        ParseResult::Value('\r', p + 1)
    } else if c == 't' {
        ParseResult::Value('\t', p + 1)
    } else if c == 'u' || c == 'U' {
        let needed: usize = if c == 'u' {
            4
        } else {
            8
        };
        if s.len() - (p + 1) < needed {
            return ParseResult::Error(STRING_UNICODE_ESCAPE_INVALID_HEX);
        }
        let mut code: u32 = 0;
        let mut i: usize = 0;
        while i < needed
            invariant
                i <= needed <= 8,
                needed == 4 || needed == 8,
                p + 1 + needed <= s.len(),
                code == hex_number(s@, p + 1, i as int),
                i < 8 ==> code < (if i == 0 { 1u64 } else if i == 1 { 16u64 } else if i == 2 { 256u64 } else if i == 3 { 4096u64 } else if i == 4 { 65536u64 } else if i == 5 { 1048576u64 } else if i == 6 { 16777216u64 } else { 268435456u64 }),
                forall|m: int| 0 <= m < i ==> is_hex(#[trigger] s@[p + 1 + m]),
                s@[p as int] == c,
                c == 'u' || c == 'U',
                needed == (if c == 'u' { 4usize } else { 8usize }),
            decreases needed - i,
        {
            let d = s[p + 1 + i];
            if !hex_digit(d) {
                proof {
                    assert(!is_hex(s@[p + 1 + i as int]));
                }
                return ParseResult::Error(STRING_UNICODE_ESCAPE_INVALID_HEX);
            }
            code = code * 16 + hex_value(d);
            i = i + 1;
        }
        proof {
            assert(!(exists|m: int| 0 <= m < needed && !is_hex(#[trigger] s@[p + 1 + m])));
        }
        match core::char::from_u32(code) {
            Some(ch) => {
                proof {
                    vstd::utf8::char_u32_cast(ch, code);
                }
                ParseResult::Value(ch, p + 1 + needed)
            },
            None => ParseResult::Error(STRING_UNICODE_ESCAPE_INVALID_SCALAR),
        }
    } else if strict {
        ParseResult::Error(STRING_INVALID_ESCAPE)
    } else {
        ParseResult::NoMatch
    }
}

/// `escaped = escape escape-seq-char` at `p`.
pub open spec fn escaped_spec(s: Seq<char>, p: int, strict: bool) -> ParseResult<char> {
    if 0 <= p < s.len() && s[p] == '\\' {
        escape_seq_spec(s, p + 1, strict)
    } else {
        ParseResult::NoMatch
    }
}

/// Parse an escape.
fn parse_escaped(s: &Vec<char>, p: usize, strict: bool) -> (r: ParseResult<char>)
    requires
        p <= s.len(),
    ensures
        r == escaped_spec(s@, p as int, strict),
        r.sound(p as int, s.len() as int),
        r.advances(p as int),
{
    if p < s.len() && s[p] == '\\' {
        parse_escape_seq(s, p + 1, strict)
    } else {
        ParseResult::NoMatch
    }
}

// ---------------------------------------------------------------------------
// Basic and literal strings
// ---------------------------------------------------------------------------

/// `o` followed by what `r` matched.
pub open spec fn prefixed(o: Seq<char>, r: ParseResult<Seq<char>>) -> ParseResult<Seq<char>> {
    match r {
        ParseResult::Value(t, e) => ParseResult::Value(o + t, e),
        ParseResult::Error(m) => ParseResult::Error(m),
        ParseResult::NoMatch => ParseResult::NoMatch,
    }
}

proof fn lemma_prefixed(o: Seq<char>, c: char, r: ParseResult<Seq<char>>)
    ensures
        prefixed(o, prefixed(seq![c], r)) == prefixed(o.push(c), r),
        prefixed(o, ParseResult::Value(Seq::empty(), 0)) == ParseResult::Value(o, 0),
{
    match r {
        ParseResult::Value(t, e) => {
            assert(o + (seq![c] + t) =~= o.push(c) + t);
        },
        _ => {},
    }
    assert(o + Seq::<char>::empty() =~= o);
}

/// The characters of a basic string from `q` on, up to and with its closing
/// quotation mark.
pub open spec fn basic_chars_spec(s: Seq<char>, q: int) -> ParseResult<Seq<char>>
    decreases s.len() - q,
{
    if q < 0 || q >= s.len() {
        ParseResult::Error(BASIC_STRING_MISSING_CLOSE_EOF)
    } else if newline_at(s, q) {
        ParseResult::Error(BASIC_STRING_NEWLINE)
    } else if s[q] == '"' {
        ParseResult::Value(Seq::empty(), (q + 1) as usize)
    } else if is_basic_unescaped(s[q]) {
        prefixed(seq![s[q]], basic_chars_spec(s, q + 1))
    } else {
        match escaped_spec(s, q, true) {
            ParseResult::Value(c, q2) => if q < q2 <= s.len() {
                prefixed(seq![c], basic_chars_spec(s, q2 as int))
            } else {
                ParseResult::NoMatch
            },
            ParseResult::Error(m) => ParseResult::Error(m),
            ParseResult::NoMatch => ParseResult::Error(BASIC_STRING_INVALID_CHAR),
        }
    }
}

/// `basic-string = quotation-mark *basic-char quotation-mark`.
pub open spec fn basic_string_spec(s: Seq<char>, p: int) -> ParseResult<Seq<char>> {
    if p < 0 || p >= s.len() || s[p] != '"' {
        ParseResult::NoMatch
    } else {
        basic_chars_spec(s, p + 1)
    }
}

/// Parse a basic string: the characters it denotes.
pub fn parse_basic_string(s: &Vec<char>, p: usize) -> (r: ParseResult<Vec<char>>)
    requires
        p <= s.len(),
    ensures
        r@ == basic_string_spec(s@, p as int),
        r.sound(p as int, s.len() as int),
        r.advances(p as int),
{
    if p >= s.len() || s[p] != '"' {
        return ParseResult::NoMatch;
    }
    let mut out: Vec<char> = Vec::new();
    let mut q = p + 1;
    proof {
        assert(out@ + Seq::<char>::empty() =~= out@);
        assert(prefixed(out@, basic_chars_spec(s@, q as int)) == basic_chars_spec(s@, q as int)) by {
            match basic_chars_spec(s@, q as int) {
                ParseResult::Value(t, e) => {
                    assert(Seq::<char>::empty() + t =~= t);
                },
                _ => {},
            }
        }
    }
    while q < s.len()
        invariant
            p < q <= s.len(),
            basic_string_spec(s@, p as int) == prefixed(out@, basic_chars_spec(s@, q as int)),
        decreases s.len() - q,
    {
        if is_newline(s, q) {
            return ParseResult::Error(BASIC_STRING_NEWLINE);
        }
        let c = s[q];
        if c == '"' {
            proof {
                assert(out@ + Seq::<char>::empty() =~= out@);
            }
            return ParseResult::Value(out, q + 1);
        }
        if basic_unescaped(c) {
            proof {
                lemma_prefixed(out@, c, basic_chars_spec(s@, q + 1));
            }
            out.push(c);
            q = q + 1;
        } else {
            match parse_escaped(s, q, true) {
                ParseResult::Value(e, q2) => {
                    proof {
                        lemma_prefixed(out@, e, basic_chars_spec(s@, q2 as int));
                    }
                    out.push(e);
                    q = q2;
                },
                ParseResult::Error(m) => return ParseResult::Error(m),
                ParseResult::NoMatch => return ParseResult::Error(BASIC_STRING_INVALID_CHAR),
            }
        }
    }
    ParseResult::Error(BASIC_STRING_MISSING_CLOSE_EOF)
}

/// The characters of a literal string from `q` on, up to and with its
/// closing apostrophe.
pub open spec fn literal_chars_spec(s: Seq<char>, q: int) -> ParseResult<Seq<char>>
    decreases s.len() - q,
{
    if q < 0 || q >= s.len() {
        ParseResult::Error(LITERAL_STRING_MISSING_CLOSE_EOF)
    } else if newline_at(s, q) {
        ParseResult::Error(LITERAL_STRING_NEWLINE)
    } else if s[q] == '\'' {
        ParseResult::Value(Seq::empty(), (q + 1) as usize)
    } else if is_literal_char(s[q]) {
        prefixed(seq![s[q]], literal_chars_spec(s, q + 1))
    } else {
        ParseResult::Error(LITERAL_STRING_INVALID_CHAR)
    }
}

/// `literal-string = apostrophe *literal-char apostrophe`.
pub open spec fn literal_string_spec(s: Seq<char>, p: int) -> ParseResult<Seq<char>> {
    if p < 0 || p >= s.len() || s[p] != '\'' {
        ParseResult::NoMatch
    } else {
        literal_chars_spec(s, p + 1)
    }
}

/// Parse a literal string: its characters.
pub fn parse_literal_string(s: &Vec<char>, p: usize) -> (r: ParseResult<Vec<char>>)
    requires
        p <= s.len(),
    ensures
        r@ == literal_string_spec(s@, p as int),
        r.sound(p as int, s.len() as int),
        r.advances(p as int),
{
    if p >= s.len() || s[p] != '\'' {
        return ParseResult::NoMatch;
    }
    let mut out: Vec<char> = Vec::new();
    let mut q = p + 1;
    proof {
        assert(prefixed(out@, literal_chars_spec(s@, q as int)) == literal_chars_spec(s@, q as int)) by {
            match literal_chars_spec(s@, q as int) {
                ParseResult::Value(t, e) => {
                    assert(Seq::<char>::empty() + t =~= t);
                },
                _ => {},
            }
        }
    }
    while q < s.len()
        invariant
            p < q <= s.len(),
            literal_string_spec(s@, p as int) == prefixed(out@, literal_chars_spec(s@, q as int)),
        decreases s.len() - q,
    {
        if is_newline(s, q) {
            return ParseResult::Error(LITERAL_STRING_NEWLINE);
        }
        let c = s[q];
        if c == '\'' {
            proof {
                assert(out@ + Seq::<char>::empty() =~= out@);
            }
            return ParseResult::Value(out, q + 1);
        }
        if literal_char(c) {
            proof {
                lemma_prefixed(out@, c, literal_chars_spec(s@, q + 1));
            }
            out.push(c);
            q = q + 1;
        } else {
            return ParseResult::Error(LITERAL_STRING_INVALID_CHAR);
        }
    }
    ParseResult::Error(LITERAL_STRING_MISSING_CLOSE_EOF)
}

// ---------------------------------------------------------------------------
// Multi-line strings
// ---------------------------------------------------------------------------

/// Append the characters `s[a..b]` to `out`.
fn push_chars(out: &mut Vec<char>, s: &Vec<char>, a: usize, b: usize)
    requires
        a <= b <= s.len(),
    ensures
        final(out)@ == old(out)@ + s@.subrange(a as int, b as int),
{
    let mut i = a;
    while i < b
        invariant
            a <= i <= b <= s.len(),
            out@ == old(out)@ + s@.subrange(a as int, i as int),
        decreases b - i,
    {
        out.push(s[i]);
        assert(s@.subrange(a as int, i + 1) == s@.subrange(a as int, i as int).push(s@[i as int]));
        i = i + 1;
    }
}

proof fn lemma_prefixed_concat(o: Seq<char>, t: Seq<char>, r: ParseResult<Seq<char>>)
    ensures
        prefixed(o, prefixed(t, r)) == prefixed(o + t, r),
{
    match r {
        ParseResult::Value(u, e) => {
            assert(o + (t + u) =~= (o + t) + u);
        },
        _ => {},
    }
}

/// The end of the run of spaces, tabs and newlines from `q`.
pub open spec fn ws_newlines_end(s: Seq<char>, q: int) -> int
    decreases s.len() - q,
{
    if q < 0 || q >= s.len() {
        q
    } else if is_wschar(s[q]) {
        ws_newlines_end(s, q + 1)
    } else if newline_at(s, q) {
        ws_newlines_end(s, newline_end(s, q))
    } else {
        q
    }
}

/// A content character of a multi-line string at `p`, or an escape in a
/// basic one; `NoMatch` when neither is there.
pub open spec fn ml_char_spec(s: Seq<char>, p: int, basic: bool) -> ParseResult<Seq<char>> {
    let c = s[p];
    if basic {
        if is_basic_unescaped(c) {
            ParseResult::Value(seq![c], (p + 1) as usize)
        } else {
            match escaped_spec(s, p, false) {
                ParseResult::Value(e, q) => ParseResult::Value(seq![e], q),
                ParseResult::Error(m) => ParseResult::Error(m),
                ParseResult::NoMatch => ParseResult::NoMatch,
            }
        }
    } else if is_literal_char(c) {
        ParseResult::Value(seq![c], (p + 1) as usize)
    } else {
        ParseResult::NoMatch
    }
}

/// One piece of multi-line content at `p`: a content character, a newline,
/// or (for basic strings) an escaped line ending, with what it denotes.
pub open spec fn ml_item_spec(s: Seq<char>, p: int, basic: bool) -> ParseResult<Seq<char>> {
    if p < 0 || p >= s.len() {
        ParseResult::NoMatch
    } else {
        match ml_char_spec(s, p, basic) {
            ParseResult::NoMatch => if newline_at(s, p) {
                ParseResult::Value(s.subrange(p, newline_end(s, p)), newline_end(s, p) as usize)
            } else if basic && s[p] == '\\' {
                let a = ws_end(s, p + 1);
                if !newline_at(s, a) {
                    ParseResult::Error(ML_BASIC_ESCAPED_NEWLINE_MISSING_NEWLINE)
                } else {
                    ParseResult::Value(
                        Seq::empty(),
                        ws_newlines_end(s, newline_end(s, a)) as usize,
                    )
                }
            } else {
                ParseResult::NoMatch
            },
            other => other,
        }
    }
}

proof fn lemma_ws_newlines_end(s: Seq<char>, q: int)
    requires
        0 <= q <= s.len(),
    ensures
        q <= ws_newlines_end(s, q) <= s.len(),
    decreases s.len() - q,
{
    if q < s.len() {
        if is_wschar(s[q]) {
            lemma_ws_newlines_end(s, q + 1);
        } else if newline_at(s, q) {
            lemma_ws_newlines_end(s, newline_end(s, q));
        }
    }
}

/// The end of the run of spaces, tabs and newlines from `q`.
fn skip_ws_newlines(s: &Vec<char>, q: usize) -> (r: usize)
    requires
        q <= s.len(),
    ensures
        r == ws_newlines_end(s@, q as int),
        q <= r <= s.len(),
{
    let mut i = q;
    while i < s.len() && (wschar(s[i]) || is_newline(s, i))
        invariant
            q <= i <= s.len(),
            ws_newlines_end(s@, q as int) == ws_newlines_end(s@, i as int),
        decreases s.len() - i,
    {
        if wschar(s[i]) {
            i = i + 1;
        } else {
            match parse_newline(s, i) {
                Some(n) => {
                    i = n;
                },
                None => {
                    i = i + 1;
                },
            }
        }
    }
    i
}

/// Parse one piece of multi-line content, appending what it denotes to
/// `out`.
fn ml_content_item(s: &Vec<char>, p: usize, basic: bool, out: &mut Vec<char>) -> (r:
    ParseResult<()>)
    requires
        p <= s.len(),
    ensures
        r.sound(p as int, s.len() as int),
        r.advances(p as int),
        match ml_item_spec(s@, p as int, basic) {
            ParseResult::Value(t, q) => r == ParseResult::Value((), q) && final(out)@ == old(out)@
                + t,
            ParseResult::Error(m) => r == ParseResult::<()>::Error(m),
            ParseResult::NoMatch => r is NoMatch && final(out)@ == old(out)@,
        },
{
    if p >= s.len() {
        return ParseResult::NoMatch;
    }
    let c = s[p];
    if basic {
        if basic_unescaped(c) {
            out.push(c);
            return ParseResult::Value((), p + 1);
        }
        match parse_escaped(s, p, false) {
            ParseResult::Value(e, q) => {
                out.push(e);
                return ParseResult::Value((), q);
            },
            ParseResult::Error(m) => return ParseResult::Error(m),
            ParseResult::NoMatch => {},
        }
    } else if literal_char(c) {
        out.push(c);
        return ParseResult::Value((), p + 1);
    }
    match parse_newline(s, p) {
        Some(q) => {
            push_chars(out, s, p, q);
            return ParseResult::Value((), q);
        },
        None => {},
    }
    if basic && c == '\\' {
        // mlb-escaped-nl = escape ws newline *( wschar / newline )
        let a = parse_ws(s, p + 1);
        match parse_newline(s, a) {
            None => ParseResult::Error(ML_BASIC_ESCAPED_NEWLINE_MISSING_NEWLINE),
            Some(b) => {
                let q = skip_ws_newlines(s, b);
                proof {
                    assert(out@ =~= old(out)@ + Seq::<char>::empty());
                }
                ParseResult::Value((), q)
            },
        }
    } else {
        ParseResult::NoMatch
    }
}

/// Pieces of multi-line content from `q` on, as many as there are, with
/// what they denote.
pub open spec fn ml_items_spec(s: Seq<char>, q: int, basic: bool) -> ParseResult<Seq<char>>
    decreases s.len() - q,
{
    if q < 0 || q >= s.len() {
        ParseResult::Value(Seq::empty(), q as usize)
    } else {
        match ml_item_spec(s, q, basic) {
            ParseResult::Value(t, q2) => if q < q2 <= s.len() {
                prefixed(t, ml_items_spec(s, q2 as int, basic))
            } else {
                ParseResult::NoMatch
            },
            ParseResult::Error(m) => ParseResult::Error(m),
            ParseResult::NoMatch => ParseResult::Value(Seq::empty(), q as usize),
        }
    }
}

/// `1*( content-char / newline / escaped-nl )`: no match when none is at
/// `p`.
pub open spec fn ml_content_spec(s: Seq<char>, p: int, basic: bool) -> ParseResult<Seq<char>> {
    match ml_items_spec(s, p, basic) {
        ParseResult::Value(t, q) => if q == p {
            ParseResult::NoMatch
        } else {
            ParseResult::Value(t, q)
        },
        other => other,
    }
}

proof fn lemma_ml_items_bounds(s: Seq<char>, q: int, basic: bool)
    requires
        0 <= q <= s.len() <= usize::MAX,
    ensures
        ml_items_spec(s, q, basic) matches ParseResult::Value(_, e) ==> q <= e <= s.len(),
    decreases s.len() - q,
{
    if q < s.len() {
        match ml_item_spec(s, q, basic) {
            ParseResult::Value(t, q2) => if q < q2 <= s.len() {
                lemma_ml_items_bounds(s, q2 as int, basic);
            },
            _ => {},
        }
    }
}

/// Parse multi-line content, appending what it denotes to `out`.
fn ml_content(s: &Vec<char>, p: usize, basic: bool, out: &mut Vec<char>) -> (r: ParseResult<()>)
    requires
        p <= s.len(),
    ensures
        r.sound(p as int, s.len() as int),
        r.advances(p as int),
        match ml_content_spec(s@, p as int, basic) {
            ParseResult::Value(t, q) => r == ParseResult::Value((), q) && final(out)@ == old(out)@
                + t,
            ParseResult::Error(m) => r == ParseResult::<()>::Error(m),
            ParseResult::NoMatch => r is NoMatch && final(out)@ == old(out)@,
        },
{
    let ghost o0 = out@;
    let mut q = p;
    let mut more = true;
    proof {
        match ml_items_spec(s@, p as int, basic) {
            ParseResult::Value(t, e) => {
                assert(Seq::<char>::empty() + t =~= t);
            },
            _ => {},
        }
        assert(out@.subrange(o0.len() as int, out@.len() as int) =~= Seq::<char>::empty());
        assert(out@.subrange(0, o0.len() as int) =~= o0);
    }
    while more && q < s.len()
        invariant
            p <= q <= s.len(),
            out@.len() >= o0.len(),
            q == p ==> out@.len() == o0.len(),
            out@.subrange(0, o0.len() as int) == o0,
            ml_items_spec(s@, p as int, basic) == prefixed(
                out@.subrange(o0.len() as int, out@.len() as int),
                ml_items_spec(s@, q as int, basic),
            ),
            !more ==> ml_items_spec(s@, q as int, basic) == ParseResult::Value(
                Seq::<char>::empty(),
                q,
            ),
        decreases s.len() - q, (if more { 1int } else { 0int }),
    {
        let ghost before = out@;
        match ml_content_item(s, q, basic, out) {
            ParseResult::Value(_, q2) => {
                proof {
                    assert(ml_item_spec(s@, q as int, basic) is Value);
                    let t = ml_item_spec(s@, q as int, basic)->Value_0;
                    assert(out@ == before + t);
                    assert(out@.subrange(0, o0.len() as int) =~= o0);
                    assert(out@.subrange(o0.len() as int, out@.len() as int) =~= before.subrange(
                        o0.len() as int,
                        before.len() as int,
                    ) + t);
                    lemma_prefixed_concat(
                        before.subrange(o0.len() as int, before.len() as int),
                        t,
                        ml_items_spec(s@, q2 as int, basic),
                    );
                }
                q = q2;
            },
            ParseResult::Error(m) => {
                proof {
                    assert(ml_item_spec(s@, q as int, basic) == ParseResult::<Seq<char>>::Error(m));
                    assert(ml_items_spec(s@, q as int, basic) == ParseResult::<Seq<char>>::Error(m));
                }
                return ParseResult::Error(m);
            },
            ParseResult::NoMatch => {
                proof {
                    assert(ml_item_spec(s@, q as int, basic) is NoMatch);
                }
                more = false;
            },
        }
    }
    proof {
        let t = out@.subrange(o0.len() as int, out@.len() as int);
        assert(out@ =~= o0 + t);
        assert(t + Seq::<char>::empty() =~= t);
        assert(ml_items_spec(s@, q as int, basic) == ParseResult::Value(Seq::<char>::empty(), q));
        assert(ml_items_spec(s@, p as int, basic) == ParseResult::Value(t, q));
    }
    if q == p {
        proof {
            assert(out@ =~= o0);
        }
        ParseResult::NoMatch
    } else {
        ParseResult::Value((), q)
    }
}

/// `n` copies of `d`.
pub open spec fn repeat_char(d: char, n: nat) -> Seq<char> {
    Seq::new(n, |i: int| d)
}

/// One or two delimiter characters inside the body at `p`, not the closing
/// triple: how many are taken.
pub open spec fn ml_quotes_spec(s: Seq<char>, p: int, d: char) -> ParseResult<usize> {
    if p < 0 || p >= s.len() || s[p] != d {
        ParseResult::NoMatch
    } else if p + 1 >= s.len() || s[p + 1] != d {
        ParseResult::Value(1, (p + 1) as usize)
    } else if p + 2 >= s.len() || s[p + 2] != d {
        ParseResult::Value(2, (p + 2) as usize)
    } else if p + 3 >= s.len() || s[p + 3] != d {
        ParseResult::NoMatch
    } else if p + 4 >= s.len() {
        ParseResult::Value(1, (p + 1) as usize)
    } else if s[p + 4] == d {
        ParseResult::Value(2, (p + 2) as usize)
    } else {
        ParseResult::Value(1, (p + 1) as usize)
    }
}

/// `mlb-quotes = 1*2quotation-mark` (or apostrophes).
fn ml_quotes(s: &Vec<char>, p: usize, d: char) -> (r: ParseResult<usize>)
    requires
        p <= s.len(),
    ensures
        r == ml_quotes_spec(s@, p as int, d),
        r.sound(p as int, s.len() as int),
        r matches ParseResult::Value(n, q) ==> (n == 1 || n == 2) && q == p + n,
{
    if p >= s.len() || s[p] != d {
        return ParseResult::NoMatch;
    }
    if p + 1 >= s.len() || s[p + 1] != d {
        return ParseResult::Value(1, p + 1);
    }
    if p + 2 >= s.len() || s[p + 2] != d {
        return ParseResult::Value(2, p + 2);
    }
    if p + 3 >= s.len() || s[p + 3] != d {
        return ParseResult::NoMatch;
    }
    if p + 4 >= s.len() {
        return ParseResult::Value(1, p + 1);
    }
    if s[p + 4] == d {
        ParseResult::Value(2, p + 2)
    } else {
        ParseResult::Value(1, p + 1)
    }
}

/// Three copies of `q` at `p`.
pub open spec fn triple_at_spec(s: Seq<char>, p: int, q: char) -> bool {
    0 <= p && p + 3 <= s.len() && s[p] == q && s[p + 1] == q && s[p + 2] == q
}

/// The rest of a multi-line body from `q`: runs of delimiters, each followed
/// by content.
pub open spec fn ml_body_rest_spec(s: Seq<char>, q: int, basic: bool) -> ParseResult<Seq<char>>
    decreases s.len() - q,
{
    let d = if basic {
        '"'
    } else {
        '\''
    };
    let without_content = if basic {
        ML_BASIC_QUOTES_WITHOUT_CONTENT
    } else {
        ML_LITERAL_QUOTES_WITHOUT_CONTENT
    };
    if q < 0 || q >= s.len() {
        ParseResult::Value(Seq::empty(), q as usize)
    } else {
        match ml_quotes_spec(s, q, d) {
            ParseResult::Value(n, a) => match ml_content_spec(s, a as int, basic) {
                ParseResult::Value(t, b) => if q < b <= s.len() {
                    prefixed(repeat_char(d, n as nat) + t, ml_body_rest_spec(s, b as int, basic))
                } else {
                    ParseResult::NoMatch
                },
                ParseResult::Error(m) => ParseResult::Error(m),
                ParseResult::NoMatch => if triple_at_spec(s, a as int, d) {
                    ParseResult::Value(repeat_char(d, n as nat), a)
                } else {
                    ParseResult::Error(without_content)
                },
            },
            _ => ParseResult::Value(Seq::empty(), q as usize),
        }
    }
}

/// The body of a multi-line string:
/// `*mlb-content *( mlb-quotes 1*mlb-content ) [ mlb-quotes ]`.
pub open spec fn ml_body_spec(s: Seq<char>, p: int, basic: bool) -> ParseResult<Seq<char>> {
    match ml_content_spec(s, p, basic) {
        ParseResult::Value(t, q) => prefixed(t, ml_body_rest_spec(s, q as int, basic)),
        ParseResult::Error(m) => ParseResult::Error(m),
        ParseResult::NoMatch => ml_body_rest_spec(s, p, basic),
    }
}

proof fn lemma_ml_body_rest_bounds(s: Seq<char>, q: int, basic: bool)
    requires
        0 <= q <= s.len() <= usize::MAX,
    ensures
        ml_body_rest_spec(s, q, basic) matches ParseResult::Value(_, e) ==> q <= e <= s.len(),
    decreases s.len() - q,
{
    let d = if basic {
        '"'
    } else {
        '\''
    };
    if q < s.len() {
        match ml_quotes_spec(s, q, d) {
            ParseResult::Value(n, a) => match ml_content_spec(s, a as int, basic) {
                ParseResult::Value(t, b) => if q < b <= s.len() {
                    lemma_ml_body_rest_bounds(s, b as int, basic);
                },
                _ => {},
            },
            _ => {},
        }
    }
}

/// The delimiter of a multi-line string.
pub open spec fn ml_delim(basic: bool) -> char {
    if basic {
        '"'
    } else {
        '\''
    }
}

/// The marker for delimiters inside a multi-line string that no content
/// follows.
pub open spec fn ml_without_content(basic: bool) -> usize {
    if basic {
        ML_BASIC_QUOTES_WITHOUT_CONTENT
    } else {
        ML_LITERAL_QUOTES_WITHOUT_CONTENT
    }
}

/// One run of delimiters at `q` and the content after it, appended to `out`:
/// `Value(true, b)` to go on at `b`, `Value(false, a)` when the run is the
/// last one before the closing triple at `a`; no match when no delimiter is
/// at `q`.
fn ml_quoted(s: &Vec<char>, q: usize, basic: bool, out: &mut Vec<char>) -> (r: ParseResult<bool>)
    requires
        q < s.len(),
    ensures
        match ml_quotes_spec(s@, q as int, ml_delim(basic)) {
            ParseResult::Value(n, a) => match ml_content_spec(s@, a as int, basic) {
                ParseResult::Value(t, b) => r == ParseResult::Value(true, b) && final(out)@
                    == old(out)@ + repeat_char(ml_delim(basic), n as nat) + t,
                ParseResult::Error(m) => r == ParseResult::<bool>::Error(m),
                ParseResult::NoMatch => if triple_at_spec(s@, a as int, ml_delim(basic)) {
                    r == ParseResult::Value(false, a) && final(out)@ == old(out)@ + repeat_char(
                        ml_delim(basic),
                        n as nat,
                    )
                } else {
                    r == ParseResult::<bool>::Error(ml_without_content(basic))
                },
            },
            _ => r is NoMatch && final(out)@ == old(out)@,
        },
        r matches ParseResult::Value(_, b) ==> q < b <= s.len(),
        r matches ParseResult::Error(m) ==> crate::toml::toml_marker(m),
{
    let d = if basic {
        '"'
    } else {
        '\''
    };
    let without_content = if basic {
        ML_BASIC_QUOTES_WITHOUT_CONTENT
    } else {
        ML_LITERAL_QUOTES_WITHOUT_CONTENT
    };
    let (n, a) = match ml_quotes(s, q, d) {
        ParseResult::Value(n, a) => (n, a),
        _ => return ParseResult::NoMatch,
    };
    let ghost before = out@;
    let mut i: usize = 0;
    while i < n
        invariant
            i <= n,
            out@ == before + repeat_char(d, i as nat),
        decreases n - i,
    {
        out.push(d);
        assert(repeat_char(d, (i + 1) as nat) =~= repeat_char(d, i as nat).push(d));
        i = i + 1;
    }
    match ml_content(s, a, basic, out) {
        ParseResult::Value(_, b) => {
            proof {
                assert(out@ =~= before + repeat_char(d, n as nat) + ml_content_spec(s@, a as int, basic)->Value_0);
            }
            ParseResult::Value(true, b)
        },
        ParseResult::Error(m) => ParseResult::Error(m),
        ParseResult::NoMatch => {
            if triple_at(s, a, d) {
                ParseResult::Value(false, a)
            } else {
                ParseResult::Error(without_content)
            }
        },
    }
}

/// Parse the body of a multi-line string, appending what it denotes to
/// `out`.
fn ml_body(s: &Vec<char>, p: usize, basic: bool, out: &mut Vec<char>) -> (r: ParseResult<()>)
    requires
        p <= s.len(),
    ensures
        r.sound(p as int, s.len() as int),
        match ml_body_spec(s@, p as int, basic) {
            ParseResult::Value(t, q) => r == ParseResult::Value((), q) && final(out)@ == old(out)@
                + t,
            ParseResult::Error(m) => r == ParseResult::<()>::Error(m),
            ParseResult::NoMatch => r is NoMatch,
        },
{
    let ghost o0 = out@;
    let mut q = match ml_content(s, p, basic, out) {
        ParseResult::Value(_, q) => q,
        ParseResult::Error(m) => return ParseResult::Error(m),
        ParseResult::NoMatch => p,
    };
    proof {
        let t = out@.subrange(o0.len() as int, out@.len() as int);
        assert(out@ =~= o0 + t);
        assert(out@.subrange(0, o0.len() as int) =~= o0);
        match ml_content_spec(s@, p as int, basic) {
            ParseResult::NoMatch => {
                assert(t =~= Seq::<char>::empty());
                match ml_body_rest_spec(s@, p as int, basic) {
                    ParseResult::Value(u, e) => {
                        assert(Seq::<char>::empty() + u =~= u);
                    },
                    _ => {},
                }
            },
            ParseResult::Value(t2, q2) => {
                assert(t2 =~= t);
            },
            _ => {},
        }
    }
    let mut more = true;
    while more && q < s.len()
        invariant
            p <= q <= s.len(),
            out@.len() >= o0.len(),
            out@.subrange(0, o0.len() as int) == o0,
            more ==> ml_body_spec(s@, p as int, basic) == prefixed(
                out@.subrange(o0.len() as int, out@.len() as int),
                ml_body_rest_spec(s@, q as int, basic),
            ),
            !more ==> ml_body_spec(s@, p as int, basic) == ParseResult::Value(
                out@.subrange(o0.len() as int, out@.len() as int),
                q,
            ),
        decreases s.len() - q, (if more { 1int } else { 0int }),
    {
        let ghost before = out@;
        let ghost pre = before.subrange(o0.len() as int, before.len() as int);
        match ml_quoted(s, q, basic, out) {
            ParseResult::Value(go_on, b) => {
                proof {
                    let n = ml_quotes_spec(s@, q as int, ml_delim(basic))->Value_0;
                    let a = ml_quotes_spec(s@, q as int, ml_delim(basic))->Value_1;
                    assert(ml_quotes_spec(s@, q as int, ml_delim(basic)) is Value);
                    assert(out@.subrange(0, o0.len() as int) =~= o0);
                    if go_on {
                        let t = ml_content_spec(s@, a as int, basic)->Value_0;
                        assert(out@.subrange(o0.len() as int, out@.len() as int) =~= pre + (
                        repeat_char(ml_delim(basic), n as nat) + t));
                        lemma_prefixed_concat(
                            pre,
                            repeat_char(ml_delim(basic), n as nat) + t,
                            ml_body_rest_spec(s@, b as int, basic),
                        );
                    } else {
                        assert(out@.subrange(o0.len() as int, out@.len() as int) =~= pre
                            + repeat_char(ml_delim(basic), n as nat));
                    }
                }
                q = b;
                if !go_on {
                    more = false;
                }
            },
            ParseResult::Error(m) => {
                return ParseResult::Error(m);
            },
            ParseResult::NoMatch => {
                proof {
                    assert(ml_body_rest_spec(s@, q as int, basic) == ParseResult::Value(
                        Seq::<char>::empty(),
                        q,
                    ));
                    assert(pre + Seq::<char>::empty() =~= pre);
                }
                more = false;
            },
        }
    }
    proof {
        let t = out@.subrange(o0.len() as int, out@.len() as int);
        assert(out@ =~= o0 + t);
        assert(t + Seq::<char>::empty() =~= t);
    }
    ParseResult::Value((), q)
}

/// A multi-line string: the opening triple, an optional newline right after
/// it (not part of the value), the body, and the closing triple.
pub open spec fn ml_string_spec(s: Seq<char>, p: int, basic: bool) -> ParseResult<Seq<char>> {
    let d = if basic {
        '"'
    } else {
        '\''
    };
    if !triple_at_spec(s, p, d) {
        ParseResult::NoMatch
    } else if p + 3 >= s.len() {
        ParseResult::Error(
            if basic {
                ML_BASIC_OPEN_EOF
            } else {
                ML_LITERAL_OPEN_EOF
            },
        )
    } else {
        let a = p + 3;
        let start = if newline_at(s, a) {
            newline_end(s, a)
        } else {
            a
        };
        let missing_close = if newline_at(s, a) {
            if basic {
                ML_BASIC_MISSING_CLOSE_AFTER_NEWLINE
            } else {
                ML_LITERAL_MISSING_CLOSE_AFTER_NEWLINE
            }
        } else if basic {
            ML_BASIC_MISSING_CLOSE_NO_NEWLINE
        } else {
            ML_LITERAL_MISSING_CLOSE_NO_NEWLINE
        };
        match ml_body_spec(s, start, basic) {
            ParseResult::Value(t, e) => if triple_at_spec(s, e as int, d) {
                ParseResult::Value(t, (e + 3) as usize)
            } else {
                ParseResult::Error(missing_close)
            },
            ParseResult::Error(m) => ParseResult::Error(m),
            ParseResult::NoMatch => ParseResult::NoMatch,
        }
    }
}

/// Parse a multi-line string: the characters it denotes.
fn parse_ml_string(s: &Vec<char>, p: usize, basic: bool) -> (r: ParseResult<Vec<char>>)
    requires
        p <= s.len(),
    ensures
        r@ == ml_string_spec(s@, p as int, basic),
        r.sound(p as int, s.len() as int),
        r.advances(p as int),
{
    let d = if basic {
        '"'
    } else {
        '\''
    };
    if !triple_at(s, p, d) {
        return ParseResult::NoMatch;
    }
    let a = p + 3;
    if a >= s.len() {
        return ParseResult::Error(
            if basic {
                ML_BASIC_OPEN_EOF
            } else {
                ML_LITERAL_OPEN_EOF
            },
        );
    }
    let (start, missing_close) = match parse_newline(s, a) {
        Some(b) => (
            b,
            if basic {
                ML_BASIC_MISSING_CLOSE_AFTER_NEWLINE
            } else {
                ML_LITERAL_MISSING_CLOSE_AFTER_NEWLINE
            },
        ),
        None => (
            a,
            if basic {
                ML_BASIC_MISSING_CLOSE_NO_NEWLINE
            } else {
                ML_LITERAL_MISSING_CLOSE_NO_NEWLINE
            },
        ),
    };
    let mut out: Vec<char> = Vec::new();
    match ml_body(s, start, basic, &mut out) {
        ParseResult::Value(_, e) => {
            proof {
                assert(out@ =~= Seq::<char>::empty() + out@);
            }
            if triple_at(s, e, d) {
                ParseResult::Value(out, e + 3)
            } else {
                ParseResult::Error(missing_close)
            }
        },
        ParseResult::Error(m) => ParseResult::Error(m),
        ParseResult::NoMatch => ParseResult::NoMatch,
    }
}

/// `string = ml-basic-string / basic-string / ml-literal-string /
/// literal-string`, tried in this order: the characters it denotes.
pub open spec fn string_spec(s: Seq<char>, p: int) -> ParseResult<Seq<char>> {
    match ml_string_spec(s, p, true) {
        ParseResult::NoMatch => match ml_string_spec(s, p, false) {
            ParseResult::NoMatch => match basic_string_spec(s, p) {
                ParseResult::NoMatch => literal_string_spec(s, p),
                other => other,
            },
            other => other,
        },
        other => other,
    }
}

/// Parse a string: the characters it denotes.
pub fn parse_string(s: &Vec<char>, p: usize) -> (r: ParseResult<Vec<char>>)
    requires
        p <= s.len(),
    ensures
        r@ == string_spec(s@, p as int),
        r.sound(p as int, s.len() as int),
        r.advances(p as int),
{
    match parse_ml_string(s, p, true) {
        ParseResult::NoMatch => {},
        other => return other,
    }
    match parse_ml_string(s, p, false) {
        ParseResult::NoMatch => {},
        other => return other,
    }
    match parse_basic_string(s, p) {
        ParseResult::NoMatch => {},
        other => return other,
    }
    parse_literal_string(s, p)
}

} // verus!
