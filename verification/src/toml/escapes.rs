//! The escape sequences of basic strings and the characters they stand for.

use vstd::prelude::*;
use crate::toml::ParseResult;
use crate::toml::scalar::is_hex;
use crate::toml::string::escaped_spec;
use crate::model_constructors::hex_number;
use crate::markers::{STRING_INVALID_ESCAPE, STRING_UNICODE_ESCAPE_INVALID_SCALAR};

verus! {

/// The code point that a one-letter escape stands for: `\b` backspace,
/// `\t` tab, `\n` line feed, `\f` form feed, `\r` carriage return, `\"` the
/// quotation mark and `\\` the backslash.
pub open spec fn short_escape_code(c: char) -> Option<u32> {
    if c == 'b' {
        Some(0x08)
    } else if c == 't' {
        Some(0x09)
    } else if c == 'n' {
        Some(0x0A)
    } else if c == 'f' {
        Some(0x0C)
    } else if c == 'r' {
        Some(0x0D)
    } else if c == '"' {
        Some(0x22)
    } else if c == '\\' {
        Some(0x5C)
    } else {
        None
    }
}

proof fn lemma_hex_digits(s: Seq<char>, a: int, n: int)
    requires
        0 <= a,
        0 <= n,
        a + n <= s.len(),
        forall|i: int| 0 <= i < n ==> is_hex(#[trigger] s[a + i]),
    ensures
        crate::toml::string::hex_number(s, a, n) == hex_number(s.subrange(a, a + n)),
    decreases n,
{
    if n > 0 {
        assert(is_hex(s[a + (n - 1)]));
        lemma_hex_digits(s, a, n - 1);
        assert(s.subrange(a, a + n).drop_last() =~= s.subrange(a, a + n - 1));
    } else {
        assert(s.subrange(a, a) =~= Seq::<char>::empty());
    }
}

/// Law: a `\u` escape with four hexadecimal digits, or a `\U` escape with
/// eight, stands for the character whose code point the digits denote; a
/// code point that is no Unicode scalar value is refused.
pub proof fn lemma_unicode_escape(s: Seq<char>, p: int, n: int, strict: bool)
    requires
        s.len() <= usize::MAX,
        0 <= p,
        p + 2 + n <= s.len(),
        s[p] == '\\',
        n == 4 && s[p + 1] == 'u' || n == 8 && s[p + 1] == 'U',
        forall|i: int| 0 <= i < n ==> is_hex(#[trigger] s[p + 2 + i]),
    ensures
        ({
            let code = hex_number(s.subrange(p + 2, p + 2 + n));
            &&& (0 <= code <= 0xD7FF || 0xE000 <= code <= 0x10FFFF) ==> (escaped_spec(
                s,
                p,
                strict,
            ) matches ParseResult::Value(x, q) && x as u32 == code && q == p + 2 + n)
            &&& !(0 <= code <= 0xD7FF || 0xE000 <= code <= 0x10FFFF) ==> escaped_spec(s, p, strict)
                == ParseResult::<char>::Error(STRING_UNICODE_ESCAPE_INVALID_SCALAR)
        }),
{
    lemma_hex_digits(s, p + 2, n);
    assert forall|i: int| 0 <= i < n implies is_hex(#[trigger] s[p + 1 + 1 + i]) by {
        assert(is_hex(s[p + 2 + i]));
    }
    let code = hex_number(s.subrange(p + 2, p + 2 + n));
    if 0 <= code <= 0xD7FF || 0xE000 <= code <= 0x10FFFF {
        let x = (code as u32) as char;
        assert(x as u32 == code) by {
            vstd::utf8::char_u32_cast(x, code as u32);
        }
    }
}

/// Law: after a backslash, each one-letter escape stands for its
/// character, and any character that starts no escape is refused in a
/// basic string.
pub proof fn lemma_escapes(s: Seq<char>, p: int, strict: bool)
    requires
        s.len() <= usize::MAX,
        0 <= p,
        p + 1 < s.len(),
        s[p] == '\\',
    ensures
        short_escape_code(s[p + 1]) matches Some(u) ==> (escaped_spec(s, p, strict) matches ParseResult::Value(
            x,
            q,
        ) && x as u32 == u && q == p + 2),
        short_escape_code(s[p + 1]) is None && s[p + 1] != 'u' && s[p + 1] != 'U' && strict
            ==> escaped_spec(s, p, strict) == ParseResult::<char>::Error(STRING_INVALID_ESCAPE),
{
}

} // verus!
