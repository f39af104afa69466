//! Booleans, integers, floats, and dates and times.

use vstd::prelude::*;
use crate::toml::{ParseResult, literal_at, at_literal, toml_marker};
use crate::markers::{
    BOOLEAN_INVALID,
    BOOLEAN_INVALID_ALLCAPS_TRUE,
    BOOLEAN_INVALID_CAPITAL_FALSE,
    BOOLEAN_INVALID_CAPITAL_TRUE,
    DATETIME_EXPECT_PARTIAL_TIME_AFTER_DELIM,
    DATE_INVALID_DAY,
    DATE_INVALID_MONTH,
    DATE_MDAY_FIRST_CHAR_NOT_DIGIT,
    DATE_MDAY_SECOND_CHAR_NOT_DIGIT,
    DATE_MONTH_FIRST_CHAR_NOT_DIGIT,
    DATE_MONTH_SECOND_CHAR_NOT_DIGIT,
    DATE_YEAR_FIRST_CHAR_NOT_DIGIT,
    DATE_YEAR_FOURTH_CHAR_NOT_DIGIT,
    DATE_YEAR_SECOND_CHAR_NOT_DIGIT,
    DATE_YEAR_THIRD_CHAR_NOT_DIGIT,
    FLOAT_DUPLICATE_EXPONENT,
    FLOAT_EXP_NO_DIGIT_AFTER_E,
    FLOAT_EXP_ONLY_EXP_OVERFLOW_I32,
    FLOAT_EXP_ONLY_EXP_UNDERFLOW_I32,
    FLOAT_EXP_ONLY_POW10_OVERFLOW,
    FLOAT_FRAC_EXP_OVERFLOW_I32,
    FLOAT_FRAC_EXP_UNDERFLOW_I32,
    FLOAT_FRAC_POW10_OVERFLOW,
    FLOAT_HEX_CHAR_AFTER_UNDERSCORE,
    FLOAT_HEX_CHAR_IN_PART,
    FLOAT_INVALID_CHAR_AFTER_UNDERSCORE,
    FLOAT_INVALID_INF_CASING_ALLCAPS,
    FLOAT_INVALID_INF_CASING_TITLECASE,
    FLOAT_INVALID_NAN_CASING_ALLCAPS,
    FLOAT_INVALID_NAN_CASING_CAMELCASE,
    FLOAT_INVALID_NAN_CASING_TITLECASE,
    FLOAT_MULTIPLE_UNDERSCORES,
    FLOAT_NO_DIGIT_AFTER_DOT,
    FLOAT_NO_DIGIT_AFTER_DOT_EOF,
    FLOAT_UNDERSCORE_AT_END,
    FULL_DATE_EXPECT_MDAY_AFTER_MONTH,
    FULL_DATE_FIRST_DASH_WITHOUT_SECOND,
    FULL_DATE_FIRST_DASH_WRONG_CHAR,
    FULL_DATE_SECOND_DASH_WRONG_CHAR,
    INTEGER_BIN_DEC_DIGIT_AFTER_PREFIX,
    INTEGER_BIN_DEC_DIGIT_AFTER_UNDERSCORE,
    INTEGER_BIN_DEC_DIGIT_IN_BODY,
    INTEGER_BIN_DOUBLE_UNDERSCORE,
    INTEGER_BIN_HEX_DIGIT_AFTER_PREFIX,
    INTEGER_BIN_HEX_DIGIT_AFTER_UNDERSCORE,
    INTEGER_BIN_HEX_DIGIT_IN_BODY,
    INTEGER_BIN_INVALID_CHAR_AFTER_PREFIX,
    INTEGER_BIN_INVALID_CHAR_AFTER_UNDERSCORE,
    INTEGER_BIN_NO_DIGITS_AFTER_PREFIX,
    INTEGER_BIN_OCT_DIGIT_AFTER_PREFIX,
    INTEGER_BIN_OCT_DIGIT_AFTER_UNDERSCORE,
    INTEGER_BIN_OCT_DIGIT_IN_BODY,
    INTEGER_BIN_OVERFLOW,
    INTEGER_BIN_PREFIX_UPPERCASE,
    INTEGER_BIN_UNDERSCORE_AFTER_PREFIX,
    INTEGER_BIN_UNDERSCORE_AT_END,
    INTEGER_DEC_DOUBLE_UNDERSCORE,
    INTEGER_DEC_HEX_CHAR_AFTER_UNDERSCORE,
    INTEGER_DEC_HEX_CHAR_IN_BODY,
    INTEGER_DEC_INVALID_CHAR_AFTER_UNDERSCORE,
    INTEGER_DEC_INVALID_CHAR_AFTER_ZERO,
    INTEGER_DEC_LEADING_ZERO_DIGIT,
    INTEGER_DEC_LEADING_ZERO_UNDERSCORE,
    INTEGER_DEC_MINUS_SIGN_NO_DIGITS_EOF,
    INTEGER_DEC_MINUS_SIGN_NO_DIGITS_OTHER,
    INTEGER_DEC_OVERFLOW_PLUS_SIGN,
    INTEGER_DEC_OVERFLOW_UNSIGNED,
    INTEGER_DEC_PLUS_SIGN_NO_DIGITS_EOF,
    INTEGER_DEC_PLUS_SIGN_NO_DIGITS_OTHER,
    INTEGER_DEC_UNDERFLOW_MINUS_SIGN,
    INTEGER_DEC_UNDERSCORE_AT_END,
    INTEGER_HEX_DOUBLE_UNDERSCORE,
    INTEGER_HEX_INVALID_CHAR_AFTER_PREFIX,
    INTEGER_HEX_INVALID_CHAR_AFTER_UNDERSCORE,
    INTEGER_HEX_NO_DIGITS_AFTER_PREFIX,
    INTEGER_HEX_OVERFLOW,
    INTEGER_HEX_PREFIX_UPPERCASE,
    INTEGER_HEX_UNDERSCORE_AFTER_PREFIX,
    INTEGER_HEX_UNDERSCORE_AT_END,
    INTEGER_OCT_DEC_DIGIT_AFTER_PREFIX,
    INTEGER_OCT_DEC_DIGIT_AFTER_UNDERSCORE,
    INTEGER_OCT_DEC_DIGIT_IN_BODY,
    INTEGER_OCT_DOUBLE_UNDERSCORE,
    INTEGER_OCT_HEX_DIGIT_AFTER_PREFIX,
    INTEGER_OCT_HEX_DIGIT_AFTER_UNDERSCORE,
    INTEGER_OCT_HEX_DIGIT_IN_BODY,
    INTEGER_OCT_INVALID_CHAR_AFTER_PREFIX,
    INTEGER_OCT_INVALID_CHAR_AFTER_UNDERSCORE,
    INTEGER_OCT_NO_DIGITS_AFTER_PREFIX,
    INTEGER_OCT_OVERFLOW,
    INTEGER_OCT_PREFIX_UPPERCASE,
    INTEGER_OCT_UNDERSCORE_AFTER_PREFIX,
    INTEGER_OCT_UNDERSCORE_AT_END,
    INTEGER_SIGNED_BIN_PREFIX,
    INTEGER_SIGNED_HEX_PREFIX,
    INTEGER_SIGNED_OCT_PREFIX,
    NUMOFFSET_EXPECT_COLON_EOF,
    NUMOFFSET_EXPECT_COLON_WRONG_CHAR,
    NUMOFFSET_EXPECT_HOUR_AFTER_SIGN,
    NUMOFFSET_EXPECT_MINUTE_AFTER_COLON,
    PARTIAL_TIME_EXPECT_SECOND_AFTER_MINUTE,
    PARTIAL_TIME_SECOND_COLON_WITHOUT_FIRST,
    TIME_HOUR_FIRST_CHAR_NOT_DIGIT,
    TIME_HOUR_OUT_OF_RANGE,
    TIME_HOUR_SECOND_CHAR_NOT_DIGIT,
    TIME_MINUTE_FIRST_CHAR_NOT_DIGIT,
    TIME_MINUTE_OUT_OF_RANGE,
    TIME_MINUTE_SECOND_CHAR_NOT_DIGIT,
    TIME_SECFRAC_NO_DIGIT_AFTER_DOT_EOF,
    TIME_SECFRAC_NO_DIGIT_AFTER_DOT_NONDIGIT,
    TIME_SECOND_FIRST_CHAR_NOT_DIGIT,
    TIME_SECOND_OUT_OF_RANGE,
    TIME_SECOND_SECOND_CHAR_NOT_DIGIT,
};

verus! {

// ---------------------------------------------------------------------------
// Booleans
// ---------------------------------------------------------------------------

/// `boolean = "true" / "false"`; the other casings of the two words are
/// rejected by their own markers.
pub open spec fn boolean_spec(s: Seq<char>, p: int) -> ParseResult<bool> {
    if literal_at(s, p, "True"@) {
        ParseResult::Error(BOOLEAN_INVALID_CAPITAL_TRUE)
    } else if literal_at(s, p, "TRUE"@) {
        ParseResult::Error(BOOLEAN_INVALID_ALLCAPS_TRUE)
    } else if literal_at(s, p, "true"@) {
        ParseResult::Value(true, (p + 4) as usize)
    } else if literal_at(s, p, "False"@) {
        ParseResult::Error(BOOLEAN_INVALID_CAPITAL_FALSE)
    } else if literal_at(s, p, "FALSE"@) {
        ParseResult::Error(BOOLEAN_INVALID)
    } else if literal_at(s, p, "false"@) {
        ParseResult::Value(false, (p + 5) as usize)
    } else {
        ParseResult::NoMatch
    }
}

/// Parse a boolean literal.
pub fn parse_boolean(s: &Vec<char>, p: usize) -> (r: ParseResult<bool>)
    requires
        p <= s.len(),
    ensures
        r == boolean_spec(s@, p as int),
        r.sound(p as int, s.len() as int),
        r.advances(p as int),
{
    proof {
        reveal_strlit("True");
        reveal_strlit("TRUE");
        reveal_strlit("true");
        reveal_strlit("False");
        reveal_strlit("FALSE");
        reveal_strlit("false");
    }
    if at_literal(s, p, "True") {
        ParseResult::Error(BOOLEAN_INVALID_CAPITAL_TRUE)
    } else if at_literal(s, p, "TRUE") {
        ParseResult::Error(BOOLEAN_INVALID_ALLCAPS_TRUE)
    } else if at_literal(s, p, "true") {
        ParseResult::Value(true, p + 4)
    } else if at_literal(s, p, "False") {
        ParseResult::Error(BOOLEAN_INVALID_CAPITAL_FALSE)
    } else if at_literal(s, p, "FALSE") {
        ParseResult::Error(BOOLEAN_INVALID)
    } else if at_literal(s, p, "false") {
        ParseResult::Value(false, p + 5)
    } else {
        ParseResult::NoMatch
    }
}

// ---------------------------------------------------------------------------
// Character classes
// ---------------------------------------------------------------------------

/// `0-9`.
pub open spec fn is_dec(c: char) -> bool {
    '0' <= c <= '9'
}

/// `0-9 / a-f / A-F`.
pub open spec fn is_hex(c: char) -> bool {
    is_dec(c) || ('a' <= c <= 'f') || ('A' <= c <= 'F')
}

/// `0-7`.
pub open spec fn is_oct(c: char) -> bool {
    '0' <= c <= '7'
}

/// `0-1`.
pub open spec fn is_bin(c: char) -> bool {
    c == '0' || c == '1'
}

/// `A-Z / a-z`.
pub open spec fn is_alpha(c: char) -> bool {
    ('A' <= c <= 'Z') || ('a' <= c <= 'z')
}

/// The value of a hexadecimal digit.
pub open spec fn hex_val(c: char) -> nat {
    if is_dec(c) {
        (c as u32 - '0' as u32) as nat
    } else if 'a' <= c <= 'f' {
        (c as u32 - 'a' as u32 + 10) as nat
    } else {
        (c as u32 - 'A' as u32 + 10) as nat
    }
}

/// Executable `is_dec`.
pub fn dec_digit(c: char) -> (r: bool)
    ensures
        r == is_dec(c),
{
    '0' <= c && c <= '9'
}

/// Executable `is_hex`.
pub fn hex_digit(c: char) -> (r: bool)
    ensures
        r == is_hex(c),
{
    ('0' <= c && c <= '9') || ('a' <= c && c <= 'f') || ('A' <= c && c <= 'F')
}

/// Executable `is_alpha`.
pub fn alpha(c: char) -> (r: bool)
    ensures
        r == is_alpha(c),
{
    ('A' <= c && c <= 'Z') || ('a' <= c && c <= 'z')
}

/// Executable `hex_val`.
pub fn hex_value(c: char) -> (r: u32)
    requires
        is_hex(c),
    ensures
        r == hex_val(c),
        r < 16,
{
    let u = c as u32;
    if '0' <= c && c <= '9' {
        u - 48
    } else if 'a' <= c && c <= 'f' {
        u - 87
    } else {
        u - 55
    }
}

// ---------------------------------------------------------------------------
// Integers
// ---------------------------------------------------------------------------

/// Digits of the given radix.
pub open spec fn is_radix_digit(c: char, radix: u32) -> bool {
    if radix == 2 {
        is_bin(c)
    } else if radix == 8 {
        is_oct(c)
    } else {
        is_hex(c)
    }
}

/// `a` keeps the magnitude `n` as the accumulator does: exactly up to 2^63,
/// and as some value above 2^63 beyond.
pub open spec fn capped(a: u128, n: nat) -> bool {
    &&& n <= 0x8000_0000_0000_0000 ==> a == n
    &&& n > 0x8000_0000_0000_0000 ==> a > 0x8000_0000_0000_0000
}

fn step(acc: u128, radix: u32, d: u32, Ghost(n): Ghost<nat>) -> (r: u128)
    requires
        2 <= radix <= 16,
        d < 16,
        capped(acc, n),
    ensures
        capped(r, (n * radix + d) as nat),
{
    if acc <= 0x8000_0000_0000_0000 {
        assert(acc * radix <= 0x8000_0000_0000_0000 * 16) by (nonlinear_arith)
            requires
                acc <= 0x8000_0000_0000_0000,
                radix <= 16,
        ;
        acc * (radix as u128) + (d as u128)
    } else {
        assert(n * radix >= n) by (nonlinear_arith)
            requires
                radix >= 2,
        ;
        acc
    }
}

/// The markers of a prefixed integer of one radix.
pub struct RadixMarkers {
    pub no_digits: usize,
    pub underscore_after_prefix: usize,
    pub double_underscore: usize,
    pub underscore_at_end: usize,
    pub overflow: usize,
}

/// The markers of the prefixed integers of radix 2, 8 and 16.
pub open spec fn radix_markers(radix: u32) -> RadixMarkers {
    if radix == 2 {
        RadixMarkers {
            no_digits: INTEGER_BIN_NO_DIGITS_AFTER_PREFIX,
            underscore_after_prefix: INTEGER_BIN_UNDERSCORE_AFTER_PREFIX,
            double_underscore: INTEGER_BIN_DOUBLE_UNDERSCORE,
            underscore_at_end: INTEGER_BIN_UNDERSCORE_AT_END,
            overflow: INTEGER_BIN_OVERFLOW,
        }
    } else if radix == 8 {
        RadixMarkers {
            no_digits: INTEGER_OCT_NO_DIGITS_AFTER_PREFIX,
            underscore_after_prefix: INTEGER_OCT_UNDERSCORE_AFTER_PREFIX,
            double_underscore: INTEGER_OCT_DOUBLE_UNDERSCORE,
            underscore_at_end: INTEGER_OCT_UNDERSCORE_AT_END,
            overflow: INTEGER_OCT_OVERFLOW,
        }
    } else {
        RadixMarkers {
            no_digits: INTEGER_HEX_NO_DIGITS_AFTER_PREFIX,
            underscore_after_prefix: INTEGER_HEX_UNDERSCORE_AFTER_PREFIX,
            double_underscore: INTEGER_HEX_DOUBLE_UNDERSCORE,
            underscore_at_end: INTEGER_HEX_UNDERSCORE_AT_END,
            overflow: INTEGER_HEX_OVERFLOW,
        }
    }
}

fn markers_for(radix: u32) -> (m: RadixMarkers)
    ensures
        m == radix_markers(radix),
{
    if radix == 2 {
        RadixMarkers {
            no_digits: INTEGER_BIN_NO_DIGITS_AFTER_PREFIX,
            underscore_after_prefix: INTEGER_BIN_UNDERSCORE_AFTER_PREFIX,
            double_underscore: INTEGER_BIN_DOUBLE_UNDERSCORE,
            underscore_at_end: INTEGER_BIN_UNDERSCORE_AT_END,
            overflow: INTEGER_BIN_OVERFLOW,
        }
    } else if radix == 8 {
        RadixMarkers {
            no_digits: INTEGER_OCT_NO_DIGITS_AFTER_PREFIX,
            underscore_after_prefix: INTEGER_OCT_UNDERSCORE_AFTER_PREFIX,
            double_underscore: INTEGER_OCT_DOUBLE_UNDERSCORE,
            underscore_at_end: INTEGER_OCT_UNDERSCORE_AT_END,
            overflow: INTEGER_OCT_OVERFLOW,
        }
    } else {
        RadixMarkers {
            no_digits: INTEGER_HEX_NO_DIGITS_AFTER_PREFIX,
            underscore_after_prefix: INTEGER_HEX_UNDERSCORE_AFTER_PREFIX,
            double_underscore: INTEGER_HEX_DOUBLE_UNDERSCORE,
            underscore_at_end: INTEGER_HEX_UNDERSCORE_AT_END,
            overflow: INTEGER_HEX_OVERFLOW,
        }
    }
}

/// The marker for a character `c` that is not a digit of `radix`, met where a
/// digit is required: right after the prefix (`place == 0`), after an
/// underscore (`place == 1`) or inside the digits (`place == 2`, where only a
/// digit of a wider radix is an error; `None` ends the number).
pub open spec fn misplaced_spec(c: char, radix: u32, place: u32) -> Option<usize> {
    if radix == 2 {
        if is_oct(c) {
            Some(
                if place == 0 {
                    INTEGER_BIN_OCT_DIGIT_AFTER_PREFIX
                } else if place == 1 {
                    INTEGER_BIN_OCT_DIGIT_AFTER_UNDERSCORE
                } else {
                    INTEGER_BIN_OCT_DIGIT_IN_BODY
                },
            )
        } else if is_dec(c) {
            Some(
                if place == 0 {
                    INTEGER_BIN_DEC_DIGIT_AFTER_PREFIX
                } else if place == 1 {
                    INTEGER_BIN_DEC_DIGIT_AFTER_UNDERSCORE
                } else {
                    INTEGER_BIN_DEC_DIGIT_IN_BODY
                },
            )
        } else if is_hex(c) {
            Some(
                if place == 0 {
                    INTEGER_BIN_HEX_DIGIT_AFTER_PREFIX
                } else if place == 1 {
                    INTEGER_BIN_HEX_DIGIT_AFTER_UNDERSCORE
                } else {
                    INTEGER_BIN_HEX_DIGIT_IN_BODY
                },
            )
        } else if place == 0 {
            Some(INTEGER_BIN_INVALID_CHAR_AFTER_PREFIX)
        } else if place == 1 {
            Some(INTEGER_BIN_INVALID_CHAR_AFTER_UNDERSCORE)
        } else {
            None
        }
    } else if radix == 8 {
        if is_dec(c) {
            Some(
                if place == 0 {
                    INTEGER_OCT_DEC_DIGIT_AFTER_PREFIX
                } else if place == 1 {
                    INTEGER_OCT_DEC_DIGIT_AFTER_UNDERSCORE
                } else {
                    INTEGER_OCT_DEC_DIGIT_IN_BODY
                },
            )
        } else if is_hex(c) {
            Some(
                if place == 0 {
                    INTEGER_OCT_HEX_DIGIT_AFTER_PREFIX
                } else if place == 1 {
                    INTEGER_OCT_HEX_DIGIT_AFTER_UNDERSCORE
                } else {
                    INTEGER_OCT_HEX_DIGIT_IN_BODY
                },
            )
        } else if place == 0 {
            Some(INTEGER_OCT_INVALID_CHAR_AFTER_PREFIX)
        } else if place == 1 {
            Some(INTEGER_OCT_INVALID_CHAR_AFTER_UNDERSCORE)
        } else {
            None
        }
    } else {
        if place == 0 {
            Some(INTEGER_HEX_INVALID_CHAR_AFTER_PREFIX)
        } else if place == 1 {
            Some(INTEGER_HEX_INVALID_CHAR_AFTER_UNDERSCORE)
        } else {
            None
        }
    }
}

fn misplaced_char(c: char, radix: u32, place: u32) -> (r: Option<usize>)
    ensures
        r == misplaced_spec(c, radix, place),
{
    let oct = '0' <= c && c <= '7';
    let dec = dec_digit(c);
    let hex = hex_digit(c);
    if radix == 2 {
        if oct {
            Some(
                if place == 0 {
                    INTEGER_BIN_OCT_DIGIT_AFTER_PREFIX
                } else if place == 1 {
                    INTEGER_BIN_OCT_DIGIT_AFTER_UNDERSCORE
                } else {
                    INTEGER_BIN_OCT_DIGIT_IN_BODY
                },
            )
        } else if dec {
            Some(
                if place == 0 {
                    INTEGER_BIN_DEC_DIGIT_AFTER_PREFIX
                } else if place == 1 {
                    INTEGER_BIN_DEC_DIGIT_AFTER_UNDERSCORE
                } else {
                    INTEGER_BIN_DEC_DIGIT_IN_BODY
                },
            )
        } else if hex {
            Some(
                if place == 0 {
                    INTEGER_BIN_HEX_DIGIT_AFTER_PREFIX
                } else if place == 1 {
                    INTEGER_BIN_HEX_DIGIT_AFTER_UNDERSCORE
                } else {
                    INTEGER_BIN_HEX_DIGIT_IN_BODY
                },
            )
        } else if place == 0 {
            Some(INTEGER_BIN_INVALID_CHAR_AFTER_PREFIX)
        } else if place == 1 {
            Some(INTEGER_BIN_INVALID_CHAR_AFTER_UNDERSCORE)
        } else {
            None
        }
    } else if radix == 8 {
        if dec {
            Some(
                if place == 0 {
                    INTEGER_OCT_DEC_DIGIT_AFTER_PREFIX
                } else if place == 1 {
                    INTEGER_OCT_DEC_DIGIT_AFTER_UNDERSCORE
                } else {
                    INTEGER_OCT_DEC_DIGIT_IN_BODY
                },
            )
        } else if hex {
            Some(
                if place == 0 {
                    INTEGER_OCT_HEX_DIGIT_AFTER_PREFIX
                } else if place == 1 {
                    INTEGER_OCT_HEX_DIGIT_AFTER_UNDERSCORE
                } else {
                    INTEGER_OCT_HEX_DIGIT_IN_BODY
                },
            )
        } else if place == 0 {
            Some(INTEGER_OCT_INVALID_CHAR_AFTER_PREFIX)
        } else if place == 1 {
            Some(INTEGER_OCT_INVALID_CHAR_AFTER_UNDERSCORE)
        } else {
            None
        }
    } else {
        if place == 0 {
            Some(INTEGER_HEX_INVALID_CHAR_AFTER_PREFIX)
        } else if place == 1 {
            Some(INTEGER_HEX_INVALID_CHAR_AFTER_UNDERSCORE)
        } else {
            None
        }
    }
}

fn radix_digit(c: char, radix: u32) -> (r: bool)
    ensures
        r == is_radix_digit(c, radix),
{
    if radix == 2 {
        c == '0' || c == '1'
    } else if radix == 8 {
        '0' <= c && c <= '7'
    } else {
        hex_digit(c)
    }
}

/// The digits of a prefixed integer from `q`, after the first digit; `acc`
/// is the magnitude so far.
pub open spec fn radix_rest_spec(s: Seq<char>, q: int, radix: u32, acc: nat) -> ParseResult<nat>
    decreases s.len() - q,
{
    let m = radix_markers(radix);
    if q < 0 || q >= s.len() {
        ParseResult::Value(acc, q as usize)
    } else if is_radix_digit(s[q], radix) {
        radix_rest_spec(s, q + 1, radix, (acc * radix + hex_val(s[q])) as nat)
    } else if s[q] == '_' {
        if q + 1 >= s.len() {
            ParseResult::Error(m.underscore_at_end)
        } else if is_radix_digit(s[q + 1], radix) {
            radix_rest_spec(s, q + 2, radix, (acc * radix + hex_val(s[q + 1])) as nat)
        } else if s[q + 1] == '_' {
            ParseResult::Error(m.double_underscore)
        } else {
            match misplaced_spec(s[q + 1], radix, 1) {
                Some(e) => ParseResult::Error(e),
                None => ParseResult::Error(m.double_underscore),
            }
        }
    } else {
        match misplaced_spec(s[q], radix, 2) {
            Some(e) => ParseResult::Error(e),
            None => ParseResult::Value(acc, q as usize),
        }
    }
}

/// A prefixed integer (`0b`, `0o` or `0x` at `p`): at least one digit, with
/// single underscores between digits, and a value at most `i64::MAX`.
pub open spec fn radix_int_spec(s: Seq<char>, p: int, radix: u32) -> ParseResult<i64> {
    let m = radix_markers(radix);
    let q = p + 2;
    if q >= s.len() {
        ParseResult::Error(m.no_digits)
    } else if !is_radix_digit(s[q], radix) {
        if s[q] == '_' {
            ParseResult::Error(m.underscore_after_prefix)
        } else {
            match misplaced_spec(s[q], radix, 0) {
                Some(e) => ParseResult::Error(e),
                None => ParseResult::Error(m.no_digits),
            }
        }
    } else {
        match radix_rest_spec(s, q + 1, radix, hex_val(s[q])) {
            ParseResult::Value(n, e) => if n > 0x7fff_ffff_ffff_ffff {
                ParseResult::Error(m.overflow)
            } else {
                ParseResult::Value(n as i64, e)
            },
            ParseResult::Error(e) => ParseResult::Error(e),
            ParseResult::NoMatch => ParseResult::NoMatch,
        }
    }
}

fn parse_radix_int(s: &Vec<char>, p: usize, radix: u32) -> (r: ParseResult<i64>)
    requires
        p + 2 <= s.len(),
        radix == 2 || radix == 8 || radix == 16,
    ensures
        r == radix_int_spec(s@, p as int, radix),
{
    let m = markers_for(radix);
    let mut q = p + 2;
    if q >= s.len() {
        return ParseResult::Error(m.no_digits);
    }
    let c = s[q];
    if !radix_digit(c, radix) {
        if c == '_' {
            return ParseResult::Error(m.underscore_after_prefix);
        }
        match misplaced_char(c, radix, 0) {
            Some(e) => return ParseResult::Error(e),
            None => return ParseResult::Error(m.no_digits),
        }
    }
    let mut acc: u128 = hex_value(c) as u128;
    let ghost mut n: nat = hex_val(c);
    q = q + 1;
    while q < s.len()
        invariant
            p + 2 < q <= s.len(),
            radix == 2 || radix == 8 || radix == 16,
            m == radix_markers(radix),
            capped(acc, n),
            radix_int_spec(s@, p as int, radix) == match radix_rest_spec(s@, q as int, radix, n) {
                ParseResult::Value(n, e) => if n > 0x7fff_ffff_ffff_ffff {
                    ParseResult::Error(m.overflow)
                } else {
                    ParseResult::Value(n as i64, e)
                },
                ParseResult::Error(e) => ParseResult::Error(e),
                ParseResult::NoMatch => ParseResult::NoMatch,
            },
        ensures
            p + 2 < q <= s.len(),
            m == radix_markers(radix),
            capped(acc, n),
            radix_int_spec(s@, p as int, radix) == match radix_rest_spec(s@, q as int, radix, n) {
                ParseResult::Value(n, e) => if n > 0x7fff_ffff_ffff_ffff {
                    ParseResult::Error(m.overflow)
                } else {
                    ParseResult::Value(n as i64, e)
                },
                ParseResult::Error(e) => ParseResult::Error(e),
                ParseResult::NoMatch => ParseResult::NoMatch,
            },
            radix_rest_spec(s@, q as int, radix, n) == ParseResult::Value(n, q),
        decreases s.len() - q,
    {
        let c = s[q];
        if radix_digit(c, radix) {
            acc = step(acc, radix, hex_value(c), Ghost(n));
            proof {
                n = (n * radix + hex_val(c)) as nat;
            }
            q = q + 1;
        } else if c == '_' {
            if q + 1 >= s.len() {
                return ParseResult::Error(m.underscore_at_end);
            }
            let d = s[q + 1];
            if radix_digit(d, radix) {
                acc = step(acc, radix, hex_value(d), Ghost(n));
                proof {
                    n = (n * radix + hex_val(d)) as nat;
                }
                q = q + 2;
            } else if d == '_' {
                return ParseResult::Error(m.double_underscore);
            } else {
                match misplaced_char(d, radix, 1) {
                    Some(e) => return ParseResult::Error(e),
                    None => return ParseResult::Error(m.double_underscore),
                }
            }
        } else {
            match misplaced_char(c, radix, 2) {
                Some(e) => return ParseResult::Error(e),
                None => break,
            }
        }
    }
    if acc > 0x7fff_ffff_ffff_ffff {
        ParseResult::Error(m.overflow)
    } else {
        ParseResult::Value(acc as i64, q)
    }
}

/// The digits of an unsigned decimal integer from `q`, after the first;
/// `acc` is the magnitude so far. A `.`, `e` or `E` ends the integer.
pub open spec fn dec_rest_spec(s: Seq<char>, q: int, acc: nat) -> ParseResult<nat>
    decreases s.len() - q,
{
    if q < 0 || q >= s.len() {
        ParseResult::Value(acc, q as usize)
    } else if s[q] == '.' || s[q] == 'e' || s[q] == 'E' {
        ParseResult::Value(acc, q as usize)
    } else if is_dec(s[q]) {
        dec_rest_spec(s, q + 1, (acc * 10 + hex_val(s[q])) as nat)
    } else if s[q] == '_' {
        if q + 1 >= s.len() {
            ParseResult::Error(INTEGER_DEC_UNDERSCORE_AT_END)
        } else if is_dec(s[q + 1]) {
            dec_rest_spec(s, q + 2, (acc * 10 + hex_val(s[q + 1])) as nat)
        } else if s[q + 1] == '_' {
            ParseResult::Error(INTEGER_DEC_DOUBLE_UNDERSCORE)
        } else if is_hex(s[q + 1]) {
            ParseResult::Error(INTEGER_DEC_HEX_CHAR_AFTER_UNDERSCORE)
        } else {
            ParseResult::Error(INTEGER_DEC_INVALID_CHAR_AFTER_UNDERSCORE)
        }
    } else if is_hex(s[q]) {
        ParseResult::Error(INTEGER_DEC_HEX_CHAR_IN_BODY)
    } else {
        ParseResult::Value(acc, q as usize)
    }
}

/// `unsigned-dec-int = DIGIT / digit1-9 1*( DIGIT / underscore DIGIT )`:
/// its magnitude. A zero may not be followed by a digit, an underscore or a
/// letter other than the `e` / `E` of a float exponent.
pub open spec fn unsigned_dec_spec(s: Seq<char>, p: int) -> ParseResult<nat> {
    if p < 0 || p >= s.len() || !is_dec(s[p]) {
        ParseResult::NoMatch
    } else if s[p] == '0' {
        if p + 1 >= s.len() {
            ParseResult::Value(0, (p + 1) as usize)
        } else if is_dec(s[p + 1]) {
            ParseResult::Error(INTEGER_DEC_LEADING_ZERO_DIGIT)
        } else if s[p + 1] == '_' {
            ParseResult::Error(INTEGER_DEC_LEADING_ZERO_UNDERSCORE)
        } else if is_alpha(s[p + 1]) && s[p + 1] != 'e' && s[p + 1] != 'E' {
            ParseResult::Error(INTEGER_DEC_INVALID_CHAR_AFTER_ZERO)
        } else {
            ParseResult::Value(0, (p + 1) as usize)
        }
    } else {
        dec_rest_spec(s, p + 1, hex_val(s[p]))
    }
}

/// `r` is `m` with its magnitude kept as the accumulator keeps it.
pub open spec fn capped_res(r: ParseResult<u128>, m: ParseResult<nat>) -> bool {
    match (r, m) {
        (ParseResult::Value(a, q), ParseResult::Value(n, q2)) => q == q2 && capped(a, n),
        (ParseResult::NoMatch, ParseResult::NoMatch) => true,
        (ParseResult::Error(x), ParseResult::Error(y)) => x == y,
        _ => false,
    }
}

fn parse_unsigned_dec(s: &Vec<char>, p: usize) -> (r: ParseResult<u128>)
    requires
        p <= s.len(),
    ensures
        capped_res(r, unsigned_dec_spec(s@, p as int)),
{
    if p >= s.len() || !dec_digit(s[p]) {
        return ParseResult::NoMatch;
    }
    if s[p] == '0' {
        if p + 1 >= s.len() {
            return ParseResult::Value(0, p + 1);
        }
        let n = s[p + 1];
        if dec_digit(n) {
            return ParseResult::Error(INTEGER_DEC_LEADING_ZERO_DIGIT);
        } else if n == '_' {
            return ParseResult::Error(INTEGER_DEC_LEADING_ZERO_UNDERSCORE);
        } else if alpha(n) && n != 'e' && n != 'E' {
            return ParseResult::Error(INTEGER_DEC_INVALID_CHAR_AFTER_ZERO);
        } else {
            return ParseResult::Value(0, p + 1);
        }
    }
    let mut acc: u128 = hex_value(s[p]) as u128;
    let ghost mut n: nat = hex_val(s@[p as int]);
    let mut q = p + 1;
    while q < s.len()
        invariant
            p < q <= s.len(),
            capped(acc, n),
            unsigned_dec_spec(s@, p as int) == dec_rest_spec(s@, q as int, n),
        ensures
            p < q <= s.len(),
            capped(acc, n),
            unsigned_dec_spec(s@, p as int) == dec_rest_spec(s@, q as int, n),
            dec_rest_spec(s@, q as int, n) == ParseResult::Value(n, q),
        decreases s.len() - q,
    {
        let c = s[q];
        if c == '.' || c == 'e' || c == 'E' {
            break;
        } else if dec_digit(c) {
            acc = step(acc, 10, hex_value(c), Ghost(n));
            proof {
                n = (n * 10 + hex_val(c)) as nat;
            }
            q = q + 1;
        } else if c == '_' {
            if q + 1 >= s.len() {
                return ParseResult::Error(INTEGER_DEC_UNDERSCORE_AT_END);
            }
            let d = s[q + 1];
            if dec_digit(d) {
                acc = step(acc, 10, hex_value(d), Ghost(n));
                proof {
                    n = (n * 10 + hex_val(d)) as nat;
                }
                q = q + 2;
            } else if d == '_' {
                return ParseResult::Error(INTEGER_DEC_DOUBLE_UNDERSCORE);
            } else if hex_digit(d) {
                return ParseResult::Error(INTEGER_DEC_HEX_CHAR_AFTER_UNDERSCORE);
            } else {
                return ParseResult::Error(INTEGER_DEC_INVALID_CHAR_AFTER_UNDERSCORE);
            }
        } else if hex_digit(c) {
            return ParseResult::Error(INTEGER_DEC_HEX_CHAR_IN_BODY);
        } else {
            break;
        }
    }
    ParseResult::Value(acc, q)
}

/// A decimal integer after an optional sign (`sign` is `+`, `-`, or none),
/// within the range of `i64`.
pub open spec fn dec_int_spec(s: Seq<char>, sign: Option<char>, p: int) -> ParseResult<i64> {
    match unsigned_dec_spec(s, p) {
        ParseResult::Value(n, q) => match sign {
            None => if n > 0x7fff_ffff_ffff_ffff {
                ParseResult::Error(INTEGER_DEC_OVERFLOW_UNSIGNED)
            } else {
                ParseResult::Value(n as i64, q)
            },
            Some(c) => if c == '+' {
                if n > 0x7fff_ffff_ffff_ffff {
                    ParseResult::Error(INTEGER_DEC_OVERFLOW_PLUS_SIGN)
                } else {
                    ParseResult::Value(n as i64, q)
                }
            } else if n > 0x8000_0000_0000_0000 {
                ParseResult::Error(INTEGER_DEC_UNDERFLOW_MINUS_SIGN)
            } else {
                ParseResult::Value((-n) as i64, q)
            },
        },
        ParseResult::Error(e) => ParseResult::Error(e),
        ParseResult::NoMatch => match sign {
            None => ParseResult::NoMatch,
            Some(c) => if c == '+' {
                if p >= s.len() {
                    ParseResult::Error(INTEGER_DEC_PLUS_SIGN_NO_DIGITS_EOF)
                } else {
                    ParseResult::Error(INTEGER_DEC_PLUS_SIGN_NO_DIGITS_OTHER)
                }
            } else if p >= s.len() {
                ParseResult::Error(INTEGER_DEC_MINUS_SIGN_NO_DIGITS_EOF)
            } else {
                ParseResult::Error(INTEGER_DEC_MINUS_SIGN_NO_DIGITS_OTHER)
            },
        },
    }
}

fn parse_dec_int(s: &Vec<char>, sign: Option<char>, p: usize) -> (r: ParseResult<i64>)
    requires
        p <= s.len(),
    ensures
        r == dec_int_spec(s@, sign, p as int),
{
    match parse_unsigned_dec(s, p) {
        ParseResult::Value(n, q) => match sign {
            None => {
                if n > 0x7fff_ffff_ffff_ffff {
                    ParseResult::Error(INTEGER_DEC_OVERFLOW_UNSIGNED)
                } else {
                    ParseResult::Value(n as i64, q)
                }
            },
            Some(c) => {
                if c == '+' {
                    if n > 0x7fff_ffff_ffff_ffff {
                        ParseResult::Error(INTEGER_DEC_OVERFLOW_PLUS_SIGN)
                    } else {
                        ParseResult::Value(n as i64, q)
                    }
                } else if n > 0x8000_0000_0000_0000 {
                    ParseResult::Error(INTEGER_DEC_UNDERFLOW_MINUS_SIGN)
                } else if n == 0x8000_0000_0000_0000 {
                    ParseResult::Value(i64::MIN, q)
                } else {
                    ParseResult::Value(-(n as i64), q)
                }
            },
        },
        ParseResult::Error(e) => ParseResult::Error(e),
        ParseResult::NoMatch => match sign {
            None => ParseResult::NoMatch,
            Some(c) => {
                if c == '+' {
                    if p >= s.len() {
                        ParseResult::Error(INTEGER_DEC_PLUS_SIGN_NO_DIGITS_EOF)
                    } else {
                        ParseResult::Error(INTEGER_DEC_PLUS_SIGN_NO_DIGITS_OTHER)
                    }
                } else if p >= s.len() {
                    ParseResult::Error(INTEGER_DEC_MINUS_SIGN_NO_DIGITS_EOF)
                } else {
                    ParseResult::Error(INTEGER_DEC_MINUS_SIGN_NO_DIGITS_OTHER)
                }
            },
        },
    }
}

/// The two characters `0` and `x` at `p`.
pub open spec fn prefix_at_spec(s: Seq<char>, p: int, x: char) -> bool {
    0 <= p && p + 2 <= s.len() && s[p] == '0' && s[p + 1] == x
}

fn prefix_at(s: &Vec<char>, p: usize, x: char) -> (r: bool)
    requires
        p <= s.len(),
    ensures
        r == prefix_at_spec(s@, p as int, x),
{
    p < s.len() && s.len() - p >= 2 && s[p] == '0' && s[p + 1] == x
}

/// `integer = dec-int / hex-int / oct-int / bin-int`; a sign before a
/// prefix, and an upper-case prefix, are rejected by their own markers.
pub open spec fn integer_spec(s: Seq<char>, p: int) -> ParseResult<i64> {
    if p < 0 || p >= s.len() {
        ParseResult::NoMatch
    } else if s[p] == '+' || s[p] == '-' {
        if prefix_at_spec(s, p + 1, 'b') {
            ParseResult::Error(INTEGER_SIGNED_BIN_PREFIX)
        } else if prefix_at_spec(s, p + 1, 'o') {
            ParseResult::Error(INTEGER_SIGNED_OCT_PREFIX)
        } else if prefix_at_spec(s, p + 1, 'x') {
            ParseResult::Error(INTEGER_SIGNED_HEX_PREFIX)
        } else {
            dec_int_spec(s, Some(s[p]), p + 1)
        }
    } else if prefix_at_spec(s, p, 'b') {
        radix_int_spec(s, p, 2)
    } else if prefix_at_spec(s, p, 'o') {
        radix_int_spec(s, p, 8)
    } else if prefix_at_spec(s, p, 'x') {
        radix_int_spec(s, p, 16)
    } else if prefix_at_spec(s, p, 'B') {
        ParseResult::Error(INTEGER_BIN_PREFIX_UPPERCASE)
    } else if prefix_at_spec(s, p, 'O') {
        ParseResult::Error(INTEGER_OCT_PREFIX_UPPERCASE)
    } else if prefix_at_spec(s, p, 'X') {
        ParseResult::Error(INTEGER_HEX_PREFIX_UPPERCASE)
    } else {
        dec_int_spec(s, None, p)
    }
}

pub proof fn lemma_misplaced_marker(c: char, radix: u32, place: u32)
    ensures
        misplaced_spec(c, radix, place) matches Some(m) ==> toml_marker(m),
        toml_marker(radix_markers(radix).no_digits),
        toml_marker(radix_markers(radix).underscore_after_prefix),
        toml_marker(radix_markers(radix).double_underscore),
        toml_marker(radix_markers(radix).underscore_at_end),
        toml_marker(radix_markers(radix).overflow),
{
}

pub proof fn lemma_radix_rest(s: Seq<char>, q: int, radix: u32, acc: nat)
    requires
        s.len() <= usize::MAX,
        0 <= q <= s.len(),
    ensures
        radix_rest_spec(s, q, radix, acc) matches ParseResult::Value(_, e) ==> q <= e <= s.len(),
        radix_rest_spec(s, q, radix, acc) is Error ==> toml_marker(
            radix_rest_spec(s, q, radix, acc)->Error_0,
        ),
    decreases s.len() - q,
{
    lemma_misplaced_marker(if q < s.len() { s[q] } else { ' ' }, radix, 2);
    lemma_misplaced_marker(if q + 1 < s.len() { s[q + 1] } else { ' ' }, radix, 1);
    if q < s.len() {
        if is_radix_digit(s[q], radix) {
            lemma_radix_rest(s, q + 1, radix, (acc * radix + hex_val(s[q])) as nat);
        } else if s[q] == '_' && q + 1 < s.len() && is_radix_digit(s[q + 1], radix) {
            lemma_radix_rest(s, q + 2, radix, (acc * radix + hex_val(s[q + 1])) as nat);
        }
    }
}

pub proof fn lemma_dec_rest(s: Seq<char>, q: int, acc: nat)
    requires
        s.len() <= usize::MAX,
        0 <= q <= s.len(),
    ensures
        dec_rest_spec(s, q, acc) matches ParseResult::Value(_, e) ==> q <= e <= s.len(),
        dec_rest_spec(s, q, acc) is Error ==> toml_marker(dec_rest_spec(s, q, acc)->Error_0),
    decreases s.len() - q,
{
    if q < s.len() {
        if is_dec(s[q]) && !(s[q] == '.' || s[q] == 'e' || s[q] == 'E') {
            lemma_dec_rest(s, q + 1, (acc * 10 + hex_val(s[q])) as nat);
        } else if s[q] == '_' && q + 1 < s.len() && is_dec(s[q + 1]) {
            lemma_dec_rest(s, q + 2, (acc * 10 + hex_val(s[q + 1])) as nat);
        }
    }
}

/// Parse an integer.
pub fn parse_integer(s: &Vec<char>, p: usize) -> (r: ParseResult<i64>)
    requires
        p <= s.len(),
    ensures
        r == integer_spec(s@, p as int),
        r.sound(p as int, s.len() as int),
        r.advances(p as int),
{
    if p >= s.len() {
        return ParseResult::NoMatch;
    }
    let c = s[p];
    let r = if c == '+' || c == '-' {
        let q = p + 1;
        if prefix_at(s, q, 'b') {
            ParseResult::Error(INTEGER_SIGNED_BIN_PREFIX)
        } else if prefix_at(s, q, 'o') {
            ParseResult::Error(INTEGER_SIGNED_OCT_PREFIX)
        } else if prefix_at(s, q, 'x') {
            ParseResult::Error(INTEGER_SIGNED_HEX_PREFIX)
        } else {
            parse_dec_int(s, Some(c), q)
        }
    } else if prefix_at(s, p, 'b') {
        parse_radix_int(s, p, 2)
    } else if prefix_at(s, p, 'o') {
        parse_radix_int(s, p, 8)
    } else if prefix_at(s, p, 'x') {
        parse_radix_int(s, p, 16)
    } else if prefix_at(s, p, 'B') {
        ParseResult::Error(INTEGER_BIN_PREFIX_UPPERCASE)
    } else if prefix_at(s, p, 'O') {
        ParseResult::Error(INTEGER_OCT_PREFIX_UPPERCASE)
    } else if prefix_at(s, p, 'X') {
        ParseResult::Error(INTEGER_HEX_PREFIX_UPPERCASE)
    } else {
        parse_dec_int(s, None, p)
    };
    proof {
        lemma_integer_sound(s@, p as int);
    }
    r
}

/// A match of the integer rule ends after its start and within the input,
/// and an error names a TOML marker.
pub proof fn lemma_integer_sound(s: Seq<char>, p: int)
    requires
        s.len() <= usize::MAX,
        0 <= p <= s.len(),
    ensures
        integer_spec(s, p).sound(p, s.len() as int),
        integer_spec(s, p).advances(p),
{
    if p < s.len() {
        let q = if s[p] == '+' || s[p] == '-' {
            p + 1
        } else {
            p
        };
        if q < s.len() && is_dec(s[q]) && s[q] != '0' {
            lemma_dec_rest(s, q + 1, hex_val(s[q]));
        }
        if p + 2 < s.len() {
            lemma_radix_rest(s, p + 3, 2, hex_val(s[p + 2]));
            lemma_radix_rest(s, p + 3, 8, hex_val(s[p + 2]));
            lemma_radix_rest(s, p + 3, 16, hex_val(s[p + 2]));
            lemma_misplaced_marker(s[p + 2], 2, 0);
            lemma_misplaced_marker(s[p + 2], 8, 0);
            lemma_misplaced_marker(s[p + 2], 16, 0);
        }
        lemma_misplaced_marker(' ', 2, 0);
        lemma_misplaced_marker(' ', 8, 0);
        lemma_misplaced_marker(' ', 16, 0);
    }
}

// ---------------------------------------------------------------------------
// Floats
// ---------------------------------------------------------------------------

/// A number read by the float rule: a float keeps its literal text, an
/// integer its value.
#[derive(Debug)]
pub enum Number {
    Float(Vec<char>),
    Integer(i64),
}

/// The model of a [`Number`].
pub ghost enum NumberM {
    Float(Seq<char>),
    Integer(i64),
}

impl View for Number {
    type V = NumberM;

    open spec fn view(&self) -> NumberM {
        match self {
            Number::Float(t) => NumberM::Float(t@),
            Number::Integer(i) => NumberM::Integer(*i),
        }
    }
}

/// `special-float = [ minus / plus ] ( inf / nan )`; the other casings of the
/// two words are rejected by their own markers.
pub open spec fn special_float_spec(s: Seq<char>, p: int) -> ParseResult<()> {
    if p < 0 || p >= s.len() {
        ParseResult::NoMatch
    } else {
        let q = if s[p] == '+' || s[p] == '-' {
            p + 1
        } else {
            p
        };
        if literal_at(s, q, "inf"@) || literal_at(s, q, "nan"@) {
            ParseResult::Value((), (q + 3) as usize)
        } else if literal_at(s, q, "Nan"@) {
            ParseResult::Error(FLOAT_INVALID_NAN_CASING_TITLECASE)
        } else if literal_at(s, q, "Inf"@) {
            ParseResult::Error(FLOAT_INVALID_INF_CASING_TITLECASE)
        } else if literal_at(s, q, "NAN"@) {
            ParseResult::Error(FLOAT_INVALID_NAN_CASING_ALLCAPS)
        } else if literal_at(s, q, "INF"@) {
            ParseResult::Error(FLOAT_INVALID_INF_CASING_ALLCAPS)
        } else if literal_at(s, q, "NaN"@) {
            ParseResult::Error(FLOAT_INVALID_NAN_CASING_CAMELCASE)
        } else {
            ParseResult::NoMatch
        }
    }
}

fn parse_special_float(s: &Vec<char>, p: usize) -> (r: ParseResult<()>)
    requires
        p <= s.len(),
    ensures
        r == special_float_spec(s@, p as int),
{
    if p >= s.len() {
        return ParseResult::NoMatch;
    }
    let q = if s[p] == '+' || s[p] == '-' {
        p + 1
    } else {
        p
    };
    proof {
        reveal_strlit("inf");
        reveal_strlit("nan");
    }
    if at_literal(s, q, "inf") || at_literal(s, q, "nan") {
        ParseResult::Value((), q + 3)
    } else if at_literal(s, q, "Nan") {
        ParseResult::Error(FLOAT_INVALID_NAN_CASING_TITLECASE)
    } else if at_literal(s, q, "Inf") {
        ParseResult::Error(FLOAT_INVALID_INF_CASING_TITLECASE)
    } else if at_literal(s, q, "NAN") {
        ParseResult::Error(FLOAT_INVALID_NAN_CASING_ALLCAPS)
    } else if at_literal(s, q, "INF") {
        ParseResult::Error(FLOAT_INVALID_INF_CASING_ALLCAPS)
    } else if at_literal(s, q, "NaN") {
        ParseResult::Error(FLOAT_INVALID_NAN_CASING_CAMELCASE)
    } else {
        ParseResult::NoMatch
    }
}

/// The digits of a fraction or an exponent from `i`, after the first: single
/// underscores between digits; an `e` ends a fraction and is a second
/// exponent in an exponent.
pub open spec fn float_digits_rest(s: Seq<char>, i: int, fraction: bool) -> ParseResult<()>
    decreases s.len() - i,
{
    if i < 0 || i >= s.len() {
        ParseResult::Value((), i as usize)
    } else if is_dec(s[i]) {
        float_digits_rest(s, i + 1, fraction)
    } else if s[i] == '_' {
        if i + 1 >= s.len() {
            ParseResult::Error(FLOAT_UNDERSCORE_AT_END)
        } else if is_dec(s[i + 1]) {
            float_digits_rest(s, i + 2, fraction)
        } else if s[i + 1] == '_' {
            ParseResult::Error(FLOAT_MULTIPLE_UNDERSCORES)
        } else if is_hex(s[i + 1]) {
            ParseResult::Error(FLOAT_HEX_CHAR_AFTER_UNDERSCORE)
        } else {
            ParseResult::Error(FLOAT_INVALID_CHAR_AFTER_UNDERSCORE)
        }
    } else if s[i] == 'e' || s[i] == 'E' {
        if fraction {
            ParseResult::Value((), i as usize)
        } else {
            ParseResult::Error(FLOAT_DUPLICATE_EXPONENT)
        }
    } else if is_hex(s[i]) {
        ParseResult::Error(FLOAT_HEX_CHAR_IN_PART)
    } else {
        ParseResult::Value((), i as usize)
    }
}

/// `zero-prefixable-int = DIGIT *( DIGIT / underscore DIGIT )` at `q`.
pub open spec fn float_digits_spec(s: Seq<char>, q: int, fraction: bool) -> ParseResult<()> {
    if q < 0 || q >= s.len() {
        ParseResult::Error(FLOAT_NO_DIGIT_AFTER_DOT_EOF)
    } else if !is_dec(s[q]) {
        ParseResult::Error(FLOAT_NO_DIGIT_AFTER_DOT)
    } else {
        float_digits_rest(s, q + 1, fraction)
    }
}

fn parse_float_digits(s: &Vec<char>, q: usize, fraction: bool) -> (r: ParseResult<()>)
    requires
        q <= s.len(),
    ensures
        r == float_digits_spec(s@, q as int, fraction),
{
    if q >= s.len() {
        return ParseResult::Error(FLOAT_NO_DIGIT_AFTER_DOT_EOF);
    }
    if !dec_digit(s[q]) {
        return ParseResult::Error(FLOAT_NO_DIGIT_AFTER_DOT);
    }
    let mut i = q + 1;
    while i < s.len()
        invariant
            q < i <= s.len(),
            float_digits_spec(s@, q as int, fraction) == float_digits_rest(s@, i as int, fraction),
        ensures
            q < i <= s.len(),
            float_digits_spec(s@, q as int, fraction) == float_digits_rest(s@, i as int, fraction),
            float_digits_rest(s@, i as int, fraction) == ParseResult::Value((), i),
        decreases s.len() - i,
    {
        let c = s[i];
        if dec_digit(c) {
            i = i + 1;
        } else if c == '_' {
            if i + 1 >= s.len() {
                return ParseResult::Error(FLOAT_UNDERSCORE_AT_END);
            }
            let d = s[i + 1];
            if dec_digit(d) {
                i = i + 2;
            } else if d == '_' {
                return ParseResult::Error(FLOAT_MULTIPLE_UNDERSCORES);
            } else if hex_digit(d) {
                return ParseResult::Error(FLOAT_HEX_CHAR_AFTER_UNDERSCORE);
            } else {
                return ParseResult::Error(FLOAT_INVALID_CHAR_AFTER_UNDERSCORE);
            }
        } else if c == 'e' || c == 'E' {
            if fraction {
                break;
            } else {
                return ParseResult::Error(FLOAT_DUPLICATE_EXPONENT);
            }
        } else if hex_digit(c) {
            return ParseResult::Error(FLOAT_HEX_CHAR_IN_PART);
        } else {
            break;
        }
    }
    ParseResult::Value((), i)
}

/// `float-exp-part = [ minus / plus ] zero-prefixable-int`, at `q` (after
/// the `e`).
pub open spec fn float_exp_spec(s: Seq<char>, q: int) -> ParseResult<()> {
    if q < 0 || q >= s.len() {
        ParseResult::Error(FLOAT_EXP_NO_DIGIT_AFTER_E)
    } else {
        float_digits_spec(
            s,
            if s[q] == '+' || s[q] == '-' {
                q + 1
            } else {
                q
            },
            false,
        )
    }
}

fn parse_float_exp_part(s: &Vec<char>, q: usize) -> (r: ParseResult<()>)
    requires
        q <= s.len(),
    ensures
        r == float_exp_spec(s@, q as int),
{
    if q >= s.len() {
        return ParseResult::Error(FLOAT_EXP_NO_DIGIT_AFTER_E);
    }
    let d = if s[q] == '+' || s[q] == '-' {
        q + 1
    } else {
        q
    };
    parse_float_digits(s, d, false)
}

/// The value of the decimal digits in `s[i..j]`; other characters (the
/// underscores between digits, a sign) are skipped.
pub open spec fn digits_value(s: Seq<char>, i: int, j: int) -> nat
    decreases j - i,
{
    if j <= i {
        0
    } else if is_dec(s[j - 1]) {
        digits_value(s, i, j - 1) * 10 + hex_val(s[j - 1])
    } else {
        digits_value(s, i, j - 1)
    }
}

/// The number of decimal digits in `s[i..j]`.
pub open spec fn digits_count(s: Seq<char>, i: int, j: int) -> nat
    decreases j - i,
{
    if j <= i {
        0
    } else if is_dec(s[j - 1]) {
        digits_count(s, i, j - 1) + 1
    } else {
        digits_count(s, i, j - 1)
    }
}

/// The exponent written at `q` (just after the `e`) up to `b`.
pub open spec fn exp_value(s: Seq<char>, q: int, b: int) -> int {
    if 0 <= q < s.len() && s[q] == '-' {
        -(digits_value(s, q, b) as int)
    } else {
        digits_value(s, q, b) as int
    }
}

/// The marker for the power of ten `x` by which a float's digits are
/// scaled: `over` and `under` when `x` leaves the range of `i32`, `pow10`
/// when `10^x` is beyond the largest finite `f64` (that is, `x > 308`).
pub open spec fn scale_marker(x: int, over: usize, under: usize, pow10: usize) -> Option<usize> {
    if x > i32::MAX {
        Some(over)
    } else if x < i32::MIN {
        Some(under)
    } else if x > 308 {
        Some(pow10)
    } else {
        None
    }
}

/// The largest value that `digits_capped` reports exactly.
pub const DIGITS_CAP: u128 = 1000000000000000000000000000000u128;

/// `digits_value(s, i, j)`, or `DIGITS_CAP` when it is at least that.
fn digits_capped(s: &Vec<char>, i: usize, j: usize) -> (r: u128)
    requires
        i <= j <= s.len(),
    ensures
        r == if digits_value(s@, i as int, j as int) >= DIGITS_CAP {
            DIGITS_CAP as nat
        } else {
            digits_value(s@, i as int, j as int)
        },
{
    let mut acc: u128 = 0;
    let mut k = i;
    while k < j
        invariant
            i <= k <= j <= s.len(),
            acc == if digits_value(s@, i as int, k as int) >= DIGITS_CAP {
                DIGITS_CAP as nat
            } else {
                digits_value(s@, i as int, k as int)
            },
        decreases j - k,
    {
        let c = s[k];
        if dec_digit(c) {
            let d = ((c as u32) - ('0' as u32)) as u128;
            let next = acc * 10 + d;
            acc = if next >= DIGITS_CAP {
                DIGITS_CAP
            } else {
                next
            };
        }
        k = k + 1;
    }
    acc
}

/// `digits_count(s, i, j)`.
fn count_digits(s: &Vec<char>, i: usize, j: usize) -> (n: usize)
    requires
        i <= j <= s.len(),
    ensures
        n == digits_count(s@, i as int, j as int),
{
    let mut n: usize = 0;
    let mut k = i;
    while k < j
        invariant
            i <= k <= j <= s.len(),
            n == digits_count(s@, i as int, k as int),
            n <= k - i,
        decreases j - k,
    {
        if dec_digit(s[k]) {
            n = n + 1;
        }
        k = k + 1;
    }
    n
}

/// The marker, if any, for the exponent written at `q` up to `b` of a float
/// whose fraction has `l` digits.
fn scale_check(s: &Vec<char>, q: usize, b: usize, l: usize, over: usize, under: usize, pow10: usize) -> (r: Option<usize>)
    requires
        q < b <= s.len(),
    ensures
        r == scale_marker(exp_value(s@, q as int, b as int) - l, over, under, pow10),
{
    let v = digits_capped(s, q, b);
    let neg = s[q] == '-';
    let x: i128 = if neg {
        -(v as i128) - (l as i128)
    } else {
        (v as i128) - (l as i128)
    };
    proof {
        let t = exp_value(s@, q as int, b as int) - l;
        if digits_value(s@, q as int, b as int) >= DIGITS_CAP {
            if neg {
                assert(t < i32::MIN && x < i32::MIN);
            } else {
                assert(t > i32::MAX && x > i32::MAX);
            }
        } else {
            assert(x == t);
        }
    }
    if x > 2147483647 {
        Some(over)
    } else if x < -2147483648 {
        Some(under)
    } else if x > 308 {
        Some(pow10)
    } else {
        None
    }
}

/// `float = float-int-part ( exp / frac [ exp ] ) / special-float`: a float
/// is its text from `p`; an integer not followed by a fraction or an
/// exponent is returned as an integer.
pub open spec fn float_spec(s: Seq<char>, p: int) -> ParseResult<NumberM> {
    match special_float_spec(s, p) {
        ParseResult::Value(_, q) => ParseResult::Value(NumberM::Float(s.subrange(p, q as int)), q),
        ParseResult::Error(e) => ParseResult::Error(e),
        ParseResult::NoMatch => match integer_spec(s, p) {
            ParseResult::Value(d, i) => if i >= s.len() {
                ParseResult::Value(NumberM::Integer(d), i)
            } else if s[i as int] == '.' && !(prefix_at_spec(s, p, 'x') || prefix_at_spec(s, p, 'o')
                || prefix_at_spec(s, p, 'b')) {
                match float_digits_spec(s, i + 1, true) {
                    ParseResult::Value(_, a) => if a < s.len() && (s[a as int] == 'e' || s[a as int]
                        == 'E') {
                        match float_exp_spec(s, a + 1) {
                            ParseResult::Value(_, b) => match scale_marker(
                                exp_value(s, a + 1, b as int) - digits_count(s, i + 1, a as int),
                                FLOAT_FRAC_EXP_OVERFLOW_I32,
                                FLOAT_FRAC_EXP_UNDERFLOW_I32,
                                FLOAT_FRAC_POW10_OVERFLOW,
                            ) {
                                Some(m) => ParseResult::Error(m),
                                None => ParseResult::Value(NumberM::Float(s.subrange(p, b as int)), b),
                            },
                            ParseResult::Error(e) => ParseResult::Error(e),
                            ParseResult::NoMatch => ParseResult::NoMatch,
                        }
                    } else {
                        ParseResult::Value(NumberM::Float(s.subrange(p, a as int)), a)
                    },
                    ParseResult::Error(e) => ParseResult::Error(e),
                    ParseResult::NoMatch => ParseResult::NoMatch,
                }
            } else if s[i as int] == 'e' || s[i as int] == 'E' {
                match float_exp_spec(s, i + 1) {
                    ParseResult::Value(_, b) => match scale_marker(
                        exp_value(s, i + 1, b as int),
                        FLOAT_EXP_ONLY_EXP_OVERFLOW_I32,
                        FLOAT_EXP_ONLY_EXP_UNDERFLOW_I32,
                        FLOAT_EXP_ONLY_POW10_OVERFLOW,
                    ) {
                        Some(m) => ParseResult::Error(m),
                        None => ParseResult::Value(NumberM::Float(s.subrange(p, b as int)), b),
                    },
                    ParseResult::Error(e) => ParseResult::Error(e),
                    ParseResult::NoMatch => ParseResult::NoMatch,
                }
            } else {
                ParseResult::Value(NumberM::Integer(d), i)
            },
            ParseResult::Error(e) => ParseResult::Error(e),
            ParseResult::NoMatch => ParseResult::NoMatch,
        },
    }
}

pub proof fn lemma_float_digits(s: Seq<char>, i: int, fraction: bool)
    requires
        0 <= i <= s.len(),
        s.len() <= usize::MAX,
    ensures
        float_digits_rest(s, i, fraction) matches ParseResult::Value(_, e) ==> i <= e <= s.len(),
        float_digits_rest(s, i, fraction) is Error ==> toml_marker(
            float_digits_rest(s, i, fraction)->Error_0,
        ),
        !(float_digits_rest(s, i, fraction) is NoMatch),
    decreases s.len() - i,
{
    if i < s.len() {
        if is_dec(s[i]) {
            lemma_float_digits(s, i + 1, fraction);
        } else if s[i] == '_' && i + 1 < s.len() && is_dec(s[i + 1]) {
            lemma_float_digits(s, i + 2, fraction);
        }
    }
}

/// A fraction or exponent read at `q` ends after `q` and within the input.
pub proof fn lemma_float_digits_bounds(s: Seq<char>, q: int, fraction: bool)
    requires
        0 <= q <= s.len(),
        s.len() <= usize::MAX,
    ensures
        float_digits_spec(s, q, fraction) matches ParseResult::Value(_, e) ==> q < e <= s.len(),
        float_exp_spec(s, q) matches ParseResult::Value(_, e) ==> q < e <= s.len(),
{
    if q < s.len() {
        lemma_float_digits(s, q + 1, fraction);
        lemma_float_digits(s, q + 1, false);
        if q + 2 <= s.len() {
            lemma_float_digits(s, q + 2, false);
        }
    }
}

/// A match of the float rule ends after its start and within the input, and
/// an error names a TOML marker.
#[verifier::spinoff_prover]
#[verifier::rlimit(40)]
pub proof fn lemma_float_sound(s: Seq<char>, p: int)
    requires
        0 <= p <= s.len(),
        s.len() <= usize::MAX,
    ensures
        float_spec(s, p).sound(p, s.len() as int),
        float_spec(s, p).advances(p),
{
    reveal_strlit("inf");
    reveal_strlit("nan");
    assert(toml_marker(FLOAT_FRAC_EXP_OVERFLOW_I32) && toml_marker(FLOAT_FRAC_EXP_UNDERFLOW_I32)
        && toml_marker(FLOAT_FRAC_POW10_OVERFLOW) && toml_marker(FLOAT_EXP_ONLY_EXP_OVERFLOW_I32)
        && toml_marker(FLOAT_EXP_ONLY_EXP_UNDERFLOW_I32) && toml_marker(FLOAT_EXP_ONLY_POW10_OVERFLOW));
    lemma_integer_sound(s, p);
    match integer_spec(s, p) {
        ParseResult::Value(d, i) => {
            let i = i as int;
            if i + 2 <= s.len() {
                lemma_float_digits(s, i + 2, true);
                lemma_float_digits(s, i + 2, false);
            }
            if i + 3 <= s.len() {
                lemma_float_digits(s, i + 3, false);
            }
            if i + 1 <= s.len() {
                match float_digits_spec(s, i + 1, true) {
                    ParseResult::Value(_, a) => {
                        let a = a as int;
                        if a + 2 <= s.len() {
                            lemma_float_digits(s, a + 2, false);
                        }
                        if a + 3 <= s.len() {
                            lemma_float_digits(s, a + 3, false);
                        }
                    },
                    _ => {},
                }
            }
        },
        _ => {},
    }
}

/// Parse a float (or the integer that the float rule meets).
pub fn parse_float(s: &Vec<char>, p: usize) -> (r: ParseResult<Number>)
    requires
        p <= s.len(),
    ensures
        r@ == float_spec(s@, p as int),
        r.sound(p as int, s.len() as int),
        r.advances(p as int),
{
    proof {
        lemma_float_sound(s@, p as int);
    }
    match parse_special_float(s, p) {
        ParseResult::Value(_, q) => return ParseResult::Value(
            Number::Float(crate::text::copy_range(s, p, q)),
            q,
        ),
        ParseResult::Error(e) => return ParseResult::Error(e),
        ParseResult::NoMatch => {},
    }
    match parse_integer(s, p) {
        ParseResult::Value(d, i) => {
            if i >= s.len() {
                return ParseResult::Value(Number::Integer(d), i);
            }
            let nc = s[i];
            let prefixed = prefix_at(s, p, 'x') || prefix_at(s, p, 'o') || prefix_at(s, p, 'b');
            if nc == '.' && !prefixed {
                proof {
                    lemma_float_digits_bounds(s@, i + 1, true);
                }
                match parse_float_digits(s, i + 1, true) {
                    ParseResult::Value(_, a) => {
                        if a < s.len() && (s[a] == 'e' || s[a] == 'E') {
                            proof {
                                lemma_float_digits_bounds(s@, a + 1, false);
                            }
                            match parse_float_exp_part(s, a + 1) {
                                ParseResult::Value(_, b) => {
                                    let l = count_digits(s, i + 1, a);
                                    match scale_check(
                                        s,
                                        a + 1,
                                        b,
                                        l,
                                        FLOAT_FRAC_EXP_OVERFLOW_I32,
                                        FLOAT_FRAC_EXP_UNDERFLOW_I32,
                                        FLOAT_FRAC_POW10_OVERFLOW,
                                    ) {
                                        Some(m) => ParseResult::Error(m),
                                        None => ParseResult::Value(
                                            Number::Float(crate::text::copy_range(s, p, b)),
                                            b,
                                        ),
                                    }
                                },
                                ParseResult::Error(e) => ParseResult::Error(e),
                                ParseResult::NoMatch => ParseResult::NoMatch,
                            }
                        } else {
                            ParseResult::Value(Number::Float(crate::text::copy_range(s, p, a)), a)
                        }
                    },
                    ParseResult::Error(e) => ParseResult::Error(e),
                    ParseResult::NoMatch => ParseResult::NoMatch,
                }
            } else if nc == 'e' || nc == 'E' {
                proof {
                    lemma_float_digits_bounds(s@, i + 1, false);
                }
                match parse_float_exp_part(s, i + 1) {
                    ParseResult::Value(_, b) => match scale_check(
                        s,
                        i + 1,
                        b,
                        0,
                        FLOAT_EXP_ONLY_EXP_OVERFLOW_I32,
                        FLOAT_EXP_ONLY_EXP_UNDERFLOW_I32,
                        FLOAT_EXP_ONLY_POW10_OVERFLOW,
                    ) {
                        Some(m) => ParseResult::Error(m),
                        None => ParseResult::Value(
                            Number::Float(crate::text::copy_range(s, p, b)),
                            b,
                        ),
                    },
                    ParseResult::Error(e) => ParseResult::Error(e),
                    ParseResult::NoMatch => ParseResult::NoMatch,
                }
            } else {
                ParseResult::Value(Number::Integer(d), i)
            }
        },
        ParseResult::Error(e) => ParseResult::Error(e),
        ParseResult::NoMatch => ParseResult::NoMatch,
    }
}

// ---------------------------------------------------------------------------
// Dates and times (RFC 3339)
// ---------------------------------------------------------------------------


/// The value of two decimal digits.
pub open spec fn two_digit_val(a: char, b: char) -> int {
    (a as u32 - '0' as u32) * 10 + (b as u32 - '0' as u32)
}

/// A two-digit field at `p` (hour, minute or second) whose value is at most
/// `max`; `first` and `second` name a non-digit in its first and second
/// place, `range` a value above `max`. A field cut short by the end of input
/// does not match.
pub open spec fn time_field_spec(
    s: Seq<char>,
    p: int,
    max: int,
    first: usize,
    second: usize,
    range: usize,
) -> ParseResult<()> {
    if p >= s.len() {
        ParseResult::NoMatch
    } else if !is_dec(s[p]) {
        ParseResult::Error(first)
    } else if p + 1 >= s.len() {
        ParseResult::NoMatch
    } else if !is_dec(s[p + 1]) {
        ParseResult::Error(second)
    } else if two_digit_val(s[p], s[p + 1]) > max {
        ParseResult::Error(range)
    } else {
        ParseResult::Value((), (p + 2) as usize)
    }
}

/// The value of two digit characters.
fn two_digits(a: char, b: char) -> (r: u32)
    requires
        is_dec(a),
        is_dec(b),
    ensures
        r == two_digit_val(a, b),
{
    (a as u32 - 48) * 10 + (b as u32 - 48)
}

/// Parse a two-digit time field.
fn parse_time_field(
    s: &Vec<char>,
    p: usize,
    max: u32,
    first: usize,
    second: usize,
    range: usize,
) -> (r: ParseResult<()>)
    requires
        p <= s.len(),
        toml_marker(first),
        toml_marker(second),
        toml_marker(range),
    ensures
        r == time_field_spec(s@, p as int, max as int, first, second, range),
        r.sound(p as int, s.len() as int),
        r.advances(p as int),
{
    if p >= s.len() {
        ParseResult::NoMatch
    } else if !dec_digit(s[p]) {
        ParseResult::Error(first)
    } else if p + 1 >= s.len() {
        ParseResult::NoMatch
    } else if !dec_digit(s[p + 1]) {
        ParseResult::Error(second)
    } else if two_digits(s[p], s[p + 1]) > max {
        ParseResult::Error(range)
    } else {
        ParseResult::Value((), p + 2)
    }
}

/// `time-hour = 2DIGIT ; 00-23`.
pub fn parse_time_hour(s: &Vec<char>, p: usize) -> (r: ParseResult<()>)
    requires
        p <= s.len(),
    ensures
        r == time_field_spec(
            s@,
            p as int,
            23,
            TIME_HOUR_FIRST_CHAR_NOT_DIGIT,
            TIME_HOUR_SECOND_CHAR_NOT_DIGIT,
            TIME_HOUR_OUT_OF_RANGE,
        ),
        r.sound(p as int, s.len() as int),
        r.advances(p as int),
{
    parse_time_field(
        s,
        p,
        23,
        TIME_HOUR_FIRST_CHAR_NOT_DIGIT,
        TIME_HOUR_SECOND_CHAR_NOT_DIGIT,
        TIME_HOUR_OUT_OF_RANGE,
    )
}

/// `time-minute = 2DIGIT ; 00-59`.
pub fn parse_time_minute(s: &Vec<char>, p: usize) -> (r: ParseResult<()>)
    requires
        p <= s.len(),
    ensures
        r == time_field_spec(
            s@,
            p as int,
            59,
            TIME_MINUTE_FIRST_CHAR_NOT_DIGIT,
            TIME_MINUTE_SECOND_CHAR_NOT_DIGIT,
            TIME_MINUTE_OUT_OF_RANGE,
        ),
        r.sound(p as int, s.len() as int),
        r.advances(p as int),
{
    parse_time_field(
        s,
        p,
        59,
        TIME_MINUTE_FIRST_CHAR_NOT_DIGIT,
        TIME_MINUTE_SECOND_CHAR_NOT_DIGIT,
        TIME_MINUTE_OUT_OF_RANGE,
    )
}

/// `time-second = 2DIGIT ; 00-60` (60 for a leap second).
pub fn parse_time_second(s: &Vec<char>, p: usize) -> (r: ParseResult<()>)
    requires
        p <= s.len(),
    ensures
        r == time_field_spec(
            s@,
            p as int,
            60,
            TIME_SECOND_FIRST_CHAR_NOT_DIGIT,
            TIME_SECOND_SECOND_CHAR_NOT_DIGIT,
            TIME_SECOND_OUT_OF_RANGE,
        ),
        r.sound(p as int, s.len() as int),
        r.advances(p as int),
{
    parse_time_field(
        s,
        p,
        60,
        TIME_SECOND_FIRST_CHAR_NOT_DIGIT,
        TIME_SECOND_SECOND_CHAR_NOT_DIGIT,
        TIME_SECOND_OUT_OF_RANGE,
    )
}

/// The end of the run of decimal digits that starts at `q`.
pub open spec fn dec_run_end(s: Seq<char>, q: int) -> int
    decreases s.len() - q,
{
    if 0 <= q < s.len() && is_dec(s[q]) {
        dec_run_end(s, q + 1)
    } else {
        q
    }
}

proof fn lemma_dec_run_end(s: Seq<char>, q: int)
    requires
        0 <= q <= s.len(),
    ensures
        q <= dec_run_end(s, q) <= s.len(),
    decreases s.len() - q,
{
    if q < s.len() && is_dec(s[q]) {
        lemma_dec_run_end(s, q + 1);
    }
}

/// `time-secfrac = "." 1*DIGIT`.
pub open spec fn secfrac_spec(s: Seq<char>, p: int) -> ParseResult<()> {
    if p < 0 || p >= s.len() || s[p] != '.' {
        ParseResult::NoMatch
    } else if p + 1 >= s.len() {
        ParseResult::Error(TIME_SECFRAC_NO_DIGIT_AFTER_DOT_EOF)
    } else if !is_dec(s[p + 1]) {
        ParseResult::Error(TIME_SECFRAC_NO_DIGIT_AFTER_DOT_NONDIGIT)
    } else {
        ParseResult::Value((), dec_run_end(s, p + 2) as usize)
    }
}

fn parse_time_secfrac(s: &Vec<char>, p: usize) -> (r: ParseResult<()>)
    requires
        p <= s.len(),
    ensures
        r == secfrac_spec(s@, p as int),
        r.sound(p as int, s.len() as int),
        r.advances(p as int),
{
    if p >= s.len() || s[p] != '.' {
        return ParseResult::NoMatch;
    }
    if p + 1 >= s.len() {
        return ParseResult::Error(TIME_SECFRAC_NO_DIGIT_AFTER_DOT_EOF);
    }
    if !dec_digit(s[p + 1]) {
        return ParseResult::Error(TIME_SECFRAC_NO_DIGIT_AFTER_DOT_NONDIGIT);
    }
    let mut q = p + 2;
    while q < s.len() && dec_digit(s[q])
        invariant
            p + 2 <= q <= s.len(),
            dec_run_end(s@, p + 2) == dec_run_end(s@, q as int),
        decreases s.len() - q,
    {
        q = q + 1;
    }
    ParseResult::Value((), q)
}

/// Append `s[a..b]` to `out`.
fn push_range(out: &mut Vec<char>, s: &Vec<char>, a: usize, b: usize)
    requires
        a <= b <= s.len(),
    ensures
        final(out)@ == old(out)@ + s@.subrange(a as int, b as int),
{
    let mut i = a;
    while i < b
        invariant
            a <= i <= b <= s.len(),
            out@ == old(out)@ + s@.subrange(a as int, i as int),
        decreases b - i,
    {
        out.push(s[i]);
        assert(s@.subrange(a as int, i + 1) == s@.subrange(a as int, i as int).push(s@[i as int]));
        i = i + 1;
    }
}

/// The character at `p`, if any.
pub open spec fn char_at_spec(s: Seq<char>, p: int) -> Option<char> {
    if 0 <= p < s.len() {
        Some(s[p])
    } else {
        None
    }
}

fn char_at(s: &Vec<char>, p: usize) -> (r: Option<char>)
    ensures
        r == char_at_spec(s@, p as int),
{
    if p < s.len() {
        Some(s[p])
    } else {
        None
    }
}

/// The seconds of a partial time (`00` when there are none, that is when
/// `c2`, five places after `p`, is not a colon), as the text so far and the
/// position after them.
pub open spec fn partial_time_seconds(s: Seq<char>, p: int, c2: char) -> ParseResult<(Seq<char>, int)> {
    let head = s.subrange(p, p + 5) + seq![':'];
    if c2 != ':' {
        ParseResult::Value((head + "00"@, p + 5), 0)
    } else {
        match time_field_spec(
            s,
            p + 6,
            60,
            TIME_SECOND_FIRST_CHAR_NOT_DIGIT,
            TIME_SECOND_SECOND_CHAR_NOT_DIGIT,
            TIME_SECOND_OUT_OF_RANGE,
        ) {
            ParseResult::Value(_, _) => ParseResult::Value((head + s.subrange(p + 6, p + 8), p + 8), 0),
            ParseResult::Error(e) => ParseResult::Error(e),
            ParseResult::NoMatch => ParseResult::Error(PARTIAL_TIME_EXPECT_SECOND_AFTER_MINUTE),
        }
    }
}

/// After hour and minute: the seconds, then an optional fraction.
pub open spec fn partial_time_tail(s: Seq<char>, p: int, c2: char) -> ParseResult<Seq<char>> {
    match partial_time_seconds(s, p, c2) {
        ParseResult::Value((text, q), _) => match secfrac_spec(s, q) {
            ParseResult::Value(_, f) => ParseResult::Value(text + s.subrange(q, f as int), f),
            ParseResult::Error(e) => ParseResult::Error(e),
            ParseResult::NoMatch => ParseResult::Value(text, q as usize),
        },
        ParseResult::Error(e) => ParseResult::Error(e),
        ParseResult::NoMatch => ParseResult::NoMatch,
    }
}

/// `partial-time = time-hour ":" time-minute [ ":" time-second ]
/// [ time-secfrac ]`, recognised by the colons two and five places ahead;
/// its text has the seconds written out. The end of the input just after
/// the minutes counts as any other character there that is no colon: the
/// seconds are left out.
pub open spec fn partial_time_spec(s: Seq<char>, p: int) -> ParseResult<Seq<char>> {
    let first = if s.len() - p > 2 {
        char_at_spec(s, p + 2)
    } else {
        None
    };
    let second = if s.len() - p > 5 {
        char_at_spec(s, p + 5)
    } else if s.len() - p == 5 {
        Some('\n')
    } else {
        None
    };
    match first {
        None => ParseResult::NoMatch,
        Some(c1) => if c1 == ':' {
            match second {
                None => ParseResult::Error(PARTIAL_TIME_EXPECT_SECOND_AFTER_MINUTE),
                Some(c2) => match time_field_spec(
                    s,
                    p,
                    23,
                    TIME_HOUR_FIRST_CHAR_NOT_DIGIT,
                    TIME_HOUR_SECOND_CHAR_NOT_DIGIT,
                    TIME_HOUR_OUT_OF_RANGE,
                ) {
                    ParseResult::Value(_, _) => match time_field_spec(
                        s,
                        p + 3,
                        59,
                        TIME_MINUTE_FIRST_CHAR_NOT_DIGIT,
                        TIME_MINUTE_SECOND_CHAR_NOT_DIGIT,
                        TIME_MINUTE_OUT_OF_RANGE,
                    ) {
                        ParseResult::Value(_, _) => partial_time_tail(s, p, c2),
                        ParseResult::Error(e) => ParseResult::Error(e),
                        ParseResult::NoMatch => ParseResult::NoMatch,
                    },
                    ParseResult::Error(e) => ParseResult::Error(e),
                    ParseResult::NoMatch => ParseResult::NoMatch,
                },
            }
        } else {
            match second {
                Some(c2) => if c2 == ':' {
                    ParseResult::Error(PARTIAL_TIME_SECOND_COLON_WITHOUT_FIRST)
                } else {
                    ParseResult::NoMatch
                },
                None => ParseResult::NoMatch,
            }
        },
    }
}

/// Parse a partial time: its text.
pub fn partial_time(s: &Vec<char>, p: usize) -> (r: ParseResult<Vec<char>>)
    requires
        p <= s.len(),
    ensures
        r@ == partial_time_spec(s@, p as int),
        r.sound(p as int, s.len() as int),
        r.advances(p as int),
{
    let first_colon = if s.len() - p > 2 {
        char_at(s, p + 2)
    } else {
        None
    };
    let second_colon = if s.len() - p > 5 {
        char_at(s, p + 5)
    } else if s.len() - p == 5 {
        Some('\n')
    } else {
        None
    };
    match first_colon {
        None => ParseResult::NoMatch,
        Some(c1) => {
            if c1 == ':' {
                match second_colon {
                    None => ParseResult::Error(PARTIAL_TIME_EXPECT_SECOND_AFTER_MINUTE),
                    Some(c2) => {
                        match parse_time_hour(s, p) {
                            ParseResult::Value(_, _) => {},
                            ParseResult::Error(e) => return ParseResult::Error(e),
                            ParseResult::NoMatch => return ParseResult::NoMatch,
                        }
                        match parse_time_minute(s, p + 3) {
                            ParseResult::Value(_, _) => {},
                            ParseResult::Error(e) => return ParseResult::Error(e),
                            ParseResult::NoMatch => return ParseResult::NoMatch,
                        }
                        let mut text: Vec<char> = Vec::new();
                        push_range(&mut text, s, p, p + 5);
                        text.push(':');
                        assert(text@ =~= s@.subrange(p as int, p + 5) + seq![':']);
                        let mut q = p + 5;
                        if c2 != ':' {
                            text.push('0');
                            text.push('0');
                            proof {
                                reveal_strlit("00");
                                assert(text@ =~= s@.subrange(p as int, p + 5) + seq![':'] + "00"@);
                            }
                        } else {
                            match parse_time_second(s, p + 6) {
                                ParseResult::Value(_, _) => {},
                                ParseResult::Error(e) => return ParseResult::Error(e),
                                ParseResult::NoMatch => return ParseResult::Error(
                                    PARTIAL_TIME_EXPECT_SECOND_AFTER_MINUTE,
                                ),
                            }
                            push_range(&mut text, s, p + 6, p + 8);
                            assert(text@ =~= s@.subrange(p as int, p + 5) + seq![':'] + s@.subrange(p + 6, p + 8));
                            q = p + 8;
                        }
                        match parse_time_secfrac(s, q) {
                            ParseResult::Value(_, f) => {
                                push_range(&mut text, s, q, f);
                                ParseResult::Value(text, f)
                            },
                            ParseResult::Error(e) => ParseResult::Error(e),
                            ParseResult::NoMatch => ParseResult::Value(text, q),
                        }
                    },
                }
            } else {
                match second_colon {
                    Some(c2) => {
                        if c2 == ':' {
                            ParseResult::Error(PARTIAL_TIME_SECOND_COLON_WITHOUT_FIRST)
                        } else {
                            ParseResult::NoMatch
                        }
                    },
                    None => ParseResult::NoMatch,
                }
            }
        },
    }
}

/// Gregorian leap year.
pub open spec fn is_leap_year(y: int) -> bool {
    (y % 4 == 0 && y % 100 != 0) || y % 400 == 0
}

/// `day` is a day of `month` in `year` (months other than 2, 4, 6, 9 and 11
/// have 31 days, whatever their number).
pub open spec fn valid_day(month: int, day: int, year: int) -> bool {
    if month == 2 {
        if is_leap_year(year) {
            1 <= day <= 29
        } else {
            1 <= day <= 28
        }
    } else if month == 4 || month == 6 || month == 9 || month == 11 {
        1 <= day <= 30
    } else {
        1 <= day <= 31
    }
}

/// Executable `valid_day`.
pub fn is_valid_day(month: u32, day: u32, year: u32) -> (r: bool)
    ensures
        r == valid_day(month as int, day as int, year as int),
{
    if month == 2 {
        let leap = (year % 4 == 0 && year % 100 != 0) || year % 400 == 0;
        if leap {
            1 <= day && day <= 29
        } else {
            1 <= day && day <= 28
        }
    } else if month == 4 || month == 6 || month == 9 || month == 11 {
        1 <= day && day <= 30
    } else {
        1 <= day && day <= 31
    }
}

/// Two digits at `q` for a date field, or the marker for a non-digit in its
/// first or second place; `None` when the input ends first.
pub open spec fn date_field_spec(s: Seq<char>, q: int, first: usize, second: usize) -> Option<
    Result<u32, usize>,
> {
    if q >= s.len() {
        None
    } else if !is_dec(s[q]) {
        Some(Err(first))
    } else if q + 1 >= s.len() {
        None
    } else if !is_dec(s[q + 1]) {
        Some(Err(second))
    } else {
        Some(Ok(two_digit_val(s[q], s[q + 1]) as u32))
    }
}

fn date_field(s: &Vec<char>, q: usize, first: usize, second: usize) -> (r: Option<
    Result<u32, usize>,
>)
    requires
        q <= s.len(),
    ensures
        r == date_field_spec(s@, q as int, first, second),
        r matches Some(Ok(v)) ==> q + 2 <= s.len() && v < 100,
{
    if q >= s.len() {
        None
    } else if !dec_digit(s[q]) {
        Some(Err(first))
    } else if q + 1 >= s.len() {
        None
    } else if !dec_digit(s[q + 1]) {
        Some(Err(second))
    } else {
        Some(Ok(two_digits(s[q], s[q + 1])))
    }
}

/// The marker for a non-digit in place `i` of the year.
pub open spec fn year_marker(i: int) -> usize {
    if i == 0 {
        DATE_YEAR_FIRST_CHAR_NOT_DIGIT
    } else if i == 1 {
        DATE_YEAR_SECOND_CHAR_NOT_DIGIT
    } else if i == 2 {
        DATE_YEAR_THIRD_CHAR_NOT_DIGIT
    } else {
        DATE_YEAR_FOURTH_CHAR_NOT_DIGIT
    }
}

/// The four-digit year at `p`, read from place `i` on with `acc` the value of
/// the places before, or the marker of its first non-digit.
pub open spec fn year_spec(s: Seq<char>, p: int, i: int, acc: int) -> Result<int, usize>
    decreases 4 - i,
{
    if i >= 4 {
        Ok(acc)
    } else if !is_dec(s[p + i]) {
        Err(year_marker(i))
    } else {
        year_spec(s, p, i + 1, acc * 10 + (s[p + i] as int - 48))
    }
}

/// The year, month and day at `p`, after the dashes were found in place.
pub open spec fn date_fields_spec(s: Seq<char>, p: int) -> ParseResult<Seq<char>> {
    match year_spec(s, p, 0, 0) {
        Err(e) => ParseResult::Error(e),
        Ok(y) => match date_field_spec(
            s,
            p + 5,
            DATE_MONTH_FIRST_CHAR_NOT_DIGIT,
            DATE_MONTH_SECOND_CHAR_NOT_DIGIT,
        ) {
            None => ParseResult::NoMatch,
            Some(Err(e)) => ParseResult::Error(e),
            Some(Ok(m)) => match date_field_spec(
                s,
                p + 8,
                DATE_MDAY_FIRST_CHAR_NOT_DIGIT,
                DATE_MDAY_SECOND_CHAR_NOT_DIGIT,
            ) {
                None => ParseResult::Error(FULL_DATE_EXPECT_MDAY_AFTER_MONTH),
                Some(Err(e)) => ParseResult::Error(e),
                Some(Ok(d)) => if !valid_day(m as int, d as int, y) {
                    ParseResult::Error(DATE_INVALID_DAY)
                } else if m < 1 || m > 12 {
                    ParseResult::Error(DATE_INVALID_MONTH)
                } else {
                    ParseResult::Value(s.subrange(p, p + 10), (p + 10) as usize)
                },
            },
        },
    }
}

/// When the dashes do not make a date: a float there is no date, anything
/// else is the given error.
pub open spec fn not_a_date_spec(s: Seq<char>, p: int, err: usize) -> ParseResult<Seq<char>> {
    match float_spec(s, p) {
        ParseResult::Value(_, _) => ParseResult::NoMatch,
        ParseResult::Error(e) => ParseResult::Error(e),
        ParseResult::NoMatch => ParseResult::Error(err),
    }
}

fn not_a_date(s: &Vec<char>, p: usize, err: usize) -> (r: ParseResult<Vec<char>>)
    requires
        p <= s.len(),
        toml_marker(err),
    ensures
        r@ == not_a_date_spec(s@, p as int, err),
        r.sound(p as int, s.len() as int),
        r.advances(p as int),
{
    match parse_float(s, p) {
        ParseResult::Value(_, _) => ParseResult::NoMatch,
        ParseResult::Error(e) => ParseResult::Error(e),
        ParseResult::NoMatch => ParseResult::Error(err),
    }
}

/// `full-date = date-fullyear "-" date-month "-" date-mday`, recognised by the
/// dashes four and seven places ahead.
pub open spec fn full_date_spec(s: Seq<char>, p: int) -> ParseResult<Seq<char>> {
    let first = if s.len() - p > 4 {
        char_at_spec(s, p + 4)
    } else {
        None
    };
    let second = if s.len() - p > 7 {
        char_at_spec(s, p + 7)
    } else {
        None
    };
    match first {
        None => ParseResult::NoMatch,
        Some(c1) => if c1 == '-' {
            match second {
                None => not_a_date_spec(s, p, FULL_DATE_FIRST_DASH_WITHOUT_SECOND),
                Some(c2) => if c2 != '-' {
                    not_a_date_spec(s, p, FULL_DATE_SECOND_DASH_WRONG_CHAR)
                } else {
                    date_fields_spec(s, p)
                },
            }
        } else {
            match second {
                None => ParseResult::NoMatch,
                Some(c2) => if c2 == '-' {
                    not_a_date_spec(s, p, FULL_DATE_FIRST_DASH_WRONG_CHAR)
                } else {
                    ParseResult::NoMatch
                },
            }
        },
    }
}

/// Parse a full date: its text.
pub fn parse_full_date(s: &Vec<char>, p: usize) -> (r: ParseResult<Vec<char>>)
    requires
        p <= s.len(),
    ensures
        r@ == full_date_spec(s@, p as int),
        r.sound(p as int, s.len() as int),
        r.advances(p as int),
{
    let first_dash = if s.len() - p > 4 {
        char_at(s, p + 4)
    } else {
        None
    };
    let second_dash = if s.len() - p > 7 {
        char_at(s, p + 7)
    } else {
        None
    };
    match first_dash {
        None => ParseResult::NoMatch,
        Some(c1) => {
            if c1 == '-' {
                match second_dash {
                    None => not_a_date(s, p, FULL_DATE_FIRST_DASH_WITHOUT_SECOND),
                    Some(c2) => {
                        if c2 != '-' {
                            return not_a_date(s, p, FULL_DATE_SECOND_DASH_WRONG_CHAR);
                        }
                        let year_markers: [usize; 4] = [
                            DATE_YEAR_FIRST_CHAR_NOT_DIGIT,
                            DATE_YEAR_SECOND_CHAR_NOT_DIGIT,
                            DATE_YEAR_THIRD_CHAR_NOT_DIGIT,
                            DATE_YEAR_FOURTH_CHAR_NOT_DIGIT,
                        ];
                        let mut year: u32 = 0;
                        let mut i: usize = 0;
                        while i < 4
                            invariant
                                i <= 4,
                                p + 7 < s.len(),
                                year as int <= (if i == 0 { 0int } else if i == 1 { 9int } else if i == 2 { 99int } else if i == 3 { 999int } else { 9999int }),
                                forall|k: int| 0 <= k < 4 ==> #[trigger] year_markers@[k] == year_marker(k),
                                year_spec(s@, p as int, 0, 0) == year_spec(s@, p as int, i as int, year as int),
                                full_date_spec(s@, p as int) == date_fields_spec(s@, p as int),
                            decreases 4 - i,
                        {
                            let c = s[p + i];
                            if !dec_digit(c) {
                                assert(year_markers@[i as int] == year_marker(i as int));
                                return ParseResult::Error(year_markers[i]);
                            }
                            year = year * 10 + (c as u32 - 48);
                            i = i + 1;
                        }
                        let month = match date_field(
                            s,
                            p + 5,
                            DATE_MONTH_FIRST_CHAR_NOT_DIGIT,
                            DATE_MONTH_SECOND_CHAR_NOT_DIGIT,
                        ) {
                            None => return ParseResult::NoMatch,
                            Some(Err(e)) => return ParseResult::Error(e),
                            Some(Ok(m)) => m,
                        };
                        let day = match date_field(
                            s,
                            p + 8,
                            DATE_MDAY_FIRST_CHAR_NOT_DIGIT,
                            DATE_MDAY_SECOND_CHAR_NOT_DIGIT,
                        ) {
                            None => return ParseResult::Error(FULL_DATE_EXPECT_MDAY_AFTER_MONTH),
                            Some(Err(e)) => return ParseResult::Error(e),
                            Some(Ok(d)) => d,
                        };
                        if !is_valid_day(month, day, year) {
                            ParseResult::Error(DATE_INVALID_DAY)
                        } else if month < 1 || month > 12 {
                            ParseResult::Error(DATE_INVALID_MONTH)
                        } else {
                            ParseResult::Value(crate::text::copy_range(s, p, p + 10), p + 10)
                        }
                    },
                }
            } else {
                match second_dash {
                    None => ParseResult::NoMatch,
                    Some(c2) => {
                        if c2 == '-' {
                            not_a_date(s, p, FULL_DATE_FIRST_DASH_WRONG_CHAR)
                        } else {
                            ParseResult::NoMatch
                        }
                    },
                }
            }
        },
    }
}

/// `time-numoffset = ( "+" / "-" ) time-hour ":" time-minute`.
pub open spec fn numoffset_spec(s: Seq<char>, p: int) -> ParseResult<()> {
    if p < 0 || p >= s.len() || (s[p] != '+' && s[p] != '-') {
        ParseResult::NoMatch
    } else {
        match time_field_spec(
            s,
            p + 1,
            23,
            TIME_HOUR_FIRST_CHAR_NOT_DIGIT,
            TIME_HOUR_SECOND_CHAR_NOT_DIGIT,
            TIME_HOUR_OUT_OF_RANGE,
        ) {
            ParseResult::Value(_, q) => if q >= s.len() {
                ParseResult::Error(NUMOFFSET_EXPECT_COLON_EOF)
            } else if s[q as int] == ':' {
                match time_field_spec(
                    s,
                    q + 1,
                    59,
                    TIME_MINUTE_FIRST_CHAR_NOT_DIGIT,
                    TIME_MINUTE_SECOND_CHAR_NOT_DIGIT,
                    TIME_MINUTE_OUT_OF_RANGE,
                ) {
                    ParseResult::Value(_, e) => ParseResult::Value((), e),
                    ParseResult::Error(m) => ParseResult::Error(m),
                    ParseResult::NoMatch => ParseResult::Error(NUMOFFSET_EXPECT_MINUTE_AFTER_COLON),
                }
            } else {
                ParseResult::Error(NUMOFFSET_EXPECT_COLON_WRONG_CHAR)
            },
            ParseResult::Error(m) => ParseResult::Error(m),
            ParseResult::NoMatch => ParseResult::Error(NUMOFFSET_EXPECT_HOUR_AFTER_SIGN),
        }
    }
}

fn parse_time_numoffset(s: &Vec<char>, p: usize) -> (r: ParseResult<()>)
    requires
        p <= s.len(),
    ensures
        r == numoffset_spec(s@, p as int),
        r.sound(p as int, s.len() as int),
        r.advances(p as int),
{
    if p >= s.len() || (s[p] != '+' && s[p] != '-') {
        return ParseResult::NoMatch;
    }
    match parse_time_hour(s, p + 1) {
        ParseResult::Value(_, q) => {
            if q >= s.len() {
                ParseResult::Error(NUMOFFSET_EXPECT_COLON_EOF)
            } else if s[q] == ':' {
                match parse_time_minute(s, q + 1) {
                    ParseResult::Value(_, e) => ParseResult::Value((), e),
                    ParseResult::Error(m) => ParseResult::Error(m),
                    ParseResult::NoMatch => ParseResult::Error(NUMOFFSET_EXPECT_MINUTE_AFTER_COLON),
                }
            } else {
                ParseResult::Error(NUMOFFSET_EXPECT_COLON_WRONG_CHAR)
            }
        },
        ParseResult::Error(m) => ParseResult::Error(m),
        ParseResult::NoMatch => ParseResult::Error(NUMOFFSET_EXPECT_HOUR_AFTER_SIGN),
    }
}

/// A date, a time, or both, as text.
#[derive(Debug)]
pub enum DateTime {
    OffsetDateTime(Vec<char>),
    LocalDateTime(Vec<char>),
    LocalDate(Vec<char>),
    LocalTime(Vec<char>),
}

/// The model of a [`DateTime`]: its kind and its text.
pub ghost enum DateTimeM {
    OffsetDateTime(Seq<char>),
    LocalDateTime(Seq<char>),
    LocalDate(Seq<char>),
    LocalTime(Seq<char>),
}

impl View for DateTime {
    type V = DateTimeM;

    open spec fn view(&self) -> DateTimeM {
        match self {
            DateTime::OffsetDateTime(t) => DateTimeM::OffsetDateTime(t@),
            DateTime::LocalDateTime(t) => DateTimeM::LocalDateTime(t@),
            DateTime::LocalDate(t) => DateTimeM::LocalDate(t@),
            DateTime::LocalTime(t) => DateTimeM::LocalTime(t@),
        }
    }
}

/// After a date and its delimiter (`text` so far, the delimiter at `q`): the
/// time, then an optional offset.
pub open spec fn date_time_tail(s: Seq<char>, text: Seq<char>, q: int) -> ParseResult<DateTimeM> {
    match partial_time_spec(s, q + 1) {
        ParseResult::NoMatch => ParseResult::Error(DATETIME_EXPECT_PARTIAL_TIME_AFTER_DELIM),
        ParseResult::Error(e) => ParseResult::Error(e),
        ParseResult::Value(t, e) => {
            let text = text + t;
            if e >= s.len() {
                ParseResult::Value(DateTimeM::LocalDateTime(text), e)
            } else if s[e as int] == 'Z' {
                ParseResult::Value(DateTimeM::OffsetDateTime(text.push('Z')), (e + 1) as usize)
            } else {
                match numoffset_spec(s, e as int) {
                    ParseResult::NoMatch => ParseResult::Value(DateTimeM::LocalDateTime(text), e),
                    ParseResult::Error(m) => ParseResult::Error(m),
                    ParseResult::Value(_, f) => ParseResult::Value(
                        DateTimeM::OffsetDateTime(text + s.subrange(e as int, f as int)),
                        f,
                    ),
                }
            }
        },
    }
}

/// `date-time = offset-date-time / local-date-time / local-date / local-time`.
pub open spec fn datetime_spec(s: Seq<char>, p: int) -> ParseResult<DateTimeM> {
    match full_date_spec(s, p) {
        ParseResult::NoMatch => match partial_time_spec(s, p) {
            ParseResult::NoMatch => ParseResult::NoMatch,
            ParseResult::Error(e) => ParseResult::Error(e),
            ParseResult::Value(t, q) => ParseResult::Value(DateTimeM::LocalTime(t), q),
        },
        ParseResult::Error(e) => ParseResult::Error(e),
        ParseResult::Value(date, q) => if q >= s.len() || (s[q as int] != 'T' && s[q as int]
            != 't' && s[q as int] != ' ') {
            ParseResult::Value(DateTimeM::LocalDate(date), q)
        } else {
            date_time_tail(s, date.push(s[q as int]), q as int)
        },
    }
}

/// Append all of `t` to `out`.
fn append(out: &mut Vec<char>, t: &Vec<char>)
    ensures
        final(out)@ == old(out)@ + t@,
{
    let mut i: usize = 0;
    while i < t.len()
        invariant
            i <= t.len(),
            out@ == old(out)@ + t@.subrange(0, i as int),
        decreases t.len() - i,
    {
        out.push(t[i]);
        assert(t@.subrange(0, i + 1) == t@.subrange(0, i as int).push(t@[i as int]));
        i = i + 1;
    }
    assert(t@.subrange(0, t.len() as int) == t@);
}

/// Parse a date, a time, or both.
pub fn parse_datetime(s: &Vec<char>, p: usize) -> (r: ParseResult<DateTime>)
    requires
        p <= s.len(),
    ensures
        r@ == datetime_spec(s@, p as int),
        r.sound(p as int, s.len() as int),
        r.advances(p as int),
{
    match parse_full_date(s, p) {
        ParseResult::NoMatch => match partial_time(s, p) {
            ParseResult::NoMatch => ParseResult::NoMatch,
            ParseResult::Error(e) => ParseResult::Error(e),
            ParseResult::Value(t, q) => ParseResult::Value(DateTime::LocalTime(t), q),
        },
        ParseResult::Error(e) => ParseResult::Error(e),
        ParseResult::Value(date, q) => {
            if q >= s.len() || (s[q] != 'T' && s[q] != 't' && s[q] != ' ') {
                return ParseResult::Value(DateTime::LocalDate(date), q);
            }
            let mut text = date;
            text.push(s[q]);
            match partial_time(s, q + 1) {
                ParseResult::NoMatch => ParseResult::Error(DATETIME_EXPECT_PARTIAL_TIME_AFTER_DELIM),
                ParseResult::Error(e) => ParseResult::Error(e),
                ParseResult::Value(t, e) => {
                    append(&mut text, &t);
                    if e >= s.len() {
                        ParseResult::Value(DateTime::LocalDateTime(text), e)
                    } else if s[e] == 'Z' {
                        text.push('Z');
                        ParseResult::Value(DateTime::OffsetDateTime(text), e + 1)
                    } else {
                        match parse_time_numoffset(s, e) {
                            ParseResult::NoMatch => ParseResult::Value(
                                DateTime::LocalDateTime(text),
                                e,
                            ),
                            ParseResult::Error(m) => ParseResult::Error(m),
                            ParseResult::Value(_, f) => {
                                push_range(&mut text, s, e, f);
                                ParseResult::Value(DateTime::OffsetDateTime(text), f)
                            },
                        }
                    }
                },
            }
        },
    }
}

} // verus!
