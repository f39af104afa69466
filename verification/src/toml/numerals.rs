//! Integers are read as base-ten numerals.

use vstd::prelude::*;
use crate::toml::ParseResult;
use crate::toml::scalar::{integer_spec, dec_rest_spec, is_dec, is_alpha, hex_val};
use crate::markers::{INTEGER_DEC_OVERFLOW_UNSIGNED, INTEGER_DEC_UNDERFLOW_MINUS_SIGN};

verus! {

/// The number that a string of decimal digits denotes.
pub open spec fn decimal_value(t: Seq<char>) -> nat
    decreases t.len(),
{
    if t.len() == 0 {
        0
    } else {
        decimal_value(t.drop_last()) * 10 + (t.last() as nat - '0' as nat) as nat
    }
}

/// The digits `s[p..e]` end where no letter, digit or underscore follows.
pub open spec fn digit_run(s: Seq<char>, p: int, e: int) -> bool {
    &&& 0 <= p < e <= s.len()
    &&& forall|i: int| p <= i < e ==> is_dec(#[trigger] s[i])
    &&& e == s.len() || !(is_alpha(s[e]) || is_dec(s[e]) || s[e] == '_')
}

proof fn lemma_dec_run(s: Seq<char>, p: int, q: int, e: int)
    requires
        s.len() <= usize::MAX,
        digit_run(s, p, e),
        p < q <= e,
    ensures
        dec_rest_spec(s, q, decimal_value(s.subrange(p, q))) == ParseResult::Value(
            decimal_value(s.subrange(p, e)),
            e as usize,
        ),
    decreases e - q,
{
    if q < e {
        assert(is_dec(s[q]));
        assert(s.subrange(p, q + 1).drop_last() =~= s.subrange(p, q));
        assert(s.subrange(p, q + 1).last() == s[q]);
        lemma_dec_run(s, p, q + 1, e);
    }
}

/// Law: a decimal integer without underscores, with no leading zero, is
/// read as the number its digits denote, negated after a `-`, and refused
/// as an overflow where that number does not fit in 64 signed bits.
pub proof fn lemma_decimal_integer(s: Seq<char>, p: int, e: int)
    requires
        s.len() <= usize::MAX,
        digit_run(s, p, e),
        s[p] != '0' || e == p + 1,
    ensures
        integer_spec(s, p) == if decimal_value(s.subrange(p, e)) <= i64::MAX {
            ParseResult::Value(decimal_value(s.subrange(p, e)) as i64, e as usize)
        } else {
            ParseResult::<i64>::Error(INTEGER_DEC_OVERFLOW_UNSIGNED)
        },
        p >= 1 && s[p - 1] == '-' ==> integer_spec(s, p - 1) == if decimal_value(
            s.subrange(p, e),
        ) <= 0x8000_0000_0000_0000 {
            ParseResult::Value((-decimal_value(s.subrange(p, e))) as i64, e as usize)
        } else {
            ParseResult::<i64>::Error(INTEGER_DEC_UNDERFLOW_MINUS_SIGN)
        },
{
    assert(is_dec(s[p]));
    assert(s.subrange(p, p + 1).drop_last() =~= Seq::<char>::empty());
    assert(s.subrange(p, p + 1).last() == s[p]);
    assert(decimal_value(Seq::<char>::empty()) == 0);
    assert(decimal_value(s.subrange(p, p + 1)) == hex_val(s[p]));
    if s[p] != '0' {
        lemma_dec_run(s, p, p + 1, e);
    } else {
        assert(s.subrange(p, e) =~= s.subrange(p, p + 1));
    }
}

} // verus!
