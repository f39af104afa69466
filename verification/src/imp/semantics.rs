//! The meaning of IMP's operators, stated over machine integers and truth
//! values: arithmetic is two's-complement on 64 bits, comparisons and
//! connectives are the usual ones, and commands update the store as
//! assignments, sequences, conditionals and loops do.

use vstd::prelude::*;
use crate::imp::ast::{AexpM, BexpM, ComM};
use crate::imp::store::{StoreModel, store_lookup, store_insert};
use crate::imp::{aeval, beval, ceval};
use crate::markers::{DIVISION_BY_ZERO, UNDEFINED_VARIABLE};

verus! {

/// The number of values of a 64-bit integer.
pub open spec fn modulus64() -> int {
    0x1_0000_0000_0000_0000
}

/// `v` is the integer `n` reduced to 64 bits: the two differ by a multiple
/// of 2^64.
pub open spec fn wraps_to(v: i64, n: int) -> bool {
    (v as int - n) % modulus64() == 0
}

pub(crate) proof fn lemma_wraps(v: i64, n: int, k: int)
    requires
        v as int == n + k * modulus64(),
    ensures
        wraps_to(v, n),
{
    vstd::arithmetic::div_mod::lemma_mod_multiples_basic(k, modulus64());
    assert(v as int - n == k * modulus64());
}

proof fn lemma_crop(n: int)
    ensures
        wraps_to(vstd::wrapping::i64_specs::signed_crop(n), n),
{
    let m = modulus64();
    vstd::arithmetic::div_mod::lemma_fundamental_div_mod(n, m);
    vstd::arithmetic::div_mod::lemma_mod_bound(n, m);
    let q = n / m;
    let v = vstd::wrapping::i64_specs::signed_crop(n);
    if n % m > i64::MAX as int {
        assert(v as int == n + (-q - 1) * m) by (nonlinear_arith)
            requires
                n == m * q + n % m,
                v as int == n % m - m,
        ;
        lemma_wraps(v, n, -q - 1);
    } else {
        assert(v as int == n + (-q) * m) by (nonlinear_arith)
            requires
                n == m * q + n % m,
                v as int == n % m,
        ;
        lemma_wraps(v, n, -q);
    }
}

/// Law: `+`, `-` and `*` compute the sum, difference and product of their
/// operands' values, reduced to 64 bits; an error of the left operand, and
/// else of the right one, is the error of the whole.
pub proof fn lemma_aeval_arith(l: AexpM, r: AexpM, s: StoreModel)
    ensures
        aeval(l, s) is Ok && aeval(r, s) is Ok ==> {
            let x = aeval(l, s)->Ok_0 as int;
            let y = aeval(r, s)->Ok_0 as int;
            &&& aeval(AexpM::Add(Box::new(l), Box::new(r)), s) matches Ok(v) && wraps_to(v, x + y)
            &&& aeval(AexpM::Sub(Box::new(l), Box::new(r)), s) matches Ok(v) && wraps_to(v, x - y)
            &&& aeval(AexpM::Mul(Box::new(l), Box::new(r)), s) matches Ok(v) && wraps_to(v, x * y)
        },
        aeval(l, s) is Err ==> aeval(AexpM::Add(Box::new(l), Box::new(r)), s) == aeval(l, s)
            && aeval(AexpM::Sub(Box::new(l), Box::new(r)), s) == aeval(l, s)
            && aeval(AexpM::Mul(Box::new(l), Box::new(r)), s) == aeval(l, s)
            && aeval(AexpM::Div(Box::new(l), Box::new(r)), s) == aeval(l, s),
        aeval(l, s) is Ok && aeval(r, s) is Err ==> aeval(AexpM::Add(Box::new(l), Box::new(r)), s)
            == aeval(r, s) && aeval(AexpM::Sub(Box::new(l), Box::new(r)), s) == aeval(r, s)
            && aeval(AexpM::Mul(Box::new(l), Box::new(r)), s) == aeval(r, s)
            && aeval(AexpM::Div(Box::new(l), Box::new(r)), s) == aeval(r, s),
{
    if aeval(l, s) is Ok && aeval(r, s) is Ok {
        let x = aeval(l, s)->Ok_0;
        let y = aeval(r, s)->Ok_0;
        let a = vstd::wrapping::i64_specs::wrapping_add(x, y);
        if x + y > i64::MAX {
            lemma_wraps(a, x + y, -1);
        } else if x + y < i64::MIN {
            lemma_wraps(a, x + y, 1);
        } else {
            lemma_wraps(a, x + y, 0);
        }
        let d = vstd::wrapping::i64_specs::wrapping_sub(x, y);
        if x - y > i64::MAX {
            lemma_wraps(d, x - y, -1);
        } else if x - y < i64::MIN {
            lemma_wraps(d, x - y, 1);
        } else {
            lemma_wraps(d, x - y, 0);
        }
        lemma_crop(x * y);
    }
}

/// `q` is `x / y` rounded toward zero: the remainder `x - q * y` is smaller
/// than `y` in size and is zero or has the sign of `x`.
pub open spec fn trunc_quotient(q: int, x: int, y: int) -> bool {
    let rm = x - q * y;
    &&& rm == 0 || (rm > 0) == (x > 0)
    &&& (if rm < 0 { -rm } else { rm }) < (if y < 0 { -y } else { y })
}

proof fn lemma_trunc_div(x: int, d: int)
    requires
        d != 0,
    ensures
        trunc_quotient(crate::imp::trunc_div(x, d), x, d),
        d != -1 ==> i64::MIN <= x <= i64::MAX ==> i64::MIN <= crate::imp::trunc_div(x, d)
            <= i64::MAX,
{
    let q = crate::imp::trunc_div(x, d);
    if x == 0 {
    } else if x > 0 && d > 0 {
        vstd::arithmetic::div_mod::lemma_fundamental_div_mod(x, d);
        vstd::arithmetic::div_mod::lemma_mod_bound(x, d);
        assert(x - q * d == x % d) by (nonlinear_arith)
            requires
                x == d * (x / d) + x % d,
                q == x / d,
        ;
        assert(0 <= q <= x) by (nonlinear_arith)
            requires
                x > 0,
                d > 0,
                q == x / d,
        ;
    } else if x < 0 && d < 0 {
        let a = -x;
        let b = -d;
        vstd::arithmetic::div_mod::lemma_fundamental_div_mod(a, b);
        vstd::arithmetic::div_mod::lemma_mod_bound(a, b);
        assert(q == a / b);
        assert(x - q * d == -(a % b)) by (nonlinear_arith)
            requires
                a == b * (a / b) + a % b,
                q == a / b,
                x == -a,
                d == -b,
        ;
        if d != -1 {
            assert(0 <= q <= a / 2) by (nonlinear_arith)
                requires
                    a > 0,
                    b > 1,
                    q == a / b,
            ;
        }
    } else if x < 0 {
        let a = -x;
        vstd::arithmetic::div_mod::lemma_fundamental_div_mod(a, d);
        vstd::arithmetic::div_mod::lemma_mod_bound(a, d);
        assert(q == -(a / d));
        assert(x - q * d == -(a % d)) by (nonlinear_arith)
            requires
                a == d * (a / d) + a % d,
                q == -(a / d),
                x == -a,
        ;
        assert(0 <= a / d <= a) by (nonlinear_arith)
            requires
                a > 0,
                d > 0,
        ;
    } else {
        let b = -d;
        vstd::arithmetic::div_mod::lemma_fundamental_div_mod(x, b);
        vstd::arithmetic::div_mod::lemma_mod_bound(x, b);
        assert(q == -(x / b));
        assert(x - q * d == x % b) by (nonlinear_arith)
            requires
                x == b * (x / b) + x % b,
                q == -(x / b),
                d == -b,
        ;
        if d != -1 {
            assert(0 <= x / b <= x / 2) by (nonlinear_arith)
                requires
                    x > 0,
                    b > 1,
            ;
        }
    }
}

/// Law: `/` divides its operands' values rounding toward zero, reduced to
/// 64 bits (only `i64::MIN / -1` wraps); a zero divisor is an error.
pub proof fn lemma_aeval_div(l: AexpM, r: AexpM, s: StoreModel)
    requires
        aeval(l, s) is Ok,
        aeval(r, s) is Ok,
    ensures
        aeval(r, s)->Ok_0 == 0 ==> aeval(AexpM::Div(Box::new(l), Box::new(r)), s) == Err::<
            i64,
            usize,
        >(DIVISION_BY_ZERO),
        aeval(r, s)->Ok_0 != 0 ==> (aeval(AexpM::Div(Box::new(l), Box::new(r)), s) matches Ok(v)
            && exists|q: int|
            #![trigger trunc_quotient(q, aeval(l, s)->Ok_0 as int, aeval(r, s)->Ok_0 as int)]
            trunc_quotient(q, aeval(l, s)->Ok_0 as int, aeval(r, s)->Ok_0 as int) && wraps_to(
                v,
                q,
            )),
{
    let x = aeval(l, s)->Ok_0;
    let y = aeval(r, s)->Ok_0;
    if y != 0 {
        let v = crate::imp::sdiv(x, y);
        if y == -1 {
            assert(trunc_quotient(-(x as int), x as int, y as int));
            if 0 - x > i64::MAX {
                lemma_wraps(v, -(x as int), -1);
            } else {
                lemma_wraps(v, -(x as int), 0);
            }
        } else {
            lemma_trunc_div(x as int, y as int);
            lemma_wraps(v, crate::imp::trunc_div(x as int, y as int), 0);
        }
    }
}


/// Law: `==` and `<=` compare their operands' values as signed integers;
/// an error of the left operand, and else of the right one, is the error of
/// the whole.
pub proof fn lemma_beval_compare(l: AexpM, r: AexpM, s: StoreModel)
    ensures
        aeval(l, s) is Ok && aeval(r, s) is Ok ==> {
            let x = aeval(l, s)->Ok_0 as int;
            let y = aeval(r, s)->Ok_0 as int;
            &&& beval(BexpM::Eq(Box::new(l), Box::new(r)), s) == Ok::<bool, usize>(x == y)
            &&& beval(BexpM::Le(Box::new(l), Box::new(r)), s) == Ok::<bool, usize>(x <= y)
        },
        aeval(l, s) is Err ==> beval(BexpM::Eq(Box::new(l), Box::new(r)), s) == Err::<bool, usize>(
            aeval(l, s)->Err_0,
        ) && beval(BexpM::Le(Box::new(l), Box::new(r)), s) == Err::<bool, usize>(
            aeval(l, s)->Err_0,
        ),
        aeval(l, s) is Ok && aeval(r, s) is Err ==> beval(BexpM::Eq(Box::new(l), Box::new(r)), s)
            == Err::<bool, usize>(aeval(r, s)->Err_0) && beval(
            BexpM::Le(Box::new(l), Box::new(r)),
            s,
        ) == Err::<bool, usize>(aeval(r, s)->Err_0),
{
}

/// Law: `<=` is a total order and `==` an equivalence on the values of
/// expressions: both are reflexive, `<=` one way or the other always holds,
/// and `<=` both ways is `==`.
pub proof fn lemma_beval_order(a: AexpM, b: AexpM, s: StoreModel)
    requires
        aeval(a, s) is Ok,
        aeval(b, s) is Ok,
    ensures
        beval(BexpM::Le(Box::new(a), Box::new(a)), s) == Ok::<bool, usize>(true),
        beval(BexpM::Eq(Box::new(a), Box::new(a)), s) == Ok::<bool, usize>(true),
        beval(BexpM::Le(Box::new(a), Box::new(b)), s) == Ok::<bool, usize>(true) || beval(
            BexpM::Le(Box::new(b), Box::new(a)),
            s,
        ) == Ok::<bool, usize>(true),
        beval(BexpM::Eq(Box::new(a), Box::new(b)), s) == beval(BexpM::Eq(Box::new(b), Box::new(a)), s),
        beval(BexpM::Eq(Box::new(a), Box::new(b)), s) == Ok::<bool, usize>(
            beval(BexpM::Le(Box::new(a), Box::new(b)), s) == Ok::<bool, usize>(true) && beval(
                BexpM::Le(Box::new(b), Box::new(a)),
                s,
            ) == Ok::<bool, usize>(true),
        ),
{
}

/// Law: `not`, `and` and `or` are negation, conjunction and disjunction of
/// their operands' truth values (both operands are evaluated, and an error
/// of the left one, and else of the right one, is the error of the whole).
pub proof fn lemma_beval_connectives(p: BexpM, q: BexpM, s: StoreModel)
    ensures
        beval(BexpM::True, s) == Ok::<bool, usize>(true),
        beval(BexpM::False, s) == Ok::<bool, usize>(false),
        beval(p, s) is Ok ==> beval(BexpM::Not(Box::new(p)), s) == Ok::<bool, usize>(
            !beval(p, s)->Ok_0,
        ),
        beval(p, s) is Err ==> beval(BexpM::Not(Box::new(p)), s) == beval(p, s),
        beval(p, s) is Ok && beval(q, s) is Ok ==> {
            let u = beval(p, s)->Ok_0;
            let v = beval(q, s)->Ok_0;
            &&& beval(BexpM::And(Box::new(p), Box::new(q)), s) == Ok::<bool, usize>(u && v)
            &&& beval(BexpM::Or(Box::new(p), Box::new(q)), s) == Ok::<bool, usize>(u || v)
        },
        beval(p, s) is Err ==> beval(BexpM::And(Box::new(p), Box::new(q)), s) == beval(p, s)
            && beval(BexpM::Or(Box::new(p), Box::new(q)), s) == beval(p, s),
        beval(p, s) is Ok && beval(q, s) is Err ==> beval(BexpM::And(Box::new(p), Box::new(q)), s)
            == beval(q, s) && beval(BexpM::Or(Box::new(p), Box::new(q)), s) == beval(q, s),
        beval(BexpM::Not(Box::new(BexpM::And(Box::new(p), Box::new(q)))), s) == beval(
            BexpM::Or(Box::new(BexpM::Not(Box::new(p))), Box::new(BexpM::Not(Box::new(q)))),
            s,
        ),
{
    let n = BexpM::Not(Box::new(BexpM::And(Box::new(p), Box::new(q))));
    let np = BexpM::Not(Box::new(p));
    let nq = BexpM::Not(Box::new(q));
    assert(beval(np, s) == (match beval(p, s) {
        Err(e) => Err(e),
        Ok(v) => Ok::<bool, usize>(!v),
    }));
    assert(beval(nq, s) == (match beval(q, s) {
        Err(e) => Err(e),
        Ok(v) => Ok::<bool, usize>(!v),
    }));
    assert(beval(BexpM::And(Box::new(p), Box::new(q)), s) == (match (beval(p, s), beval(q, s)) {
        (Err(e), _) => Err(e),
        (Ok(_), Err(e)) => Err(e),
        (Ok(x), Ok(y)) => Ok::<bool, usize>(x && y),
    }));
}


/// Storing `v` at `x` makes `x` read `v` and leaves every other variable
/// as it was.
pub proof fn lemma_store_insert_lookup(s: StoreModel, x: Seq<char>, v: i64, k: Seq<char>)
    ensures
        store_lookup(store_insert(s, x, v), k) == (if k == x {
            Some(v)
        } else {
            store_lookup(s, k)
        }),
    decreases s.len(),
{
    let r = store_insert(s, x, v);
    if s.len() == 0 {
        assert(r == seq![(x, v)]);
        assert(r.drop_first() =~= Seq::<(Seq<char>, i64)>::empty());
        assert(r[0].0 == x);
        assert(store_lookup(r.drop_first(), k) == None::<i64>);
        assert(store_lookup(r, k) == (if k == x { Some(v) } else { None }));
        assert(store_lookup(s, k) == None::<i64>);
    } else if s[0].0 == x {
        assert(r == seq![(x, v)] + s.drop_first());
        assert(r.drop_first() =~= s.drop_first());
        assert(r[0].0 == x);
        assert(store_lookup(r, k) == (if k == x { Some(v) } else { store_lookup(s.drop_first(), k) }));
    } else if crate::imp::store::seq_lt(x, s[0].0) {
        assert(r == seq![(x, v)] + s);
        assert(r.drop_first() =~= s);
        assert(r[0].0 == x);
        assert(store_lookup(r, k) == (if k == x { Some(v) } else { store_lookup(s, k) }));
    } else {
        lemma_store_insert_lookup(s.drop_first(), x, v, k);
        assert(r == seq![s[0]] + store_insert(s.drop_first(), x, v));
        assert(r.drop_first() =~= store_insert(s.drop_first(), x, v));
        assert(r[0] == s[0]);
    }
}

/// Law: `skip` leaves the store as it is; `x := a` sets `x` to the value of
/// `a` and leaves every other variable as it was, or fails with the error
/// of `a`.
pub proof fn lemma_ceval_basic(x: Seq<char>, a: AexpM, s: StoreModel, f: nat, k: Seq<char>)
    ensures
        ceval(ComM::Skip, s, f) == Some(Ok::<StoreModel, usize>(s)),
        aeval(a, s) is Err ==> ceval(ComM::Assign(x, Box::new(a)), s, f) == Some(
            Err::<StoreModel, usize>(aeval(a, s)->Err_0),
        ),
        aeval(a, s) is Ok ==> (ceval(ComM::Assign(x, Box::new(a)), s, f) matches Some(Ok(s2))
            && store_lookup(s2, x) == Some(aeval(a, s)->Ok_0) && (k != x ==> store_lookup(s2, k)
            == store_lookup(s, k))),
{
    if aeval(a, s) is Ok {
        lemma_store_insert_lookup(s, x, aeval(a, s)->Ok_0, x);
        lemma_store_insert_lookup(s, x, aeval(a, s)->Ok_0, k);
    }
}

/// Law: sequencing is associative and has `skip` as its unit on both sides.
pub proof fn lemma_ceval_sequence(c0: ComM, c1: ComM, c2: ComM, s: StoreModel, f: nat)
    ensures
        ceval(
            ComM::Sequence(Box::new(ComM::Sequence(Box::new(c0), Box::new(c1))), Box::new(c2)),
            s,
            f,
        ) == ceval(
            ComM::Sequence(Box::new(c0), Box::new(ComM::Sequence(Box::new(c1), Box::new(c2)))),
            s,
            f,
        ),
        ceval(ComM::Sequence(Box::new(ComM::Skip), Box::new(c0)), s, f) == ceval(c0, s, f),
        ceval(ComM::Sequence(Box::new(c0), Box::new(ComM::Skip)), s, f) == ceval(c0, s, f),
{
    let a = ComM::Sequence(Box::new(c0), Box::new(c1));
    assert(ceval(a, s, f) == (match ceval(c0, s, f) {
        Some(Ok(s1)) => ceval(c1, s1, f),
        other => other,
    }));
    match ceval(c0, s, f) {
        Some(Ok(s1)) => {
            assert(ceval(ComM::Sequence(Box::new(c1), Box::new(c2)), s1, f) == (match ceval(
                c1,
                s1,
                f,
            ) {
                Some(Ok(s2)) => ceval(c2, s2, f),
                other => other,
            }));
            assert(ceval(ComM::Skip, s1, f) == Some(Ok::<StoreModel, usize>(s1)));
        },
        _ => {},
    }
    assert(ceval(ComM::Skip, s, f) == Some(Ok::<StoreModel, usize>(s)));
}

/// Law: a conditional runs its first branch when the condition holds and
/// its second when it does not; negating the condition and swapping the
/// branches changes nothing.
pub proof fn lemma_ceval_if(b: BexpM, c0: ComM, c1: ComM, s: StoreModel, f: nat)
    ensures
        beval(b, s) == Ok::<bool, usize>(true) ==> ceval(
            ComM::If(Box::new(b), Box::new(c0), Box::new(c1)),
            s,
            f,
        ) == ceval(c0, s, f),
        beval(b, s) == Ok::<bool, usize>(false) ==> ceval(
            ComM::If(Box::new(b), Box::new(c0), Box::new(c1)),
            s,
            f,
        ) == ceval(c1, s, f),
        beval(b, s) is Err ==> ceval(ComM::If(Box::new(b), Box::new(c0), Box::new(c1)), s, f)
            == Some(Err::<StoreModel, usize>(beval(b, s)->Err_0)),
        ceval(ComM::If(Box::new(BexpM::Not(Box::new(b))), Box::new(c1), Box::new(c0)), s, f)
            == ceval(ComM::If(Box::new(b), Box::new(c0), Box::new(c1)), s, f),
{
    assert(beval(BexpM::Not(Box::new(b)), s) == (match beval(b, s) {
        Err(e) => Err(e),
        Ok(v) => Ok::<bool, usize>(!v),
    }));
}

/// Law: a loop is its own unrolling: with one more unit of fuel, `while b
/// do c` behaves as `if b then (c ; while b do c) else skip`; and a loop
/// whose condition is false leaves the store as it is.
pub proof fn lemma_ceval_while_unfold(b: BexpM, c: ComM, s: StoreModel, f: nat)
    ensures
        ceval(ComM::While(Box::new(b), Box::new(c)), s, f + 1) == ceval(
            ComM::If(
                Box::new(b),
                Box::new(
                    ComM::Sequence(Box::new(c), Box::new(ComM::While(Box::new(b), Box::new(c)))),
                ),
                Box::new(ComM::Skip),
            ),
            s,
            f,
        ),
        beval(b, s) == Ok::<bool, usize>(false) ==> ceval(
            ComM::While(Box::new(b), Box::new(c)),
            s,
            f,
        ) == Some(Ok::<StoreModel, usize>(s)),
{
    let w = ComM::While(Box::new(b), Box::new(c));
    assert(ceval(ComM::Sequence(Box::new(c), Box::new(w)), s, f) == (match ceval(c, s, f) {
        Some(Ok(s1)) => ceval(w, s1, f),
        other => other,
    }));
    assert(ceval(ComM::Skip, s, f) == Some(Ok::<StoreModel, usize>(s)));
    assert((f + 1 - 1) as nat == f);
}

/// Law: a loop that ends normally ends in a store where its condition is
/// false.
pub proof fn lemma_ceval_while_exit(b: BexpM, c: ComM, s: StoreModel, f: nat)
    requires
        ceval(ComM::While(Box::new(b), Box::new(c)), s, f) is Some,
        ceval(ComM::While(Box::new(b), Box::new(c)), s, f)->Some_0 is Ok,
    ensures
        beval(b, ceval(ComM::While(Box::new(b), Box::new(c)), s, f)->Some_0->Ok_0) == Ok::<
            bool,
            usize,
        >(false),
    decreases f,
{
    let w = ComM::While(Box::new(b), Box::new(c));
    if beval(b, s) == Ok::<bool, usize>(true) {
        match ceval(c, s, (f - 1) as nat) {
            Some(Ok(s1)) => {
                lemma_ceval_while_exit(b, c, s1, (f - 1) as nat);
            },
            _ => {},
        }
    }
}

/// Law: a literal is its own value, and a variable has the value the store
/// holds for it; reading a variable the store does not hold is an error.
pub proof fn lemma_aeval_leaves(n: i64, x: Seq<char>, s: StoreModel)
    ensures
        aeval(AexpM::Num(n), s) == Ok::<i64, usize>(n),
        store_lookup(s, x) matches Some(v) ==> aeval(AexpM::Var(x), s) == Ok::<i64, usize>(v),
        store_lookup(s, x) is None ==> aeval(AexpM::Var(x), s) == Err::<i64, usize>(
            UNDEFINED_VARIABLE,
        ),
{
}

} // verus!
