//! Runnable specification for IMP/WHILE.
//!
//! Division by zero and the use of an undefined variable are errors, each
//! reported by its named marker.

pub mod ast;
pub mod store;
pub mod parser;
pub mod semantics;



use vstd::prelude::*;
use crate::imp::ast::{Aexp, Bexp, Com, AexpM, BexpM, ComM};
use crate::imp::store::{Store, StoreModel, store_lookup, store_insert, store_sorted};
use crate::markers::{Path, DIVISION_BY_ZERO, UNDEFINED_VARIABLE};

verus! {

/// The result of evaluating a [`Com`].
#[derive(Debug, PartialEq, Eq)]
pub enum EvalResult {
    /// A marker fired (division by zero or undefined variable).
    Error(Path),
    /// Normal termination with the final store.
    Value(Store),
}

/// The result of reading a location from the store.
#[derive(Debug, PartialEq, Eq)]
pub enum StoreGetResult {
    /// The location is absent from the store (`undefined_variable`).
    Error(Path),
    /// The value stored at the location.
    Value(i64),
}

/// The result of evaluating an arithmetic expression.
#[derive(Debug, PartialEq, Eq)]
pub enum ArithmeticResult {
    /// A marker fired while evaluating the expression.
    Error(Path),
    /// The value of the expression.
    Value(i64),
}

/// The result of evaluating a boolean expression.
#[derive(Debug, PartialEq, Eq)]
pub enum BooleanResult {
    /// A marker fired while evaluating the expression.
    Error(Path),
    /// The value of the expression.
    Value(bool),
}

/// Signed division truncating toward zero (the quotient of `checked_div`).
pub open spec fn trunc_div(x: int, d: int) -> int {
    if x == 0 {
        0
    } else if x > 0 && d > 0 {
        x / d
    } else if x < 0 && d < 0 {
        ((x * -1) / (d * -1))
    } else if x < 0 {
        ((x * -1) / d) * -1
    } else {
        (x / (d * -1)) * -1
    }
}

/// 64-bit two's-complement signed division (SMT-LIB `bvsdiv`) for a non-zero
/// divisor: truncating; `i64::MIN / -1` wraps to `i64::MIN`.
pub open spec fn sdiv(a: i64, b: i64) -> i64 {
    if b == -1 {
        vstd::wrapping::i64_specs::wrapping_sub(0, a)
    } else {
        trunc_div(a as int, b as int) as i64
    }
}

/// Big-step value of an arithmetic expression: its value, or the identifier
/// of the marker that fired (leftmost error first).
pub open spec fn aeval(a: AexpM, s: StoreModel) -> Result<i64, usize>
    decreases a,
{
    match a {
        AexpM::Num(n) => Ok(n),
        AexpM::Var(x) => match store_lookup(s, x) {
            Some(v) => Ok(v),
            None => Err(UNDEFINED_VARIABLE),
        },
        AexpM::Add(l, r) => match (aeval(*l, s), aeval(*r, s)) {
            (Err(e), _) => Err(e),
            (Ok(_), Err(e)) => Err(e),
            (Ok(x), Ok(y)) => Ok(vstd::wrapping::i64_specs::wrapping_add(x, y)),
        },
        AexpM::Sub(l, r) => match (aeval(*l, s), aeval(*r, s)) {
            (Err(e), _) => Err(e),
            (Ok(_), Err(e)) => Err(e),
            (Ok(x), Ok(y)) => Ok(vstd::wrapping::i64_specs::wrapping_sub(x, y)),
        },
        AexpM::Mul(l, r) => match (aeval(*l, s), aeval(*r, s)) {
            (Err(e), _) => Err(e),
            (Ok(_), Err(e)) => Err(e),
            (Ok(x), Ok(y)) => Ok(vstd::wrapping::i64_specs::wrapping_mul(x, y)),
        },
        AexpM::Div(l, r) => match (aeval(*l, s), aeval(*r, s)) {
            (Err(e), _) => Err(e),
            (Ok(_), Err(e)) => Err(e),
            (Ok(x), Ok(y)) => if y == 0 {
                Err(DIVISION_BY_ZERO)
            } else {
                Ok(sdiv(x, y))
            },
        },
    }
}

/// Big-step value of a boolean expression (both operands of `and`/`or` are
/// evaluated).
pub open spec fn beval(b: BexpM, s: StoreModel) -> Result<bool, usize>
    decreases b,
{
    match b {
        BexpM::True => Ok(true),
        BexpM::False => Ok(false),
        BexpM::Eq(l, r) => match (aeval(*l, s), aeval(*r, s)) {
            (Err(e), _) => Err(e),
            (Ok(_), Err(e)) => Err(e),
            (Ok(x), Ok(y)) => Ok(x == y),
        },
        BexpM::Le(l, r) => match (aeval(*l, s), aeval(*r, s)) {
            (Err(e), _) => Err(e),
            (Ok(_), Err(e)) => Err(e),
            (Ok(x), Ok(y)) => Ok(x <= y),
        },
        BexpM::Not(x) => match beval(*x, s) {
            Err(e) => Err(e),
            Ok(v) => Ok(!v),
        },
        BexpM::And(l, r) => match (beval(*l, s), beval(*r, s)) {
            (Err(e), _) => Err(e),
            (Ok(_), Err(e)) => Err(e),
            (Ok(x), Ok(y)) => Ok(x && y),
        },
        BexpM::Or(l, r) => match (beval(*l, s), beval(*r, s)) {
            (Err(e), _) => Err(e),
            (Ok(_), Err(e)) => Err(e),
            (Ok(x), Ok(y)) => Ok(x || y),
        },
    }
}

/// Big-step execution of a command from store `s`: the final store, or the
/// identifier of the marker that fired; `None` when a loop would need more
/// than `fuel` further iterations.
pub open spec fn ceval(c: ComM, s: StoreModel, fuel: nat) -> Option<Result<StoreModel, usize>>
    decreases fuel, c,
{
    match c {
        ComM::Skip => Some(Ok(s)),
        ComM::Assign(x, a) => match aeval(*a, s) {
            Err(e) => Some(Err(e)),
            Ok(v) => Some(Ok(store_insert(s, x, v))),
        },
        ComM::Sequence(c0, c1) => match ceval(*c0, s, fuel) {
            Some(Ok(s1)) => ceval(*c1, s1, fuel),
            other => other,
        },
        ComM::If(b, c0, c1) => match beval(*b, s) {
            Err(e) => Some(Err(e)),
            Ok(true) => ceval(*c0, s, fuel),
            Ok(false) => ceval(*c1, s, fuel),
        },
        ComM::While(b, body) => match beval(*b, s) {
            Err(e) => Some(Err(e)),
            Ok(false) => Some(Ok(s)),
            Ok(true) => if fuel == 0 {
                None
            } else {
                match ceval(*body, s, (fuel - 1) as nat) {
                    Some(Ok(s1)) => ceval(ComM::While(b, body), s1, (fuel - 1) as nat),
                    other => other,
                }
            },
        },
    }
}

/// `r` is the executable form of the value `m`.
pub open spec fn arith_is(r: ArithmeticResult, m: Result<i64, usize>) -> bool {
    match (r, m) {
        (ArithmeticResult::Value(v), Ok(w)) => v == w,
        (ArithmeticResult::Error(p), Err(id)) => p@ == seq![id] && p.wf(),
        _ => false,
    }
}

/// `r` is the executable form of the boolean value `m`.
pub open spec fn bool_is(r: BooleanResult, m: Result<bool, usize>) -> bool {
    match (r, m) {
        (BooleanResult::Value(v), Ok(w)) => v == w,
        (BooleanResult::Error(p), Err(id)) => p@ == seq![id] && p.wf(),
        _ => false,
    }
}

/// `r` is the executable form of the execution outcome `m`.
pub open spec fn eval_is(r: Option<EvalResult>, m: Option<Result<StoreModel, usize>>) -> bool {
    match (r, m) {
        (None, None) => true,
        (Some(EvalResult::Value(st)), Some(Ok(sm))) => st.wf() && st@ == sm,
        (Some(EvalResult::Error(p)), Some(Err(id))) => p@ == seq![id] && p.wf(),
        _ => false,
    }
}

/// Read a location from the store; reading an absent location fires
/// `undefined_variable`.
pub fn store_get(s: &Store, x: &str) -> (r: StoreGetResult)
    requires
        s.wf(),
    ensures
        match r {
            StoreGetResult::Value(v) => store_lookup(s@, x@) == Some(v),
            StoreGetResult::Error(p) => store_lookup(s@, x@) is None && p@ == seq![
                UNDEFINED_VARIABLE,
            ] && p.wf(),
        },
{
    match s.get(x) {
        Some(v) => StoreGetResult::Value(v),
        None => StoreGetResult::Error(Path::named(UNDEFINED_VARIABLE)),
    }
}

/// Executable `sdiv`.
pub fn bv_sdiv(a: i64, b: i64) -> (r: i64)
    requires
        b != 0,
    ensures
        r == sdiv(a, b),
{
    if b == -1 {
        0i64.wrapping_sub(a)
    } else {
        match a.checked_div(b) {
            Some(q) => q,
            None => {
                proof {
                    let x = a as int;
                    let d = b as int;
                    if x > 0 && d > 0 {
                        assert(x / d <= x) by (nonlinear_arith)
                            requires
                                x > 0,
                                d > 0,
                        ;
                    } else if x < 0 && d < 0 {
                        assert((x * -1) / (d * -1) <= (x * -1) / 2) by (nonlinear_arith)
                            requires
                                x < 0,
                                d < -1,
                        ;
                    } else if x < 0 {
                        assert((x * -1) / d <= x * -1) by (nonlinear_arith)
                            requires
                                x < 0,
                                d > 0,
                        ;
                    } else if x > 0 {
                        assert(x / (d * -1) <= x / 2) by (nonlinear_arith)
                            requires
                                x > 0,
                                d < -1,
                        ;
                    }
                }
                0
            },
        }
    }
}

/// Big-step evaluation of arithmetic expressions on 64-bit two's-complement
/// integers (`+`, `-`, `*` wrap). Evaluation fails when a variable is
/// undefined or when the divisor of `/` is zero.
pub fn eval_aexp(a: &Aexp, s: &Store) -> (r: ArithmeticResult)
    requires
        s.wf(),
    ensures
        arith_is(r, aeval(a@, s@)),
    decreases a,
{
    match a {
        Aexp::Num(n) => ArithmeticResult::Value(*n),
        Aexp::Var(x) => match store_get(s, x.as_str()) {
            StoreGetResult::Error(e) => ArithmeticResult::Error(e),
            StoreGetResult::Value(v) => ArithmeticResult::Value(v),
        },
        Aexp::Add(l, r) => match eval_aexp(l, s) {
            ArithmeticResult::Error(e) => ArithmeticResult::Error(e),
            ArithmeticResult::Value(x) => match eval_aexp(r, s) {
                ArithmeticResult::Error(e) => ArithmeticResult::Error(e),
                ArithmeticResult::Value(y) => ArithmeticResult::Value(x.wrapping_add(y)),
            },
        },
        Aexp::Sub(l, r) => match eval_aexp(l, s) {
            ArithmeticResult::Error(e) => ArithmeticResult::Error(e),
            ArithmeticResult::Value(x) => match eval_aexp(r, s) {
                ArithmeticResult::Error(e) => ArithmeticResult::Error(e),
                ArithmeticResult::Value(y) => ArithmeticResult::Value(x.wrapping_sub(y)),
            },
        },
        Aexp::Mul(l, r) => match eval_aexp(l, s) {
            ArithmeticResult::Error(e) => ArithmeticResult::Error(e),
            ArithmeticResult::Value(x) => match eval_aexp(r, s) {
                ArithmeticResult::Error(e) => ArithmeticResult::Error(e),
                ArithmeticResult::Value(y) => ArithmeticResult::Value(x.wrapping_mul(y)),
            },
        },
        Aexp::Div(l, r) => match eval_aexp(l, s) {
            ArithmeticResult::Error(e) => ArithmeticResult::Error(e),
            ArithmeticResult::Value(x) => match eval_aexp(r, s) {
                ArithmeticResult::Error(e) => ArithmeticResult::Error(e),
                ArithmeticResult::Value(y) => {
                    if y == 0 {
                        ArithmeticResult::Error(Path::named(DIVISION_BY_ZERO))
                    } else {
                        ArithmeticResult::Value(bv_sdiv(x, y))
                    }
                },
            },
        },
    }
}

/// Big-step evaluation of boolean expressions.
pub fn eval_bexp(b: &Bexp, s: &Store) -> (r: BooleanResult)
    requires
        s.wf(),
    ensures
        bool_is(r, beval(b@, s@)),
    decreases b,
{
    match b {
        Bexp::True => BooleanResult::Value(true),
        Bexp::False => BooleanResult::Value(false),
        Bexp::Eq(l, r) => match eval_aexp(l, s) {
            ArithmeticResult::Error(e) => BooleanResult::Error(e),
            ArithmeticResult::Value(x) => match eval_aexp(r, s) {
                ArithmeticResult::Error(e) => BooleanResult::Error(e),
                ArithmeticResult::Value(y) => BooleanResult::Value(x == y),
            },
        },
        Bexp::Le(l, r) => match eval_aexp(l, s) {
            ArithmeticResult::Error(e) => BooleanResult::Error(e),
            ArithmeticResult::Value(x) => match eval_aexp(r, s) {
                ArithmeticResult::Error(e) => BooleanResult::Error(e),
                ArithmeticResult::Value(y) => BooleanResult::Value(x <= y),
            },
        },
        Bexp::Not(x) => match eval_bexp(x, s) {
            BooleanResult::Error(e) => BooleanResult::Error(e),
            BooleanResult::Value(v) => BooleanResult::Value(!v),
        },
        Bexp::And(l, r) => match eval_bexp(l, s) {
            BooleanResult::Error(e) => BooleanResult::Error(e),
            BooleanResult::Value(x) => match eval_bexp(r, s) {
                BooleanResult::Error(e) => BooleanResult::Error(e),
                BooleanResult::Value(y) => BooleanResult::Value(x && y),
            },
        },
        Bexp::Or(l, r) => match eval_bexp(l, s) {
            BooleanResult::Error(e) => BooleanResult::Error(e),
            BooleanResult::Value(x) => match eval_bexp(r, s) {
                BooleanResult::Error(e) => BooleanResult::Error(e),
                BooleanResult::Value(y) => BooleanResult::Value(x || y),
            },
        },
    }
}

/// Big-step execution of `c` from store `s`, with at most `fuel` iterations
/// of any loop; `None` when that budget runs out.
pub fn eval_com_inner(c: &Com, s: Store, fuel: u64) -> (r: Option<EvalResult>)
    requires
        s.wf(),
    ensures
        eval_is(r, ceval(c@, s@, fuel as nat)),
    decreases fuel, c,
{
    match c {
        Com::Skip => Some(EvalResult::Value(s)),
        Com::Assign(x, a) => match eval_aexp(a, &s) {
            ArithmeticResult::Error(e) => Some(EvalResult::Error(e)),
            ArithmeticResult::Value(v) => {
                let mut s = s;
                s.set(x.as_str(), v);
                Some(EvalResult::Value(s))
            },
        },
        Com::Sequence(c0, c1) => match eval_com_inner(c0, s, fuel) {
            Some(EvalResult::Value(s1)) => eval_com_inner(c1, s1, fuel),
            other => other,
        },
        Com::If(b, c0, c1) => match eval_bexp(b, &s) {
            BooleanResult::Error(e) => Some(EvalResult::Error(e)),
            BooleanResult::Value(t) => {
                if t {
                    eval_com_inner(c0, s, fuel)
                } else {
                    eval_com_inner(c1, s, fuel)
                }
            },
        },
        Com::While(b, body) => {
            let ghost goal = ceval(c@, s@, fuel as nat);
            let ghost s0 = s@;
            let mut cur = s;
            let mut f = fuel;
            #[verifier::loop_isolation(false)]
            loop
                invariant
                    cur.wf(),
                    f <= fuel,
                    c@ == ComM::While(Box::new((**b)@), Box::new((**body)@)),
                    ceval(c@, cur@, f as nat) == goal,
                    goal == ceval(c@, s0, fuel as nat),
                decreases f,
            {
                match eval_bexp(b, &cur) {
                    BooleanResult::Error(e) => {
                        return Some(EvalResult::Error(e));
                    },
                    BooleanResult::Value(t) => {
                        if !t {
                            return Some(EvalResult::Value(cur));
                        }
                        if f == 0 {
                            return None;
                        }
                        match eval_com_inner(body, cur, f - 1) {
                            Some(EvalResult::Value(s1)) => {
                                cur = s1;
                                f = f - 1;
                            },
                            other => {
                                return other;
                            },
                        }
                    },
                }
            }
        },
    }
}

/// Execute `c` from the empty store, with at most `fuel` iterations of any
/// loop.
pub fn eval_com(c: &Com, fuel: u64) -> (r: Option<EvalResult>)
    ensures
        eval_is(r, ceval(c@, Seq::empty(), fuel as nat)),
{
    eval_com_inner(c, Store::new(), fuel)
}

} // verus!

verus! {

/// Storing a value keeps every variable the store already had.
proof fn lemma_insert_keeps(s: StoreModel, x: Seq<char>, v: i64, k: Seq<char>)
    requires
        store_lookup(s, k) is Some,
    ensures
        store_lookup(store_insert(s, x, v), k) is Some,
    decreases s.len(),
{
    if s.len() > 0 && s[0].0 != x && !crate::imp::store::seq_lt(x, s[0].0) && s[0].0 != k {
        lemma_insert_keeps(s.drop_first(), x, v, k);
        assert((seq![s[0]] + store_insert(s.drop_first(), x, v)).drop_first() =~= store_insert(
            s.drop_first(),
            x,
            v,
        ));
    } else if s.len() > 0 && s[0].0 != x && crate::imp::store::seq_lt(x, s[0].0) {
        assert((seq![(x, v)] + s).drop_first() =~= s);
    } else if s.len() > 0 && s[0].0 == x && s[0].0 != k {
        assert((seq![(x, v)] + s.drop_first()).drop_first() =~= s.drop_first());
    }
}

/// Law: no command removes a variable: a run that ends normally ends with
/// every variable of the store it started from.
pub proof fn lemma_ceval_keeps_variables(c: ComM, s: StoreModel, f: nat, k: Seq<char>)
    requires
        ceval(c, s, f) matches Some(Ok(_)),
        store_lookup(s, k) is Some,
    ensures
        ceval(c, s, f) matches Some(Ok(s2)) && store_lookup(s2, k) is Some,
    decreases f, c,
{
    match c {
        ComM::Skip => {},
        ComM::Assign(x, a) => {
            match aeval(*a, s) {
                Ok(v) => lemma_insert_keeps(s, x, v, k),
                Err(_) => {},
            }
        },
        ComM::Sequence(c0, c1) => {
            lemma_ceval_keeps_variables(*c0, s, f, k);
            match ceval(*c0, s, f) {
                Some(Ok(s1)) => lemma_ceval_keeps_variables(*c1, s1, f, k),
                _ => {},
            }
        },
        ComM::If(b, c0, c1) => {
            match beval(*b, s) {
                Ok(true) => lemma_ceval_keeps_variables(*c0, s, f, k),
                Ok(false) => lemma_ceval_keeps_variables(*c1, s, f, k),
                _ => {},
            }
        },
        ComM::While(b, body) => {
            match beval(*b, s) {
                Ok(true) => {
                    lemma_ceval_keeps_variables(*body, s, (f - 1) as nat, k);
                    match ceval(*body, s, (f - 1) as nat) {
                        Some(Ok(s1)) => {
                            lemma_ceval_keeps_variables(ComM::While(b, body), s1, (f - 1) as nat, k);
                        },
                        _ => {},
                    }
                },
                _ => {},
            }
        },
    }
}

/// Law: once a run finishes within some fuel, more fuel gives the same
/// outcome (the budget only decides whether an answer is given).
pub proof fn lemma_ceval_fuel_mono(c: ComM, s: StoreModel, f: nat, g: nat)
    requires
        f <= g,
        ceval(c, s, f) is Some,
    ensures
        ceval(c, s, g) == ceval(c, s, f),
    decreases f, c,
{
    match c {
        ComM::Skip => {},
        ComM::Assign(x, a) => {},
        ComM::Sequence(c0, c1) => {
            lemma_ceval_fuel_mono(*c0, s, f, g);
            match ceval(*c0, s, f) {
                Some(Ok(s1)) => {
                    lemma_ceval_fuel_mono(*c1, s1, f, g);
                },
                _ => {},
            }
        },
        ComM::If(b, c0, c1) => {
            match beval(*b, s) {
                Ok(true) => lemma_ceval_fuel_mono(*c0, s, f, g),
                Ok(false) => lemma_ceval_fuel_mono(*c1, s, f, g),
                _ => {},
            }
        },
        ComM::While(b, body) => {
            match beval(*b, s) {
                Ok(true) => {
                    lemma_ceval_fuel_mono(*body, s, (f - 1) as nat, (g - 1) as nat);
                    match ceval(*body, s, (f - 1) as nat) {
                        Some(Ok(s1)) => {
                            lemma_ceval_fuel_mono(
                                ComM::While(b, body),
                                s1,
                                (f - 1) as nat,
                                (g - 1) as nat,
                            );
                        },
                        _ => {},
                    }
                },
                _ => {},
            }
        },
    }
}

/// Law: an arithmetic error is always one of the two IMP markers.
pub proof fn lemma_aeval_markers(a: AexpM, s: StoreModel)
    ensures
        aeval(a, s) matches Err(e) ==> e == DIVISION_BY_ZERO || e == UNDEFINED_VARIABLE,
    decreases a,
{
    match a {
        AexpM::Add(l, r) | AexpM::Sub(l, r) | AexpM::Mul(l, r) | AexpM::Div(l, r) => {
            lemma_aeval_markers(*l, s);
            lemma_aeval_markers(*r, s);
        },
        _ => {},
    }
}

/// Law: a boolean error is always one of the two IMP markers.
pub proof fn lemma_beval_markers(b: BexpM, s: StoreModel)
    ensures
        beval(b, s) matches Err(e) ==> e == DIVISION_BY_ZERO || e == UNDEFINED_VARIABLE,
    decreases b,
{
    match b {
        BexpM::Eq(l, r) | BexpM::Le(l, r) => {
            lemma_aeval_markers(*l, s);
            lemma_aeval_markers(*r, s);
        },
        BexpM::Not(x) => lemma_beval_markers(*x, s),
        BexpM::And(l, r) | BexpM::Or(l, r) => {
            lemma_beval_markers(*l, s);
            lemma_beval_markers(*r, s);
        },
        _ => {},
    }
}

/// Law: a run fires only the IMP markers, and every store it ends in is
/// sorted by location.
pub proof fn lemma_ceval_outcome(c: ComM, s: StoreModel, f: nat)
    requires
        store_sorted(s),
    ensures
        ceval(c, s, f) matches Some(Err(e)) ==> e == DIVISION_BY_ZERO || e == UNDEFINED_VARIABLE,
        ceval(c, s, f) matches Some(Ok(s1)) ==> store_sorted(s1),
    decreases f, c,
{
    match c {
        ComM::Skip => {},
        ComM::Assign(x, a) => {
            lemma_aeval_markers(*a, s);
            match aeval(*a, s) {
                Ok(v) => crate::imp::store::lemma_insert_sorted(s, x, v),
                _ => {},
            }
        },
        ComM::Sequence(c0, c1) => {
            lemma_ceval_outcome(*c0, s, f);
            match ceval(*c0, s, f) {
                Some(Ok(s1)) => lemma_ceval_outcome(*c1, s1, f),
                _ => {},
            }
        },
        ComM::If(b, c0, c1) => {
            lemma_beval_markers(*b, s);
            lemma_ceval_outcome(*c0, s, f);
            lemma_ceval_outcome(*c1, s, f);
        },
        ComM::While(b, body) => {
            lemma_beval_markers(*b, s);
            if f > 0 {
                lemma_ceval_outcome(*body, s, (f - 1) as nat);
                match ceval(*body, s, (f - 1) as nat) {
                    Some(Ok(s1)) => lemma_ceval_outcome(ComM::While(b, body), s1, (f - 1) as nat),
                    _ => {},
                }
            }
        },
    }
}

} // verus!
