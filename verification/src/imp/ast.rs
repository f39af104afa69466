//! Abstract syntax for IMP/WHILE.
//!
//! ```text
//! Aexp (a) ::= n | X | a0 + a1 | a0 - a1 | a0 * a1 | a0 / a1
//! Bexp (b) ::= true | false | a0 == a1 | a0 <= a1 | not b | b0 and b1 | b0 or b1
//! Com  (c) ::= skip | X := a | c0 ; c1
//!            | if b then c0 else c1
//!            | while b do c
//! ```

use vstd::prelude::*;

verus! {

/// Arithmetic expression.
#[derive(Debug, PartialEq, Eq)]
pub enum Aexp {
    /// Integer literal `n` (signed 64-bit).
    Num(i64),
    /// Variable reference `X`.
    Var(String),
    /// `a0 + a1`
    Add(Box<Aexp>, Box<Aexp>),
    /// `a0 - a1`
    Sub(Box<Aexp>, Box<Aexp>),
    /// `a0 * a1`
    Mul(Box<Aexp>, Box<Aexp>),
    /// `a0 / a1`
    Div(Box<Aexp>, Box<Aexp>),
}

/// Boolean expression.
#[derive(Debug, PartialEq, Eq)]
pub enum Bexp {
    /// `true`
    True,
    /// `false`
    False,
    /// `a0 == a1`
    Eq(Box<Aexp>, Box<Aexp>),
    /// `a0 <= a1`
    Le(Box<Aexp>, Box<Aexp>),
    /// `not b`
    Not(Box<Bexp>),
    /// `b0 and b1`
    And(Box<Bexp>, Box<Bexp>),
    /// `b0 or b1`
    Or(Box<Bexp>, Box<Bexp>),
}

/// Command.
#[derive(Debug, PartialEq, Eq)]
pub enum Com {
    /// `skip`
    Skip,
    /// `X := a`
    Assign(String, Box<Aexp>),
    /// `c0 ; c1`
    Sequence(Box<Com>, Box<Com>),
    /// `if b then c0 else c1`
    If(Box<Bexp>, Box<Com>, Box<Com>),
    /// `while b do c`
    While(Box<Bexp>, Box<Com>),
}

/// Model of an arithmetic expression (names as character sequences).
pub ghost enum AexpM {
    Num(i64),
    Var(Seq<char>),
    Add(Box<AexpM>, Box<AexpM>),
    Sub(Box<AexpM>, Box<AexpM>),
    Mul(Box<AexpM>, Box<AexpM>),
    Div(Box<AexpM>, Box<AexpM>),
}

/// Model of a boolean expression.
pub ghost enum BexpM {
    True,
    False,
    Eq(Box<AexpM>, Box<AexpM>),
    Le(Box<AexpM>, Box<AexpM>),
    Not(Box<BexpM>),
    And(Box<BexpM>, Box<BexpM>),
    Or(Box<BexpM>, Box<BexpM>),
}

/// Model of a command.
pub ghost enum ComM {
    Skip,
    Assign(Seq<char>, Box<AexpM>),
    Sequence(Box<ComM>, Box<ComM>),
    If(Box<BexpM>, Box<ComM>, Box<ComM>),
    While(Box<BexpM>, Box<ComM>),
}

impl View for Aexp {
    type V = AexpM;

    open spec fn view(&self) -> AexpM
        decreases self,
    {
        match self {
            Aexp::Num(n) => AexpM::Num(*n),
            Aexp::Var(x) => AexpM::Var(x@),
            Aexp::Add(l, r) => AexpM::Add(Box::new((**l)@), Box::new((**r)@)),
            Aexp::Sub(l, r) => AexpM::Sub(Box::new((**l)@), Box::new((**r)@)),
            Aexp::Mul(l, r) => AexpM::Mul(Box::new((**l)@), Box::new((**r)@)),
            Aexp::Div(l, r) => AexpM::Div(Box::new((**l)@), Box::new((**r)@)),
        }
    }
}

impl View for Bexp {
    type V = BexpM;

    open spec fn view(&self) -> BexpM
        decreases self,
    {
        match self {
            Bexp::True => BexpM::True,
            Bexp::False => BexpM::False,
            Bexp::Eq(l, r) => BexpM::Eq(Box::new((**l)@), Box::new((**r)@)),
            Bexp::Le(l, r) => BexpM::Le(Box::new((**l)@), Box::new((**r)@)),
            Bexp::Not(b) => BexpM::Not(Box::new((**b)@)),
            Bexp::And(l, r) => BexpM::And(Box::new((**l)@), Box::new((**r)@)),
            Bexp::Or(l, r) => BexpM::Or(Box::new((**l)@), Box::new((**r)@)),
        }
    }
}

impl View for Com {
    type V = ComM;

    open spec fn view(&self) -> ComM
        decreases self,
    {
        match self {
            Com::Skip => ComM::Skip,
            Com::Assign(x, a) => ComM::Assign(x@, Box::new((**a)@)),
            Com::Sequence(c0, c1) => ComM::Sequence(Box::new((**c0)@), Box::new((**c1)@)),
            Com::If(b, c0, c1) => ComM::If(Box::new((**b)@), Box::new((**c0)@), Box::new((**c1)@)),
            Com::While(b, c) => ComM::While(Box::new((**b)@), Box::new((**c)@)),
        }
    }
}

} // verus!
