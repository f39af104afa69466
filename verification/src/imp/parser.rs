//! Parser for `.imp` source files.
//!
//! Whitespace is insignificant; `//` starts a comment that runs to end of line.
//! Within each block, operators listed earlier bind looser:
//!
//! ```text
//! program ::= com EOF
//! com     ::= stmt (";" stmt)*
//! stmt    ::= "skip" | "if" bexp "then" stmt "else" stmt
//!           | "while" bexp "do" stmt | "(" com ")" | ident ":=" aexp
//! aexp    ::= sum
//! sum     ::= product (("+" | "-") product)*
//! product ::= factor (("*" | "/") factor)*
//! factor  ::= "(" aexp ")" | "-"? number | ident
//! bexp    ::= disj
//! disj    ::= conj ("or" conj)*
//! conj    ::= neg  ("and" neg)*
//! neg     ::= "not" neg | atom
//! atom    ::= "true" | "false" | "(" bexp ")" | aexp ("==" | "<=") aexp
//! ```
//!
//! The parser works on the UTF-8 bytes of the source. Errors name what was
//! expected and the byte offset where parsing stuck.

use vstd::prelude::*;
use crate::imp::ast::{Aexp, Bexp, Com, AexpM, BexpM, ComM};
use crate::text::str_eq;

verus! {

/// The ASCII bytes of a character sequence.
pub open spec fn ascii(s: Seq<char>) -> Seq<u8> {
    Seq::new(s.len(), |i: int| s[i] as u8)
}

/// The characters of ASCII bytes.
pub open spec fn unascii(s: Seq<u8>) -> Seq<char> {
    Seq::new(s.len(), |i: int| s[i] as char)
}

/// `' '`, `'\t'`, `'\n'`, `'\r'`.
pub open spec fn is_layout(b: u8) -> bool {
    b == 32 || b == 9 || b == 10 || b == 13
}

pub open spec fn is_alpha_byte(b: u8) -> bool {
    (65 <= b && b <= 90) || (97 <= b && b <= 122)
}

pub open spec fn is_digit_byte(b: u8) -> bool {
    48 <= b && b <= 57
}

/// A byte that may start an identifier: a letter or `_`.
pub open spec fn ident_start(b: u8) -> bool {
    is_alpha_byte(b) || b == 95
}

/// A byte that may continue an identifier: a letter, a digit or `_`.
pub open spec fn ident_cont(b: u8) -> bool {
    is_alpha_byte(b) || is_digit_byte(b) || b == 95
}

/// The reserved words.
pub open spec fn is_keyword_spec(w: Seq<char>) -> bool {
    w == "skip"@ || w == "if"@ || w == "then"@ || w == "else"@ || w == "while"@ || w == "do"@
        || w == "true"@ || w == "false"@ || w == "not"@ || w == "and"@ || w == "or"@
}

/// `t` occurs in `s` at `p`.
pub open spec fn starts_at(s: Seq<u8>, p: int, t: Seq<u8>) -> bool {
    0 <= p && p + t.len() <= s.len() && s.subrange(p, p + t.len()) == t
}

/// End of the run of layout bytes from `p`.
pub open spec fn layout_end(s: Seq<u8>, p: int) -> int
    decreases s.len() - p,
{
    if 0 <= p < s.len() && is_layout(s[p]) {
        layout_end(s, p + 1)
    } else {
        p
    }
}

/// Position of the next line feed at or after `p` (or the end).
pub open spec fn line_end(s: Seq<u8>, p: int) -> int
    decreases s.len() - p,
{
    if 0 <= p < s.len() && s[p] != 10 {
        line_end(s, p + 1)
    } else {
        p
    }
}

/// Skip layout and `// ...` comments.
pub open spec fn trivia(s: Seq<u8>, p: int) -> int
    decreases s.len() - p,
{
    let q = layout_end(s, p);
    if starts_at(s, q, ascii("//"@)) && p < line_end(s, q) <= s.len() {
        trivia(s, line_end(s, q))
    } else {
        q
    }
}

/// End of the run of identifier bytes from `p`.
pub open spec fn ident_end(s: Seq<u8>, p: int) -> int
    decreases s.len() - p,
{
    if 0 <= p < s.len() && ident_cont(s[p]) {
        ident_end(s, p + 1)
    } else {
        p
    }
}

/// End of the run of digits from `p`.
pub open spec fn digit_end(s: Seq<u8>, p: int) -> int
    decreases s.len() - p,
{
    if 0 <= p < s.len() && is_digit_byte(s[p]) {
        digit_end(s, p + 1)
    } else {
        p
    }
}

/// Value of a run of ASCII digits.
pub open spec fn bytes_val(s: Seq<u8>) -> nat
    decreases s.len(),
{
    if s.len() == 0 {
        0
    } else {
        bytes_val(s.drop_last()) * 10 + (s.last() - 48) as nat
    }
}

/// A parse error: what was expected, and the byte offset where it was noticed.
pub type PErr = (Seq<char>, int);

/// Consume `sym` (after layout) if it is next; the position moves past the
/// layout either way.
pub open spec fn eat_symbol_spec(s: Seq<u8>, p: int, sym: Seq<char>) -> (bool, int) {
    let q = trivia(s, p);
    if starts_at(s, q, ascii(sym)) {
        (true, q + sym.len())
    } else {
        (false, q)
    }
}

pub open spec fn expected(what: Seq<char>) -> Seq<char> {
    "expected `"@ + what + "`"@
}

pub open spec fn expect_symbol_spec(s: Seq<u8>, p: int, sym: Seq<char>) -> Result<int, PErr> {
    let (ok, q) = eat_symbol_spec(s, p, sym);
    if ok {
        Ok(q)
    } else {
        Err((expected(sym), q))
    }
}

/// Consume the whole word `kw` (not a prefix of a longer identifier).
pub open spec fn eat_keyword_spec(s: Seq<u8>, p: int, kw: Seq<char>) -> (bool, int) {
    let q = trivia(s, p);
    if !starts_at(s, q, ascii(kw)) {
        (false, q)
    } else if q + kw.len() < s.len() && ident_cont(s[q + kw.len()]) {
        (false, q)
    } else {
        (true, q + kw.len())
    }
}

pub open spec fn expect_keyword_spec(s: Seq<u8>, p: int, kw: Seq<char>) -> Result<int, PErr> {
    let (ok, q) = eat_keyword_spec(s, p, kw);
    if ok {
        Ok(q)
    } else {
        Err((expected(kw), q))
    }
}

/// Consume an identifier that is not a reserved word.
pub open spec fn eat_ident_spec(s: Seq<u8>, p: int) -> (Option<Seq<char>>, int) {
    let q = trivia(s, p);
    if 0 <= q < s.len() && ident_start(s[q]) {
        let e = ident_end(s, q + 1);
        let w = unascii(s.subrange(q, e));
        if is_keyword_spec(w) {
            (None, q)
        } else {
            (Some(w), e)
        }
    } else {
        (None, q)
    }
}

/// Consume an integer literal `"-"? digits` (`None` when none is next).
pub open spec fn eat_number_spec(s: Seq<u8>, p: int) -> Result<(Option<i64>, int), PErr> {
    let q = trivia(s, p);
    let neg = 0 <= q < s.len() && s[q] == 45;
    let ds = if neg {
        q + 1
    } else {
        q
    };
    let e = digit_end(s, ds);
    if e == ds {
        if neg {
            Err(("expected digits after `-`"@, q))
        } else {
            Ok((None, q))
        }
    } else {
        let m = bytes_val(s.subrange(ds, e));
        let v: int = if neg {
            -m
        } else {
            m as int
        };
        if neg && v < i64::MIN {
            Err(("integer literal out of range: number too small to fit in target type"@, q))
        } else if !neg && v > i64::MAX {
            Err(("integer literal out of range: number too large to fit in target type"@, q))
        } else {
            Ok((Some(v as i64), e))
        }
    }
}

/// A sub-result position that does not move backwards (every parser
/// consumes; see `lemma_parse_progress`).
pub open spec fn fwd(s: Seq<u8>, p: int, r: int) -> bool {
    p <= r <= s.len()
}

pub open spec fn stuck(p: int) -> PErr {
    ("parser made no progress"@, p)
}

pub open spec fn factor_spec(s: Seq<u8>, p: int) -> Result<(AexpM, int), PErr>
    decreases s.len() - p, 0int,
{
    let (lp, q) = eat_symbol_spec(s, p, "("@);
    if lp {
        if !(p < q <= s.len()) {
            Err(stuck(q))
        } else {
            match aexp_spec(s, q) {
                Err(e) => Err(e),
                Ok((a, r)) => if !fwd(s, q, r) {
                    Err(stuck(r))
                } else {
                    match expect_symbol_spec(s, r, ")"@) {
                        Err(e) => Err(e),
                        Ok(t) => Ok((a, t)),
                    }
                },
            }
        }
    } else {
        match eat_number_spec(s, q) {
            Err(e) => Err(e),
            Ok((Some(n), t)) => Ok((AexpM::Num(n), t)),
            Ok((None, t)) => match eat_ident_spec(s, t) {
                (Some(x), u) => Ok((AexpM::Var(x), u)),
                (None, u) => Err(("expected a number, a variable, or `(`"@, u)),
            },
        }
    }
}

pub open spec fn product_tail_spec(s: Seq<u8>, acc: AexpM, p: int) -> Result<(AexpM, int), PErr>
    decreases s.len() - p, 1int,
{
    let (mul, q) = eat_symbol_spec(s, p, "*"@);
    if mul {
        if !(p < q <= s.len()) {
            Err(stuck(q))
        } else {
            match factor_spec(s, q) {
                Err(e) => Err(e),
                Ok((b, r)) => if !fwd(s, q, r) {
                    Err(stuck(r))
                } else {
                    product_tail_spec(s, AexpM::Mul(Box::new(acc), Box::new(b)), r)
                },
            }
        }
    } else {
        let (div, q2) = eat_symbol_spec(s, q, "/"@);
        if div {
            if !(p < q2 <= s.len()) {
                Err(stuck(q2))
            } else {
                match factor_spec(s, q2) {
                    Err(e) => Err(e),
                    Ok((b, r)) => if !fwd(s, q2, r) {
                        Err(stuck(r))
                    } else {
                        product_tail_spec(s, AexpM::Div(Box::new(acc), Box::new(b)), r)
                    },
                }
            }
        } else {
            Ok((acc, q2))
        }
    }
}

pub open spec fn product_spec(s: Seq<u8>, p: int) -> Result<(AexpM, int), PErr>
    decreases s.len() - p, 2int,
{
    match factor_spec(s, p) {
        Err(e) => Err(e),
        Ok((a, r)) => if !fwd(s, p, r) {
            Err(stuck(r))
        } else {
            product_tail_spec(s, a, r)
        },
    }
}

pub open spec fn sum_tail_spec(s: Seq<u8>, acc: AexpM, p: int) -> Result<(AexpM, int), PErr>
    decreases s.len() - p, 3int,
{
    let (add, q) = eat_symbol_spec(s, p, "+"@);
    if add {
        if !(p < q <= s.len()) {
            Err(stuck(q))
        } else {
            match product_spec(s, q) {
                Err(e) => Err(e),
                Ok((b, r)) => if !fwd(s, q, r) {
                    Err(stuck(r))
                } else {
                    sum_tail_spec(s, AexpM::Add(Box::new(acc), Box::new(b)), r)
                },
            }
        }
    } else {
        let (sub, q2) = eat_symbol_spec(s, q, "-"@);
        if sub {
            if !(p < q2 <= s.len()) {
                Err(stuck(q2))
            } else {
                match product_spec(s, q2) {
                    Err(e) => Err(e),
                    Ok((b, r)) => if !fwd(s, q2, r) {
                        Err(stuck(r))
                    } else {
                        sum_tail_spec(s, AexpM::Sub(Box::new(acc), Box::new(b)), r)
                    },
                }
            }
        } else {
            Ok((acc, q2))
        }
    }
}

pub open spec fn sum_spec(s: Seq<u8>, p: int) -> Result<(AexpM, int), PErr>
    decreases s.len() - p, 4int,
{
    match product_spec(s, p) {
        Err(e) => Err(e),
        Ok((a, r)) => if !fwd(s, p, r) {
            Err(stuck(r))
        } else {
            sum_tail_spec(s, a, r)
        },
    }
}

pub open spec fn aexp_spec(s: Seq<u8>, p: int) -> Result<(AexpM, int), PErr>
    decreases s.len() - p, 5int,
{
    sum_spec(s, p)
}

} // verus!

verus! {

/// The parenthesised-boolean reading `"(" bexp ")"` of an atom at `q`
/// (`None` when it does not parse).
pub open spec fn paren_bexp_spec(s: Seq<u8>, p: int, q: int) -> Option<(BexpM, int)>
    decreases s.len() - p, 6int, 0int,
{
    match expect_symbol_spec(s, q, "("@) {
        Err(e) => None,
        Ok(a) => if !(p < a <= s.len()) {
            None
        } else {
            match bexp_spec(s, a) {
                Err(e) => None,
                Ok((b, r)) => match expect_symbol_spec(s, r, ")"@) {
                    Err(e) => None,
                    Ok(t) => Some((b, t)),
                },
            }
        },
    }
}

/// A comparison `aexp ("==" | "<=") aexp` at `q`.
pub open spec fn comparison_spec(s: Seq<u8>, q: int) -> Result<(BexpM, int), PErr> {
    match aexp_spec(s, q) {
        Err(e) => Err(e),
        Ok((lhs, r)) => {
            let (eq, r1) = eat_symbol_spec(s, r, "=="@);
            if eq {
                match aexp_spec(s, r1) {
                    Err(e) => Err(e),
                    Ok((rhs, r2)) => Ok((BexpM::Eq(Box::new(lhs), Box::new(rhs)), r2)),
                }
            } else {
                let (le, r3) = eat_symbol_spec(s, r1, "<="@);
                if le {
                    match aexp_spec(s, r3) {
                        Err(e) => Err(e),
                        Ok((rhs, r4)) => Ok((BexpM::Le(Box::new(lhs), Box::new(rhs)), r4)),
                    }
                } else {
                    Err(("expected `==` or `<=`"@, r3))
                }
            }
        },
    }
}

pub open spec fn atom_spec(s: Seq<u8>, p: int) -> Result<(BexpM, int), PErr>
    decreases s.len() - p, 6int, 1int,
{
    let (t, q) = eat_keyword_spec(s, p, "true"@);
    if t {
        Ok((BexpM::True, q))
    } else {
        let (f, q1) = eat_keyword_spec(s, q, "false"@);
        if f {
            Ok((BexpM::False, q1))
        } else {
            // A leading `(` may open a parenthesised boolean, or be the first
            // operand of a comparison: try the boolean reading first.
            let q2 = trivia(s, q1);
            let paren = if starts_at(s, q2, ascii("("@)) {
                paren_bexp_spec(s, p, q2)
            } else {
                None
            };
            match paren {
                Some(res) => Ok(res),
                None => comparison_spec(s, q2),
            }
        }
    }
}

pub open spec fn neg_spec(s: Seq<u8>, p: int) -> Result<(BexpM, int), PErr>
    decreases s.len() - p, 7int, 0int,
{
    let (n, q) = eat_keyword_spec(s, p, "not"@);
    if n {
        if !(p < q <= s.len()) {
            Err(stuck(q))
        } else {
            match neg_spec(s, q) {
                Err(e) => Err(e),
                Ok((b, r)) => Ok((BexpM::Not(Box::new(b)), r)),
            }
        }
    } else {
        if !fwd(s, p, q) {
            Err(stuck(q))
        } else {
            atom_spec(s, q)
        }
    }
}

pub open spec fn conj_tail_spec(s: Seq<u8>, acc: BexpM, p: int) -> Result<(BexpM, int), PErr>
    decreases s.len() - p, 8int, 0int,
{
    let (and, q) = eat_keyword_spec(s, p, "and"@);
    if and {
        if !(p < q <= s.len()) {
            Err(stuck(q))
        } else {
            match neg_spec(s, q) {
                Err(e) => Err(e),
                Ok((b, r)) => if !fwd(s, q, r) {
                    Err(stuck(r))
                } else {
                    conj_tail_spec(s, BexpM::And(Box::new(acc), Box::new(b)), r)
                },
            }
        }
    } else {
        Ok((acc, q))
    }
}

pub open spec fn conj_spec(s: Seq<u8>, p: int) -> Result<(BexpM, int), PErr>
    decreases s.len() - p, 9int, 0int,
{
    match neg_spec(s, p) {
        Err(e) => Err(e),
        Ok((a, r)) => if !fwd(s, p, r) {
            Err(stuck(r))
        } else {
            conj_tail_spec(s, a, r)
        },
    }
}

pub open spec fn disj_tail_spec(s: Seq<u8>, acc: BexpM, p: int) -> Result<(BexpM, int), PErr>
    decreases s.len() - p, 10int, 0int,
{
    let (or, q) = eat_keyword_spec(s, p, "or"@);
    if or {
        if !(p < q <= s.len()) {
            Err(stuck(q))
        } else {
            match conj_spec(s, q) {
                Err(e) => Err(e),
                Ok((b, r)) => if !fwd(s, q, r) {
                    Err(stuck(r))
                } else {
                    disj_tail_spec(s, BexpM::Or(Box::new(acc), Box::new(b)), r)
                },
            }
        }
    } else {
        Ok((acc, q))
    }
}

pub open spec fn disj_spec(s: Seq<u8>, p: int) -> Result<(BexpM, int), PErr>
    decreases s.len() - p, 11int, 0int,
{
    match conj_spec(s, p) {
        Err(e) => Err(e),
        Ok((a, r)) => if !fwd(s, p, r) {
            Err(stuck(r))
        } else {
            disj_tail_spec(s, a, r)
        },
    }
}

pub open spec fn bexp_spec(s: Seq<u8>, p: int) -> Result<(BexpM, int), PErr>
    decreases s.len() - p, 12int, 0int,
{
    disj_spec(s, p)
}

/// `"if" bexp "then" stmt "else" stmt`, after `if` (the statement began at `p`).
pub open spec fn if_spec(s: Seq<u8>, p: int, q1: int) -> Result<(ComM, int), PErr>
    decreases s.len() - p, 13int, 0int,
{
    if !(p < q1 <= s.len()) {
        Err(stuck(q1))
    } else {
        match bexp_spec(s, q1) {
            Err(e) => Err(e),
            Ok((b, r)) => match expect_keyword_spec(s, r, "then"@) {
                Err(e) => Err(e),
                Ok(r1) => if !(p < r1 <= s.len()) {
                    Err(stuck(r1))
                } else {
                    match stmt_spec(s, r1) {
                        Err(e) => Err(e),
                        Ok((c0, r2)) => match expect_keyword_spec(s, r2, "else"@) {
                            Err(e) => Err(e),
                            Ok(r3) => if !(p < r3 <= s.len()) {
                                Err(stuck(r3))
                            } else {
                                match stmt_spec(s, r3) {
                                    Err(e) => Err(e),
                                    Ok((c1, r4)) => Ok(
                                        (ComM::If(Box::new(b), Box::new(c0), Box::new(c1)), r4),
                                    ),
                                }
                            },
                        },
                    }
                },
            },
        }
    }
}

/// `"while" bexp "do" stmt`, after `while`.
pub open spec fn while_spec(s: Seq<u8>, p: int, q2: int) -> Result<(ComM, int), PErr>
    decreases s.len() - p, 13int, 0int,
{
    if !(p < q2 <= s.len()) {
        Err(stuck(q2))
    } else {
        match bexp_spec(s, q2) {
            Err(e) => Err(e),
            Ok((b, r)) => match expect_keyword_spec(s, r, "do"@) {
                Err(e) => Err(e),
                Ok(r1) => if !(p < r1 <= s.len()) {
                    Err(stuck(r1))
                } else {
                    match stmt_spec(s, r1) {
                        Err(e) => Err(e),
                        Ok((body, r2)) => Ok((ComM::While(Box::new(b), Box::new(body)), r2)),
                    }
                },
            },
        }
    }
}

/// `"(" com ")"`, after `(`.
pub open spec fn block_spec(s: Seq<u8>, p: int, q3: int) -> Result<(ComM, int), PErr>
    decreases s.len() - p, 13int, 0int,
{
    if !(p < q3 <= s.len()) {
        Err(stuck(q3))
    } else {
        match com_spec(s, q3) {
            Err(e) => Err(e),
            Ok((c, r)) => match expect_symbol_spec(s, r, ")"@) {
                Err(e) => Err(e),
                Ok(r1) => Ok((c, r1)),
            },
        }
    }
}

/// `ident ":=" aexp` at `q`.
pub open spec fn assign_spec(s: Seq<u8>, q: int) -> Result<(ComM, int), PErr> {
    match eat_ident_spec(s, q) {
        (Some(x), r) => match expect_symbol_spec(s, r, ":="@) {
            Err(e) => Err(e),
            Ok(r1) => match aexp_spec(s, r1) {
                Err(e) => Err(e),
                Ok((a, r2)) => Ok((ComM::Assign(x, Box::new(a)), r2)),
            },
        },
        (None, r) => Err(("expected a statement (skip, assignment, if, while, or `(`)"@, r)),
    }
}

pub open spec fn stmt_spec(s: Seq<u8>, p: int) -> Result<(ComM, int), PErr>
    decreases s.len() - p, 13int, 1int,
{
    let (sk, q0) = eat_keyword_spec(s, p, "skip"@);
    if sk {
        Ok((ComM::Skip, q0))
    } else {
        let (i, q1) = eat_keyword_spec(s, q0, "if"@);
        if i {
            if_spec(s, p, q1)
        } else {
            let (w, q2) = eat_keyword_spec(s, q1, "while"@);
            if w {
                while_spec(s, p, q2)
            } else {
                let (lp, q3) = eat_symbol_spec(s, q2, "("@);
                if lp {
                    block_spec(s, p, q3)
                } else {
                    assign_spec(s, q3)
                }
            }
        }
    }
}

pub open spec fn com_tail_spec(s: Seq<u8>, acc: ComM, p: int) -> Result<(ComM, int), PErr>
    decreases s.len() - p, 14int, 0int,
{
    let (semi, q) = eat_symbol_spec(s, p, ";"@);
    if semi {
        if !(p < q <= s.len()) {
            Err(stuck(q))
        } else {
            match stmt_spec(s, q) {
                Err(e) => Err(e),
                Ok((c, r)) => if !fwd(s, q, r) {
                    Err(stuck(r))
                } else {
                    com_tail_spec(s, ComM::Sequence(Box::new(acc), Box::new(c)), r)
                },
            }
        }
    } else {
        Ok((acc, q))
    }
}

pub open spec fn com_spec(s: Seq<u8>, p: int) -> Result<(ComM, int), PErr>
    decreases s.len() - p, 15int, 0int,
{
    match stmt_spec(s, p) {
        Err(e) => Err(e),
        Ok((c, r)) => if !fwd(s, p, r) {
            Err(stuck(r))
        } else {
            com_tail_spec(s, c, r)
        },
    }
}

/// A whole program: a command, then only layout and comments.
pub open spec fn program_spec(s: Seq<u8>) -> Result<ComM, PErr> {
    match com_spec(s, 0) {
        Err(e) => Err(e),
        Ok((c, r)) => {
            let t = trivia(s, r);
            if t != s.len() {
                Err(("unexpected trailing input"@, t))
            } else {
                Ok(c)
            }
        },
    }
}

} // verus!

verus! {

pub proof fn lemma_layout_end(s: Seq<u8>, p: int)
    requires
        0 <= p <= s.len(),
    ensures
        p <= layout_end(s, p) <= s.len(),
    decreases s.len() - p,
{
    if p < s.len() && is_layout(s[p]) {
        lemma_layout_end(s, p + 1);
    }
}

pub proof fn lemma_line_end(s: Seq<u8>, p: int)
    requires
        0 <= p <= s.len(),
    ensures
        p <= line_end(s, p) <= s.len(),
    decreases s.len() - p,
{
    if p < s.len() && s[p] != 10 {
        lemma_line_end(s, p + 1);
    }
}

pub proof fn lemma_ident_end(s: Seq<u8>, p: int)
    requires
        0 <= p <= s.len(),
    ensures
        p <= ident_end(s, p) <= s.len(),
        forall|j: int| p <= j < ident_end(s, p) ==> ident_cont(#[trigger] s[j]),
        ident_end(s, p) < s.len() ==> !ident_cont(s[ident_end(s, p)]),
    decreases s.len() - p,
{
    if p < s.len() && ident_cont(s[p]) {
        lemma_ident_end(s, p + 1);
    }
}

pub proof fn lemma_digit_end(s: Seq<u8>, p: int)
    requires
        0 <= p <= s.len(),
    ensures
        p <= digit_end(s, p) <= s.len(),
        forall|j: int| p <= j < digit_end(s, p) ==> is_digit_byte(#[trigger] s[j]),
        digit_end(s, p) < s.len() ==> !is_digit_byte(s[digit_end(s, p)]),
    decreases s.len() - p,
{
    if p < s.len() && is_digit_byte(s[p]) {
        lemma_digit_end(s, p + 1);
    }
}

pub proof fn lemma_trivia(s: Seq<u8>, p: int)
    requires
        0 <= p <= s.len(),
    ensures
        p <= trivia(s, p) <= s.len(),
    decreases s.len() - p,
{
    let q = layout_end(s, p);
    lemma_layout_end(s, p);
    if starts_at(s, q, ascii("//"@)) && p < line_end(s, q) <= s.len() {
        lemma_trivia(s, line_end(s, q));
    }
}

/// A parser over the UTF-8 bytes of an IMP source.
pub struct Parser<'a> {
    src: &'a [u8],
    pos: usize,
}

fn ascii_bytes(s: &str) -> (r: Vec<u8>)
    ensures
        r@ == ascii(s@),
{
    let v = crate::text::chars_of(s);
    let mut r: Vec<u8> = Vec::new();
    let mut i: usize = 0;
    while i < v.len()
        invariant
            i <= v.len(),
            v@ == s@,
            r@ == ascii(v@.take(i as int)),
        decreases v.len() - i,
    {
        r.push(v[i] as u8);
        assert(ascii(v@.take(i + 1)) =~= ascii(v@.take(i as int)).push(v@[i as int] as u8));
        i = i + 1;
    }
    assert(v@.take(v.len() as int) == v@);
    r
}

/// Parse-error message: what was expected, the byte offset, and the source
/// near it.
pub open spec fn err_msg(s: Seq<u8>, e: PErr) -> Seq<char> {
    let (what, q) = e;
    let end = if q + 16 < s.len() {
        q + 16
    } else {
        s.len() as int
    };
    what + " at byte "@ + crate::text::dec_nat(q as nat) + " (near "@ + crate::text::debug_str(
        crate::text::lossy_utf8(s.subrange(q, end)),
    ) + ")"@
}

impl<'a> Parser<'a> {
    pub closed spec fn wf(&self) -> bool {
        self.pos <= self.src@.len() <= usize::MAX
    }

    fn new(src: &'a [u8]) -> (p: Self)
        ensures
            p.wf(),
            p.src@ == src@,
            p.pos == 0,
    {
        let _n = src.len();
        Parser { src, pos: 0 }
    }

    /// The next raw byte, without consuming it.
    fn peek_raw(&self) -> (r: Option<u8>)
        requires
            self.wf(),
        ensures
            r == if self.pos < self.src@.len() {
                Some(self.src@[self.pos as int])
            } else {
                None::<u8>
            },
    {
        if self.pos < self.src.len() {
            Some(self.src[self.pos])
        } else {
            None
        }
    }

    /// Whether `t` occurs at the current position.
    fn at_bytes(&self, t: &Vec<u8>) -> (r: bool)
        requires
            self.wf(),
        ensures
            r == starts_at(self.src@, self.pos as int, t@),
    {
        if t.len() > self.src.len() - self.pos {
            return false;
        }
        let mut i: usize = 0;
        while i < t.len()
            invariant
                self.wf(),
                i <= t.len(),
                self.pos + t.len() <= self.src@.len(),
                forall|j: int| 0 <= j < i ==> self.src@[self.pos + j] == t@[j],
            decreases t.len() - i,
        {
            assert(self.pos + i < self.src@.len());
            if self.src[self.pos + i] != t[i] {
                assert(self.src@.subrange(self.pos as int, self.pos + t@.len())[i as int]
                    == self.src@[self.pos + i]);
                return false;
            }
            i = i + 1;
        }
        assert(self.src@.subrange(self.pos as int, self.pos + t@.len()) =~= t@);
        true
    }

    /// Skip whitespace and `// ...` line comments.
    fn skip_trivia(&mut self)
        requires
            old(self).wf(),
        ensures
            final(self).wf(),
            final(self).src == old(self).src,
            final(self).pos == trivia(old(self).src@, old(self).pos as int),
    {
        let ghost s = self.src@;
        let ghost goal = trivia(s, self.pos as int);
        let slashes = ascii_bytes("//");
        loop
            invariant
                self.wf(),
                self.src@ == s,
                self.src == old(self).src,
                slashes@ == ascii("//"@),
                trivia(s, self.pos as int) == goal,
            ensures
                self.wf(),
                self.src == old(self).src,
                self.pos == goal,
            decreases s.len() - self.pos,
        {
            let ghost p0 = self.pos as int;
            while self.pos < self.src.len() && (self.src[self.pos] == 32 || self.src[self.pos] == 9
                || self.src[self.pos] == 10 || self.src[self.pos] == 13)
                invariant
                    self.wf(),
                    self.src@ == s,
                    self.src == old(self).src,
                    p0 <= self.pos,
                    layout_end(s, self.pos as int) == layout_end(s, p0),
                decreases s.len() - self.pos,
            {
                self.pos = self.pos + 1;
            }
            let ghost q = self.pos as int;
            assert(q == layout_end(s, p0));
            if self.at_bytes(&slashes) {
                proof {
                    reveal_strlit("//");
                }
                while self.pos < self.src.len() && self.src[self.pos] != 10
                    invariant
                        self.wf(),
                        self.src@ == s,
                        self.src == old(self).src,
                        q <= self.pos,
                        line_end(s, self.pos as int) == line_end(s, q),
                    decreases s.len() - self.pos,
                {
                    self.pos = self.pos + 1;
                }
                proof {
                    assert(ascii("//"@)[0] == 47u8);
                    assert(ascii("//"@)[1] == 47u8);
                    assert(s.subrange(q, q + 2)[0] == s[q]);
                    assert(s.subrange(q, q + 2)[1] == s[q + 1]);
                    assert(s[q] == 47);
                    assert(line_end(s, q) == line_end(s, q + 1));
                    assert(s[q + 1] == 47);
                    assert(line_end(s, q + 1) == line_end(s, q + 2));
                    lemma_line_end(s, q + 2);
                    assert(trivia(s, p0) == trivia(s, line_end(s, q)));
                }
                continue;
            }
            assert(trivia(s, p0) == q);
            break;
        }
    }
}

} // verus!

verus! {

pub proof fn lemma_bytes_val_mono(s: Seq<u8>, i: int, j: int)
    requires
        0 <= i <= j <= s.len(),
    ensures
        bytes_val(s.take(i)) <= bytes_val(s.take(j)),
    decreases j - i,
{
    if i < j {
        lemma_bytes_val_mono(s, i, j - 1);
        assert(s.take(j).drop_last() == s.take(j - 1));
    }
}

fn ascii_string(b: &[u8], start: usize, end: usize) -> (r: String)
    requires
        start <= end <= b@.len(),
    ensures
        r@ == unascii(b@.subrange(start as int, end as int)),
{
    let mut v: Vec<char> = Vec::new();
    let mut i = start;
    while i < end
        invariant
            start <= i <= end <= b@.len(),
            v@ == unascii(b@.subrange(start as int, i as int)),
        decreases end - i,
    {
        v.push(b[i] as char);
        assert(unascii(b@.subrange(start as int, i + 1)) =~= unascii(
            b@.subrange(start as int, i as int),
        ).push(b@[i as int] as char));
        i = i + 1;
    }
    crate::text::string_of(&v)
}

fn is_keyword_bytes(b: &[u8], start: usize, end: usize) -> (r: bool)
    requires
        start <= end <= b@.len(),
    ensures
        r == is_keyword_spec(unascii(b@.subrange(start as int, end as int))),
{
    let w = ascii_string(b, start, end);
    is_keyword(w.as_str())
}

/// The reserved words of IMP.
pub fn is_keyword(word: &str) -> (r: bool)
    ensures
        r == is_keyword_spec(word@),
{
    str_eq(word, "skip") || str_eq(word, "if") || str_eq(word, "then") || str_eq(word, "else")
        || str_eq(word, "while") || str_eq(word, "do") || str_eq(word, "true") || str_eq(
        word,
        "false",
    ) || str_eq(word, "not") || str_eq(word, "and") || str_eq(word, "or")
}

/// Whether a byte may start an identifier.
pub fn is_ident_start(b: u8) -> (r: bool)
    ensures
        r == ident_start(b),
{
    (65 <= b && b <= 90) || (97 <= b && b <= 122) || b == 95
}

/// Whether a byte may continue an identifier.
pub fn is_ident_cont(b: u8) -> (r: bool)
    ensures
        r == ident_cont(b),
{
    (65 <= b && b <= 90) || (97 <= b && b <= 122) || (48 <= b && b <= 57) || b == 95
}

impl<'a> Parser<'a> {
    /// Build an error message anchored at the current position.
    fn error(&self, what: &str) -> (r: String)
        requires
            self.wf(),
        ensures
            r@ == err_msg(self.src@, (what@, self.pos as int)),
    {
        let end = if self.src.len() - self.pos > 16 {
            self.pos + 16
        } else {
            self.src.len()
        };
        let near = from_utf8_lossy_at(self.src, self.pos, end);
        let quoted = crate::text::debug_quote(near.as_str());
        let mut out: Vec<char> = crate::text::chars_of(what);
        push_str_chars(&mut out, " at byte ");
        crate::text::push_u64(&mut out, self.pos as u64);
        push_str_chars(&mut out, " (near ");
        push_str_chars(&mut out, quoted.as_str());
        push_str_chars(&mut out, ")");
        crate::text::string_of(&out)
    }

    /// Consume `sym` (after layout) if it is next.
    fn eat_symbol(&mut self, sym: &str) -> (r: bool)
        requires
            old(self).wf(),
        ensures
            final(self).wf(),
            final(self).src == old(self).src,
            (r, final(self).pos as int) == eat_symbol_spec(old(self).src@, old(self).pos as int, sym@),
    {
        self.skip_trivia();
        let t = ascii_bytes(sym);
        if self.at_bytes(&t) {
            self.pos = self.pos + t.len();
            true
        } else {
            false
        }
    }

    /// Is `sym` next? (Skips layout but does not consume the symbol.)
    fn at_symbol(&mut self, sym: &str) -> (r: bool)
        requires
            old(self).wf(),
        ensures
            final(self).wf(),
            final(self).src == old(self).src,
            final(self).pos == trivia(old(self).src@, old(self).pos as int),
            r == starts_at(old(self).src@, final(self).pos as int, ascii(sym@)),
    {
        self.skip_trivia();
        let t = ascii_bytes(sym);
        self.at_bytes(&t)
    }

    /// Consume `sym`, or report an error naming it.
    fn expect_symbol(&mut self, sym: &str) -> (r: Result<(), String>)
        requires
            old(self).wf(),
        ensures
            final(self).wf(),
            final(self).src == old(self).src,
            match expect_symbol_spec(old(self).src@, old(self).pos as int, sym@) {
                Ok(q) => r is Ok && final(self).pos == q,
                Err(e) => r matches Err(m) && m@ == err_msg(old(self).src@, e),
            },
    {
        if self.eat_symbol(sym) {
            Ok(())
        } else {
            Err(self.error_expected(sym))
        }
    }

    fn error_expected(&self, what: &str) -> (r: String)
        requires
            self.wf(),
        ensures
            r@ == err_msg(self.src@, (expected(what@), self.pos as int)),
    {
        let mut v: Vec<char> = crate::text::chars_of("expected `");
        push_str_chars(&mut v, what);
        push_str_chars(&mut v, "`");
        let w = crate::text::string_of(&v);
        self.error(w.as_str())
    }

    /// Consume the whole word `kw`.
    fn eat_keyword(&mut self, kw: &str) -> (r: bool)
        requires
            old(self).wf(),
        ensures
            final(self).wf(),
            final(self).src == old(self).src,
            (r, final(self).pos as int) == eat_keyword_spec(old(self).src@, old(self).pos as int, kw@),
    {
        self.skip_trivia();
        let t = ascii_bytes(kw);
        if !self.at_bytes(&t) {
            return false;
        }
        let after = self.pos + t.len();
        if after < self.src.len() && is_ident_cont(self.src[after]) {
            return false;
        }
        self.pos = after;
        true
    }

    /// Consume `kw`, or report an error naming it.
    fn expect_keyword(&mut self, kw: &str) -> (r: Result<(), String>)
        requires
            old(self).wf(),
        ensures
            final(self).wf(),
            final(self).src == old(self).src,
            match expect_keyword_spec(old(self).src@, old(self).pos as int, kw@) {
                Ok(q) => r is Ok && final(self).pos == q,
                Err(e) => r matches Err(m) && m@ == err_msg(old(self).src@, e),
            },
    {
        if self.eat_keyword(kw) {
            Ok(())
        } else {
            Err(self.error_expected(kw))
        }
    }

    /// Consume an identifier (never a reserved word).
    fn eat_ident(&mut self) -> (r: Option<String>)
        requires
            old(self).wf(),
        ensures
            final(self).wf(),
            final(self).src == old(self).src,
            ({
                let (m, q) = eat_ident_spec(old(self).src@, old(self).pos as int);
                &&& final(self).pos == q
                &&& match (r, m) {
                    (Some(x), Some(w)) => x@ == w,
                    (None, None) => true,
                    _ => false,
                }
            }),
    {
        self.skip_trivia();
        let start = self.pos;
        if !(self.pos < self.src.len() && is_ident_start(self.src[self.pos])) {
            return None;
        }
        self.pos = self.pos + 1;
        while self.pos < self.src.len() && is_ident_cont(self.src[self.pos])
            invariant
                self.wf(),
                self.src == old(self).src,
                start < self.pos,
                ident_end(self.src@, self.pos as int) == ident_end(self.src@, start + 1),
            decreases self.src@.len() - self.pos,
        {
            self.pos = self.pos + 1;
        }
        if is_keyword_bytes(self.src, start, self.pos) {
            self.pos = start;
            return None;
        }
        Some(ascii_string(self.src, start, self.pos))
    }

    /// Consume an integer literal `"-"? digits`; `None` when the next token is
    /// not a number.
    fn eat_number(&mut self) -> (r: Result<Option<i64>, String>)
        requires
            old(self).wf(),
        ensures
            final(self).wf(),
            final(self).src == old(self).src,
            match eat_number_spec(old(self).src@, old(self).pos as int) {
                Ok((n, q)) => r == Ok::<Option<i64>, String>(n) && final(self).pos == q,
                Err(e) => r matches Err(m) && m@ == err_msg(old(self).src@, e),
            },
    {
        self.skip_trivia();
        let ghost s = self.src@;
        let start = self.pos;
        let negative = self.pos < self.src.len() && self.src[self.pos] == 45;
        let digits_start = if negative {
            start + 1
        } else {
            start
        };
        let mut end = digits_start;
        let mut m: u64 = 0;
        let mut overflow = false;
        while end < self.src.len() && 48 <= self.src[end] && self.src[end] <= 57
            invariant
                self.wf(),
                self.src == old(self).src,
                s == self.src@,
                digits_start <= end <= s.len(),
                self.pos == start,
                digit_end(s, end as int) == digit_end(s, digits_start as int),
                forall|j: int| digits_start <= j < end ==> is_digit_byte(#[trigger] s[j]),
                !overflow ==> m == bytes_val(s.subrange(digits_start as int, end as int)),
                overflow ==> bytes_val(s.subrange(digits_start as int, end as int)) > u64::MAX,
            decreases s.len() - end,
        {
            let d = (self.src[end] - 48) as u64;
            let ghost sub = s.subrange(digits_start as int, end + 1);
            assert(sub.drop_last() == s.subrange(digits_start as int, end as int));
            assert(sub.last() == s[end as int]);
            if !overflow {
                match m.checked_mul(10) {
                    None => {
                        overflow = true;
                    },
                    Some(m10) => match m10.checked_add(d) {
                        None => {
                            overflow = true;
                        },
                        Some(v) => {
                            m = v;
                        },
                    },
                }
            }
            end = end + 1;
        }
        if end == digits_start {
            return if negative {
                Err(self.error("expected digits after `-`"))
            } else {
                Ok(None)
            };
        }
        if negative {
            if overflow || m > 9223372036854775808u64 {
                return Err(
                    self.error(
                        "integer literal out of range: number too small to fit in target type",
                    ),
                );
            }
            self.pos = end;
            if m == 9223372036854775808u64 {
                Ok(Some(i64::MIN))
            } else {
                Ok(Some(-(m as i64)))
            }
        } else {
            if overflow || m > 9223372036854775807u64 {
                return Err(
                    self.error(
                        "integer literal out of range: number too large to fit in target type",
                    ),
                );
            }
            self.pos = end;
            Ok(Some(m as i64))
        }
    }
}

/// `String::from_utf8_lossy` of `b[start..end]`.
fn from_utf8_lossy_at(b: &[u8], start: usize, end: usize) -> (r: String)
    requires
        start <= end <= b@.len(),
    ensures
        r@ == crate::text::lossy_utf8(b@.subrange(start as int, end as int)),
{
    let part = &b[start..end];
    crate::text::from_utf8_lossy(part)
}

fn push_str_chars(out: &mut Vec<char>, s: &str)
    ensures
        final(out)@ == old(out)@ + s@,
{
    let v = crate::text::chars_of(s);
    let mut i: usize = 0;
    while i < v.len()
        invariant
            i <= v.len(),
            v@ == s@,
            out@ == old(out)@ + v@.take(i as int),
        decreases v.len() - i,
    {
        out.push(v[i]);
        assert(v@.take(i + 1) == v@.take(i as int).push(v@[i as int]));
        i = i + 1;
    }
    assert(v@.take(v.len() as int) == v@);
}

} // verus!

verus! {

/// `r` is the executable form of the parse outcome `m`, with the parser at
/// `pos` afterwards (on success).
pub open spec fn aexp_res(r: Result<Aexp, String>, m: Result<(AexpM, int), PErr>, s: Seq<u8>, pos: int) -> bool {
    match (r, m) {
        (Ok(x), Ok((a, q))) => x@ == a && pos == q,
        (Err(msg), Err(e)) => msg@ == err_msg(s, e),
        _ => false,
    }
}

pub open spec fn bexp_res(r: Result<Bexp, String>, m: Result<(BexpM, int), PErr>, s: Seq<u8>, pos: int) -> bool {
    match (r, m) {
        (Ok(x), Ok((a, q))) => x@ == a && pos == q,
        (Err(msg), Err(e)) => msg@ == err_msg(s, e),
        _ => false,
    }
}

pub open spec fn com_res(r: Result<Com, String>, m: Result<(ComM, int), PErr>, s: Seq<u8>, pos: int) -> bool {
    match (r, m) {
        (Ok(x), Ok((a, q))) => x@ == a && pos == q,
        (Err(msg), Err(e)) => msg@ == err_msg(s, e),
        _ => false,
    }
}

pub proof fn lemma_eat_symbol(s: Seq<u8>, p: int, sym: Seq<char>)
    requires
        0 <= p <= s.len(),
        sym.len() > 0,
    ensures
        eat_symbol_spec(s, p, sym).0 ==> p < eat_symbol_spec(s, p, sym).1 <= s.len(),
        p <= eat_symbol_spec(s, p, sym).1 <= s.len(),
{
    lemma_trivia(s, p);
}

pub proof fn lemma_eat_keyword(s: Seq<u8>, p: int, kw: Seq<char>)
    requires
        0 <= p <= s.len(),
        kw.len() > 0,
    ensures
        eat_keyword_spec(s, p, kw).0 ==> p < eat_keyword_spec(s, p, kw).1 <= s.len(),
        p <= eat_keyword_spec(s, p, kw).1 <= s.len(),
{
    lemma_trivia(s, p);
}

impl<'a> Parser<'a> {
    fn no_progress(&self) -> (r: String)
        requires
            self.wf(),
        ensures
            r@ == err_msg(self.src@, stuck(self.pos as int)),
    {
        self.error("parser made no progress")
    }

    fn factor(&mut self) -> (r: Result<Aexp, String>)
        requires
            old(self).wf(),
        ensures
            final(self).wf(),
            final(self).src == old(self).src,
            aexp_res(r, factor_spec(old(self).src@, old(self).pos as int), old(self).src@, final(self).pos as int),
        decreases old(self).src@.len() - old(self).pos, 0int,
    {
        let ghost s = self.src@;
        let ghost p = self.pos as int;
        proof {
            reveal_strlit("(");
            lemma_eat_symbol(s, p, "("@);
        }
        if self.eat_symbol("(") {
            let q = self.pos;
            let inner = self.aexp();
            match inner {
                Err(e) => return Err(e),
                Ok(a) => {
                    if self.pos < q {
                        return Err(self.no_progress());
                    }
                    match self.expect_symbol(")") {
                        Err(e) => return Err(e),
                        Ok(()) => return Ok(a),
                    }
                },
            }
        }
        match self.eat_number() {
            Err(e) => Err(e),
            Ok(Some(n)) => Ok(Aexp::Num(n)),
            Ok(None) => match self.eat_ident() {
                Some(x) => Ok(Aexp::Var(x)),
                None => Err(self.error("expected a number, a variable, or `(`")),
            },
        }
    }

    fn product(&mut self) -> (r: Result<Aexp, String>)
        requires
            old(self).wf(),
        ensures
            final(self).wf(),
            final(self).src == old(self).src,
            aexp_res(r, product_spec(old(self).src@, old(self).pos as int), old(self).src@, final(self).pos as int),
        decreases old(self).src@.len() - old(self).pos, 2int,
    {
        let p = self.pos;
        match self.factor() {
            Err(e) => Err(e),
            Ok(a) => {
                if self.pos < p {
                    return Err(self.no_progress());
                }
                self.product_tail(a)
            },
        }
    }

    fn product_tail(&mut self, acc: Aexp) -> (r: Result<Aexp, String>)
        requires
            old(self).wf(),
        ensures
            final(self).wf(),
            final(self).src == old(self).src,
            aexp_res(r, product_tail_spec(old(self).src@, acc@, old(self).pos as int), old(self).src@, final(self).pos as int),
        decreases old(self).src@.len() - old(self).pos, 1int,
    {
        let ghost s = self.src@;
        let ghost p = self.pos as int;
        let mut acc = acc;
        proof {
            reveal_strlit("*");
            reveal_strlit("/");
            lemma_eat_symbol(s, p, "*"@);
        }
        if self.eat_symbol("*") {
            let q = self.pos;
            match self.factor() {
                Err(e) => Err(e),
                Ok(b) => {
                    if self.pos < q {
                        return Err(self.no_progress());
                    }
                    self.product_tail(Aexp::Mul(Box::new(acc), Box::new(b)))
                },
            }
        } else {
            proof {
                lemma_eat_symbol(s, self.pos as int, "/"@);
            }
            if self.eat_symbol("/") {
                let q = self.pos;
                match self.factor() {
                    Err(e) => Err(e),
                    Ok(b) => {
                        if self.pos < q {
                            return Err(self.no_progress());
                        }
                        self.product_tail(Aexp::Div(Box::new(acc), Box::new(b)))
                    },
                }
            } else {
                Ok(acc)
            }
        }
    }

    fn sum(&mut self) -> (r: Result<Aexp, String>)
        requires
            old(self).wf(),
        ensures
            final(self).wf(),
            final(self).src == old(self).src,
            aexp_res(r, sum_spec(old(self).src@, old(self).pos as int), old(self).src@, final(self).pos as int),
        decreases old(self).src@.len() - old(self).pos, 4int,
    {
        let p = self.pos;
        match self.product() {
            Err(e) => Err(e),
            Ok(a) => {
                if self.pos < p {
                    return Err(self.no_progress());
                }
                self.sum_tail(a)
            },
        }
    }

    fn sum_tail(&mut self, acc: Aexp) -> (r: Result<Aexp, String>)
        requires
            old(self).wf(),
        ensures
            final(self).wf(),
            final(self).src == old(self).src,
            aexp_res(r, sum_tail_spec(old(self).src@, acc@, old(self).pos as int), old(self).src@, final(self).pos as int),
        decreases old(self).src@.len() - old(self).pos, 3int,
    {
        let ghost s = self.src@;
        let ghost p = self.pos as int;
        proof {
            reveal_strlit("+");
            reveal_strlit("-");
            lemma_eat_symbol(s, p, "+"@);
        }
        if self.eat_symbol("+") {
            let q = self.pos;
            match self.product() {
                Err(e) => Err(e),
                Ok(b) => {
                    if self.pos < q {
                        return Err(self.no_progress());
                    }
                    self.sum_tail(Aexp::Add(Box::new(acc), Box::new(b)))
                },
            }
        } else {
            proof {
                lemma_eat_symbol(s, self.pos as int, "-"@);
            }
            if self.eat_symbol("-") {
                let q = self.pos;
                match self.product() {
                    Err(e) => Err(e),
                    Ok(b) => {
                        if self.pos < q {
                            return Err(self.no_progress());
                        }
                        self.sum_tail(Aexp::Sub(Box::new(acc), Box::new(b)))
                    },
                }
            } else {
                Ok(acc)
            }
        }
    }

    fn aexp(&mut self) -> (r: Result<Aexp, String>)
        requires
            old(self).wf(),
        ensures
            final(self).wf(),
            final(self).src == old(self).src,
            aexp_res(r, aexp_spec(old(self).src@, old(self).pos as int), old(self).src@, final(self).pos as int),
        decreases old(self).src@.len() - old(self).pos, 5int,
    {
        self.sum()
    }
}

} // verus!

verus! {

impl<'a> Parser<'a> {
    /// The parenthesised-boolean reading of an atom: `Some` on success,
    /// `None` (with the position restored) when it does not parse.
    fn attempt_paren_bexp(&mut self, p: Ghost<int>) -> (r: Option<Bexp>)
        requires
            old(self).wf(),
            p@ <= old(self).pos,
        ensures
            final(self).wf(),
            final(self).src == old(self).src,
            match (r, paren_bexp_spec(old(self).src@, p@, old(self).pos as int)) {
                (Some(b), Some((bm, t))) => b@ == bm && final(self).pos == t,
                (None, None) => final(self).pos == old(self).pos,
                _ => false,
            },
        decreases old(self).src@.len() - p@, 6int, 0int,
    {
        let start = self.pos;
        let ghost s = self.src@;
        proof {
            reveal_strlit("(");
            lemma_eat_symbol(s, start as int, "("@);
        }
        match self.expect_symbol("(") {
            Err(_) => {
                self.pos = start;
                None
            },
            Ok(()) => {
                match self.bexp() {
                    Err(_) => {
                        self.pos = start;
                        None
                    },
                    Ok(b) => {
                        match self.expect_symbol(")") {
                            Err(_) => {
                                self.pos = start;
                                None
                            },
                            Ok(()) => Some(b),
                        }
                    },
                }
            },
        }
    }

    /// A comparison `aexp ("==" | "<=") aexp`.
    fn comparison(&mut self) -> (r: Result<Bexp, String>)
        requires
            old(self).wf(),
        ensures
            final(self).wf(),
            final(self).src == old(self).src,
            bexp_res(r, comparison_spec(old(self).src@, old(self).pos as int), old(self).src@, final(self).pos as int),
    {
        match self.aexp() {
            Err(e) => Err(e),
            Ok(lhs) => {
                if self.eat_symbol("==") {
                    match self.aexp() {
                        Err(e) => Err(e),
                        Ok(rhs) => Ok(Bexp::Eq(Box::new(lhs), Box::new(rhs))),
                    }
                } else if self.eat_symbol("<=") {
                    match self.aexp() {
                        Err(e) => Err(e),
                        Ok(rhs) => Ok(Bexp::Le(Box::new(lhs), Box::new(rhs))),
                    }
                } else {
                    Err(self.error("expected `==` or `<=`"))
                }
            },
        }
    }

    fn atom(&mut self) -> (r: Result<Bexp, String>)
        requires
            old(self).wf(),
        ensures
            final(self).wf(),
            final(self).src == old(self).src,
            bexp_res(r, atom_spec(old(self).src@, old(self).pos as int), old(self).src@, final(self).pos as int),
        decreases old(self).src@.len() - old(self).pos, 6int, 1int,
    {
        let ghost s = self.src@;
        let ghost p = self.pos as int;
        proof {
            reveal_strlit("true");
            reveal_strlit("false");
            lemma_eat_keyword(s, p, "true"@);
        }
        if self.eat_keyword("true") {
            return Ok(Bexp::True);
        }
        proof {
            lemma_eat_keyword(s, self.pos as int, "false"@);
        }
        if self.eat_keyword("false") {
            return Ok(Bexp::False);
        }
        let ghost q1 = self.pos as int;
        if self.at_symbol("(") {
            proof {
                lemma_trivia(s, q1);
            }
            if let Some(b) = self.attempt_paren_bexp(Ghost(p)) {
                return Ok(b);
            }
        }
        self.comparison()
    }

    fn neg(&mut self) -> (r: Result<Bexp, String>)
        requires
            old(self).wf(),
        ensures
            final(self).wf(),
            final(self).src == old(self).src,
            bexp_res(r, neg_spec(old(self).src@, old(self).pos as int), old(self).src@, final(self).pos as int),
        decreases old(self).src@.len() - old(self).pos, 7int, 0int,
    {
        let ghost s = self.src@;
        let ghost p = self.pos as int;
        proof {
            reveal_strlit("not");
            lemma_eat_keyword(s, p, "not"@);
        }
        if self.eat_keyword("not") {
            match self.neg() {
                Err(e) => Err(e),
                Ok(b) => Ok(Bexp::Not(Box::new(b))),
            }
        } else {
            self.atom()
        }
    }

    fn conj_tail(&mut self, acc: Bexp) -> (r: Result<Bexp, String>)
        requires
            old(self).wf(),
        ensures
            final(self).wf(),
            final(self).src == old(self).src,
            bexp_res(r, conj_tail_spec(old(self).src@, acc@, old(self).pos as int), old(self).src@, final(self).pos as int),
        decreases old(self).src@.len() - old(self).pos, 8int, 0int,
    {
        let ghost s = self.src@;
        let ghost p = self.pos as int;
        proof {
            reveal_strlit("and");
            lemma_eat_keyword(s, p, "and"@);
        }
        if self.eat_keyword("and") {
            let q = self.pos;
            match self.neg() {
                Err(e) => Err(e),
                Ok(b) => {
                    if self.pos < q {
                        return Err(self.no_progress());
                    }
                    self.conj_tail(Bexp::And(Box::new(acc), Box::new(b)))
                },
            }
        } else {
            Ok(acc)
        }
    }

    fn conj(&mut self) -> (r: Result<Bexp, String>)
        requires
            old(self).wf(),
        ensures
            final(self).wf(),
            final(self).src == old(self).src,
            bexp_res(r, conj_spec(old(self).src@, old(self).pos as int), old(self).src@, final(self).pos as int),
        decreases old(self).src@.len() - old(self).pos, 9int, 0int,
    {
        let p = self.pos;
        match self.neg() {
            Err(e) => Err(e),
            Ok(a) => {
                if self.pos < p {
                    return Err(self.no_progress());
                }
                self.conj_tail(a)
            },
        }
    }

    fn disj_tail(&mut self, acc: Bexp) -> (r: Result<Bexp, String>)
        requires
            old(self).wf(),
        ensures
            final(self).wf(),
            final(self).src == old(self).src,
            bexp_res(r, disj_tail_spec(old(self).src@, acc@, old(self).pos as int), old(self).src@, final(self).pos as int),
        decreases old(self).src@.len() - old(self).pos, 10int, 0int,
    {
        let ghost s = self.src@;
        let ghost p = self.pos as int;
        proof {
            reveal_strlit("or");
            lemma_eat_keyword(s, p, "or"@);
        }
        if self.eat_keyword("or") {
            let q = self.pos;
            match self.conj() {
                Err(e) => Err(e),
                Ok(b) => {
                    if self.pos < q {
                        return Err(self.no_progress());
                    }
                    self.disj_tail(Bexp::Or(Box::new(acc), Box::new(b)))
                },
            }
        } else {
            Ok(acc)
        }
    }

    fn disj(&mut self) -> (r: Result<Bexp, String>)
        requires
            old(self).wf(),
        ensures
            final(self).wf(),
            final(self).src == old(self).src,
            bexp_res(r, disj_spec(old(self).src@, old(self).pos as int), old(self).src@, final(self).pos as int),
        decreases old(self).src@.len() - old(self).pos, 11int, 0int,
    {
        let p = self.pos;
        match self.conj() {
            Err(e) => Err(e),
            Ok(a) => {
                if self.pos < p {
                    return Err(self.no_progress());
                }
                self.disj_tail(a)
            },
        }
    }

    fn bexp(&mut self) -> (r: Result<Bexp, String>)
        requires
            old(self).wf(),
        ensures
            final(self).wf(),
            final(self).src == old(self).src,
            bexp_res(r, bexp_spec(old(self).src@, old(self).pos as int), old(self).src@, final(self).pos as int),
        decreases old(self).src@.len() - old(self).pos, 12int, 0int,
    {
        self.disj()
    }
}

} // verus!

verus! {

impl<'a> Parser<'a> {
    fn stmt_if(&mut self, p: usize) -> (r: Result<Com, String>)
        requires
            old(self).wf(),
            p <= old(self).src@.len(),
        ensures
            final(self).wf(),
            final(self).src == old(self).src,
            com_res(r, if_spec(old(self).src@, p as int, old(self).pos as int), old(self).src@, final(self).pos as int),
        decreases old(self).src@.len() - p, 13int, 0int,
    {
        if self.pos <= p {
            return Err(self.no_progress());
        }
        let cond = match self.bexp() {
            Err(e) => return Err(e),
            Ok(b) => b,
        };
        match self.expect_keyword("then") {
            Err(e) => return Err(e),
            Ok(()) => {},
        }
        if self.pos <= p {
            return Err(self.no_progress());
        }
        let then_branch = match self.stmt() {
            Err(e) => return Err(e),
            Ok(c) => c,
        };
        match self.expect_keyword("else") {
            Err(e) => return Err(e),
            Ok(()) => {},
        }
        if self.pos <= p {
            return Err(self.no_progress());
        }
        let else_branch = match self.stmt() {
            Err(e) => return Err(e),
            Ok(c) => c,
        };
        Ok(Com::If(Box::new(cond), Box::new(then_branch), Box::new(else_branch)))
    }

    fn stmt_while(&mut self, p: usize) -> (r: Result<Com, String>)
        requires
            old(self).wf(),
            p <= old(self).src@.len(),
        ensures
            final(self).wf(),
            final(self).src == old(self).src,
            com_res(r, while_spec(old(self).src@, p as int, old(self).pos as int), old(self).src@, final(self).pos as int),
        decreases old(self).src@.len() - p, 13int, 0int,
    {
        if self.pos <= p {
            return Err(self.no_progress());
        }
        let cond = match self.bexp() {
            Err(e) => return Err(e),
            Ok(b) => b,
        };
        match self.expect_keyword("do") {
            Err(e) => return Err(e),
            Ok(()) => {},
        }
        if self.pos <= p {
            return Err(self.no_progress());
        }
        let body = match self.stmt() {
            Err(e) => return Err(e),
            Ok(c) => c,
        };
        Ok(Com::While(Box::new(cond), Box::new(body)))
    }

    fn stmt_block(&mut self, p: usize) -> (r: Result<Com, String>)
        requires
            old(self).wf(),
            p <= old(self).src@.len(),
        ensures
            final(self).wf(),
            final(self).src == old(self).src,
            com_res(r, block_spec(old(self).src@, p as int, old(self).pos as int), old(self).src@, final(self).pos as int),
        decreases old(self).src@.len() - p, 13int, 0int,
    {
        if self.pos <= p {
            return Err(self.no_progress());
        }
        let inner = match self.com() {
            Err(e) => return Err(e),
            Ok(c) => c,
        };
        match self.expect_symbol(")") {
            Err(e) => return Err(e),
            Ok(()) => {},
        }
        Ok(inner)
    }

    fn stmt_assign(&mut self) -> (r: Result<Com, String>)
        requires
            old(self).wf(),
        ensures
            final(self).wf(),
            final(self).src == old(self).src,
            com_res(r, assign_spec(old(self).src@, old(self).pos as int), old(self).src@, final(self).pos as int),
    {
        match self.eat_ident() {
            Some(name) => {
                match self.expect_symbol(":=") {
                    Err(e) => return Err(e),
                    Ok(()) => {},
                }
                match self.aexp() {
                    Err(e) => Err(e),
                    Ok(rhs) => Ok(Com::Assign(name, Box::new(rhs))),
                }
            },
            None => Err(self.error("expected a statement (skip, assignment, if, while, or `(`)")),
        }
    }

    fn stmt(&mut self) -> (r: Result<Com, String>)
        requires
            old(self).wf(),
        ensures
            final(self).wf(),
            final(self).src == old(self).src,
            com_res(r, stmt_spec(old(self).src@, old(self).pos as int), old(self).src@, final(self).pos as int),
        decreases old(self).src@.len() - old(self).pos, 13int, 1int,
    {
        let p = self.pos;
        if self.eat_keyword("skip") {
            return Ok(Com::Skip);
        }
        if self.eat_keyword("if") {
            return self.stmt_if(p);
        }
        if self.eat_keyword("while") {
            return self.stmt_while(p);
        }
        if self.eat_symbol("(") {
            return self.stmt_block(p);
        }
        // The only statement left is an assignment `ident := aexp`.
        self.stmt_assign()
    }

    fn com_tail(&mut self, acc: Com) -> (r: Result<Com, String>)
        requires
            old(self).wf(),
        ensures
            final(self).wf(),
            final(self).src == old(self).src,
            com_res(r, com_tail_spec(old(self).src@, acc@, old(self).pos as int), old(self).src@, final(self).pos as int),
        decreases old(self).src@.len() - old(self).pos, 14int, 0int,
    {
        let p = self.pos;
        if self.eat_symbol(";") {
            if self.pos <= p {
                return Err(self.no_progress());
            }
            let q = self.pos;
            match self.stmt() {
                Err(e) => Err(e),
                Ok(c) => {
                    if self.pos < q {
                        return Err(self.no_progress());
                    }
                    self.com_tail(Com::Sequence(Box::new(acc), Box::new(c)))
                },
            }
        } else {
            Ok(acc)
        }
    }

    fn com(&mut self) -> (r: Result<Com, String>)
        requires
            old(self).wf(),
        ensures
            final(self).wf(),
            final(self).src == old(self).src,
            com_res(r, com_spec(old(self).src@, old(self).pos as int), old(self).src@, final(self).pos as int),
        decreases old(self).src@.len() - old(self).pos, 15int, 0int,
    {
        let p = self.pos;
        match self.stmt() {
            Err(e) => Err(e),
            Ok(c) => {
                if self.pos < p {
                    return Err(self.no_progress());
                }
                self.com_tail(c)
            },
        }
    }
}

/// Parse a complete IMP program; the entire input must be consumed.
pub fn parse_imp_source(src: &str) -> (r: Result<Com, String>)
    ensures
        match (r, program_spec(vstd::utf8::encode_utf8(src@))) {
            (Ok(c), Ok(cm)) => c@ == cm,
            (Err(m), Err(e)) => m@ == err_msg(vstd::utf8::encode_utf8(src@), e),
            _ => false,
        },
{
    let mut p = Parser::new(src.as_bytes());
    let program = match p.com() {
        Err(e) => return Err(e),
        Ok(c) => c,
    };
    p.skip_trivia();
    if p.pos != p.src.len() {
        return Err(p.error("unexpected trailing input"));
    }
    Ok(program)
}

} // verus!

verus! {

/// The text of a store: one `name = value` line per location, in order.
pub open spec fn store_text(s: crate::imp::store::StoreModel) -> Seq<char>
    decreases s.len(),
{
    if s.len() == 0 {
        seq![]
    } else {
        store_text(s.drop_last()) + s.last().0 + " = "@ + crate::text::dec_int(s.last().1 as int)
            + "\n"@
    }
}

/// Pretty-print a final IMP store as `name = value` lines, sorted by name.
pub fn format_store(store: &crate::imp::store::Store) -> (r: String)
    requires
        store.wf(),
    ensures
        r@ == store_text(store@),
{
    let mut out: Vec<char> = Vec::new();
    let n = store.len();
    let mut i: usize = 0;
    while i < n
        invariant
            store.wf(),
            n == store@.len(),
            i <= n,
            out@ == store_text(store@.take(i as int)),
        decreases n - i,
    {
        let (k, v) = store.entry(i);
        let mut j: usize = 0;
        while j < k.len()
            invariant
                j <= k.len(),
                out@ == store_text(store@.take(i as int)) + k@.take(j as int),
            decreases k.len() - j,
        {
            out.push(k[j]);
            assert(k@.take(j + 1) == k@.take(j as int).push(k@[j as int]));
            j = j + 1;
        }
        push_str_chars(&mut out, " = ");
        crate::text::push_i64(&mut out, v);
        push_str_chars(&mut out, "\n");
        proof {
            let t = store@.take(i + 1);
            assert(t.drop_last() == store@.take(i as int));
            assert(t.last() == store@[i as int]);
            assert(k@.take(k@.len() as int) == k@);
        }
        i = i + 1;
    }
    assert(store@.take(n as int) == store@);
    crate::text::string_of(&out)
}

} // verus!
