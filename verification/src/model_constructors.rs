//! A solver model writes an IMP program with the constructor names of the
//! solver's datatypes; each name is read as the constructor it names, and
//! each `#x` literal as the 64-bit number its hexadecimal digits denote.

use vstd::prelude::*;
use crate::imp::ast::{AexpM, BexpM, ComM};
use crate::imp_render::{
    SexpM, build_aexp_spec, build_bexp_spec, build_com_spec, decode_spec, hex_text_val,
};
use crate::imp::semantics::{wraps_to, lemma_wraps};
use crate::toml::scalar::is_hex;

verus! {

/// Law: `Aexp_Num` holds a literal, `Aexp_Var` a name, and `Aexp_Add`,
/// `Aexp_Sub`, `Aexp_Mul` and `Aexp_Div` are read as addition, subtraction,
/// multiplication and division of their operands' readings.
pub proof fn lemma_aexp_constructors(p: SexpM, q: SexpM, x: Seq<char>)
    ensures
        decode_spec(p) is Some ==> build_aexp_spec(SexpM::List(seq![SexpM::Atom("Aexp_Num"@), p]))
            == Some(AexpM::Num(decode_spec(p)->Some_0)),
        build_aexp_spec(SexpM::List(seq![SexpM::Atom("Aexp_Var"@), SexpM::Str(x)])) == Some(
            AexpM::Var(x),
        ),
        build_aexp_spec(p) is Some && build_aexp_spec(q) is Some ==> build_aexp_spec(
            SexpM::List(seq![SexpM::Atom("Aexp_Add"@), p, q]),
        ) == Some(AexpM::Add(Box::new(build_aexp_spec(p)->Some_0), Box::new(build_aexp_spec(q)->Some_0))),
        build_aexp_spec(p) is Some && build_aexp_spec(q) is Some ==> build_aexp_spec(
            SexpM::List(seq![SexpM::Atom("Aexp_Sub"@), p, q]),
        ) == Some(AexpM::Sub(Box::new(build_aexp_spec(p)->Some_0), Box::new(build_aexp_spec(q)->Some_0))),
        build_aexp_spec(p) is Some && build_aexp_spec(q) is Some ==> build_aexp_spec(
            SexpM::List(seq![SexpM::Atom("Aexp_Mul"@), p, q]),
        ) == Some(AexpM::Mul(Box::new(build_aexp_spec(p)->Some_0), Box::new(build_aexp_spec(q)->Some_0))),
        build_aexp_spec(p) is Some && build_aexp_spec(q) is Some ==> build_aexp_spec(
            SexpM::List(seq![SexpM::Atom("Aexp_Div"@), p, q]),
        ) == Some(AexpM::Div(Box::new(build_aexp_spec(p)->Some_0), Box::new(build_aexp_spec(q)->Some_0))),
{
    reveal_strlit("Aexp_Num");
    assert("Aexp_Num"@[5] == 'N');
    reveal_strlit("Aexp_Var");
    assert("Aexp_Var"@[5] == 'V');
    reveal_strlit("Aexp_Add");
    assert("Aexp_Add"@[5] == 'A');
    reveal_strlit("Aexp_Sub");
    assert("Aexp_Sub"@[5] == 'S');
    reveal_strlit("Aexp_Mul");
    assert("Aexp_Mul"@[5] == 'M');
    reveal_strlit("Aexp_Div");
    assert("Aexp_Div"@[5] == 'D');
}

/// Law: `Bexp_True` and `Bexp_False` are the constants, `Bexp_Eq` and
/// `Bexp_Le` compare their operands' readings, and `Bexp_Not`, `Bexp_And`
/// and `Bexp_Or` are negation, conjunction and disjunction; a list whose
/// operands cannot be read cannot be read either.
pub proof fn lemma_bexp_constructors(p: SexpM, q: SexpM)
    ensures
        build_bexp_spec(SexpM::Atom("Bexp_True"@)) == Some(BexpM::True),
        build_bexp_spec(SexpM::Atom("Bexp_False"@)) == Some(BexpM::False),
        build_bexp_spec(p) is Some ==> build_bexp_spec(
            SexpM::List(seq![SexpM::Atom("Bexp_Not"@), p]),
        ) == Some(BexpM::Not(Box::new(build_bexp_spec(p)->Some_0))),
        build_aexp_spec(p) is Some && build_aexp_spec(q) is Some ==> build_bexp_spec(
            SexpM::List(seq![SexpM::Atom("Bexp_Eq"@), p, q]),
        ) == Some(BexpM::Eq(Box::new(build_aexp_spec(p)->Some_0), Box::new(build_aexp_spec(q)->Some_0))),
        build_aexp_spec(p) is Some && build_aexp_spec(q) is Some ==> build_bexp_spec(
            SexpM::List(seq![SexpM::Atom("Bexp_Le"@), p, q]),
        ) == Some(BexpM::Le(Box::new(build_aexp_spec(p)->Some_0), Box::new(build_aexp_spec(q)->Some_0))),
        build_bexp_spec(p) is Some && build_bexp_spec(q) is Some ==> build_bexp_spec(
            SexpM::List(seq![SexpM::Atom("Bexp_And"@), p, q]),
        ) == Some(BexpM::And(Box::new(build_bexp_spec(p)->Some_0), Box::new(build_bexp_spec(q)->Some_0))),
        build_bexp_spec(p) is Some && build_bexp_spec(q) is Some ==> build_bexp_spec(
            SexpM::List(seq![SexpM::Atom("Bexp_Or"@), p, q]),
        ) == Some(BexpM::Or(Box::new(build_bexp_spec(p)->Some_0), Box::new(build_bexp_spec(q)->Some_0))),
        build_bexp_spec(p) is None || build_bexp_spec(q) is None ==> build_bexp_spec(
            SexpM::List(seq![SexpM::Atom("Bexp_And"@), p, q]),
        ) is None,
        build_bexp_spec(p) is None || build_bexp_spec(q) is None ==> build_bexp_spec(
            SexpM::List(seq![SexpM::Atom("Bexp_Or"@), p, q]),
        ) is None,
{
    reveal_strlit("Bexp_True");
    assert("Bexp_True"@[5] == 'T');
    reveal_strlit("Bexp_False");
    assert("Bexp_False"@[5] == 'F');
    reveal_strlit("Bexp_Eq");
    assert("Bexp_Eq"@[5] == 'E');
    reveal_strlit("Bexp_Le");
    assert("Bexp_Le"@[5] == 'L');
    reveal_strlit("Bexp_Not");
    assert("Bexp_Not"@[5] == 'N');
    reveal_strlit("Bexp_And");
    assert("Bexp_And"@[5] == 'A');
    reveal_strlit("Bexp_Or");
    assert("Bexp_Or"@[5] == 'O');
}

/// Law: `Com_Skip` is `skip`, `Com_Assign` an assignment of a name,
/// `Com_Seq` a sequence, `Com_If` a conditional and `Com_While` a loop, each
/// of its operands' readings.
pub proof fn lemma_com_constructors(b: SexpM, p: SexpM, q: SexpM, x: Seq<char>)
    ensures
        build_com_spec(SexpM::Atom("Com_Skip"@)) == Some(ComM::Skip),
        build_aexp_spec(p) is Some ==> build_com_spec(
            SexpM::List(seq![SexpM::Atom("Com_Assign"@), SexpM::Str(x), p]),
        ) == Some(ComM::Assign(x, Box::new(build_aexp_spec(p)->Some_0))),
        build_com_spec(p) is Some && build_com_spec(q) is Some ==> build_com_spec(
            SexpM::List(seq![SexpM::Atom("Com_Seq"@), p, q]),
        ) == Some(ComM::Sequence(Box::new(build_com_spec(p)->Some_0), Box::new(build_com_spec(q)->Some_0))),
        build_bexp_spec(b) is Some && build_com_spec(p) is Some && build_com_spec(q) is Some
            ==> build_com_spec(SexpM::List(seq![SexpM::Atom("Com_If"@), b, p, q])) == Some(
            ComM::If(
                Box::new(build_bexp_spec(b)->Some_0),
                Box::new(build_com_spec(p)->Some_0),
                Box::new(build_com_spec(q)->Some_0),
            ),
        ),
        build_bexp_spec(b) is Some && build_com_spec(p) is Some ==> build_com_spec(
            SexpM::List(seq![SexpM::Atom("Com_While"@), b, p]),
        ) == Some(
            ComM::While(Box::new(build_bexp_spec(b)->Some_0), Box::new(build_com_spec(p)->Some_0)),
        ),
{
    reveal_strlit("Com_Skip");
    assert("Com_Skip"@[4] == 'S');
    assert("Com_Skip"@[5] == 'k');
    reveal_strlit("Com_Assign");
    assert("Com_Assign"@[4] == 'A');
    assert("Com_Assign"@[5] == 's');
    reveal_strlit("Com_Seq");
    assert("Com_Seq"@[4] == 'S');
    assert("Com_Seq"@[5] == 'e');
    reveal_strlit("Com_If");
    assert("Com_If"@[4] == 'I');
    assert("Com_If"@[5] == 'f');
    reveal_strlit("Com_While");
    assert("Com_While"@[4] == 'W');
    assert("Com_While"@[5] == 'h');
}

/// The value of a hexadecimal digit: `0`-`9`, then `a`-`f` or `A`-`F` for
/// ten to fifteen.
pub open spec fn hex_digit_value(c: char) -> int {
    if '0' <= c <= '9' {
        c as int - '0' as int
    } else if 'a' <= c <= 'f' {
        c as int - 'a' as int + 10
    } else {
        c as int - 'A' as int + 10
    }
}

/// The number that a string of hexadecimal digits denotes.
pub open spec fn hex_number(d: Seq<char>) -> int
    decreases d.len(),
{
    if d.len() == 0 {
        0
    } else {
        hex_number(d.drop_last()) * 16 + hex_digit_value(d.last())
    }
}

proof fn lemma_hex_number(d: Seq<char>)
    requires
        forall|i: int| 0 <= i < d.len() ==> is_hex(#[trigger] d[i]),
    ensures
        hex_text_val(d) == hex_number(d),
    decreases d.len(),
{
    if d.len() > 0 {
        assert(is_hex(d[d.len() - 1]));
        lemma_hex_number(d.drop_last());
    }
}

/// Law: a literal `#x` followed by hexadecimal digits is read as the number
/// the digits denote, taken as 64 signed bits (two's complement), when that
/// number is below 2^64; a larger one is not read.
pub proof fn lemma_decode_literal(d: Seq<char>)
    requires
        d.len() > 0,
        forall|i: int| 0 <= i < d.len() ==> is_hex(#[trigger] d[i]),
    ensures
        hex_number(d) < 0x1_0000_0000_0000_0000 ==> (decode_spec(
            SexpM::Atom(seq!['#', 'x'] + d),
        ) matches Some(v) && wraps_to(v, hex_number(d))),
        hex_number(d) >= 0x1_0000_0000_0000_0000 ==> decode_spec(SexpM::Atom(seq!['#', 'x'] + d))
            is None,
{
    let a = seq!['#', 'x'] + d;
    assert(a.skip(2) =~= d);
    assert(a[0] == '#' && a[1] == 'x');
    assert(is_hex(d[0]));
    lemma_hex_number(d);
    assert(crate::imp_render::all_hex(d));
    if hex_number(d) < 0x1_0000_0000_0000_0000 {
        let u = hex_text_val(d) as u64;
        let v = crate::imp_render::signed_of(u);
        if u < 0x8000_0000_0000_0000 {
            lemma_wraps(v, hex_number(d), 0);
        } else {
            lemma_wraps(v, hex_number(d), -1);
        }
    }
}

} // verus!
