//! The source that `com_to_source` prints for a command is accepted by the
//! IMP parser, which reads it back as the command with each name replaced
//! by the identifier printed for it; where every name is a valid
//! identifier, that is the command itself.

use vstd::prelude::*;
use crate::imp::parser::{
    ascii, unascii, trivia, layout_end, starts_at, is_layout, ident_cont, ident_start, ident_end,
    digit_end, bytes_val, is_digit_byte, is_alpha_byte, is_keyword_spec, eat_symbol_spec,
    eat_keyword_spec, eat_ident_spec, eat_number_spec,
};
use crate::imp_render::{
    PState, bexp_text, stmt_text, com_text, source_text, first_free, fresh_name, start_state,
    identity_names, com_names, aexp_names, bexp_names, names_lookup, name_spec, valid_ident_spec, is_ascii_alpha, is_ident_char, bin_text, aexp_text,
};
use crate::imp::ast::{AexpM, BexpM, ComM};
use crate::imp::parser::{
    factor_spec, product_spec, product_tail_spec, sum_spec, sum_tail_spec, aexp_spec, fwd,
    paren_bexp_spec, comparison_spec, atom_spec, neg_spec, conj_tail_spec, conj_spec,
    disj_tail_spec, disj_spec, bexp_spec, expect_symbol_spec, expect_keyword_spec,
    if_spec, while_spec, block_spec, assign_spec, stmt_spec, com_tail_spec, com_spec, program_spec,
};
use crate::printed_names::{kept, lemma_start_inv};
use crate::text::{dec_nat, dec_int, digits_val, all_digits, is_digit, digit_val, lemma_dec_nat};

verus! {

proof fn lemma_ascii_char_eq(c: char, d: char)
    requires
        (c as u32) < 128,
        (d as u32) < 128,
        c as u8 == d as u8,
    ensures
        c == d,
{
}

#[verifier::spinoff_prover]
proof fn lemma_ascii_inj(a: Seq<char>, b: Seq<char>)
    requires
        vstd::utf8::is_ascii_chars(a),
        vstd::utf8::is_ascii_chars(b),
        ascii(a) == ascii(b),
    ensures
        a == b,
{
    assert(a.len() == ascii(a).len());
    assert(b.len() == ascii(b).len());
    assert forall|i: int| 0 <= i < a.len() implies a[i] == b[i] by {
        assert(ascii(a)[i] == ascii(b)[i]);
        assert(ascii(a)[i] == a[i] as u8);
        assert(ascii(b)[i] == b[i] as u8);
        assert('\0' <= a[i] <= '\u{7f}');
        assert('\0' <= b[i] <= '\u{7f}');
        assert((a[i] as u32) < 128);
        assert((b[i] as u32) < 128);
        lemma_ascii_char_eq(a[i], b[i]);
    }
    assert(a =~= b);
}


/// `t`, as ASCII bytes, stands in `s` at `p`.
#[verifier::opaque]
pub open spec fn text_at(s: Seq<u8>, p: int, t: Seq<char>) -> bool {
    0 <= p && p + t.len() <= s.len() && s.subrange(p, p + t.len()) == ascii(t)
}

proof fn lemma_text_at_split(s: Seq<u8>, p: int, a: Seq<char>, b: Seq<char>)
    requires
        text_at(s, p, a + b),
    ensures
        text_at(s, p, a),
        text_at(s, p + a.len(), b),
{
    reveal(text_at);
    assert(s.subrange(p, p + a.len()) =~= s.subrange(p, p + (a + b).len()).subrange(0, a.len() as int));
    assert(ascii(a) =~= ascii(a + b).subrange(0, a.len() as int));
    assert(s.subrange(p + a.len(), p + a.len() + b.len()) =~= s.subrange(p, p + (a + b).len()).subrange(
        a.len() as int,
        (a + b).len() as int,
    ));
    assert(ascii(b) =~= ascii(a + b).subrange(a.len() as int, (a + b).len() as int));
}

proof fn lemma_text_at_bounds(s: Seq<u8>, p: int, t: Seq<char>)
    requires
        text_at(s, p, t),
    ensures
        0 <= p,
        p + t.len() <= s.len(),
{
    reveal(text_at);
}

proof fn lemma_text_at_char(s: Seq<u8>, i: int, x: Seq<char>)
    requires
        x.len() == 1,
        0 <= i < s.len(),
        s[i] == x[0] as u8,
    ensures
        text_at(s, i, x),
{
    reveal(text_at);
    assert(s.subrange(i, i + 1) =~= ascii(x));
}

proof fn lemma_text_at_index(s: Seq<u8>, p: int, t: Seq<char>, i: int)
    requires
        text_at(s, p, t),
        0 <= i < t.len(),
    ensures
        s[p + i] == t[i] as u8,
        0 <= p,
        p + t.len() <= s.len(),
{
    reveal(text_at);
    assert(s.subrange(p, p + t.len())[i] == ascii(t)[i]);
}

/// No layout and no comment starts at `i`.
pub open spec fn quiet(s: Seq<u8>, i: int) -> bool {
    i == s.len() || (0 <= i < s.len() && !is_layout(s[i]) && !starts_at(s, i, ascii("//"@)))
}

/// What may follow a printed phrase that ends at `e`: no identifier
/// character, and at most one space before the next token.
pub open spec fn follow_ok(s: Seq<u8>, e: int) -> bool {
    &&& 0 <= e <= s.len()
    &&& (e < s.len() ==> !ident_cont(s[e]))
    &&& (quiet(s, e) || (e < s.len() && s[e] == 32 && quiet(s, e + 1)))
}

/// The position of the next token after a phrase that ends at `e`.
pub open spec fn next_tok(s: Seq<u8>, e: int) -> int {
    if 0 <= e < s.len() && s[e] == 32 {
        e + 1
    } else {
        e
    }
}

proof fn lemma_trivia_quiet(s: Seq<u8>, i: int)
    requires
        quiet(s, i),
    ensures
        trivia(s, i) == i,
{
    assert(layout_end(s, i) == i);
}

#[verifier::spinoff_prover]
proof fn lemma_trivia_follow(s: Seq<u8>, e: int)
    requires
        follow_ok(s, e),
    ensures
        trivia(s, e) == next_tok(s, e),
        quiet(s, next_tok(s, e)),
        e <= next_tok(s, e) <= s.len(),
{
    if quiet(s, e) {
        lemma_trivia_quiet(s, e);
        if e < s.len() {
            assert(s[e] != 32);
        }
    } else {
        reveal_strlit("//");
        assert(layout_end(s, e + 1) == e + 1);
        assert(layout_end(s, e) == e + 1);
        assert(!starts_at(s, e + 1, ascii("//"@)));
    }
}

/// `t` is a keyword-like word: ASCII letters only.
pub open spec fn letters(t: Seq<char>) -> bool {
    t.len() > 0 && forall|i: int| 0 <= i < t.len() ==> is_ascii_alpha(#[trigger] t[i])
}

/// Consuming a keyword that stands at a quiet position.
proof fn lemma_eat_keyword_here(s: Seq<u8>, t: int, kw: Seq<char>)
    requires
        quiet(s, t),
        text_at(s, t, kw),
        t + kw.len() == s.len() || !ident_cont(s[t + kw.len()]),
    ensures
        eat_keyword_spec(s, t, kw) == (true, t + kw.len()),
{
    reveal(text_at);
    lemma_trivia_quiet(s, t);
}

/// Consuming a symbol that stands at a quiet position.
proof fn lemma_eat_symbol_here(s: Seq<u8>, t: int, sym: Seq<char>)
    requires
        quiet(s, t),
        text_at(s, t, sym),
    ensures
        eat_symbol_spec(s, t, sym) == (true, t + sym.len()),
{
    reveal(text_at);
    lemma_trivia_quiet(s, t);
}

/// A symbol or keyword whose first byte is not the byte at the quiet
/// position `t` is not there.
proof fn lemma_not_there(s: Seq<u8>, t: int, x: Seq<char>)
    requires
        quiet(s, t),
        x.len() > 0,
        t < s.len() ==> s[t] != x[0] as u8,
    ensures
        eat_symbol_spec(s, t, x) == (false, t),
        eat_keyword_spec(s, t, x) == (false, t),
{
    lemma_trivia_quiet(s, t);
    if starts_at(s, t, ascii(x)) {
        assert(s.subrange(t, t + x.len())[0] == ascii(x)[0]);
    }
}

/// A valid identifier: its characters are ASCII.
#[verifier::spinoff_prover]
proof fn lemma_ident_ascii(w: Seq<char>)
    requires
        valid_ident_spec(w),
    ensures
        vstd::utf8::is_ascii_chars(w),
        forall|i: int| 0 <= i < w.len() ==> ident_cont(#[trigger] w[i] as u8),
        ident_start(w[0] as u8),
{
    assert forall|i: int| 0 <= i < w.len() implies '\0' <= #[trigger] w[i] <= '\u{7f}' by {
        if i > 0 {
            assert(is_ident_char(w[i]));
        }
    }
    assert forall|i: int| 0 <= i < w.len() implies ident_cont(#[trigger] w[i] as u8) by {
        if i > 0 {
            assert(is_ident_char(w[i]));
        }
    }
}

/// A keyword is not consumed where a valid identifier stands.
#[verifier::spinoff_prover]
proof fn lemma_keyword_not_at_ident(s: Seq<u8>, t: int, w: Seq<char>, kw: Seq<char>)
    requires
        quiet(s, t),
        text_at(s, t, w),
        valid_ident_spec(w),
        t + w.len() == s.len() || !ident_cont(s[t + w.len()]),
        is_keyword_spec(kw),
        letters(kw),
    ensures
        eat_keyword_spec(s, t, kw) == (false, t),
{
    reveal(text_at);
    lemma_trivia_quiet(s, t);
    lemma_ident_ascii(w);
    if starts_at(s, t, ascii(kw)) {
        if w.len() == kw.len() {
            assert(vstd::utf8::is_ascii_chars(kw)) by {
                assert forall|i: int| 0 <= i < kw.len() implies '\0' <= #[trigger] kw[i] <= '\u{7f}' by {
                    assert(is_ascii_alpha(kw[i]));
                }
            }
            lemma_ascii_inj(w, kw);
        } else if w.len() > kw.len() {
            lemma_text_at_index(s, t, w, kw.len() as int);
        } else {
            let j = w.len() as int;
            assert(s.subrange(t, t + kw.len())[j] == ascii(kw)[j]);
            assert(is_ascii_alpha(kw[j]));
            assert(ident_cont(kw[j] as u8));
        }
    }
}

/// The names that a printer state gives are valid identifiers.
pub open spec fn names_ok(st: PState) -> bool {
    forall|i: int| 0 <= i < st.len() ==> valid_ident_spec(#[trigger] st[i].1)
}

proof fn lemma_names_lookup(names: Seq<(Seq<char>, Seq<char>)>, raw: Seq<char>)
    requires
        forall|i: int| 0 <= i < names.len() ==> valid_ident_spec(#[trigger] names[i].1),
    ensures
        names_lookup(names, raw) matches Some(c) ==> valid_ident_spec(c),
    decreases names.len(),
{
    if names.len() > 0 && names[0].0 != raw {
        assert forall|i: int| 0 <= i < names.drop_first().len() implies valid_ident_spec(
            #[trigger] names.drop_first()[i].1,
        ) by {
            assert(names.drop_first()[i] == names[i + 1]);
        }
        lemma_names_lookup(names.drop_first(), raw);
    }
}

/// A fresh name `v<n>` is a valid identifier.
#[verifier::spinoff_prover]
proof fn lemma_fresh_name(n: nat)
    ensures
        valid_ident_spec("v"@ + dec_nat(n)),
{
    reveal_strlit("v");
    reveal_strlit("skip");
    reveal_strlit("if");
    reveal_strlit("then");
    reveal_strlit("else");
    reveal_strlit("while");
    reveal_strlit("do");
    reveal_strlit("true");
    reveal_strlit("false");
    reveal_strlit("not");
    reveal_strlit("and");
    reveal_strlit("or");
    lemma_dec_nat(n);
    let w = "v"@ + dec_nat(n);
    assert(w[0] == 'v');
    assert forall|i: int| 1 <= i < w.len() implies is_ident_char(#[trigger] w[i]) by {
        assert(w[i] == dec_nat(n)[i - 1]);
        assert(is_digit(dec_nat(n)[i - 1]));
    }
    assert(!is_keyword_spec(w)) by {
        if is_keyword_spec(w) {
            assert(w[0] == 'v');
        }
    }
}

/// A printed name is a valid identifier, and the printer state keeps
/// giving valid identifiers.
#[verifier::spinoff_prover]
proof fn lemma_name_spec_ok(raw: Seq<char>, st: PState)
    requires
        names_ok(st),
    ensures
        valid_ident_spec(name_spec(raw, st).0),
        names_ok(name_spec(raw, st).1),
{
    reveal(name_spec);
    lemma_names_lookup(st, raw);
    match names_lookup(st, raw) {
        Some(c) => {},
        None => {
            if valid_ident_spec(raw) {
                let ns = st.push((raw, raw));
                assert forall|i: int| 0 <= i < ns.len() implies valid_ident_spec(#[trigger] ns[i].1) by {
                    if i < st.len() {
                        assert(ns[i] == st[i]);
                    }
                }
            } else {
                let k = first_free(st, 0, st.len());
                let c = fresh_name(k);
                lemma_fresh_name(k);
                let ns = st.push((raw, c));
                assert forall|i: int| 0 <= i < ns.len() implies valid_ident_spec(#[trigger] ns[i].1) by {
                    if i < st.len() {
                        assert(ns[i] == st[i]);
                    }
                }
            }
        },
    }
}

/// An identifier that stands at a quiet position is consumed whole.
#[verifier::spinoff_prover]
proof fn lemma_eat_ident_here(s: Seq<u8>, t: int, w: Seq<char>)
    requires
        quiet(s, t),
        text_at(s, t, w),
        valid_ident_spec(w),
        t + w.len() == s.len() || !ident_cont(s[t + w.len()]),
    ensures
        eat_ident_spec(s, t) == (Some(w), t + w.len()),
{
    reveal(text_at);
    lemma_trivia_quiet(s, t);
    lemma_ident_ascii(w);
    lemma_text_at_index(s, t, w, 0);
    lemma_ident_end_run(s, t, w, 1);
    assert(unascii(s.subrange(t, t + w.len())) =~= w) by {
        assert forall|i: int| 0 <= i < w.len() implies unascii(s.subrange(t, t + w.len()))[i] == w[i] by {
            lemma_text_at_index(s, t, w, i);
            assert('\0' <= w[i] <= '\u{7f}');
            assert(((w[i] as u8) as char) == w[i]);
        }
    }
}

proof fn lemma_ident_end_run(s: Seq<u8>, t: int, w: Seq<char>, k: int)
    requires
        text_at(s, t, w),
        forall|i: int| 0 <= i < w.len() ==> ident_cont(#[trigger] w[i] as u8),
        1 <= k <= w.len(),
        t + w.len() == s.len() || !ident_cont(s[t + w.len()]),
    ensures
        ident_end(s, t + k) == t + w.len(),
    decreases w.len() - k,
{
    lemma_text_at_bounds(s, t, w);
    if k < w.len() {
        lemma_text_at_index(s, t, w, k);
        lemma_ident_end_run(s, t, w, k + 1);
    }
}


#[verifier::spinoff_prover]
proof fn lemma_bytes_val_ascii(d: Seq<char>)
    requires
        all_digits(d),
    ensures
        bytes_val(ascii(d)) == digits_val(d),
    decreases d.len(),
{
    if d.len() > 0 {
        assert(ascii(d).drop_last() =~= ascii(d.drop_last()));
        assert(all_digits(d.drop_last())) by {
            assert forall|j: int| 0 <= j < d.drop_last().len() implies is_digit(
                #[trigger] d.drop_last()[j],
            ) by {
                assert(d.drop_last()[j] == d[j]);
            }
        }
        lemma_bytes_val_ascii(d.drop_last());
        assert(is_digit(d[d.len() - 1]));
        assert(ascii(d).last() == d.last() as u8);
    }
}

proof fn lemma_digit_end_run(s: Seq<u8>, t: int, d: Seq<char>, k: int)
    requires
        text_at(s, t, d),
        all_digits(d),
        0 <= k <= d.len(),
        t + d.len() == s.len() || !ident_cont(s[t + d.len()]),
    ensures
        digit_end(s, t + k) == t + d.len(),
    decreases d.len() - k,
{
    lemma_text_at_bounds(s, t, d);
    if k < d.len() {
        lemma_text_at_index(s, t, d, k);
        assert(is_digit(d[k]));
        lemma_digit_end_run(s, t, d, k + 1);
    }
}

/// The printed numeral of `n` is read back as `n`.
#[verifier::spinoff_prover]
proof fn lemma_eat_number_here(s: Seq<u8>, t: int, n: i64)
    requires
        quiet(s, t),
        text_at(s, t, dec_int(n as int)),
        t + dec_int(n as int).len() == s.len() || !ident_cont(s[t + dec_int(n as int).len()]),
    ensures
        eat_number_spec(s, t) == Ok::<(Option<i64>, int), crate::imp::parser::PErr>(
            (Some(n), t + dec_int(n as int).len()),
        ),
{
    reveal(text_at);
    lemma_trivia_quiet(s, t);
    lemma_text_at_bounds(s, t, dec_int(n as int));
    let m: nat = if n < 0 {
        (-n) as nat
    } else {
        n as nat
    };
    let d = dec_nat(m);
    lemma_dec_nat(m);
    lemma_bytes_val_ascii(d);
    if n < 0 {
        assert(dec_int(n as int) == seq!['-'] + d);
        lemma_text_at_split(s, t, seq!['-'], d);
        lemma_text_at_index(s, t, seq!['-'], 0);
        lemma_digit_end_run(s, t + 1, d, 0);
        lemma_text_at_index(s, t + 1, d, 0);
        assert(is_digit(d[0]));
    } else {
        assert(dec_int(n as int) == d);
        lemma_digit_end_run(s, t, d, 0);
        lemma_text_at_index(s, t, d, 0);
        assert(is_digit(d[0]));
    }
}


/// The pieces of `(l op r)` standing at `t`.
#[verifier::spinoff_prover]
proof fn lemma_bin_text_at(s: Seq<u8>, t: int, l: Seq<char>, op: Seq<char>, r: Seq<char>)
    requires
        text_at(s, t, bin_text(l, op, r)),
    ensures
        bin_text(l, op, r).len() == l.len() + op.len() + r.len() + 4,
        s[t] == 40,
        text_at(s, t + 1, l),
        s[t + 1 + l.len()] == 32,
        text_at(s, t + 2 + l.len(), op),
        s[t + 2 + l.len() + op.len()] == 32,
        text_at(s, t + 3 + l.len() + op.len(), r),
        s[t + 3 + l.len() + op.len() + r.len()] == 41,
        text_at(s, t, "("@),
        text_at(s, t + 3 + l.len() + op.len() + r.len(), ")"@),
{
    reveal(bin_text);
    reveal_strlit("(");
    reveal_strlit(")");
    reveal_strlit(" ");
    let a = "("@;
    let sp = " "@;
    let c = ")"@;
    assert(bin_text(l, op, r) == a + l + sp + op + sp + r + c);
    lemma_text_at_split(s, t, a + l + sp + op + sp + r, c);
    lemma_text_at_split(s, t, a + l + sp + op + sp, r);
    lemma_text_at_split(s, t, a + l + sp + op, sp);
    lemma_text_at_split(s, t, a + l + sp, op);
    lemma_text_at_split(s, t, a + l, sp);
    lemma_text_at_split(s, t, a, l);
    lemma_text_at_index(s, t, a, 0);
    lemma_text_at_index(s, t + 1 + l.len(), sp, 0);
    lemma_text_at_index(s, t + 2 + l.len() + op.len(), sp, 0);
    lemma_text_at_index(s, t + 3 + l.len() + op.len() + r.len(), c, 0);
}

/// A character that may begin a printed expression.
pub open spec fn starts_ok(c: char) -> bool {
    c == '(' || c == '-' || is_digit(c) || is_ascii_alpha(c) || c == '_'
}

/// Facts about the text printed for an arithmetic expression.
#[verifier::spinoff_prover]
proof fn lemma_aexp_text_ok(a: AexpM, st: PState)
    requires
        names_ok(st),
    ensures
        names_ok(aexp_text(a, st).1),
        aexp_text(a, st).0.len() > 0,
        starts_ok(aexp_text(a, st).0[0]),
        a is Var ==> valid_ident_spec(aexp_text(a, st).0),
        a is Var ==> aexp_text(a, st).0 == name_spec(a->Var_0, st).0,
        a is Num ==> aexp_text(a, st).0 == dec_int(a->Num_0 as int),
        !(a is Var || a is Num) ==> aexp_text(a, st).0[0] == '(',
    decreases a,
{
    reveal(aexp_text);
    reveal(bin_text);
    reveal_strlit("(");
    match a {
        AexpM::Num(n) => {
            let m: nat = if n < 0 {
                (-n) as nat
            } else {
                n as nat
            };
            lemma_dec_nat(m);
            if n >= 0 {
                assert(is_digit(dec_nat(m)[0]));
            }
        },
        AexpM::Var(x) => {
            lemma_name_spec_ok(x, st);
        },
        AexpM::Add(l, r) | AexpM::Sub(l, r) | AexpM::Mul(l, r) | AexpM::Div(l, r) => {
            lemma_aexp_text_ok(*l, st);
            lemma_aexp_text_ok(*r, aexp_text(*l, st).1);
        },
    }
}

/// A printed expression begins at a quiet position.
proof fn lemma_start_quiet(s: Seq<u8>, t: int, x: Seq<char>)
    requires
        text_at(s, t, x),
        x.len() > 0,
        starts_ok(x[0]),
    ensures
        quiet(s, t),
        s[t] == x[0] as u8,
{
    lemma_text_at_index(s, t, x, 0);
    reveal_strlit("//");
    if starts_at(s, t, ascii("//"@)) {
        assert(s.subrange(t, t + 2)[0] == ascii("//"@)[0]);
    }
}

/// The operator of a printed arithmetic expression.
pub open spec fn aop(a: AexpM) -> Seq<char> {
    match a {
        AexpM::Add(_, _) => "+"@,
        AexpM::Sub(_, _) => "-"@,
        AexpM::Mul(_, _) => "*"@,
        _ => "/"@,
    }
}

/// The operands of a binary arithmetic expression.
pub open spec fn operands(a: AexpM) -> (AexpM, AexpM) {
    match a {
        AexpM::Add(l, r) | AexpM::Sub(l, r) | AexpM::Mul(l, r) | AexpM::Div(l, r) => (*l, *r),
        _ => (a, a),
    }
}

proof fn lemma_bin_parts(a: AexpM, st: PState)
    requires
        !(a is Num || a is Var),
    ensures
        aexp_text(a, st).0 == bin_text(
            aexp_text(operands(a).0, st).0,
            aop(a),
            aexp_text(operands(a).1, aexp_text(operands(a).0, st).1).0,
        ),
        aexp_text(a, st).1 == aexp_text(operands(a).1, aexp_text(operands(a).0, st).1).1,
{
    reveal(aexp_text);
}

/// A product tail that meets no `*` or `/` after `e` stops there.
proof fn lemma_product_tail_stop(s: Seq<u8>, acc: AexpM, e: int)
    requires
        follow_ok(s, e),
        next_tok(s, e) < s.len() ==> s[next_tok(s, e)] != 42 && s[next_tok(s, e)] != 47,
    ensures
        product_tail_spec(s, acc, e) == Ok::<(AexpM, int), crate::imp::parser::PErr>(
            (acc, next_tok(s, e)),
        ),
{
    reveal_strlit("*");
    reveal_strlit("/");
    lemma_trivia_follow(s, e);
    lemma_trivia_quiet(s, next_tok(s, e));
    lemma_not_there(s, next_tok(s, e), "*"@);
    lemma_not_there(s, next_tok(s, e), "/"@);
}

/// A sum tail that meets no `+` or `-` after `e` stops there.
proof fn lemma_sum_tail_stop(s: Seq<u8>, acc: AexpM, e: int)
    requires
        follow_ok(s, e),
        next_tok(s, e) < s.len() ==> s[next_tok(s, e)] != 43 && s[next_tok(s, e)] != 45,
    ensures
        sum_tail_spec(s, acc, e) == Ok::<(AexpM, int), crate::imp::parser::PErr>(
            (acc, next_tok(s, e)),
        ),
{
    reveal_strlit("+");
    reveal_strlit("-");
    lemma_trivia_follow(s, e);
    lemma_trivia_quiet(s, next_tok(s, e));
    lemma_not_there(s, next_tok(s, e), "+"@);
    lemma_not_there(s, next_tok(s, e), "-"@);
}

/// The arithmetic expression that the text printed for `a` from state `st`
/// denotes: `a` with each name replaced by the identifier printed for it.
pub open spec fn aexp_ast(a: AexpM, st: PState) -> AexpM
    decreases a,
{
    match a {
        AexpM::Num(n) => AexpM::Num(n),
        AexpM::Var(x) => AexpM::Var(name_spec(x, st).0),
        AexpM::Add(l, r) => AexpM::Add(
            Box::new(aexp_ast(*l, st)),
            Box::new(aexp_ast(*r, aexp_text(*l, st).1)),
        ),
        AexpM::Sub(l, r) => AexpM::Sub(
            Box::new(aexp_ast(*l, st)),
            Box::new(aexp_ast(*r, aexp_text(*l, st).1)),
        ),
        AexpM::Mul(l, r) => AexpM::Mul(
            Box::new(aexp_ast(*l, st)),
            Box::new(aexp_ast(*r, aexp_text(*l, st).1)),
        ),
        AexpM::Div(l, r) => AexpM::Div(
            Box::new(aexp_ast(*l, st)),
            Box::new(aexp_ast(*r, aexp_text(*l, st).1)),
        ),
    }
}

/// The boolean expression that the text printed for `b` denotes.
pub open spec fn bexp_ast(b: BexpM, st: PState) -> BexpM
    decreases b,
{
    match b {
        BexpM::True => BexpM::True,
        BexpM::False => BexpM::False,
        BexpM::Eq(l, r) => BexpM::Eq(
            Box::new(aexp_ast(*l, st)),
            Box::new(aexp_ast(*r, aexp_text(*l, st).1)),
        ),
        BexpM::Le(l, r) => BexpM::Le(
            Box::new(aexp_ast(*l, st)),
            Box::new(aexp_ast(*r, aexp_text(*l, st).1)),
        ),
        BexpM::Not(x) => BexpM::Not(Box::new(bexp_ast(*x, st))),
        BexpM::And(l, r) => BexpM::And(
            Box::new(bexp_ast(*l, st)),
            Box::new(bexp_ast(*r, bexp_text(*l, st).1)),
        ),
        BexpM::Or(l, r) => BexpM::Or(
            Box::new(bexp_ast(*l, st)),
            Box::new(bexp_ast(*r, bexp_text(*l, st).1)),
        ),
    }
}

/// The command that the text printed for `c` denotes.
pub open spec fn stmt_ast(c: ComM, st: PState) -> ComM
    decreases c,
{
    match c {
        ComM::Skip => ComM::Skip,
        ComM::Assign(x, a) => ComM::Assign(
            name_spec(x, st).0,
            Box::new(aexp_ast(*a, name_spec(x, st).1)),
        ),
        ComM::If(b, c0, c1) => ComM::If(
            Box::new(bexp_ast(*b, st)),
            Box::new(stmt_ast(*c0, bexp_text(*b, st).1)),
            Box::new(stmt_ast(*c1, stmt_text(*c0, bexp_text(*b, st).1).1)),
        ),
        ComM::While(b, body) => ComM::While(
            Box::new(bexp_ast(*b, st)),
            Box::new(stmt_ast(*body, bexp_text(*b, st).1)),
        ),
        ComM::Sequence(c0, c1) => ComM::Sequence(
            Box::new(stmt_ast(*c0, st)),
            Box::new(stmt_ast(*c1, stmt_text(*c0, st).1)),
        ),
    }
}

/// A printed arithmetic expression is read by `factor` up to its end.
proof fn lemma_factor_printed(s: Seq<u8>, p: int, t: int, a: AexpM, st: PState)
    requires
        names_ok(st),
        0 <= p <= t,
        trivia(s, p) == t,
        text_at(s, t, aexp_text(a, st).0),
        follow_ok(s, t + aexp_text(a, st).0.len()),
    ensures
        factor_spec(s, p) == Ok::<(AexpM, int), crate::imp::parser::PErr>((aexp_ast(a, st), t + aexp_text(a, st).0.len())),
    decreases a, 2int,
{
    lemma_aexp_text_ok(a, st);
    match a {
        AexpM::Num(n) => lemma_factor_num(s, p, t, n, st),
        AexpM::Var(w) => lemma_factor_var(s, p, t, w, st),
        _ => lemma_factor_bin(s, p, t, a, st),
    }
}

#[verifier::spinoff_prover]
proof fn lemma_factor_num(s: Seq<u8>, p: int, t: int, n: i64, st: PState)
    requires
        0 <= p <= t,
        trivia(s, p) == t,
        text_at(s, t, dec_int(n as int)),
        follow_ok(s, t + dec_int(n as int).len()),
    ensures
        factor_spec(s, p) == Ok::<(AexpM, int), crate::imp::parser::PErr>((AexpM::Num(n), t + dec_int(n as int).len())),
{
    reveal_strlit("(");
    lemma_aexp_text_ok(AexpM::Num(n), Seq::empty());
    let x = dec_int(n as int);
    lemma_start_quiet(s, t, x);
    let m: nat = if n < 0 {
        (-n) as nat
    } else {
        n as nat
    };
    lemma_dec_nat(m);
    if n < 0 {
        assert(x[0] == '-');
    } else {
        assert(is_digit(dec_nat(m)[0]));
    }
    lemma_not_there(s, t, "("@);
    lemma_eat_number_here(s, t, n);
}

#[verifier::spinoff_prover]
proof fn lemma_factor_var(s: Seq<u8>, p: int, t: int, w: Seq<char>, st: PState)
    requires
        names_ok(st),
        0 <= p <= t,
        trivia(s, p) == t,
        text_at(s, t, name_spec(w, st).0),
        follow_ok(s, t + name_spec(w, st).0.len()),
    ensures
        factor_spec(s, p) == Ok::<(AexpM, int), crate::imp::parser::PErr>(
            (AexpM::Var(name_spec(w, st).0), t + name_spec(w, st).0.len()),
        ),
{
    reveal(aexp_text);
    reveal_strlit("(");
    lemma_name_spec_ok(w, st);
    let x = name_spec(w, st).0;
    lemma_ident_ascii(x);
    lemma_text_at_index(s, t, x, 0);
    lemma_start_quiet(s, t, x);
    assert(is_ascii_alpha(x[0]) || x[0] == '_');
    lemma_not_there(s, t, "("@);
    lemma_trivia_quiet(s, t);
    assert(digit_end(s, t) == t);
    lemma_eat_ident_here(s, t, x);
}

/// `factor` on a parenthesis at `t` whose sum reaches `e`, where the
/// closing parenthesis stands.
proof fn lemma_factor_paren_core(s: Seq<u8>, p: int, t: int, e: int, av: AexpM)
    requires
        0 <= p <= t,
        trivia(s, p) == t,
        t < e < s.len(),
        s[t] == 40,
        s[e] == 41,
        quiet(s, t),
        quiet(s, e),
        sum_spec(s, t + 1) == Ok::<(AexpM, int), crate::imp::parser::PErr>((av, e)),
    ensures
        factor_spec(s, p) == Ok::<(AexpM, int), crate::imp::parser::PErr>((av, e + 1)),
{
    reveal_strlit("(");
    reveal_strlit(")");
    lemma_text_at_char(s, t, "("@);
    lemma_eat_symbol_here(s, t, "("@);
    lemma_text_at_char(s, e, ")"@);
    lemma_eat_symbol_here(s, e, ")"@);
}

#[verifier::spinoff_prover]
proof fn lemma_factor_bin(s: Seq<u8>, p: int, t: int, a: AexpM, st: PState)
    requires
        names_ok(st),
        !(a is Num || a is Var),
        0 <= p <= t,
        trivia(s, p) == t,
        text_at(s, t, aexp_text(a, st).0),
        follow_ok(s, t + aexp_text(a, st).0.len()),
    ensures
        factor_spec(s, p) == Ok::<(AexpM, int), crate::imp::parser::PErr>((aexp_ast(a, st), t + aexp_text(a, st).0.len())),
    decreases a, 1int,
{
    reveal_strlit("//");
    let x = aexp_text(a, st).0;
    let (l, r) = operands(a);
    lemma_bin_parts(a, st);
    let ls = aexp_text(l, st).0;
    let rs = aexp_text(r, aexp_text(l, st).1).0;
    lemma_bin_text_at(s, t, ls, aop(a), rs);
    lemma_text_at_bounds(s, t, x);
    assert(quiet(s, t)) by {
        if starts_at(s, t, ascii("//"@)) {
            assert(s.subrange(t, t + 2)[0] == ascii("//"@)[0]);
        }
    }
    lemma_inner_printed(s, t, a, st);
    let e = t + x.len() - 1;
    assert(quiet(s, e)) by {
        if starts_at(s, e, ascii("//"@)) {
            assert(s.subrange(e, e + 2)[0] == ascii("//"@)[0]);
        }
    }
    let av = sum_spec(s, t + 1)->Ok_0.0;
    lemma_factor_paren_core(s, p, t, e, av);
}

/// The sum inside `( l op r )` for `op` one of `*` and `/`, once its
/// operands are read: it reaches the closing parenthesis at `er`.
#[verifier::spinoff_prover]
proof fn lemma_inner_core_mul(s: Seq<u8>, t: int, el: int, er: int, op: u8, lv: AexpM, rv: AexpM)
    requires
        0 <= t,
        t + 1 < el,
        el + 3 < er < s.len(),
        s[el] == 32,
        s[el + 1] == op,
        s[el + 2] == 32,
        op == 42 || op == 47,
        quiet(s, el + 1),
        follow_ok(s, er),
        next_tok(s, er) == er,
        er < s.len() ==> s[er] == 41,
        factor_spec(s, t + 1) == Ok::<(AexpM, int), crate::imp::parser::PErr>((lv, el)),
        factor_spec(s, el + 2) == Ok::<(AexpM, int), crate::imp::parser::PErr>((rv, er)),
    ensures
        sum_spec(s, t + 1) == Ok::<(AexpM, int), crate::imp::parser::PErr>(
            (
                if op == 42 {
                    AexpM::Mul(Box::new(lv), Box::new(rv))
                } else {
                    AexpM::Div(Box::new(lv), Box::new(rv))
                },
                er,
            ),
        ),
{
    reveal_strlit("*");
    reveal_strlit("/");
    assert(follow_ok(s, el));
    assert(next_tok(s, el) == el + 1);
    lemma_trivia_follow(s, el);
    lemma_trivia_quiet(s, el + 1);
    let m = if op == 42 {
        AexpM::Mul(Box::new(lv), Box::new(rv))
    } else {
        AexpM::Div(Box::new(lv), Box::new(rv))
    };
    if op == 42 {
        lemma_text_at_char(s, el + 1, "*"@);
        lemma_eat_symbol_here(s, el + 1, "*"@);
    } else {
        lemma_not_there(s, el + 1, "*"@);
        lemma_text_at_char(s, el + 1, "/"@);
        lemma_eat_symbol_here(s, el + 1, "/"@);
    }
    assert(product_tail_spec(s, lv, el) == product_tail_spec(s, m, er));
    lemma_product_tail_stop(s, m, er);
    lemma_sum_tail_stop(s, m, er);
}

/// The sum inside `( l op r )` for `op` one of `+` and `-`, once its
/// operands are read: it reaches the closing parenthesis at `er`.
#[verifier::spinoff_prover]
proof fn lemma_inner_core_add(s: Seq<u8>, t: int, el: int, er: int, op: u8, lv: AexpM, rv: AexpM)
    requires
        0 <= t,
        t + 1 < el,
        el + 3 < er < s.len(),
        s[el] == 32,
        s[el + 1] == op,
        s[el + 2] == 32,
        op == 43 || op == 45,
        quiet(s, el + 1),
        follow_ok(s, er),
        next_tok(s, er) == er,
        er < s.len() ==> s[er] == 41,
        factor_spec(s, t + 1) == Ok::<(AexpM, int), crate::imp::parser::PErr>((lv, el)),
        factor_spec(s, el + 2) == Ok::<(AexpM, int), crate::imp::parser::PErr>((rv, er)),
    ensures
        sum_spec(s, t + 1) == Ok::<(AexpM, int), crate::imp::parser::PErr>(
            (
                if op == 43 {
                    AexpM::Add(Box::new(lv), Box::new(rv))
                } else {
                    AexpM::Sub(Box::new(lv), Box::new(rv))
                },
                er,
            ),
        ),
{
    reveal_strlit("+");
    reveal_strlit("-");
    assert(follow_ok(s, el));
    assert(next_tok(s, el) == el + 1);
    lemma_trivia_quiet(s, el + 1);
    lemma_product_tail_stop(s, lv, el);
    lemma_product_tail_stop(s, rv, er);
    let m = if op == 43 {
        AexpM::Add(Box::new(lv), Box::new(rv))
    } else {
        AexpM::Sub(Box::new(lv), Box::new(rv))
    };
    if op == 43 {
        lemma_text_at_char(s, el + 1, "+"@);
        lemma_eat_symbol_here(s, el + 1, "+"@);
    } else {
        lemma_not_there(s, el + 1, "+"@);
        lemma_text_at_char(s, el + 1, "-"@);
        lemma_eat_symbol_here(s, el + 1, "-"@);
    }
    assert(product_spec(s, el + 2) == Ok::<(AexpM, int), crate::imp::parser::PErr>((rv, er)));
    lemma_sum_tail_stop(s, m, er);
}

/// The layout around the operator of a printed `(l op r)` at `t`.
#[verifier::spinoff_prover]
proof fn lemma_bin_layout(s: Seq<u8>, t: int, ls: Seq<char>, op: Seq<char>, rs: Seq<char>)
    requires
        text_at(s, t, bin_text(ls, op, rs)),
        follow_ok(s, t + bin_text(ls, op, rs).len()),
        op == "+"@ || op == "-"@ || op == "*"@ || op == "/"@,
        ls.len() > 0,
        rs.len() > 0,
        starts_ok(ls[0]),
        starts_ok(rs[0]),
    ensures
        ({
            let el = t + 1 + ls.len();
            let er = t + 4 + ls.len() + rs.len();
            &&& 0 <= t
            &&& er < s.len()
            &&& text_at(s, t + 1, ls)
            &&& text_at(s, el + 3, rs)
            &&& s[el] == 32
            &&& s[el + 2] == 32
            &&& s[el + 1] == op[0] as u8
            &&& (op[0] as u8 == 43 || op[0] as u8 == 45 || op[0] as u8 == 42 || op[0] as u8 == 47)
            &&& quiet(s, el + 1)
            &&& follow_ok(s, el)
            &&& trivia(s, el + 2) == el + 3
            &&& follow_ok(s, er)
            &&& next_tok(s, er) == er
            &&& s[er] == 41
            &&& trivia(s, t + 1) == t + 1
        }),
{
    reveal_strlit("+");
    reveal_strlit("-");
    reveal_strlit("*");
    reveal_strlit("/");
    reveal_strlit("//");
    lemma_bin_text_at(s, t, ls, op, rs);
    lemma_text_at_bounds(s, t, bin_text(ls, op, rs));
    let el = t + 1 + ls.len();
    let er = t + 4 + ls.len() + rs.len();
    lemma_text_at_index(s, el + 1, op, 0);
    assert(!starts_at(s, el + 1, ascii("//"@))) by {
        if starts_at(s, el + 1, ascii("//"@)) {
            assert(s.subrange(el + 1, el + 3)[1] == ascii("//"@)[1]);
        }
    }
    assert(follow_ok(s, el));
    lemma_start_quiet(s, el + 3, rs);
    assert(follow_ok(s, el + 2));
    lemma_trivia_follow(s, el + 2);
    assert(quiet(s, er)) by {
        if starts_at(s, er, ascii("//"@)) {
            assert(s.subrange(er, er + 2)[0] == ascii("//"@)[0]);
        }
    }
    lemma_start_quiet(s, t + 1, ls);
    lemma_trivia_quiet(s, t + 1);
}

/// The tree denoted by a printed binary expression, by its operator.
proof fn lemma_bin_ast(a: AexpM, st: PState)
    requires
        !(a is Num || a is Var),
    ensures
        ({
            let (l, r) = operands(a);
            let lv = aexp_ast(l, st);
            let rv = aexp_ast(r, aexp_text(l, st).1);
            let o = aop(a)[0] as u8;
            &&& o == 42 ==> aexp_ast(a, st) == AexpM::Mul(Box::new(lv), Box::new(rv))
            &&& o == 47 ==> aexp_ast(a, st) == AexpM::Div(Box::new(lv), Box::new(rv))
            &&& o == 43 ==> aexp_ast(a, st) == AexpM::Add(Box::new(lv), Box::new(rv))
            &&& o == 45 ==> aexp_ast(a, st) == AexpM::Sub(Box::new(lv), Box::new(rv))
            &&& (o == 42 || o == 47 || o == 43 || o == 45)
        }),
{
    reveal_strlit("+");
    reveal_strlit("-");
    reveal_strlit("*");
    reveal_strlit("/");
}

/// Inside the parentheses of a printed binary expression standing at `t`,
/// the sum reaches the closing parenthesis.
#[verifier::spinoff_prover]
#[verifier::rlimit(60)]
proof fn lemma_inner_printed(s: Seq<u8>, t: int, a: AexpM, st: PState)
    requires
        names_ok(st),
        !(a is Num || a is Var),
        text_at(s, t, aexp_text(a, st).0),
        follow_ok(s, t + aexp_text(a, st).0.len()),
    ensures
        sum_spec(s, t + 1) == Ok::<(AexpM, int), crate::imp::parser::PErr>(
            (aexp_ast(a, st), t + aexp_text(a, st).0.len() - 1),
        ),
    decreases a, 0int,
{
    reveal_strlit("+");
    reveal_strlit("-");
    reveal_strlit("*");
    reveal_strlit("/");
    match a {
        AexpM::Add(l, r) | AexpM::Sub(l, r) | AexpM::Mul(l, r) | AexpM::Div(l, r) => {
            let l = *l;
            let r = *r;
            let s1 = aexp_text(l, st).1;
            let ls = aexp_text(l, st).0;
            let rs = aexp_text(r, s1).0;
            let op = aop(a);
            lemma_bin_parts(a, st);
            lemma_aexp_text_ok(l, st);
            lemma_aexp_text_ok(r, s1);
            lemma_bin_text_at(s, t, ls, op, rs);
            lemma_bin_layout(s, t, ls, op, rs);
            let el = t + 1 + ls.len();
            let er = t + 4 + ls.len() + rs.len();
            lemma_factor_printed(s, t + 1, t + 1, l, st);
            lemma_factor_printed(s, el + 2, el + 3, r, s1);
            let lv = aexp_ast(l, st);
            let rv = aexp_ast(r, s1);
            lemma_bin_ast(a, st);
            if op[0] as u8 == 42 || op[0] as u8 == 47 {
                lemma_inner_core_mul(s, t, el, er, op[0] as u8, lv, rv);
            } else {
                lemma_inner_core_add(s, t, el, er, op[0] as u8, lv, rv);
            }
        },
        _ => {},
    }
}


/// A sum tail at a quiet position that meets no `+` or `-` stops there.
proof fn lemma_sum_tail_stop_q(s: Seq<u8>, acc: AexpM, n: int)
    requires
        quiet(s, n),
        n < s.len() ==> s[n] != 43 && s[n] != 45,
    ensures
        sum_tail_spec(s, acc, n) == Ok::<(AexpM, int), crate::imp::parser::PErr>((acc, n)),
{
    reveal_strlit("+");
    reveal_strlit("-");
    lemma_trivia_quiet(s, n);
    lemma_not_there(s, n, "+"@);
    lemma_not_there(s, n, "-"@);
}

/// A printed arithmetic expression is read by `aexp` up to the next token
/// after it, when that token is no arithmetic operator.
proof fn lemma_aexp_printed(s: Seq<u8>, p: int, t: int, a: AexpM, st: PState)
    requires
        names_ok(st),
        0 <= p <= t,
        trivia(s, p) == t,
        text_at(s, t, aexp_text(a, st).0),
        follow_ok(s, t + aexp_text(a, st).0.len()),
        next_tok(s, t + aexp_text(a, st).0.len()) < s.len() ==> {
            let b = s[next_tok(s, t + aexp_text(a, st).0.len())];
            b != 42 && b != 47 && b != 43 && b != 45
        },
    ensures
        aexp_spec(s, p) == Ok::<(AexpM, int), crate::imp::parser::PErr>(
            (aexp_ast(a, st), next_tok(s, t + aexp_text(a, st).0.len())),
        ),
{
    let e = t + aexp_text(a, st).0.len();
    lemma_factor_printed(s, p, t, a, st);
    let x = factor_spec(s, p)->Ok_0.0;
    lemma_product_tail_stop(s, x, e);
    lemma_trivia_follow(s, e);
    lemma_sum_tail_stop_q(s, x, next_tok(s, e));
    assert(product_spec(s, p) == Ok::<(AexpM, int), crate::imp::parser::PErr>((x, next_tok(s, e))));
}

/// `kw` is a reserved word made of letters only.
pub open spec fn plain_keyword(kw: Seq<char>) -> bool {
    is_keyword_spec(kw) && letters(kw)
}

/// No keyword is consumed where a printed arithmetic expression stands.
#[verifier::spinoff_prover]
proof fn lemma_aexp_no_keyword(s: Seq<u8>, t: int, a: AexpM, st: PState, kw: Seq<char>)
    requires
        names_ok(st),
        text_at(s, t, aexp_text(a, st).0),
        follow_ok(s, t + aexp_text(a, st).0.len()),
        plain_keyword(kw),
    ensures
        eat_keyword_spec(s, t, kw) == (false, t),
        quiet(s, t),
{
    lemma_aexp_text_ok(a, st);
    let x = aexp_text(a, st).0;
    lemma_start_quiet(s, t, x);
    match a {
        AexpM::Var(w) => {
            lemma_keyword_not_at_ident(s, t, x, kw);
        },
        _ => {
            assert(is_ascii_alpha(kw[0]));
            if a is Num {
                let n = a->Num_0;
                let m: nat = if n < 0 {
                    (-n) as nat
                } else {
                    n as nat
                };
                lemma_dec_nat(m);
                if n >= 0 {
                    assert(is_digit(dec_nat(m)[0]));
                }
            }
            lemma_not_there(s, t, kw);
        },
    }
}

/// The plain keywords the parser looks for.
#[verifier::spinoff_prover]
proof fn lemma_keywords_plain()
    ensures
        plain_keyword("not"@),
        plain_keyword("true"@),
        plain_keyword("false"@),
        plain_keyword("and"@),
        plain_keyword("or"@),
        plain_keyword("skip"@),
        plain_keyword("if"@),
        plain_keyword("while"@),
        plain_keyword("then"@),
        plain_keyword("else"@),
        plain_keyword("do"@),
{
    reveal_strlit("skip");
    reveal_strlit("if");
    reveal_strlit("then");
    reveal_strlit("else");
    reveal_strlit("while");
    reveal_strlit("do");
    reveal_strlit("true");
    reveal_strlit("false");
    reveal_strlit("not");
    reveal_strlit("and");
    reveal_strlit("or");
}

/// A boolean read at `u`, where no keyword stands, the boolean reading of
/// a parenthesis fails and the comparison reading fails, fails.
proof fn lemma_bexp_err_core(s: Seq<u8>, u: int)
    requires
        0 <= u <= s.len(),
        quiet(s, u),
        eat_keyword_spec(s, u, "not"@) == (false, u),
        eat_keyword_spec(s, u, "true"@) == (false, u),
        eat_keyword_spec(s, u, "false"@) == (false, u),
        starts_at(s, u, ascii("("@)) ==> paren_bexp_spec(s, u, u) is None,
        comparison_spec(s, u) is Err,
    ensures
        bexp_spec(s, u) is Err,
{
    lemma_trivia_quiet(s, u);
    assert(atom_spec(s, u) is Err);
    assert(neg_spec(s, u) is Err);
    assert(conj_spec(s, u) is Err);
    assert(disj_spec(s, u) is Err);
}

/// A comparison whose left operand is followed by `)` fails.
proof fn lemma_comparison_err_core(s: Seq<u8>, u: int, v: AexpM, er: int)
    requires
        aexp_spec(s, u) == Ok::<(AexpM, int), crate::imp::parser::PErr>((v, er)),
        0 <= er < s.len(),
        quiet(s, er),
        s[er] == 41,
    ensures
        comparison_spec(s, u) is Err,
{
    reveal_strlit("==");
    reveal_strlit("<=");
    lemma_not_there(s, er, "=="@);
    lemma_not_there(s, er, "<="@);
}

/// The boolean reading of a parenthesis at `t` fails when the boolean inside
/// fails.
proof fn lemma_paren_err_core(s: Seq<u8>, p: int, t: int)
    requires
        0 <= p <= t < s.len(),
        quiet(s, t),
        s[t] == 40,
        bexp_spec(s, t + 1) is Err,
    ensures
        paren_bexp_spec(s, p, t) is None,
{
    reveal_strlit("(");
    lemma_text_at_char(s, t, "("@);
    lemma_eat_symbol_here(s, t, "("@);
}

/// A printed number or variable does not begin with a parenthesis.
#[verifier::spinoff_prover]
proof fn lemma_simple_text_start(a: AexpM, st: PState)
    requires
        names_ok(st),
        a is Num || a is Var,
    ensures
        aexp_text(a, st).0.len() > 0,
        aexp_text(a, st).0[0] != '(',
        aexp_text(a, st).0[0] as u8 != 40,
{
    lemma_aexp_text_ok(a, st);
    match a {
        AexpM::Num(n) => {
            let m: nat = if n < 0 {
                (-n) as nat
            } else {
                n as nat
            };
            lemma_dec_nat(m);
            if n >= 0 {
                assert(is_digit(dec_nat(m)[0]));
            }
        },
        AexpM::Var(w) => {
            lemma_ident_ascii(aexp_text(a, st).0);
        },
        _ => {},
    }
}

/// What the boolean reading of a printed binary arithmetic expression at
/// `t` meets inside the parenthesis.
#[verifier::spinoff_prover]
proof fn lemma_paren_inner_facts(s: Seq<u8>, t: int, a: AexpM, st: PState)
    requires
        names_ok(st),
        !(a is Num || a is Var),
        0 <= t,
        text_at(s, t, aexp_text(a, st).0),
        follow_ok(s, t + aexp_text(a, st).0.len()),
    ensures
        quiet(s, t),
        t + 1 < s.len(),
        s[t] == 40,
        quiet(s, t + 1),
        eat_keyword_spec(s, t + 1, "not"@) == (false, t + 1),
        eat_keyword_spec(s, t + 1, "true"@) == (false, t + 1),
        eat_keyword_spec(s, t + 1, "false"@) == (false, t + 1),
        sum_spec(s, t + 1) matches Ok((_, er)) && 0 <= er < s.len() && quiet(s, er) && s[er] == 41,
        text_at(s, t + 1, aexp_text(operands(a).0, st).0),
        follow_ok(s, t + 1 + aexp_text(operands(a).0, st).0.len()),
        starts_at(s, t + 1, ascii("("@)) ==> !(operands(a).0 is Num || operands(a).0 is Var),
{
    reveal_strlit("(");
    reveal_strlit("+");
    reveal_strlit("-");
    reveal_strlit("*");
    reveal_strlit("/");
    lemma_keywords_plain();
    lemma_inner_printed(s, t, a, st);
    lemma_aexp_text_ok(a, st);
    let x = aexp_text(a, st).0;
    let (l, r) = operands(a);
    let s1 = aexp_text(l, st).1;
    let ls = aexp_text(l, st).0;
    let rs = aexp_text(r, s1).0;
    let op = aop(a);
    lemma_bin_parts(a, st);
    lemma_aexp_text_ok(l, st);
    lemma_aexp_text_ok(r, s1);
    lemma_bin_layout(s, t, ls, op, rs);
    let er = t + 4 + ls.len() + rs.len();
    lemma_start_quiet(s, t, x);
    lemma_aexp_no_keyword(s, t + 1, l, st, "not"@);
    lemma_aexp_no_keyword(s, t + 1, l, st, "true"@);
    lemma_aexp_no_keyword(s, t + 1, l, st, "false"@);
    if starts_at(s, t + 1, ascii("("@)) && (l is Num || l is Var) {
        lemma_simple_text_start(l, st);
        lemma_text_at_index(s, t + 1, ls, 0);
        assert(s.subrange(t + 1, t + 2)[0] == ascii("("@)[0]);
    }
    lemma_bin_text_at(s, t, ls, op, rs);
    assert(x.len() == er + 1 - t);
}

/// The parenthesised-boolean reading of a printed binary arithmetic
/// expression fails.
#[verifier::spinoff_prover]
#[verifier::rlimit(80)]
proof fn lemma_paren_reading_fails(s: Seq<u8>, p: int, t: int, a: AexpM, st: PState)
    requires
        names_ok(st),
        !(a is Num || a is Var),
        0 <= p <= t,
        text_at(s, t, aexp_text(a, st).0),
        follow_ok(s, t + aexp_text(a, st).0.len()),
    ensures
        paren_bexp_spec(s, p, t) is None,
    decreases a,
{
    match a {
        AexpM::Add(l, _) | AexpM::Sub(l, _) | AexpM::Mul(l, _) | AexpM::Div(l, _) => {
            lemma_paren_inner_facts(s, t, a, st);
            assert(operands(a).0 == *l);
            if starts_at(s, t + 1, ascii("("@)) {
                lemma_paren_reading_fails(s, t + 1, t + 1, *l, st);
            }
            let er = sum_spec(s, t + 1)->Ok_0.1;
            let v = sum_spec(s, t + 1)->Ok_0.0;
            lemma_comparison_err_core(s, t + 1, v, er);
            lemma_bexp_err_core(s, t + 1);
            lemma_paren_err_core(s, p, t);
        },
        _ => {},
    }
}

/// Facts about the text printed for a boolean expression.
#[verifier::spinoff_prover]
proof fn lemma_bexp_text_ok(b: BexpM, st: PState)
    requires
        names_ok(st),
    ensures
        names_ok(bexp_text(b, st).1),
        bexp_text(b, st).0.len() > 0,
        b is True ==> bexp_text(b, st).0 == "true"@,
        b is False ==> bexp_text(b, st).0 == "false"@,
        !(b is True || b is False) ==> bexp_text(b, st).0[0] == '(',
    decreases b,
{
    reveal(bexp_text);
    reveal(bin_text);
    reveal_strlit("(");
    reveal_strlit("(not ");
    reveal_strlit("true");
    reveal_strlit("false");
    match b {
        BexpM::True => {},
        BexpM::False => {},
        BexpM::Eq(l, r) | BexpM::Le(l, r) => {
            lemma_aexp_text_ok(*l, st);
            lemma_aexp_text_ok(*r, aexp_text(*l, st).1);
        },
        BexpM::Not(x) => {
            lemma_bexp_text_ok(*x, st);
        },
        BexpM::And(l, r) | BexpM::Or(l, r) => {
            lemma_bexp_text_ok(*l, st);
            lemma_bexp_text_ok(*r, bexp_text(*l, st).1);
        },
    }
}

/// A printed boolean expression begins at a quiet position, with `(`, `t`
/// or `f`.
proof fn lemma_bexp_start(s: Seq<u8>, t: int, b: BexpM, st: PState)
    requires
        names_ok(st),
        text_at(s, t, bexp_text(b, st).0),
    ensures
        quiet(s, t),
        t < s.len(),
        s[t] == 40 || s[t] == 116 || s[t] == 102,
        !(b is True || b is False) ==> s[t] == 40,
        b is True ==> s[t] == 116,
        b is False ==> s[t] == 102,
{
    reveal_strlit("true");
    reveal_strlit("false");
    reveal_strlit("//");
    lemma_bexp_text_ok(b, st);
    let x = bexp_text(b, st).0;
    lemma_text_at_index(s, t, x, 0);
    if starts_at(s, t, ascii("//"@)) {
        assert(s.subrange(t, t + 2)[0] == ascii("//"@)[0]);
    }
}

/// A conjunction tail that meets no `and` at the quiet position `e` stops.
proof fn lemma_conj_tail_stop(s: Seq<u8>, acc: BexpM, e: int)
    requires
        quiet(s, e),
        e < s.len() ==> s[e] != 97,
    ensures
        conj_tail_spec(s, acc, e) == Ok::<(BexpM, int), crate::imp::parser::PErr>((acc, e)),
{
    reveal_strlit("and");
    lemma_not_there(s, e, "and"@);
}

/// A disjunction tail that meets no `or` at the quiet position `e` stops.
proof fn lemma_disj_tail_stop(s: Seq<u8>, acc: BexpM, e: int)
    requires
        quiet(s, e),
        e < s.len() ==> s[e] != 111,
    ensures
        disj_tail_spec(s, acc, e) == Ok::<(BexpM, int), crate::imp::parser::PErr>((acc, e)),
{
    reveal_strlit("or");
    lemma_not_there(s, e, "or"@);
}

/// A boolean whose first negation reaches a closing parenthesis at `er`.
proof fn lemma_bexp_from_neg(s: Seq<u8>, u: int, v: BexpM, er: int)
    requires
        neg_spec(s, u) == Ok::<(BexpM, int), crate::imp::parser::PErr>((v, er)),
        0 <= u <= er < s.len(),
        quiet(s, er),
        s[er] == 41,
    ensures
        bexp_spec(s, u) == Ok::<(BexpM, int), crate::imp::parser::PErr>((v, er)),
{
    lemma_conj_tail_stop(s, v, er);
    lemma_disj_tail_stop(s, v, er);
    assert(conj_spec(s, u) == Ok::<(BexpM, int), crate::imp::parser::PErr>((v, er)));
    assert(disj_spec(s, u) == Ok::<(BexpM, int), crate::imp::parser::PErr>((v, er)));
}

/// A space, then a quiet position: the layout ends after the space.
proof fn lemma_trivia_space(s: Seq<u8>, e: int)
    requires
        0 <= e < s.len(),
        s[e] == 32,
        quiet(s, e + 1),
    ensures
        trivia(s, e) == e + 1,
{
    assert(follow_ok(s, e));
    lemma_trivia_follow(s, e);
}

/// A keyword after one space is consumed.
proof fn lemma_eat_keyword_spaced(s: Seq<u8>, e: int, kw: Seq<char>)
    requires
        0 <= e < s.len(),
        s[e] == 32,
        quiet(s, e + 1),
        text_at(s, e + 1, kw),
        e + 1 + kw.len() == s.len() || !ident_cont(s[e + 1 + kw.len()]),
    ensures
        eat_keyword_spec(s, e, kw) == (true, e + 1 + kw.len()),
{
    lemma_trivia_space(s, e);
    lemma_eat_keyword_here(s, e + 1, kw);
}

/// One step of a conjunction tail over `and`.
proof fn lemma_conj_and_step(s: Seq<u8>, acc: BexpM, el: int, er: int, rv: BexpM)
    requires
        0 <= el,
        el + 4 <= er <= s.len(),
        eat_keyword_spec(s, el, "and"@) == (true, el + 4),
        neg_spec(s, el + 4) == Ok::<(BexpM, int), crate::imp::parser::PErr>((rv, er)),
        conj_tail_spec(s, BexpM::And(Box::new(acc), Box::new(rv)), er) == Ok::<
            (BexpM, int),
            crate::imp::parser::PErr,
        >((BexpM::And(Box::new(acc), Box::new(rv)), er)),
    ensures
        conj_tail_spec(s, acc, el) == Ok::<(BexpM, int), crate::imp::parser::PErr>(
            (BexpM::And(Box::new(acc), Box::new(rv)), er),
        ),
{
}

/// One step of a disjunction tail over `or`.
proof fn lemma_disj_or_step(s: Seq<u8>, acc: BexpM, el: int, er: int, rv: BexpM)
    requires
        0 <= el,
        el + 3 <= er <= s.len(),
        eat_keyword_spec(s, el, "or"@) == (true, el + 3),
        conj_spec(s, el + 3) == Ok::<(BexpM, int), crate::imp::parser::PErr>((rv, er)),
        disj_tail_spec(s, BexpM::Or(Box::new(acc), Box::new(rv)), er) == Ok::<
            (BexpM, int),
            crate::imp::parser::PErr,
        >((BexpM::Or(Box::new(acc), Box::new(rv)), er)),
    ensures
        disj_tail_spec(s, acc, el) == Ok::<(BexpM, int), crate::imp::parser::PErr>(
            (BexpM::Or(Box::new(acc), Box::new(rv)), er),
        ),
{
}

/// A conjunction whose first negation reaches `r` and whose tail at `r`
/// gives `res`.
proof fn lemma_conj_step(s: Seq<u8>, u: int, v: BexpM, r: int, res: (BexpM, int))
    requires
        neg_spec(s, u) == Ok::<(BexpM, int), crate::imp::parser::PErr>((v, r)),
        u <= r <= s.len(),
        conj_tail_spec(s, v, r) == Ok::<(BexpM, int), crate::imp::parser::PErr>(res),
    ensures
        conj_spec(s, u) == Ok::<(BexpM, int), crate::imp::parser::PErr>(res),
{
}

/// A boolean whose first conjunction reaches `r` and whose tail at `r`
/// gives `res`.
proof fn lemma_bexp_step(s: Seq<u8>, u: int, v: BexpM, r: int, res: (BexpM, int))
    requires
        conj_spec(s, u) == Ok::<(BexpM, int), crate::imp::parser::PErr>((v, r)),
        u <= r <= s.len(),
        disj_tail_spec(s, v, r) == Ok::<(BexpM, int), crate::imp::parser::PErr>(res),
    ensures
        bexp_spec(s, u) == Ok::<(BexpM, int), crate::imp::parser::PErr>(res),
{
    assert(disj_spec(s, u) == Ok::<(BexpM, int), crate::imp::parser::PErr>(res));
}

/// `l and r` inside a parenthesis, once both sides are read.
proof fn lemma_and_core(s: Seq<u8>, u: int, el: int, er: int, lv: BexpM, rv: BexpM)
    requires
        neg_spec(s, u) == Ok::<(BexpM, int), crate::imp::parser::PErr>((lv, el)),
        0 <= u <= el,
        el + 4 <= er < s.len(),
        s[el] == 32,
        quiet(s, el + 1),
        text_at(s, el + 1, "and"@),
        s[el + 4] == 32,
        neg_spec(s, el + 4) == Ok::<(BexpM, int), crate::imp::parser::PErr>((rv, er)),
        quiet(s, er),
        s[er] == 41,
    ensures
        bexp_spec(s, u) == Ok::<(BexpM, int), crate::imp::parser::PErr>((BexpM::And(Box::new(lv), Box::new(rv)), er)),
{
    reveal_strlit("and");
    lemma_eat_keyword_spaced(s, el, "and"@);
    let a = BexpM::And(Box::new(lv), Box::new(rv));
    lemma_conj_tail_stop(s, a, er);
    lemma_conj_and_step(s, lv, el, er, rv);
    lemma_conj_step(s, u, lv, el, (a, er));
    lemma_disj_tail_stop(s, a, er);
    lemma_bexp_step(s, u, a, er, (a, er));
}

/// `l or r` inside a parenthesis, once both sides are read.
#[verifier::spinoff_prover]
proof fn lemma_or_core(s: Seq<u8>, u: int, el: int, er: int, lv: BexpM, rv: BexpM)
    requires
        neg_spec(s, u) == Ok::<(BexpM, int), crate::imp::parser::PErr>((lv, el)),
        0 <= u <= el,
        el + 3 <= er < s.len(),
        s[el] == 32,
        quiet(s, el + 1),
        text_at(s, el + 1, "or"@),
        s[el + 3] == 32,
        neg_spec(s, el + 3) == Ok::<(BexpM, int), crate::imp::parser::PErr>((rv, er)),
        quiet(s, er),
        s[er] == 41,
    ensures
        bexp_spec(s, u) == Ok::<(BexpM, int), crate::imp::parser::PErr>((BexpM::Or(Box::new(lv), Box::new(rv)), er)),
{
    reveal_strlit("or");
    reveal_strlit("and");
    lemma_trivia_space(s, el);
    lemma_text_at_index(s, el + 1, "or"@, 0);
    lemma_not_there(s, el + 1, "and"@);
    assert(eat_keyword_spec(s, el, "and"@) == (false, el + 1));
    lemma_conj_tail_stop(s, lv, el + 1);
    assert(conj_tail_spec(s, lv, el) == Ok::<(BexpM, int), crate::imp::parser::PErr>((lv, el + 1)));
    lemma_conj_step(s, u, lv, el, (lv, el + 1));
    lemma_eat_keyword_spaced(s, el, "or"@);
    lemma_conj_tail_stop(s, rv, er);
    lemma_conj_step(s, el + 3, rv, er, (rv, er));
    let o = BexpM::Or(Box::new(lv), Box::new(rv));
    lemma_disj_tail_stop(s, o, er);
    lemma_disj_or_step(s, lv, el, er, rv);
    assert(eat_keyword_spec(s, el + 1, "or"@) == eat_keyword_spec(s, el, "or"@));
    assert(disj_tail_spec(s, lv, el + 1) == disj_tail_spec(s, lv, el));
    lemma_bexp_step(s, u, lv, el + 1, (o, er));
}

/// `not x` inside a parenthesis, once `x` is read.
proof fn lemma_not_core(s: Seq<u8>, u: int, xv: BexpM, ex: int)
    requires
        0 <= u,
        u + 3 <= ex < s.len(),
        quiet(s, u),
        text_at(s, u, "not"@),
        s[u + 3] == 32,
        neg_spec(s, u + 3) == Ok::<(BexpM, int), crate::imp::parser::PErr>((xv, ex)),
        quiet(s, ex),
        s[ex] == 41,
    ensures
        bexp_spec(s, u) == Ok::<(BexpM, int), crate::imp::parser::PErr>((BexpM::Not(Box::new(xv)), ex)),
{
    reveal_strlit("not");
    lemma_eat_keyword_here(s, u, "not"@);
    let n = BexpM::Not(Box::new(xv));
    assert(neg_spec(s, u) == Ok::<(BexpM, int), crate::imp::parser::PErr>((n, ex)));
    lemma_bexp_from_neg(s, u, n, ex);
}

/// The comparison `lv opb rv`.
pub open spec fn cmp_ast(opb: Seq<char>, lv: AexpM, rv: AexpM) -> BexpM {
    if opb == "=="@ {
        BexpM::Eq(Box::new(lv), Box::new(rv))
    } else {
        BexpM::Le(Box::new(lv), Box::new(rv))
    }
}

/// A comparison `l op r` whose operands are read.
proof fn lemma_comparison_ok(
    s: Seq<u8>,
    u: int,
    el: int,
    er: int,
    lv: AexpM,
    rv: AexpM,
    opb: Seq<char>,
)
    requires
        0 <= u <= el,
        el + 3 <= er < s.len(),
        aexp_spec(s, u) == Ok::<(AexpM, int), crate::imp::parser::PErr>((lv, el + 1)),
        quiet(s, el + 1),
        text_at(s, el + 1, opb),
        opb == "=="@ || opb == "<="@,
        aexp_spec(s, el + 3) == Ok::<(AexpM, int), crate::imp::parser::PErr>((rv, er)),
    ensures
        comparison_spec(s, u) == Ok::<(BexpM, int), crate::imp::parser::PErr>((cmp_ast(opb, lv, rv), er)),
{
    reveal_strlit("==");
    reveal_strlit("<=");
    if opb == "=="@ {
        lemma_eat_symbol_here(s, el + 1, "=="@);
    } else {
        lemma_text_at_index(s, el + 1, opb, 0);
        lemma_not_there(s, el + 1, "=="@);
        lemma_eat_symbol_here(s, el + 1, "<="@);
    }
}

/// Where no keyword and no boolean parenthesis stands, a negation is a
/// comparison.
proof fn lemma_neg_is_comparison(s: Seq<u8>, u: int)
    requires
        0 <= u <= s.len(),
        quiet(s, u),
        eat_keyword_spec(s, u, "not"@) == (false, u),
        eat_keyword_spec(s, u, "true"@) == (false, u),
        eat_keyword_spec(s, u, "false"@) == (false, u),
        starts_at(s, u, ascii("("@)) ==> paren_bexp_spec(s, u, u) is None,
    ensures
        neg_spec(s, u) == comparison_spec(s, u),
{
    lemma_trivia_quiet(s, u);
    assert(atom_spec(s, u) == comparison_spec(s, u));
}

/// The boolean reading of a parenthesis at `t` whose boolean reaches the
/// closing parenthesis at `e`.
proof fn lemma_paren_some_core(s: Seq<u8>, p: int, t: int, v: BexpM, e: int)
    requires
        0 <= p <= t,
        t + 1 <= e < s.len(),
        quiet(s, t),
        s[t] == 40,
        bexp_spec(s, t + 1) == Ok::<(BexpM, int), crate::imp::parser::PErr>((v, e)),
        quiet(s, e),
        s[e] == 41,
    ensures
        paren_bexp_spec(s, p, t) == Some((v, e + 1)),
{
    reveal_strlit("(");
    reveal_strlit(")");
    lemma_text_at_char(s, t, "("@);
    lemma_eat_symbol_here(s, t, "("@);
    lemma_text_at_char(s, e, ")"@);
    lemma_eat_symbol_here(s, e, ")"@);
}

/// An atom that begins with a parenthesis read as a boolean.
proof fn lemma_atom_paren_core(s: Seq<u8>, p: int, t: int, v: BexpM, e: int)
    requires
        0 <= p <= t < s.len(),
        trivia(s, p) == t,
        quiet(s, t),
        s[t] == 40,
        paren_bexp_spec(s, p, t) == Some((v, e)),
    ensures
        atom_spec(s, p) == Ok::<(BexpM, int), crate::imp::parser::PErr>((v, e)),
{
    reveal_strlit("(");
    reveal_strlit("true");
    reveal_strlit("false");
    lemma_trivia_quiet(s, t);
    lemma_not_there(s, t, "true"@);
    lemma_not_there(s, t, "false"@);
    lemma_text_at_char(s, t, "("@);
    reveal(text_at);
}

/// `true` or `false` as an atom.
#[verifier::spinoff_prover]
proof fn lemma_atom_const_core(s: Seq<u8>, p: int, t: int, kw: Seq<char>)
    requires
        0 <= p <= t,
        trivia(s, p) == t,
        quiet(s, t),
        kw == "true"@ || kw == "false"@,
        text_at(s, t, kw),
        t + kw.len() == s.len() || !ident_cont(s[t + kw.len()]),
    ensures
        atom_spec(s, p) == Ok::<(BexpM, int), crate::imp::parser::PErr>(
            (
                if kw == "true"@ {
                    BexpM::True
                } else {
                    BexpM::False
                },
                t + kw.len(),
            ),
        ),
{
    reveal_strlit("true");
    reveal_strlit("false");
    lemma_trivia_quiet(s, t);
    if kw == "true"@ {
        lemma_eat_keyword_here(s, t, "true"@);
    } else {
        lemma_text_at_index(s, t, kw, 0);
        lemma_not_there(s, t, "true"@);
        lemma_eat_keyword_here(s, t, "false"@);
    }
}

proof fn lemma_not_text_eq(x: BexpM, st: PState)
    ensures
        bexp_text(BexpM::Not(Box::new(x)), st).0 == "(not "@ + bexp_text(x, st).0 + ")"@,
{
    reveal(bexp_text);
}

proof fn lemma_andor_text_eq(l: BexpM, r: BexpM, st: PState)
    ensures
        bexp_text(BexpM::And(Box::new(l), Box::new(r)), st).0 == bin_text(
            bexp_text(l, st).0,
            "and"@,
            bexp_text(r, bexp_text(l, st).1).0,
        ),
        bexp_text(BexpM::Or(Box::new(l), Box::new(r)), st).0 == bin_text(
            bexp_text(l, st).0,
            "or"@,
            bexp_text(r, bexp_text(l, st).1).0,
        ),
{
    reveal(bexp_text);
}

proof fn lemma_cmp_text_eq(l: AexpM, r: AexpM, st: PState)
    ensures
        bexp_text(BexpM::Eq(Box::new(l), Box::new(r)), st).0 == bin_text(
            aexp_text(l, st).0,
            "=="@,
            aexp_text(r, aexp_text(l, st).1).0,
        ),
        bexp_text(BexpM::Le(Box::new(l), Box::new(r)), st).0 == bin_text(
            aexp_text(l, st).0,
            "<="@,
            aexp_text(r, aexp_text(l, st).1).0,
        ),
{
    reveal(bexp_text);
}

/// The pieces of `(not x)` standing at `t`.
#[verifier::spinoff_prover]
proof fn lemma_not_text_at(s: Seq<u8>, t: int, xs: Seq<char>)
    requires
        text_at(s, t, "(not "@ + xs + ")"@),
    ensures
        ("(not "@ + xs + ")"@).len() == xs.len() + 6,
        0 <= t,
        t + xs.len() + 6 <= s.len(),
        s[t] == 40,
        text_at(s, t + 1, "not"@),
        s[t + 4] == 32,
        text_at(s, t + 5, xs),
        s[t + 5 + xs.len()] == 41,
{
    reveal_strlit("(not ");
    reveal_strlit("(");
    reveal_strlit("not");
    reveal_strlit(" ");
    reveal_strlit(")");
    let a = "("@;
    let n = "not"@;
    let sp = " "@;
    let c = ")"@;
    assert("(not "@ + xs + ")"@ =~= a + n + sp + xs + c);
    lemma_text_at_split(s, t, a + n + sp + xs, c);
    lemma_text_at_split(s, t, a + n + sp, xs);
    lemma_text_at_split(s, t, a + n, sp);
    lemma_text_at_split(s, t, a, n);
    lemma_text_at_index(s, t, a, 0);
    lemma_text_at_index(s, t + 4, sp, 0);
    lemma_text_at_index(s, t + 5 + xs.len(), c, 0);
    lemma_text_at_bounds(s, t + 5 + xs.len(), c);
}

/// The end of a printed phrase, where a closing parenthesis stands.
proof fn lemma_close_follow(s: Seq<u8>, e: int)
    requires
        0 <= e < s.len(),
        s[e] == 41,
    ensures
        quiet(s, e),
        follow_ok(s, e),
        next_tok(s, e) == e,
{
    reveal_strlit("//");
    if starts_at(s, e, ascii("//"@)) {
        assert(s.subrange(e, e + 2)[0] == ascii("//"@)[0]);
    }
}

/// A printed boolean expression is read by `atom` up to its end.
#[verifier::spinoff_prover]
proof fn lemma_atom_printed(s: Seq<u8>, p: int, t: int, b: BexpM, st: PState)
    requires
        names_ok(st),
        0 <= p <= t,
        trivia(s, p) == t,
        text_at(s, t, bexp_text(b, st).0),
        follow_ok(s, t + bexp_text(b, st).0.len()),
    ensures
        atom_spec(s, p) == Ok::<(BexpM, int), crate::imp::parser::PErr>((bexp_ast(b, st), t + bexp_text(b, st).0.len())),
    decreases b, 2int,
{
    reveal_strlit("true");
    reveal_strlit("false");
    lemma_bexp_text_ok(b, st);
    lemma_bexp_start(s, t, b, st);
    if b is True {
        lemma_atom_const_core(s, p, t, "true"@);
    } else if b is False {
        lemma_atom_const_core(s, p, t, "false"@);
    } else {
        lemma_bexp_inner(s, t, b, st);
        let e = t + bexp_text(b, st).0.len() - 1;
        let v = bexp_spec(s, t + 1)->Ok_0.0;
        lemma_paren_some_core(s, p, t, v, e);
        lemma_atom_paren_core(s, p, t, v, e + 1);
    }
}

/// A printed boolean expression is read by `neg` up to its end.
proof fn lemma_neg_printed(s: Seq<u8>, p: int, t: int, b: BexpM, st: PState)
    requires
        names_ok(st),
        0 <= p <= t,
        trivia(s, p) == t,
        text_at(s, t, bexp_text(b, st).0),
        follow_ok(s, t + bexp_text(b, st).0.len()),
    ensures
        neg_spec(s, p) == Ok::<(BexpM, int), crate::imp::parser::PErr>((bexp_ast(b, st), t + bexp_text(b, st).0.len())),
    decreases b, 3int,
{
    reveal_strlit("not");
    lemma_bexp_start(s, t, b, st);
    lemma_not_there(s, t, "not"@);
    lemma_trivia_quiet(s, t);
    assert(eat_keyword_spec(s, p, "not"@) == (false, t));
    lemma_atom_printed(s, t, t, b, st);
}

/// Inside the parenthesis of a printed boolean expression other than `true`
/// and `false`, the boolean reaches the closing parenthesis.
proof fn lemma_bexp_inner(s: Seq<u8>, t: int, b: BexpM, st: PState)
    requires
        names_ok(st),
        !(b is True || b is False),
        0 <= t,
        text_at(s, t, bexp_text(b, st).0),
        follow_ok(s, t + bexp_text(b, st).0.len()),
    ensures
        t + 1 < t + bexp_text(b, st).0.len() <= s.len(),
        s[t + bexp_text(b, st).0.len() - 1] == 41,
        quiet(s, t + bexp_text(b, st).0.len() - 1),
        bexp_spec(s, t + 1) == Ok::<(BexpM, int), crate::imp::parser::PErr>((bexp_ast(b, st), t + bexp_text(b, st).0.len() - 1)),
    decreases b, 1int,
{
    match b {
        BexpM::Not(_) => lemma_inner_not(s, t, b, st),
        BexpM::And(_, _) | BexpM::Or(_, _) => lemma_inner_andor(s, t, b, st),
        _ => lemma_inner_cmp(s, t, b, st),
    }
}

#[verifier::spinoff_prover]
#[verifier::rlimit(80)]
proof fn lemma_inner_not(s: Seq<u8>, t: int, b: BexpM, st: PState)
    requires
        names_ok(st),
        b is Not,
        0 <= t,
        text_at(s, t, bexp_text(b, st).0),
        follow_ok(s, t + bexp_text(b, st).0.len()),
    ensures
        t + 1 < t + bexp_text(b, st).0.len() <= s.len(),
        s[t + bexp_text(b, st).0.len() - 1] == 41,
        quiet(s, t + bexp_text(b, st).0.len() - 1),
        bexp_spec(s, t + 1) == Ok::<(BexpM, int), crate::imp::parser::PErr>((bexp_ast(b, st), t + bexp_text(b, st).0.len() - 1)),
    decreases b, 0int,
{
    reveal_strlit("//");
    match b {
        BexpM::Not(x) => {
            reveal_strlit("not");
            let xs = bexp_text(*x, st).0;
            lemma_not_text_eq(*x, st);
            lemma_not_text_at(s, t, xs);
            lemma_bexp_text_ok(*x, st);
            lemma_bexp_start(s, t + 5, *x, st);
            lemma_trivia_space(s, t + 4);
            let ex = t + 5 + xs.len();
            lemma_close_follow(s, ex);
            lemma_neg_printed(s, t + 4, t + 5, *x, st);
            let xv = neg_spec(s, t + 4)->Ok_0.0;
            lemma_text_at_index(s, t + 1, "not"@, 0);
            assert(quiet(s, t + 1)) by {
                if starts_at(s, t + 1, ascii("//"@)) {
                    assert(s.subrange(t + 1, t + 3)[0] == ascii("//"@)[0]);
                }
            }
            lemma_not_core(s, t + 1, xv, ex);
        },
        _ => {},
    }
}

#[verifier::spinoff_prover]
#[verifier::rlimit(80)]
proof fn lemma_inner_andor(s: Seq<u8>, t: int, b: BexpM, st: PState)
    requires
        names_ok(st),
        b is And || b is Or,
        0 <= t,
        text_at(s, t, bexp_text(b, st).0),
        follow_ok(s, t + bexp_text(b, st).0.len()),
    ensures
        t + 1 < t + bexp_text(b, st).0.len() <= s.len(),
        s[t + bexp_text(b, st).0.len() - 1] == 41,
        quiet(s, t + bexp_text(b, st).0.len() - 1),
        bexp_spec(s, t + 1) == Ok::<(BexpM, int), crate::imp::parser::PErr>((bexp_ast(b, st), t + bexp_text(b, st).0.len() - 1)),
    decreases b, 0int,
{
    reveal_strlit("//");
    reveal_strlit("and");
    reveal_strlit("or");
    match b {
        BexpM::And(l, r) | BexpM::Or(l, r) => {
            lemma_andor_text_eq(*l, *r, st);
            let ls = bexp_text(*l, st).0;
            let s1 = bexp_text(*l, st).1;
            let rs = bexp_text(*r, s1).0;
            let opw = if b is And {
                "and"@
            } else {
                "or"@
            };
            assert(bexp_text(b, st).0 == bin_text(ls, opw, rs));
            lemma_bexp_text_ok(*l, st);
            lemma_bexp_text_ok(*r, s1);
            lemma_bin_text_at(s, t, ls, opw, rs);
            let el = t + 1 + ls.len();
            let w = opw.len() as int;
            let er = el + 2 + w + rs.len();
            lemma_bexp_start(s, t + 1, *l, st);
            lemma_bexp_start(s, el + 2 + w, *r, s1);
            lemma_text_at_index(s, el + 1, opw, 0);
            assert(quiet(s, el + 1)) by {
                if starts_at(s, el + 1, ascii("//"@)) {
                    assert(s.subrange(el + 1, el + 3)[0] == ascii("//"@)[0]);
                }
            }
            assert(follow_ok(s, el));
            lemma_trivia_quiet(s, t + 1);
            lemma_neg_printed(s, t + 1, t + 1, *l, st);
            lemma_trivia_space(s, el + 1 + w);
            lemma_close_follow(s, er);
            lemma_neg_printed(s, el + 1 + w, el + 2 + w, *r, s1);
            let lv = neg_spec(s, t + 1)->Ok_0.0;
            let rv = neg_spec(s, el + 1 + w)->Ok_0.0;
            if b is And {
                lemma_and_core(s, t + 1, el, er, lv, rv);
            } else {
                lemma_or_core(s, t + 1, el, er, lv, rv);
            }
        },
        _ => {},
    }
}

/// The operands of a comparison `l op r` printed inside a parenthesis at
/// `t` are read.
#[verifier::spinoff_prover]
proof fn lemma_cmp_operands(
    s: Seq<u8>,
    t: int,
    el: int,
    er: int,
    l: AexpM,
    r: AexpM,
    st: PState,
    s1: PState,
    opb: Seq<char>,
)
    requires
        names_ok(st),
        names_ok(s1),
        0 <= t,
        el == t + 1 + aexp_text(l, st).0.len(),
        er == el + 4 + aexp_text(r, s1).0.len(),
        er < s.len(),
        text_at(s, t + 1, aexp_text(l, st).0),
        text_at(s, el + 4, aexp_text(r, s1).0),
        s[el] == 32,
        s[el + 3] == 32,
        s[er] == 41,
        opb == "=="@ || opb == "<="@,
        text_at(s, el + 1, opb),
    ensures
        aexp_spec(s, t + 1) == Ok::<(AexpM, int), crate::imp::parser::PErr>((aexp_ast(l, st), el + 1)),
        aexp_spec(s, el + 3) == Ok::<(AexpM, int), crate::imp::parser::PErr>((aexp_ast(r, s1), er)),
        quiet(s, el + 1),
        follow_ok(s, el),
        quiet(s, t + 1),
        quiet(s, er),
{
    reveal_strlit("//");
    reveal_strlit("==");
    reveal_strlit("<=");
    let ls = aexp_text(l, st).0;
    let rs = aexp_text(r, s1).0;
    lemma_aexp_text_ok(l, st);
    lemma_aexp_text_ok(r, s1);
    lemma_text_at_index(s, el + 1, opb, 0);
    assert(quiet(s, el + 1)) by {
        if starts_at(s, el + 1, ascii("//"@)) {
            assert(s.subrange(el + 1, el + 3)[0] == ascii("//"@)[0]);
        }
    }
    assert(follow_ok(s, el));
    lemma_start_quiet(s, t + 1, ls);
    lemma_trivia_quiet(s, t + 1);
    lemma_aexp_printed(s, t + 1, t + 1, l, st);
    lemma_start_quiet(s, el + 4, rs);
    lemma_trivia_space(s, el + 3);
    lemma_close_follow(s, er);
    lemma_aexp_printed(s, el + 3, el + 4, r, s1);
}

/// Where a printed arithmetic expression stands, no keyword is read and the
/// boolean reading of a parenthesis fails.
#[verifier::spinoff_prover]
proof fn lemma_cmp_atom_facts(s: Seq<u8>, u: int, l: AexpM, st: PState)
    requires
        names_ok(st),
        0 <= u,
        text_at(s, u, aexp_text(l, st).0),
        follow_ok(s, u + aexp_text(l, st).0.len()),
    ensures
        eat_keyword_spec(s, u, "not"@) == (false, u),
        eat_keyword_spec(s, u, "true"@) == (false, u),
        eat_keyword_spec(s, u, "false"@) == (false, u),
        starts_at(s, u, ascii("("@)) ==> paren_bexp_spec(s, u, u) is None,
        quiet(s, u),
{
    reveal_strlit("(");
    lemma_keywords_plain();
    let ls = aexp_text(l, st).0;
    lemma_aexp_no_keyword(s, u, l, st, "not"@);
    lemma_aexp_no_keyword(s, u, l, st, "true"@);
    lemma_aexp_no_keyword(s, u, l, st, "false"@);
    if starts_at(s, u, ascii("("@)) {
        if l is Num || l is Var {
            lemma_simple_text_start(l, st);
            lemma_text_at_index(s, u, ls, 0);
            assert(s.subrange(u, u + 1)[0] == ascii("("@)[0]);
        } else {
            lemma_paren_reading_fails(s, u, u, l, st);
        }
    }
}

/// The comparison `l op r` printed inside a parenthesis at `t`, its pieces
/// laid out, is read up to the closing parenthesis at `er`.
proof fn lemma_cmp_parse(
    s: Seq<u8>,
    t: int,
    el: int,
    er: int,
    l: AexpM,
    r: AexpM,
    st: PState,
    s1: PState,
    opb: Seq<char>,
)
    requires
        names_ok(st),
        names_ok(s1),
        0 <= t,
        el == t + 1 + aexp_text(l, st).0.len(),
        er == el + 4 + aexp_text(r, s1).0.len(),
        er < s.len(),
        text_at(s, t + 1, aexp_text(l, st).0),
        text_at(s, el + 4, aexp_text(r, s1).0),
        s[el] == 32,
        s[el + 3] == 32,
        s[er] == 41,
        opb == "=="@ || opb == "<="@,
        text_at(s, el + 1, opb),
    ensures
        bexp_spec(s, t + 1) == Ok::<(BexpM, int), crate::imp::parser::PErr>(
            (cmp_ast(opb, aexp_ast(l, st), aexp_ast(r, s1)), er),
        ),
{
    lemma_cmp_operands(s, t, el, er, l, r, st, s1, opb);
    lemma_cmp_atom_facts(s, t + 1, l, st);
    let lv = aexp_spec(s, t + 1)->Ok_0.0;
    let rv = aexp_spec(s, el + 3)->Ok_0.0;
    lemma_comparison_ok(s, t + 1, el, er, lv, rv, opb);
    lemma_neg_is_comparison(s, t + 1);
    let v = comparison_spec(s, t + 1)->Ok_0.0;
    lemma_bexp_from_neg(s, t + 1, v, er);
}

proof fn lemma_cmp_ast_eq(l: AexpM, r: AexpM, st: PState)
    ensures
        bexp_ast(BexpM::Eq(Box::new(l), Box::new(r)), st) == cmp_ast(
            "=="@,
            aexp_ast(l, st),
            aexp_ast(r, aexp_text(l, st).1),
        ),
        bexp_ast(BexpM::Le(Box::new(l), Box::new(r)), st) == cmp_ast(
            "<="@,
            aexp_ast(l, st),
            aexp_ast(r, aexp_text(l, st).1),
        ),
{
    reveal_strlit("==");
    reveal_strlit("<=");
    assert("<="@ != "=="@) by {
        assert("<="@[0] != "=="@[0]);
    }
}

#[verifier::spinoff_prover]
#[verifier::rlimit(80)]
proof fn lemma_inner_cmp(s: Seq<u8>, t: int, b: BexpM, st: PState)
    requires
        names_ok(st),
        b is Eq || b is Le,
        0 <= t,
        text_at(s, t, bexp_text(b, st).0),
        follow_ok(s, t + bexp_text(b, st).0.len()),
    ensures
        t + 1 < t + bexp_text(b, st).0.len() <= s.len(),
        s[t + bexp_text(b, st).0.len() - 1] == 41,
        quiet(s, t + bexp_text(b, st).0.len() - 1),
        bexp_spec(s, t + 1) == Ok::<(BexpM, int), crate::imp::parser::PErr>((bexp_ast(b, st), t + bexp_text(b, st).0.len() - 1)),
{
    reveal_strlit("==");
    reveal_strlit("<=");
    match b {
        BexpM::Eq(l, r) => {
            lemma_cmp_text_eq(*l, *r, st);
            lemma_cmp_ast_eq(*l, *r, st);
            lemma_inner_cmp_op(s, t, *l, *r, st, "=="@);
        },
        BexpM::Le(l, r) => {
            lemma_cmp_text_eq(*l, *r, st);
            lemma_cmp_ast_eq(*l, *r, st);
            lemma_inner_cmp_op(s, t, *l, *r, st, "<="@);
        },
        _ => {},
    }
}

#[verifier::spinoff_prover]
#[verifier::rlimit(80)]
proof fn lemma_inner_cmp_op(s: Seq<u8>, t: int, l: AexpM, r: AexpM, st: PState, opb: Seq<char>)
    requires
        names_ok(st),
        opb == "=="@ || opb == "<="@,
        0 <= t,
        text_at(s, t, bin_text(aexp_text(l, st).0, opb, aexp_text(r, aexp_text(l, st).1).0)),
        follow_ok(s, t + bin_text(aexp_text(l, st).0, opb, aexp_text(r, aexp_text(l, st).1).0).len()),
    ensures
        ({
            let x = bin_text(aexp_text(l, st).0, opb, aexp_text(r, aexp_text(l, st).1).0);
            let v = cmp_ast(opb, aexp_ast(l, st), aexp_ast(r, aexp_text(l, st).1));
            &&& t + 1 < t + x.len() <= s.len()
            &&& s[t + x.len() - 1] == 41
            &&& quiet(s, t + x.len() - 1)
            &&& bexp_spec(s, t + 1) == Ok::<(BexpM, int), crate::imp::parser::PErr>((v, t + x.len() - 1))
        }),
{
    reveal_strlit("==");
    reveal_strlit("<=");
    let ls = aexp_text(l, st).0;
    let s1 = aexp_text(l, st).1;
    let rs = aexp_text(r, s1).0;
    lemma_aexp_text_ok(l, st);
    lemma_bin_text_at(s, t, ls, opb, rs);
    let el = t + 1 + ls.len();
    let er = el + 4 + rs.len();
    lemma_close_follow(s, er);
    lemma_cmp_parse(s, t, el, er, l, r, st, s1, opb);
}

/// A printed boolean expression is read whole, up to the next token after
/// it, when that token begins neither `and` nor `or`.
#[verifier::spinoff_prover]
proof fn lemma_bexp_printed(s: Seq<u8>, p: int, t: int, b: BexpM, st: PState)
    requires
        names_ok(st),
        0 <= p <= t,
        trivia(s, p) == t,
        text_at(s, t, bexp_text(b, st).0),
        follow_ok(s, t + bexp_text(b, st).0.len()),
        next_tok(s, t + bexp_text(b, st).0.len()) < s.len() ==> {
            let c = s[next_tok(s, t + bexp_text(b, st).0.len())];
            c != 97 && c != 111
        },
    ensures
        bexp_spec(s, p) == Ok::<(BexpM, int), crate::imp::parser::PErr>((bexp_ast(b, st), next_tok(s, t + bexp_text(b, st).0.len()))),
{
    reveal_strlit("and");
    let e = t + bexp_text(b, st).0.len();
    lemma_neg_printed(s, p, t, b, st);
    let v = neg_spec(s, p)->Ok_0.0;
    lemma_trivia_follow(s, e);
    let n = next_tok(s, e);
    lemma_trivia_quiet(s, n);
    lemma_conj_tail_stop(s, v, n);
    lemma_not_there(s, n, "and"@);
    assert(conj_tail_spec(s, v, e) == Ok::<(BexpM, int), crate::imp::parser::PErr>((v, n)));
    lemma_conj_step(s, p, v, e, (v, n));
    lemma_disj_tail_stop(s, v, n);
    lemma_bexp_step(s, p, v, n, (v, n));
}

/// The pieces of `if b then c0 else c1` standing at `t`.
#[verifier::spinoff_prover]
proof fn lemma_if_text_at(s: Seq<u8>, t: int, bs: Seq<char>, t0: Seq<char>, t1: Seq<char>)
    requires
        text_at(s, t, "if "@ + bs + " then "@ + t0 + " else "@ + t1),
    ensures
        ("if "@ + bs + " then "@ + t0 + " else "@ + t1).len() == bs.len() + t0.len() + t1.len() + 15,
        0 <= t,
        t + bs.len() + t0.len() + t1.len() + 15 <= s.len(),
        text_at(s, t, "if"@),
        s[t + 2] == 32,
        text_at(s, t + 3, bs),
        s[t + 3 + bs.len()] == 32,
        text_at(s, t + 4 + bs.len(), "then"@),
        s[t + 8 + bs.len()] == 32,
        text_at(s, t + 9 + bs.len(), t0),
        s[t + 9 + bs.len() + t0.len()] == 32,
        text_at(s, t + 10 + bs.len() + t0.len(), "else"@),
        s[t + 14 + bs.len() + t0.len()] == 32,
        text_at(s, t + 15 + bs.len() + t0.len(), t1),
{
    reveal_strlit("if ");
    reveal_strlit(" then ");
    reveal_strlit(" else ");
    reveal_strlit("if");
    reveal_strlit("then");
    reveal_strlit("else");
    reveal_strlit(" ");
    let sp = " "@;
    let x = "if"@ + sp + bs + sp + "then"@ + sp + t0 + sp + "else"@ + sp + t1;
    assert("if "@ + bs + " then "@ + t0 + " else "@ + t1 =~= x);
    lemma_text_at_split(s, t, "if"@ + sp + bs + sp + "then"@ + sp + t0 + sp + "else"@ + sp, t1);
    lemma_text_at_split(s, t, "if"@ + sp + bs + sp + "then"@ + sp + t0 + sp + "else"@, sp);
    lemma_text_at_split(s, t, "if"@ + sp + bs + sp + "then"@ + sp + t0 + sp, "else"@);
    lemma_text_at_split(s, t, "if"@ + sp + bs + sp + "then"@ + sp + t0, sp);
    lemma_text_at_split(s, t, "if"@ + sp + bs + sp + "then"@ + sp, t0);
    lemma_text_at_split(s, t, "if"@ + sp + bs + sp + "then"@, sp);
    lemma_text_at_split(s, t, "if"@ + sp + bs + sp, "then"@);
    lemma_text_at_split(s, t, "if"@ + sp + bs, sp);
    lemma_text_at_split(s, t, "if"@ + sp, bs);
    lemma_text_at_split(s, t, "if"@, sp);
    lemma_text_at_index(s, t + 2, sp, 0);
    lemma_text_at_index(s, t + 3 + bs.len(), sp, 0);
    lemma_text_at_index(s, t + 8 + bs.len(), sp, 0);
    lemma_text_at_index(s, t + 9 + bs.len() + t0.len(), sp, 0);
    lemma_text_at_index(s, t + 14 + bs.len() + t0.len(), sp, 0);
    lemma_text_at_bounds(s, t, x);
}

/// The pieces of `while b do c` standing at `t`.
#[verifier::spinoff_prover]
proof fn lemma_while_text_at(s: Seq<u8>, t: int, bs: Seq<char>, tb: Seq<char>)
    requires
        text_at(s, t, "while "@ + bs + " do "@ + tb),
    ensures
        ("while "@ + bs + " do "@ + tb).len() == bs.len() + tb.len() + 10,
        0 <= t,
        t + bs.len() + tb.len() + 10 <= s.len(),
        text_at(s, t, "while"@),
        s[t + 5] == 32,
        text_at(s, t + 6, bs),
        s[t + 6 + bs.len()] == 32,
        text_at(s, t + 7 + bs.len(), "do"@),
        s[t + 9 + bs.len()] == 32,
        text_at(s, t + 10 + bs.len(), tb),
{
    reveal_strlit("while ");
    reveal_strlit(" do ");
    reveal_strlit("while");
    reveal_strlit("do");
    reveal_strlit(" ");
    let sp = " "@;
    let x = "while"@ + sp + bs + sp + "do"@ + sp + tb;
    assert("while "@ + bs + " do "@ + tb =~= x);
    lemma_text_at_split(s, t, "while"@ + sp + bs + sp + "do"@ + sp, tb);
    lemma_text_at_split(s, t, "while"@ + sp + bs + sp + "do"@, sp);
    lemma_text_at_split(s, t, "while"@ + sp + bs + sp, "do"@);
    lemma_text_at_split(s, t, "while"@ + sp + bs, sp);
    lemma_text_at_split(s, t, "while"@ + sp, bs);
    lemma_text_at_split(s, t, "while"@, sp);
    lemma_text_at_index(s, t + 5, sp, 0);
    lemma_text_at_index(s, t + 6 + bs.len(), sp, 0);
    lemma_text_at_index(s, t + 9 + bs.len(), sp, 0);
    lemma_text_at_bounds(s, t, x);
}

/// The pieces of `(c0 ; c1)` standing at `t`.
#[verifier::spinoff_prover]
proof fn lemma_seq_text_at(s: Seq<u8>, t: int, t0: Seq<char>, t1: Seq<char>)
    requires
        text_at(s, t, "("@ + t0 + " ; "@ + t1 + ")"@),
    ensures
        ("("@ + t0 + " ; "@ + t1 + ")"@).len() == t0.len() + t1.len() + 5,
        0 <= t,
        t + t0.len() + t1.len() + 5 <= s.len(),
        s[t] == 40,
        text_at(s, t + 1, t0),
        s[t + 1 + t0.len()] == 32,
        s[t + 2 + t0.len()] == 59,
        text_at(s, t + 2 + t0.len(), ";"@),
        s[t + 3 + t0.len()] == 32,
        text_at(s, t + 4 + t0.len(), t1),
        s[t + 4 + t0.len() + t1.len()] == 41,
{
    reveal_strlit("(");
    reveal_strlit(" ; ");
    reveal_strlit(";");
    reveal_strlit(" ");
    reveal_strlit(")");
    let sp = " "@;
    let x = "("@ + t0 + sp + ";"@ + sp + t1 + ")"@;
    assert("("@ + t0 + " ; "@ + t1 + ")"@ =~= x);
    lemma_text_at_split(s, t, "("@ + t0 + sp + ";"@ + sp + t1, ")"@);
    lemma_text_at_split(s, t, "("@ + t0 + sp + ";"@ + sp, t1);
    lemma_text_at_split(s, t, "("@ + t0 + sp + ";"@, sp);
    lemma_text_at_split(s, t, "("@ + t0 + sp, ";"@);
    lemma_text_at_split(s, t, "("@ + t0, sp);
    lemma_text_at_split(s, t, "("@, t0);
    lemma_text_at_index(s, t, "("@, 0);
    lemma_text_at_index(s, t + 1 + t0.len(), sp, 0);
    lemma_text_at_index(s, t + 2 + t0.len(), ";"@, 0);
    lemma_text_at_index(s, t + 3 + t0.len(), sp, 0);
    lemma_text_at_index(s, t + 4 + t0.len() + t1.len(), ")"@, 0);
    lemma_text_at_bounds(s, t, x);
}

/// The pieces of `x := a` standing at `t`.
#[verifier::spinoff_prover]
proof fn lemma_assign_text_at(s: Seq<u8>, t: int, n: Seq<char>, a: Seq<char>)
    requires
        text_at(s, t, n + " := "@ + a),
    ensures
        (n + " := "@ + a).len() == n.len() + a.len() + 4,
        0 <= t,
        t + n.len() + a.len() + 4 <= s.len(),
        text_at(s, t, n),
        s[t + n.len()] == 32,
        text_at(s, t + n.len() + 1, ":="@),
        s[t + n.len() + 1] == 58,
        s[t + n.len() + 3] == 32,
        text_at(s, t + n.len() + 4, a),
{
    reveal_strlit(" := ");
    reveal_strlit(":=");
    reveal_strlit(" ");
    let sp = " "@;
    let x = n + sp + ":="@ + sp + a;
    assert(n + " := "@ + a =~= x);
    lemma_text_at_split(s, t, n + sp + ":="@ + sp, a);
    lemma_text_at_split(s, t, n + sp + ":="@, sp);
    lemma_text_at_split(s, t, n + sp, ":="@);
    lemma_text_at_split(s, t, n, sp);
    lemma_text_at_index(s, t + n.len(), sp, 0);
    lemma_text_at_index(s, t + n.len() + 1, ":="@, 0);
    lemma_text_at_index(s, t + n.len() + 3, sp, 0);
    lemma_text_at_bounds(s, t, x);
}

/// Facts about the text printed for a command in statement position.
#[verifier::spinoff_prover]
proof fn lemma_stmt_text_ok(c: ComM, st: PState)
    requires
        names_ok(st),
    ensures
        names_ok(stmt_text(c, st).1),
        stmt_text(c, st).0.len() > 0,
        stmt_text(c, st).0[0] == '(' || is_ascii_alpha(stmt_text(c, st).0[0]) || stmt_text(c, st).0[0]
            == '_',
    decreases c,
{
    reveal(stmt_text);
    reveal_strlit("skip");
    reveal_strlit("if ");
    reveal_strlit("while ");
    reveal_strlit("(");
    match c {
        ComM::Skip => {},
        ComM::Assign(x, a) => {
            lemma_name_spec_ok(x, st);
            lemma_aexp_text_ok(*a, name_spec(x, st).1);
        },
        ComM::If(b, c0, c1) => {
            lemma_bexp_text_ok(*b, st);
            let s1 = bexp_text(*b, st).1;
            lemma_stmt_text_ok(*c0, s1);
            lemma_stmt_text_ok(*c1, stmt_text(*c0, s1).1);
        },
        ComM::While(b, body) => {
            lemma_bexp_text_ok(*b, st);
            lemma_stmt_text_ok(*body, bexp_text(*b, st).1);
        },
        ComM::Sequence(c0, c1) => {
            lemma_stmt_text_ok(*c0, st);
            lemma_stmt_text_ok(*c1, stmt_text(*c0, st).1);
        },
    }
}

/// A printed statement begins at a quiet position.
proof fn lemma_stmt_start(s: Seq<u8>, t: int, c: ComM, st: PState)
    requires
        names_ok(st),
        text_at(s, t, stmt_text(c, st).0),
    ensures
        quiet(s, t),
        0 <= t < s.len(),
        s[t] == 40 || ident_start(s[t]),
{
    reveal_strlit("//");
    lemma_stmt_text_ok(c, st);
    let x = stmt_text(c, st).0;
    lemma_text_at_index(s, t, x, 0);
    if starts_at(s, t, ascii("//"@)) {
        assert(s.subrange(t, t + 2)[0] == ascii("//"@)[0]);
    }
}

/// What may follow a printed statement that ends at `e`.
pub open spec fn stmt_end_ok(s: Seq<u8>, e: int) -> bool {
    &&& follow_ok(s, e)
    &&& (next_tok(s, e) < s.len() ==> {
        let c = s[next_tok(s, e)];
        c != 42 && c != 47 && c != 43 && c != 45
    })
}

/// A reader that stopped at the end of a phrase or at the next token after
/// it has the next token ahead.
proof fn lemma_trivia_reach(s: Seq<u8>, r: int, e: int)
    requires
        follow_ok(s, e),
        r == e || r == next_tok(s, e),
    ensures
        trivia(s, r) == next_tok(s, e),
        e <= r <= next_tok(s, e) <= s.len(),
{
    lemma_trivia_follow(s, e);
    if r != e {
        lemma_trivia_quiet(s, r);
    }
}

/// A keyword is expected where it stands after layout.
proof fn lemma_expect_kw_at(s: Seq<u8>, r: int, n: int, kw: Seq<char>)
    requires
        trivia(s, r) == n,
        quiet(s, n),
        text_at(s, n, kw),
        n + kw.len() == s.len() || !ident_cont(s[n + kw.len()]),
    ensures
        expect_keyword_spec(s, r, kw) == Ok::<int, crate::imp::parser::PErr>(n + kw.len()),
{
    lemma_eat_keyword_here(s, n, kw);
    lemma_trivia_quiet(s, n);
}

proof fn lemma_stmt_skip_core(s: Seq<u8>, p: int, t: int)
    requires
        trivia(s, p) == t,
        quiet(s, t),
        text_at(s, t, "skip"@),
        t + 4 == s.len() || !ident_cont(s[t + 4]),
    ensures
        stmt_spec(s, p) == Ok::<(ComM, int), crate::imp::parser::PErr>((ComM::Skip, t + 4)),
{
    reveal_strlit("skip");
    lemma_eat_keyword_here(s, t, "skip"@);
    lemma_trivia_quiet(s, t);
}

proof fn lemma_stmt_if_dispatch(s: Seq<u8>, p: int, t: int)
    requires
        trivia(s, p) == t,
        quiet(s, t),
        text_at(s, t, "if"@),
        t + 2 < s.len(),
        s[t + 2] == 32,
    ensures
        stmt_spec(s, p) == if_spec(s, p, t + 2),
{
    reveal_strlit("skip");
    reveal_strlit("if");
    lemma_trivia_quiet(s, t);
    lemma_text_at_index(s, t, "if"@, 0);
    lemma_not_there(s, t, "skip"@);
    lemma_eat_keyword_here(s, t, "if"@);
}

proof fn lemma_stmt_while_dispatch(s: Seq<u8>, p: int, t: int)
    requires
        trivia(s, p) == t,
        quiet(s, t),
        text_at(s, t, "while"@),
        t + 5 < s.len(),
        s[t + 5] == 32,
    ensures
        stmt_spec(s, p) == while_spec(s, p, t + 5),
{
    reveal_strlit("skip");
    reveal_strlit("if");
    reveal_strlit("while");
    lemma_trivia_quiet(s, t);
    lemma_text_at_index(s, t, "while"@, 0);
    lemma_not_there(s, t, "skip"@);
    lemma_not_there(s, t, "if"@);
    lemma_eat_keyword_here(s, t, "while"@);
}

#[verifier::spinoff_prover]
proof fn lemma_stmt_block_dispatch(s: Seq<u8>, p: int, t: int)
    requires
        trivia(s, p) == t,
        quiet(s, t),
        t < s.len(),
        s[t] == 40,
    ensures
        stmt_spec(s, p) == block_spec(s, p, t + 1),
{
    reveal_strlit("skip");
    reveal_strlit("if");
    reveal_strlit("while");
    reveal_strlit("(");
    lemma_trivia_quiet(s, t);
    lemma_not_there(s, t, "skip"@);
    lemma_not_there(s, t, "if"@);
    lemma_not_there(s, t, "while"@);
    lemma_text_at_char(s, t, "("@);
    lemma_eat_symbol_here(s, t, "("@);
}

proof fn lemma_stmt_assign_dispatch(s: Seq<u8>, p: int, t: int, n: Seq<char>)
    requires
        trivia(s, p) == t,
        quiet(s, t),
        text_at(s, t, n),
        valid_ident_spec(n),
        t + n.len() == s.len() || !ident_cont(s[t + n.len()]),
    ensures
        stmt_spec(s, p) == assign_spec(s, t),
{
    reveal_strlit("(");
    lemma_keywords_plain();
    lemma_trivia_quiet(s, t);
    lemma_keyword_not_at_ident(s, t, n, "skip"@);
    lemma_keyword_not_at_ident(s, t, n, "if"@);
    lemma_keyword_not_at_ident(s, t, n, "while"@);
    lemma_ident_ascii(n);
    lemma_text_at_index(s, t, n, 0);
    lemma_not_there(s, t, "("@);
}

proof fn lemma_if_core(
    s: Seq<u8>,
    p: int,
    q1: int,
    bv: BexpM,
    rb: int,
    r1: int,
    c0v: ComM,
    r2: int,
    r3: int,
    c1v: ComM,
    r4: int,
)
    requires
        p < q1 <= s.len(),
        bexp_spec(s, q1) == Ok::<(BexpM, int), crate::imp::parser::PErr>((bv, rb)),
        expect_keyword_spec(s, rb, "then"@) == Ok::<int, crate::imp::parser::PErr>(r1),
        p < r1 <= s.len(),
        stmt_spec(s, r1) == Ok::<(ComM, int), crate::imp::parser::PErr>((c0v, r2)),
        expect_keyword_spec(s, r2, "else"@) == Ok::<int, crate::imp::parser::PErr>(r3),
        p < r3 <= s.len(),
        stmt_spec(s, r3) == Ok::<(ComM, int), crate::imp::parser::PErr>((c1v, r4)),
    ensures
        if_spec(s, p, q1) == Ok::<(ComM, int), crate::imp::parser::PErr>(
            (ComM::If(Box::new(bv), Box::new(c0v), Box::new(c1v)), r4),
        ),
{
}

proof fn lemma_while_core(
    s: Seq<u8>,
    p: int,
    q2: int,
    bv: BexpM,
    rb: int,
    r1: int,
    cv: ComM,
    r2: int,
)
    requires
        p < q2 <= s.len(),
        bexp_spec(s, q2) == Ok::<(BexpM, int), crate::imp::parser::PErr>((bv, rb)),
        expect_keyword_spec(s, rb, "do"@) == Ok::<int, crate::imp::parser::PErr>(r1),
        p < r1 <= s.len(),
        stmt_spec(s, r1) == Ok::<(ComM, int), crate::imp::parser::PErr>((cv, r2)),
    ensures
        while_spec(s, p, q2) == Ok::<(ComM, int), crate::imp::parser::PErr>(
            (ComM::While(Box::new(bv), Box::new(cv)), r2),
        ),
{
}

proof fn lemma_block_core(s: Seq<u8>, p: int, q3: int, cv: ComM, r: int, r1: int)
    requires
        p < q3 <= s.len(),
        com_spec(s, q3) == Ok::<(ComM, int), crate::imp::parser::PErr>((cv, r)),
        expect_symbol_spec(s, r, ")"@) == Ok::<int, crate::imp::parser::PErr>(r1),
    ensures
        block_spec(s, p, q3) == Ok::<(ComM, int), crate::imp::parser::PErr>((cv, r1)),
{
}

proof fn lemma_assign_core(s: Seq<u8>, t: int, n: Seq<char>, r1: int, av: AexpM, r2: int)
    requires
        eat_ident_spec(s, t) == (Some(n), t + n.len()),
        expect_symbol_spec(s, t + n.len(), ":="@) == Ok::<int, crate::imp::parser::PErr>(r1),
        aexp_spec(s, r1) == Ok::<(AexpM, int), crate::imp::parser::PErr>((av, r2)),
    ensures
        assign_spec(s, t) == Ok::<(ComM, int), crate::imp::parser::PErr>(
            (ComM::Assign(n, Box::new(av)), r2),
        ),
{
}

proof fn lemma_com_tail_stop(s: Seq<u8>, acc: ComM, e: int)
    requires
        quiet(s, e),
        e < s.len() ==> s[e] != 59,
    ensures
        com_tail_spec(s, acc, e) == Ok::<(ComM, int), crate::imp::parser::PErr>((acc, e)),
{
    reveal_strlit(";");
    lemma_not_there(s, e, ";"@);
}

proof fn lemma_com_seq_core(
    s: Seq<u8>,
    u: int,
    c0v: ComM,
    r0: int,
    q: int,
    c1v: ComM,
    r1: int,
    res: (ComM, int),
)
    requires
        stmt_spec(s, u) == Ok::<(ComM, int), crate::imp::parser::PErr>((c0v, r0)),
        u <= r0 <= s.len(),
        eat_symbol_spec(s, r0, ";"@) == (true, q),
        r0 < q <= s.len(),
        stmt_spec(s, q) == Ok::<(ComM, int), crate::imp::parser::PErr>((c1v, r1)),
        q <= r1 <= s.len(),
        com_tail_spec(s, ComM::Sequence(Box::new(c0v), Box::new(c1v)), r1) == Ok::<
            (ComM, int),
            crate::imp::parser::PErr,
        >(res),
    ensures
        com_spec(s, u) == Ok::<(ComM, int), crate::imp::parser::PErr>(res),
{
    assert(com_tail_spec(s, c0v, r0) == Ok::<(ComM, int), crate::imp::parser::PErr>(res));
}

proof fn lemma_com_single_core(s: Seq<u8>, u: int, cv: ComM, r: int, res: (ComM, int))
    requires
        stmt_spec(s, u) == Ok::<(ComM, int), crate::imp::parser::PErr>((cv, r)),
        u <= r <= s.len(),
        com_tail_spec(s, cv, r) == Ok::<(ComM, int), crate::imp::parser::PErr>(res),
    ensures
        com_spec(s, u) == Ok::<(ComM, int), crate::imp::parser::PErr>(res),
{
}

/// `stmt` read at `p` gives `v` and stops at the end `e` of a printed
/// statement, or at the next token after it.
#[verifier::opaque]
pub open spec fn stmt_reads(s: Seq<u8>, p: int, e: int, v: ComM) -> bool {
    stmt_spec(s, p) matches Ok((w, x)) && w == v && (x == e || x == next_tok(s, e))
}

/// `bexp` read at `p` gives `v` and stops at `r`.
#[verifier::opaque]
pub open spec fn bexp_reads(s: Seq<u8>, p: int, r: int, v: BexpM) -> bool {
    bexp_spec(s, p) == Ok::<(BexpM, int), crate::imp::parser::PErr>((v, r))
}

/// A printed statement is read by `stmt` up to its end, or up to the next
/// token after it.
#[verifier::spinoff_prover]
proof fn lemma_stmt_printed(s: Seq<u8>, p: int, t: int, c: ComM, st: PState)
    requires
        names_ok(st),
        0 <= p <= t,
        trivia(s, p) == t,
        text_at(s, t, stmt_text(c, st).0),
        stmt_end_ok(s, t + stmt_text(c, st).0.len()),
    ensures
        stmt_reads(s, p, t + stmt_text(c, st).0.len(), stmt_ast(c, st)),
    decreases c, 1int,
{
    match c {
        ComM::Skip => {
            reveal(stmt_text);
            reveal(stmt_reads);
            reveal_strlit("skip");
            lemma_stmt_start(s, t, c, st);
            lemma_stmt_skip_core(s, p, t);
        },
        ComM::Assign(_, _) => lemma_stmt_assign(s, p, t, c, st),
        ComM::If(_, _, _) => lemma_stmt_if(s, p, t, c, st),
        ComM::While(_, _) => lemma_stmt_while(s, p, t, c, st),
        ComM::Sequence(_, _) => lemma_stmt_seq(s, p, t, c, st),
    }
}

#[verifier::spinoff_prover]
proof fn lemma_stmt_assign(s: Seq<u8>, p: int, t: int, c: ComM, st: PState)
    requires
        names_ok(st),
        c is Assign,
        0 <= p <= t,
        trivia(s, p) == t,
        text_at(s, t, stmt_text(c, st).0),
        stmt_end_ok(s, t + stmt_text(c, st).0.len()),
    ensures
        stmt_reads(s, p, t + stmt_text(c, st).0.len(), stmt_ast(c, st)),
{
    reveal_strlit(":=");
    reveal_strlit("//");
    reveal(stmt_reads);
    match c {
        ComM::Assign(x, a) => {
            reveal(stmt_text);
            let n = name_spec(x, st).0;
            let s1 = name_spec(x, st).1;
            let at = aexp_text(*a, s1).0;
            assert(stmt_text(c, st).0 == n + " := "@ + at);
            lemma_assign_text_at(s, t, n, at);
            lemma_name_spec_ok(x, st);
            lemma_ident_ascii(n);
            lemma_start_quiet(s, t, n);
            lemma_stmt_assign_dispatch(s, p, t, n);
            lemma_eat_ident_here(s, t, n);
            let m = t + n.len();
            assert(quiet(s, m + 1)) by {
                if starts_at(s, m + 1, ascii("//"@)) {
                    assert(s.subrange(m + 1, m + 3)[0] == ascii("//"@)[0]);
                }
            }
            lemma_trivia_space(s, m);
            lemma_eat_symbol_here(s, m + 1, ":="@);
            assert(expect_symbol_spec(s, m, ":="@) == Ok::<int, crate::imp::parser::PErr>(m + 3));
            lemma_aexp_text_ok(*a, s1);
            lemma_start_quiet(s, m + 4, at);
            lemma_trivia_space(s, m + 3);
            lemma_aexp_printed(s, m + 3, m + 4, *a, s1);
            let av = aexp_spec(s, m + 3)->Ok_0.0;
            let r2 = aexp_spec(s, m + 3)->Ok_0.1;
            lemma_assign_core(s, t, n, m + 3, av, r2);
        },
        _ => {},
    }
}

/// A quiet position where a letter stands.
proof fn lemma_letter_quiet(s: Seq<u8>, i: int, kw: Seq<char>)
    requires
        text_at(s, i, kw),
        letters(kw),
    ensures
        quiet(s, i),
        0 <= i < s.len(),
        s[i] == kw[0] as u8,
{
    reveal_strlit("//");
    lemma_text_at_index(s, i, kw, 0);
    assert(is_ascii_alpha(kw[0]));
    if starts_at(s, i, ascii("//"@)) {
        assert(s.subrange(i, i + 2)[0] == ascii("//"@)[0]);
    }
}

proof fn lemma_if_text_eq(b: BexpM, c0: ComM, c1: ComM, st: PState)
    ensures
        stmt_text(ComM::If(Box::new(b), Box::new(c0), Box::new(c1)), st).0 == "if "@ + bexp_text(
            b,
            st,
        ).0 + " then "@ + stmt_text(c0, bexp_text(b, st).1).0 + " else "@ + stmt_text(
            c1,
            stmt_text(c0, bexp_text(b, st).1).1,
        ).0,
{
    reveal(stmt_text);
}

proof fn lemma_while_text_eq(b: BexpM, body: ComM, st: PState)
    ensures
        stmt_text(ComM::While(Box::new(b), Box::new(body)), st).0 == "while "@ + bexp_text(b, st).0
            + " do "@ + stmt_text(body, bexp_text(b, st).1).0,
{
    reveal(stmt_text);
}

proof fn lemma_seq_text_eq(c0: ComM, c1: ComM, st: PState)
    ensures
        stmt_text(ComM::Sequence(Box::new(c0), Box::new(c1)), st).0 == "("@ + stmt_text(c0, st).0
            + " ; "@ + stmt_text(c1, stmt_text(c0, st).1).0 + ")"@,
{
    reveal(stmt_text);
}

/// The condition of a printed `if` or `while`, with its text at `t + k + 1`,
/// is read up to the keyword after it.
#[verifier::spinoff_prover]
#[verifier::rlimit(80)]
proof fn lemma_cond_head(
    s: Seq<u8>,
    t: int,
    k: int,
    b: BexpM,
    st: PState,
    kw2: Seq<char>,
)
    requires
        names_ok(st),
        0 <= t,
        kw2 == "then"@ || kw2 == "do"@,
        1 <= k,
        t + k < s.len(),
        s[t + k] == 32,
        text_at(s, t + k + 1, bexp_text(b, st).0),
        s[t + k + 1 + bexp_text(b, st).0.len()] == 32,
        text_at(s, t + k + 2 + bexp_text(b, st).0.len(), kw2),
        s[t + k + 2 + bexp_text(b, st).0.len() + kw2.len()] == 32,
        t + k + 2 + bexp_text(b, st).0.len() + kw2.len() < s.len(),
    ensures
        bexp_reads(s, t + k, t + k + 2 + bexp_text(b, st).0.len(), bexp_ast(b, st)),
        expect_keyword_spec(s, t + k + 2 + bexp_text(b, st).0.len(), kw2) == Ok::<
            int,
            crate::imp::parser::PErr,
        >(t + k + 2 + bexp_text(b, st).0.len() + kw2.len()),
        t + k + 2 + bexp_text(b, st).0.len() + kw2.len() < s.len(),
{
    lemma_keywords_plain();
    reveal_strlit("then");
    reveal_strlit("do");
    reveal(bexp_reads);
    let eb = t + k + 1 + bexp_text(b, st).0.len();
    lemma_bexp_text_ok(b, st);
    lemma_bexp_start(s, t + k + 1, b, st);
    lemma_trivia_space(s, t + k);
    lemma_letter_quiet(s, eb + 1, kw2);
    lemma_text_at_bounds(s, eb + 1, kw2);
    assert(follow_ok(s, eb));
    lemma_bexp_printed(s, t + k, t + k + 1, b, st);
    lemma_trivia_quiet(s, eb + 1);
    lemma_expect_kw_at(s, eb + 1, eb + 1, kw2);
}

/// A printed `if`, its condition and branches read, is read.
#[verifier::spinoff_prover]
#[verifier::rlimit(80)]
proof fn lemma_if_final(
    s: Seq<u8>,
    p: int,
    t: int,
    eb: int,
    e0: int,
    e: int,
    bv: BexpM,
    c0v: ComM,
    c1v: ComM,
)
    requires
        0 <= p <= t,
        trivia(s, p) == t,
        quiet(s, t),
        text_at(s, t, "if"@),
        t + 2 < eb,
        s[t + 2] == 32,
        bexp_reads(s, t + 2, eb + 1, bv),
        expect_keyword_spec(s, eb + 1, "then"@) == Ok::<int, crate::imp::parser::PErr>(eb + 5),
        eb + 5 < e0,
        stmt_reads(s, eb + 5, e0, c0v),
        follow_ok(s, e0),
        next_tok(s, e0) == e0 + 1,
        quiet(s, e0 + 1),
        text_at(s, e0 + 1, "else"@),
        s[e0 + 5] == 32,
        e0 + 5 < e <= s.len(),
        stmt_reads(s, e0 + 5, e, c1v),
        follow_ok(s, e),
    ensures
        stmt_reads(s, p, e, ComM::If(Box::new(bv), Box::new(c0v), Box::new(c1v))),
{
    reveal_strlit("if");
    reveal_strlit("else");
    reveal(stmt_reads);
    reveal(bexp_reads);
    lemma_stmt_if_dispatch(s, p, t);
    let r2 = stmt_spec(s, eb + 5)->Ok_0.1;
    lemma_trivia_reach(s, r2, e0);
    lemma_expect_kw_at(s, r2, e0 + 1, "else"@);
    let r4 = stmt_spec(s, e0 + 5)->Ok_0.1;
    lemma_trivia_reach(s, r4, e);
    lemma_if_core(s, p, t + 2, bv, eb + 1, eb + 5, c0v, r2, e0 + 5, c1v, r4);
}

/// A printed `while`, its condition and body read, is read.
#[verifier::rlimit(80)]
proof fn lemma_while_final(s: Seq<u8>, p: int, t: int, eb: int, e: int, bv: BexpM, cv: ComM)
    requires
        0 <= p <= t,
        trivia(s, p) == t,
        quiet(s, t),
        text_at(s, t, "while"@),
        t + 5 < eb,
        s[t + 5] == 32,
        bexp_reads(s, t + 5, eb + 1, bv),
        expect_keyword_spec(s, eb + 1, "do"@) == Ok::<int, crate::imp::parser::PErr>(eb + 3),
        eb + 3 < e <= s.len(),
        stmt_reads(s, eb + 3, e, cv),
        follow_ok(s, e),
    ensures
        stmt_reads(s, p, e, ComM::While(Box::new(bv), Box::new(cv))),
{
    reveal_strlit("while");
    reveal(stmt_reads);
    reveal(bexp_reads);
    lemma_stmt_while_dispatch(s, p, t);
    let r2 = stmt_spec(s, eb + 3)->Ok_0.1;
    lemma_trivia_reach(s, r2, e);
    lemma_while_core(s, p, t + 5, bv, eb + 1, eb + 3, cv, r2);
}

#[verifier::spinoff_prover]
#[verifier::rlimit(80)]
proof fn lemma_stmt_if(s: Seq<u8>, p: int, t: int, c: ComM, st: PState)
    requires
        names_ok(st),
        c is If,
        0 <= p <= t,
        trivia(s, p) == t,
        text_at(s, t, stmt_text(c, st).0),
        stmt_end_ok(s, t + stmt_text(c, st).0.len()),
    ensures
        stmt_reads(s, p, t + stmt_text(c, st).0.len(), stmt_ast(c, st)),
    decreases c, 0int,
{
    lemma_keywords_plain();
    reveal_strlit("else");
    reveal_strlit("if");
    reveal_strlit("then");
    match c {
        ComM::If(b, c0, c1) => {
            let bs = bexp_text(*b, st).0;
            let s1 = bexp_text(*b, st).1;
            let t0 = stmt_text(*c0, s1).0;
            let s2 = stmt_text(*c0, s1).1;
            let t1 = stmt_text(*c1, s2).0;
            lemma_if_text_eq(*b, *c0, *c1, st);
            lemma_if_text_at(s, t, bs, t0, t1);
            let eb = t + 3 + bs.len();
            let e0 = t + 9 + bs.len() + t0.len();
            lemma_letter_quiet(s, t, "if"@);
            lemma_cond_head(s, t, 2, *b, st, "then"@);
            lemma_bexp_text_ok(*b, st);
            lemma_stmt_text_ok(*c0, s1);
            lemma_stmt_start(s, eb + 6, *c0, s1);
            lemma_trivia_space(s, eb + 5);
            lemma_letter_quiet(s, e0 + 1, "else"@);
            assert(stmt_end_ok(s, e0));
            lemma_stmt_printed(s, eb + 5, eb + 6, *c0, s1);
            lemma_stmt_start(s, e0 + 6, *c1, s2);
            lemma_trivia_space(s, e0 + 5);
            lemma_stmt_printed(s, e0 + 5, e0 + 6, *c1, s2);
            lemma_if_final(
                s,
                p,
                t,
                eb,
                e0,
                t + stmt_text(c, st).0.len(),
                bexp_ast(*b, st),
                stmt_ast(*c0, s1),
                stmt_ast(*c1, s2),
            );
        },
        _ => {},
    }
}

#[verifier::spinoff_prover]
#[verifier::rlimit(80)]
proof fn lemma_stmt_while(s: Seq<u8>, p: int, t: int, c: ComM, st: PState)
    requires
        names_ok(st),
        c is While,
        0 <= p <= t,
        trivia(s, p) == t,
        text_at(s, t, stmt_text(c, st).0),
        stmt_end_ok(s, t + stmt_text(c, st).0.len()),
    ensures
        stmt_reads(s, p, t + stmt_text(c, st).0.len(), stmt_ast(c, st)),
    decreases c, 0int,
{
    lemma_keywords_plain();
    reveal_strlit("while");
    reveal_strlit("do");
    match c {
        ComM::While(b, body) => {
            let bs = bexp_text(*b, st).0;
            let s1 = bexp_text(*b, st).1;
            let tb = stmt_text(*body, s1).0;
            lemma_while_text_eq(*b, *body, st);
            lemma_while_text_at(s, t, bs, tb);
            let eb = t + 6 + bs.len();
            lemma_letter_quiet(s, t, "while"@);
            lemma_cond_head(s, t, 5, *b, st, "do"@);
            lemma_bexp_text_ok(*b, st);
            lemma_stmt_start(s, eb + 4, *body, s1);
            lemma_trivia_space(s, eb + 3);
            lemma_stmt_printed(s, eb + 3, eb + 4, *body, s1);
            lemma_while_final(
                s,
                p,
                t,
                eb,
                t + stmt_text(c, st).0.len(),
                bexp_ast(*b, st),
                stmt_ast(*body, s1),
            );
        },
        _ => {},
    }
}

/// The separator `;` of a printed sequence, after its first statement
/// was read up to `r0`.
#[verifier::spinoff_prover]
proof fn lemma_semi_at(s: Seq<u8>, r0: int, e0: int)
    requires
        0 <= e0,
        e0 + 2 < s.len(),
        s[e0] == 32,
        s[e0 + 1] == 59,
        r0 == e0 || r0 == e0 + 1,
    ensures
        eat_symbol_spec(s, r0, ";"@) == (true, e0 + 2),
        quiet(s, e0 + 1),
        follow_ok(s, e0),
        next_tok(s, e0) == e0 + 1,
{
    reveal_strlit(";");
    reveal_strlit("//");
    assert(quiet(s, e0 + 1)) by {
        if starts_at(s, e0 + 1, ascii("//"@)) {
            assert(s.subrange(e0 + 1, e0 + 3)[0] == ascii("//"@)[0]);
        }
    }
    assert(follow_ok(s, e0));
    lemma_trivia_reach(s, r0, e0);
    lemma_text_at_char(s, e0 + 1, ";"@);
    lemma_eat_symbol_here(s, e0 + 1, ";"@);
    lemma_trivia_quiet(s, e0 + 1);
}

/// `com` at `u` reads two printed statements separated by ` ; `, the second
/// ending at `e1`, where no further `;` follows.
#[verifier::spinoff_prover]
#[verifier::rlimit(80)]
proof fn lemma_com_two(s: Seq<u8>, u: int, e0: int, e1: int, v0: ComM, v1: ComM)
    requires
        0 <= u < e0,
        e0 + 2 < e1 <= s.len(),
        s[e0] == 32,
        s[e0 + 1] == 59,
        stmt_reads(s, u, e0, v0),
        stmt_reads(s, e0 + 2, e1, v1),
        follow_ok(s, e1),
        next_tok(s, e1) < s.len() ==> s[next_tok(s, e1)] != 59,
    ensures
        com_spec(s, u) == Ok::<(ComM, int), crate::imp::parser::PErr>(
            (ComM::Sequence(Box::new(v0), Box::new(v1)), next_tok(s, e1)),
        ),
        trivia(s, next_tok(s, e1)) == next_tok(s, e1),
{
    reveal(stmt_reads);
    let c0v = stmt_spec(s, u)->Ok_0.0;
    let r0 = stmt_spec(s, u)->Ok_0.1;
    lemma_semi_at(s, r0, e0);
    let c1v = stmt_spec(s, e0 + 2)->Ok_0.0;
    let r1 = stmt_spec(s, e0 + 2)->Ok_0.1;
    lemma_trivia_reach(s, r1, e1);
    let n = next_tok(s, e1);
    let sq = ComM::Sequence(Box::new(c0v), Box::new(c1v));
    lemma_trivia_follow(s, e1);
    lemma_com_tail_stop(s, sq, n);
    lemma_trivia_quiet(s, n);
    reveal_strlit(";");
    lemma_not_there(s, n, ";"@);
    assert(com_tail_spec(s, sq, r1) == com_tail_spec(s, sq, n));
    lemma_com_seq_core(s, u, c0v, r0, e0 + 2, c1v, r1, (sq, n));
}

#[verifier::spinoff_prover]
#[verifier::rlimit(80)]
proof fn lemma_stmt_seq(s: Seq<u8>, p: int, t: int, c: ComM, st: PState)
    requires
        names_ok(st),
        c is Sequence,
        0 <= p <= t,
        trivia(s, p) == t,
        text_at(s, t, stmt_text(c, st).0),
        stmt_end_ok(s, t + stmt_text(c, st).0.len()),
    ensures
        stmt_reads(s, p, t + stmt_text(c, st).0.len(), stmt_ast(c, st)),
    decreases c, 0int,
{
    reveal_strlit(")");
    reveal_strlit("//");
    match c {
        ComM::Sequence(c0, c1) => {
            let t0 = stmt_text(*c0, st).0;
            let s1 = stmt_text(*c0, st).1;
            let t1 = stmt_text(*c1, s1).0;
            lemma_seq_text_eq(*c0, *c1, st);
            lemma_seq_text_at(s, t, t0, t1);
            let e0 = t + 1 + t0.len();
            let e1 = t + 4 + t0.len() + t1.len();
            assert(quiet(s, t)) by {
                if starts_at(s, t, ascii("//"@)) {
                    assert(s.subrange(t, t + 2)[0] == ascii("//"@)[0]);
                }
            }
            lemma_stmt_start(s, t + 1, *c0, st);
            lemma_trivia_quiet(s, t + 1);
            lemma_semi_at(s, e0, e0);
            assert(stmt_end_ok(s, e0));
            lemma_stmt_printed(s, t + 1, t + 1, *c0, st);
            lemma_stmt_text_ok(*c0, st);
            lemma_stmt_start(s, e0 + 3, *c1, s1);
            lemma_trivia_space(s, e0 + 2);
            lemma_close_follow(s, e1);
            lemma_stmt_printed(s, e0 + 2, e0 + 3, *c1, s1);
            lemma_com_two(s, t + 1, e0, e1, stmt_ast(*c0, st), stmt_ast(*c1, s1));
            lemma_block_final(
                s,
                p,
                t,
                e1,
                ComM::Sequence(Box::new(stmt_ast(*c0, st)), Box::new(stmt_ast(*c1, s1))),
            );
        },
        _ => {},
    }
}

/// A parenthesised block whose command reaches the closing parenthesis at
/// `e1` is read.
#[verifier::rlimit(80)]
proof fn lemma_block_final(s: Seq<u8>, p: int, t: int, e1: int, v: ComM)
    requires
        0 <= p <= t,
        t + 1 < e1 < s.len(),
        trivia(s, p) == t,
        quiet(s, t),
        s[t] == 40,
        s[e1] == 41,
        com_spec(s, t + 1) == Ok::<(ComM, int), crate::imp::parser::PErr>((v, e1)),
    ensures
        stmt_reads(s, p, e1 + 1, v),
{
    reveal_strlit(")");
    reveal(stmt_reads);
    lemma_stmt_block_dispatch(s, p, t);
    lemma_close_follow(s, e1);
    lemma_text_at_char(s, e1, ")"@);
    lemma_eat_symbol_here(s, e1, ")"@);
    lemma_trivia_quiet(s, e1);
    lemma_block_core(s, p, t + 1, v, e1, e1 + 1);
}

proof fn lemma_ascii_cat(a: Seq<char>, b: Seq<char>)
    requires
        vstd::utf8::is_ascii_chars(a),
        vstd::utf8::is_ascii_chars(b),
    ensures
        vstd::utf8::is_ascii_chars(a + b),
{
    assert forall|i: int| 0 <= i < (a + b).len() implies '\0' <= #[trigger] (a + b)[i] <= '\u{7f}' by {
        if i < a.len() {
            assert((a + b)[i] == a[i]);
        } else {
            assert((a + b)[i] == b[i - a.len()]);
        }
    }
}

#[verifier::spinoff_prover]
proof fn lemma_lits_ascii()
    ensures
        vstd::utf8::is_ascii_chars("("@),
        vstd::utf8::is_ascii_chars(")"@),
        vstd::utf8::is_ascii_chars(" "@),
        vstd::utf8::is_ascii_chars("+"@),
        vstd::utf8::is_ascii_chars("-"@),
        vstd::utf8::is_ascii_chars("*"@),
        vstd::utf8::is_ascii_chars("/"@),
        vstd::utf8::is_ascii_chars("=="@),
        vstd::utf8::is_ascii_chars("<="@),
        vstd::utf8::is_ascii_chars("(not "@),
        vstd::utf8::is_ascii_chars("true"@),
        vstd::utf8::is_ascii_chars("false"@),
        vstd::utf8::is_ascii_chars("and"@),
        vstd::utf8::is_ascii_chars("or"@),
        vstd::utf8::is_ascii_chars("skip"@),
        vstd::utf8::is_ascii_chars(" := "@),
        vstd::utf8::is_ascii_chars("if "@),
        vstd::utf8::is_ascii_chars(" then "@),
        vstd::utf8::is_ascii_chars(" else "@),
        vstd::utf8::is_ascii_chars("while "@),
        vstd::utf8::is_ascii_chars(" do "@),
        vstd::utf8::is_ascii_chars(" ; "@),
{
    reveal_strlit("(");
    reveal_strlit(")");
    reveal_strlit(" ");
    reveal_strlit("+");
    reveal_strlit("-");
    reveal_strlit("*");
    reveal_strlit("/");
    reveal_strlit("==");
    reveal_strlit("<=");
    reveal_strlit("(not ");
    reveal_strlit("true");
    reveal_strlit("false");
    reveal_strlit("and");
    reveal_strlit("or");
    reveal_strlit("skip");
    reveal_strlit(" := ");
    reveal_strlit("if ");
    reveal_strlit(" then ");
    reveal_strlit(" else ");
    reveal_strlit("while ");
    reveal_strlit(" do ");
    reveal_strlit(" ; ");
}

proof fn lemma_bin_ascii(l: Seq<char>, op: Seq<char>, r: Seq<char>)
    requires
        vstd::utf8::is_ascii_chars(l),
        vstd::utf8::is_ascii_chars(op),
        vstd::utf8::is_ascii_chars(r),
    ensures
        vstd::utf8::is_ascii_chars(bin_text(l, op, r)),
{
    reveal(bin_text);
    lemma_lits_ascii();
    lemma_ascii_cat("("@, l);
    lemma_ascii_cat("("@ + l, " "@);
    lemma_ascii_cat("("@ + l + " "@, op);
    lemma_ascii_cat("("@ + l + " "@ + op, " "@);
    lemma_ascii_cat("("@ + l + " "@ + op + " "@, r);
    lemma_ascii_cat("("@ + l + " "@ + op + " "@ + r, ")"@);
}

#[verifier::spinoff_prover]
proof fn lemma_aexp_ascii(a: AexpM, st: PState)
    requires
        names_ok(st),
    ensures
        vstd::utf8::is_ascii_chars(aexp_text(a, st).0),
    decreases a,
{
    lemma_aexp_text_ok(a, st);
    lemma_lits_ascii();
    match a {
        AexpM::Num(n) => {
            let m: nat = if n < 0 {
                (-n) as nat
            } else {
                n as nat
            };
            lemma_dec_nat(m);
            assert(vstd::utf8::is_ascii_chars(dec_nat(m))) by {
                assert forall|i: int| 0 <= i < dec_nat(m).len() implies '\0' <= #[trigger] dec_nat(m)[i]
                    <= '\u{7f}' by {
                    assert(is_digit(dec_nat(m)[i]));
                }
            }
            if n < 0 {
                assert(vstd::utf8::is_ascii_chars(seq!['-']));
                lemma_ascii_cat(seq!['-'], dec_nat(m));
            }
        },
        AexpM::Var(w) => {
            lemma_ident_ascii(aexp_text(a, st).0);
        },
        AexpM::Add(l, r) | AexpM::Sub(l, r) | AexpM::Mul(l, r) | AexpM::Div(l, r) => {
            lemma_bin_parts(a, st);
            lemma_aexp_ascii(*l, st);
            lemma_aexp_text_ok(*l, st);
            lemma_aexp_ascii(*r, aexp_text(*l, st).1);
            lemma_bin_ascii(aexp_text(*l, st).0, aop(a), aexp_text(*r, aexp_text(*l, st).1).0);
        },
    }
}

#[verifier::spinoff_prover]
proof fn lemma_bexp_ascii(b: BexpM, st: PState)
    requires
        names_ok(st),
    ensures
        vstd::utf8::is_ascii_chars(bexp_text(b, st).0),
    decreases b,
{
    lemma_bexp_text_ok(b, st);
    lemma_lits_ascii();
    match b {
        BexpM::True => {},
        BexpM::False => {},
        BexpM::Eq(l, r) | BexpM::Le(l, r) => {
            lemma_cmp_text_eq(*l, *r, st);
            lemma_aexp_ascii(*l, st);
            lemma_aexp_text_ok(*l, st);
            lemma_aexp_ascii(*r, aexp_text(*l, st).1);
            lemma_bin_ascii(aexp_text(*l, st).0, "=="@, aexp_text(*r, aexp_text(*l, st).1).0);
            lemma_bin_ascii(aexp_text(*l, st).0, "<="@, aexp_text(*r, aexp_text(*l, st).1).0);
        },
        BexpM::Not(x) => {
            lemma_not_text_eq(*x, st);
            lemma_bexp_ascii(*x, st);
            lemma_ascii_cat("(not "@, bexp_text(*x, st).0);
            lemma_ascii_cat("(not "@ + bexp_text(*x, st).0, ")"@);
        },
        BexpM::And(l, r) | BexpM::Or(l, r) => {
            lemma_andor_text_eq(*l, *r, st);
            lemma_bexp_ascii(*l, st);
            lemma_bexp_text_ok(*l, st);
            lemma_bexp_ascii(*r, bexp_text(*l, st).1);
            lemma_bin_ascii(bexp_text(*l, st).0, "and"@, bexp_text(*r, bexp_text(*l, st).1).0);
            lemma_bin_ascii(bexp_text(*l, st).0, "or"@, bexp_text(*r, bexp_text(*l, st).1).0);
        },
    }
}

#[verifier::spinoff_prover]
proof fn lemma_stmt_ascii(c: ComM, st: PState)
    requires
        names_ok(st),
    ensures
        vstd::utf8::is_ascii_chars(stmt_text(c, st).0),
    decreases c,
{
    lemma_lits_ascii();
    match c {
        ComM::Skip => {
            reveal(stmt_text);
        },
        ComM::Assign(x, a) => {
            reveal(stmt_text);
            lemma_name_spec_ok(x, st);
            lemma_ident_ascii(name_spec(x, st).0);
            lemma_aexp_ascii(*a, name_spec(x, st).1);
            lemma_ascii_cat(name_spec(x, st).0, " := "@);
            lemma_ascii_cat(name_spec(x, st).0 + " := "@, aexp_text(*a, name_spec(x, st).1).0);
        },
        ComM::If(b, c0, c1) => {
            let bs = bexp_text(*b, st).0;
            let s1 = bexp_text(*b, st).1;
            let t0 = stmt_text(*c0, s1).0;
            let s2 = stmt_text(*c0, s1).1;
            let t1 = stmt_text(*c1, s2).0;
            lemma_if_text_eq(*b, *c0, *c1, st);
            lemma_bexp_ascii(*b, st);
            lemma_bexp_text_ok(*b, st);
            lemma_stmt_ascii(*c0, s1);
            lemma_stmt_text_ok(*c0, s1);
            lemma_stmt_ascii(*c1, s2);
            lemma_ascii_cat("if "@, bs);
            lemma_ascii_cat("if "@ + bs, " then "@);
            lemma_ascii_cat("if "@ + bs + " then "@, t0);
            lemma_ascii_cat("if "@ + bs + " then "@ + t0, " else "@);
            lemma_ascii_cat("if "@ + bs + " then "@ + t0 + " else "@, t1);
        },
        ComM::While(b, body) => {
            let bs = bexp_text(*b, st).0;
            let s1 = bexp_text(*b, st).1;
            let tb = stmt_text(*body, s1).0;
            lemma_while_text_eq(*b, *body, st);
            lemma_bexp_ascii(*b, st);
            lemma_bexp_text_ok(*b, st);
            lemma_stmt_ascii(*body, s1);
            lemma_ascii_cat("while "@, bs);
            lemma_ascii_cat("while "@ + bs, " do "@);
            lemma_ascii_cat("while "@ + bs + " do "@, tb);
        },
        ComM::Sequence(c0, c1) => {
            let t0 = stmt_text(*c0, st).0;
            let s1 = stmt_text(*c0, st).1;
            let t1 = stmt_text(*c1, s1).0;
            lemma_seq_text_eq(*c0, *c1, st);
            lemma_stmt_ascii(*c0, st);
            lemma_stmt_text_ok(*c0, st);
            lemma_stmt_ascii(*c1, s1);
            lemma_ascii_cat("("@, t0);
            lemma_ascii_cat("("@ + t0, " ; "@);
            lemma_ascii_cat("("@ + t0 + " ; "@, t1);
            lemma_ascii_cat("("@ + t0 + " ; "@ + t1, ")"@);
        },
    }
}

/// The pieces of a top-level `c0 ; c1` standing at `0`.
#[verifier::spinoff_prover]
proof fn lemma_top_seq_text_at(s: Seq<u8>, t0: Seq<char>, t1: Seq<char>)
    requires
        text_at(s, 0, t0 + " ; "@ + t1),
    ensures
        (t0 + " ; "@ + t1).len() == t0.len() + t1.len() + 3,
        t0.len() + t1.len() + 3 <= s.len(),
        text_at(s, 0, t0),
        s[t0.len() as int] == 32,
        s[t0.len() as int + 1] == 59,
        s[t0.len() as int + 2] == 32,
        text_at(s, t0.len() as int + 3, t1),
{
    reveal_strlit(" ; ");
    reveal_strlit(" ");
    reveal_strlit(";");
    let sp = " "@;
    let x = t0 + sp + ";"@ + sp + t1;
    assert(t0 + " ; "@ + t1 =~= x);
    lemma_text_at_split(s, 0, t0 + sp + ";"@ + sp, t1);
    lemma_text_at_split(s, 0, t0 + sp + ";"@, sp);
    lemma_text_at_split(s, 0, t0 + sp, ";"@);
    lemma_text_at_split(s, 0, t0, sp);
    lemma_text_at_index(s, t0.len() as int, sp, 0);
    lemma_text_at_index(s, t0.len() as int + 1, ";"@, 0);
    lemma_text_at_index(s, t0.len() as int + 2, sp, 0);
    lemma_text_at_bounds(s, 0, x);
}

/// The end of the input is a quiet place where printed phrases may end.
proof fn lemma_input_end(s: Seq<u8>)
    ensures
        quiet(s, s.len() as int),
        stmt_end_ok(s, s.len() as int),
        next_tok(s, s.len() as int) == s.len(),
        trivia(s, s.len() as int) == s.len(),
{
    lemma_trivia_quiet(s, s.len() as int);
}

/// A program whose only command is one printed statement parses.
proof fn lemma_program_single(s: Seq<u8>, v: ComM)
    requires
        stmt_reads(s, 0, s.len() as int, v),
    ensures
        program_spec(s) == Ok::<ComM, crate::imp::parser::PErr>(v),
{
    reveal(stmt_reads);
    lemma_input_end(s);
    let cv = stmt_spec(s, 0)->Ok_0.0;
    let n = s.len() as int;
    lemma_com_tail_stop(s, cv, n);
    lemma_com_single_core(s, 0, cv, n, (cv, n));
}

/// The text printed for a whole program is ASCII.
#[verifier::spinoff_prover]
proof fn lemma_com_ascii(c: ComM, st: PState)
    requires
        names_ok(st),
    ensures
        vstd::utf8::is_ascii_chars(com_text(c, st).0),
{
    lemma_lits_ascii();
    match c {
        ComM::Sequence(c0, c1) => {
            let t0 = stmt_text(*c0, st).0;
            let s1 = stmt_text(*c0, st).1;
            lemma_stmt_ascii(*c0, st);
            lemma_stmt_text_ok(*c0, st);
            lemma_stmt_ascii(*c1, s1);
            lemma_ascii_cat(t0, " ; "@);
            lemma_ascii_cat(t0 + " ; "@, stmt_text(*c1, s1).0);
        },
        _ => lemma_stmt_ascii(c, st),
    }
}

/// The remembered names of a printer for a command are valid identifiers.
proof fn lemma_identity_names_ok(ns: Seq<Seq<char>>)
    ensures
        names_ok(identity_names(ns)),
    decreases ns.len(),
{
    if ns.len() > 0 {
        lemma_identity_names_ok(ns.drop_first());
        let t = identity_names(ns.drop_first());
        if valid_ident_spec(ns[0]) {
            let u = seq![(ns[0], ns[0])] + t;
            assert forall|i: int| 0 <= i < u.len() implies valid_ident_spec(#[trigger] u[i].1) by {
                if i > 0 {
                    assert(u[i] == t[i - 1]);
                }
            }
        }
    }
}

proof fn lemma_start_state_ok(c: ComM)
    ensures
        names_ok(start_state(c)),
{
    lemma_identity_names_ok(com_names(c));
}

/// Every command, printed as source by `com_to_source`, is accepted by
/// `parse_imp_source`, and it reads back as the command with each variable
/// name replaced by the name the printer gave it.
#[verifier::spinoff_prover]
pub proof fn lemma_printed_source_parses(c: ComM)
    ensures
        program_spec(vstd::utf8::encode_utf8(source_text(c))) is Ok,
        program_spec(vstd::utf8::encode_utf8(source_text(c))) == Ok::<
            ComM,
            crate::imp::parser::PErr,
        >(stmt_ast(c, start_state(c))),
{
    let st0: PState = start_state(c);
    lemma_start_state_ok(c);
    let x = source_text(c);
    lemma_com_ascii(c, st0);
    vstd::utf8::is_ascii_chars_encode_utf8(x);
    let s = vstd::utf8::encode_utf8(x);
    assert(s.subrange(0, x.len() as int) =~= ascii(x));
    assert(text_at(s, 0, x)) by {
        reveal(text_at);
    }
    lemma_input_end(s);
    match c {
        ComM::Sequence(c0, c1) => {
            let t0 = stmt_text(*c0, st0).0;
            let s1 = stmt_text(*c0, st0).1;
            let t1 = stmt_text(*c1, s1).0;
            lemma_top_seq_text_at(s, t0, t1);
            let e0 = t0.len() as int;
            lemma_stmt_text_ok(*c0, st0);
            lemma_stmt_text_ok(*c1, s1);
            lemma_stmt_start(s, 0, *c0, st0);
            lemma_trivia_quiet(s, 0);
            lemma_semi_at(s, e0, e0);
            assert(stmt_end_ok(s, e0));
            lemma_stmt_printed(s, 0, 0, *c0, st0);
            lemma_stmt_start(s, e0 + 3, *c1, s1);
            lemma_trivia_space(s, e0 + 2);
            lemma_stmt_printed(s, e0 + 2, e0 + 3, *c1, s1);
            lemma_com_two(s, 0, e0, s.len() as int, stmt_ast(*c0, st0), stmt_ast(*c1, s1));
            lemma_input_end(s);
        },
        _ => {
            lemma_stmt_start(s, 0, c, st0);
            lemma_trivia_quiet(s, 0);
            lemma_stmt_printed(s, 0, 0, c, st0);
            lemma_program_single(s, stmt_ast(c, st0));
        },
    }
}

/// Every name of `ns` is remembered as printed as itself.
pub open spec fn self_named(st: PState, ns: Seq<Seq<char>>) -> bool {
    forall|i: int| 0 <= i < ns.len() ==> names_lookup(st, #[trigger] ns[i]) == Some(ns[i])
}

proof fn lemma_self_named_split(st: PState, a: Seq<Seq<char>>, b: Seq<Seq<char>>)
    requires
        self_named(st, a + b),
    ensures
        self_named(st, a),
        self_named(st, b),
{
    assert forall|i: int| 0 <= i < a.len() implies names_lookup(st, #[trigger] a[i]) == Some(
        a[i],
    ) by {
        assert((a + b)[i] == a[i]);
    }
    assert forall|i: int| 0 <= i < b.len() implies names_lookup(st, #[trigger] b[i]) == Some(
        b[i],
    ) by {
        assert((a + b)[i + a.len()] == b[i]);
    }
}

proof fn lemma_name_self(x: Seq<char>, st: PState)
    requires
        names_lookup(st, x) == Some(x),
    ensures
        name_spec(x, st) == (x, st),
{
    reveal(name_spec);
}

/// Where each name is printed as itself, an arithmetic expression reads
/// back as itself and its printing leaves the state as it was.
proof fn lemma_aexp_self(a: AexpM, st: PState)
    requires
        self_named(st, aexp_names(a)),
    ensures
        aexp_ast(a, st) == a,
        aexp_text(a, st).1 == st,
    decreases a,
{
    reveal(aexp_text);
    match a {
        AexpM::Num(_) => {},
        AexpM::Var(x) => {
            assert(aexp_names(a)[0] == x);
            lemma_name_self(x, st);
        },
        AexpM::Add(l, r) | AexpM::Sub(l, r) | AexpM::Mul(l, r) | AexpM::Div(l, r) => {
            lemma_self_named_split(st, aexp_names(*l), aexp_names(*r));
            lemma_aexp_self(*l, st);
            lemma_aexp_self(*r, st);
        },
    }
}

/// The same for a boolean expression.
proof fn lemma_bexp_self(b: BexpM, st: PState)
    requires
        self_named(st, bexp_names(b)),
    ensures
        bexp_ast(b, st) == b,
        bexp_text(b, st).1 == st,
    decreases b,
{
    reveal(bexp_text);
    match b {
        BexpM::True | BexpM::False => {},
        BexpM::Eq(l, r) | BexpM::Le(l, r) => {
            lemma_self_named_split(st, aexp_names(*l), aexp_names(*r));
            lemma_aexp_self(*l, st);
            lemma_aexp_self(*r, st);
        },
        BexpM::Not(x) => {
            lemma_bexp_self(*x, st);
        },
        BexpM::And(l, r) | BexpM::Or(l, r) => {
            lemma_self_named_split(st, bexp_names(*l), bexp_names(*r));
            lemma_bexp_self(*l, st);
            lemma_bexp_self(*r, st);
        },
    }
}

/// The same for a command.
proof fn lemma_stmt_self(c: ComM, st: PState)
    requires
        self_named(st, com_names(c)),
    ensures
        stmt_ast(c, st) == c,
        stmt_text(c, st).1 == st,
    decreases c,
{
    reveal(stmt_text);
    match c {
        ComM::Skip => {},
        ComM::Assign(x, a) => {
            lemma_self_named_split(st, seq![x], aexp_names(*a));
            assert(seq![x][0] == x);
            lemma_name_self(x, st);
            lemma_aexp_self(*a, st);
        },
        ComM::If(b, c0, c1) => {
            lemma_self_named_split(st, bexp_names(*b) + com_names(*c0), com_names(*c1));
            lemma_self_named_split(st, bexp_names(*b), com_names(*c0));
            lemma_bexp_self(*b, st);
            lemma_stmt_self(*c0, st);
            lemma_stmt_self(*c1, st);
        },
        ComM::While(b, body) => {
            lemma_self_named_split(st, bexp_names(*b), com_names(*body));
            lemma_bexp_self(*b, st);
            lemma_stmt_self(*body, st);
        },
        ComM::Sequence(c0, c1) => {
            lemma_self_named_split(st, com_names(*c0), com_names(*c1));
            lemma_stmt_self(*c0, st);
            lemma_stmt_self(*c1, st);
        },
    }
}

/// Law: a command whose variable names are all valid IMP identifiers,
/// printed by `com_to_source` and read back by `parse_imp_source`, is the
/// same command: its structure, its names and every literal come back.
pub proof fn lemma_printed_source_round_trip(c: ComM)
    requires
        forall|i: int|
            0 <= i < com_names(c).len() ==> valid_ident_spec(#[trigger] com_names(c)[i]),
    ensures
        program_spec(vstd::utf8::encode_utf8(source_text(c))) == Ok::<
            ComM,
            crate::imp::parser::PErr,
        >(c),
{
    lemma_printed_source_parses(c);
    lemma_start_inv(c);
    assert(kept(start_state(c), com_names(c)));
    assert(self_named(start_state(c), com_names(c)));
    lemma_stmt_self(c, start_state(c));
}

} // verus!
