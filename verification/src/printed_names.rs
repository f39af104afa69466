//! The printer gives distinct names of a command distinct identifiers, so
//! that the printed program reads and writes the same variables as the
//! command it was printed from.

use vstd::prelude::*;
use crate::imp::ast::{AexpM, BexpM, ComM};
use crate::imp_render::{
    PState, aexp_text, bexp_text, stmt_text, com_text, name_spec, names_lookup, valid_ident_spec,
    fresh_name, printed_as, first_free, aexp_names, bexp_names, com_names, identity_names,
    start_state,
};
use crate::text::{dec_nat, lemma_dec_nat};

verus! {

/// Names remembered under different raw names are printed differently.
pub open spec fn names_inj(st: PState) -> bool {
    forall|i: int, j: int|
        #![trigger st[i], st[j]]
        0 <= i < st.len() && 0 <= j < st.len() && st[i].0 != st[j].0 ==> st[i].1 != st[j].1
}

/// `b` remembers all that `a` remembers, in the same places.
pub open spec fn extends(a: PState, b: PState) -> bool {
    a.len() <= b.len() && forall|i: int| 0 <= i < a.len() ==> #[trigger] b[i] == a[i]
}

/// Each valid identifier among `ns` is remembered as printed as itself.
pub open spec fn kept(st: PState, ns: Seq<Seq<char>>) -> bool {
    forall|i: int|
        0 <= i < ns.len() && valid_ident_spec(#[trigger] ns[i]) ==> names_lookup(st, ns[i]) == Some(
            ns[i],
        )
}

/// Each of `ns` is remembered.
pub open spec fn known(st: PState, ns: Seq<Seq<char>>) -> bool {
    forall|i: int| 0 <= i < ns.len() ==> names_lookup(st, #[trigger] ns[i]) is Some
}

proof fn lemma_lookup_entry(t: PState, w: Seq<char>)
    ensures
        names_lookup(t, w) matches Some(v) ==> exists|i: int| 0 <= i < t.len() && #[trigger] t[i] == (w, v),
        (exists|i: int| 0 <= i < t.len() && #[trigger] t[i].0 == w) ==> names_lookup(t, w) is Some,
    decreases t.len(),
{
    if t.len() > 0 {
        lemma_lookup_entry(t.drop_first(), w);
        if t[0].0 != w {
            if names_lookup(t, w) is Some {
                let v = names_lookup(t, w)->Some_0;
                let i = choose|i: int| 0 <= i < t.drop_first().len() && #[trigger] t.drop_first()[i] == (w, v);
                assert(t[i + 1] == (w, v));
            }
            if exists|i: int| 0 <= i < t.len() && #[trigger] t[i].0 == w {
                let i = choose|i: int| 0 <= i < t.len() && #[trigger] t[i].0 == w;
                assert(t.drop_first()[i - 1].0 == w);
            }
        } else {
            assert(t[0] == (w, t[0].1));
        }
    }
}

proof fn lemma_lookup_extends(a: PState, b: PState, w: Seq<char>)
    requires
        extends(a, b),
        names_lookup(a, w) is Some,
    ensures
        names_lookup(b, w) == names_lookup(a, w),
    decreases a.len(),
{
    assert(b[0] == a[0]);
    if a[0].0 != w {
        assert forall|i: int| 0 <= i < a.drop_first().len() implies #[trigger] b.drop_first()[i]
            == a.drop_first()[i] by {
            assert(b[i + 1] == a[i + 1]);
        }
        lemma_lookup_extends(a.drop_first(), b.drop_first(), w);
    }
}

proof fn lemma_kept_extends(a: PState, b: PState, ns: Seq<Seq<char>>)
    requires
        extends(a, b),
        kept(a, ns),
    ensures
        kept(b, ns),
{
    assert forall|i: int| 0 <= i < ns.len() && valid_ident_spec(#[trigger] ns[i]) implies names_lookup(
        b,
        ns[i],
    ) == Some(ns[i]) by {
        lemma_lookup_extends(a, b, ns[i]);
    }
}

proof fn lemma_known_extends(a: PState, b: PState, ns: Seq<Seq<char>>)
    requires
        extends(a, b),
        known(a, ns),
    ensures
        known(b, ns),
{
    assert forall|i: int| 0 <= i < ns.len() implies names_lookup(b, #[trigger] ns[i]) is Some by {
        lemma_lookup_extends(a, b, ns[i]);
    }
}

proof fn lemma_kept_split(st: PState, a: Seq<Seq<char>>, b: Seq<Seq<char>>)
    requires
        kept(st, a + b),
    ensures
        kept(st, a),
        kept(st, b),
{
    assert forall|i: int| 0 <= i < a.len() && valid_ident_spec(#[trigger] a[i]) implies names_lookup(
        st,
        a[i],
    ) == Some(a[i]) by {
        assert((a + b)[i] == a[i]);
    }
    assert forall|i: int| 0 <= i < b.len() && valid_ident_spec(#[trigger] b[i]) implies names_lookup(
        st,
        b[i],
    ) == Some(b[i]) by {
        assert((a + b)[a.len() + i] == b[i]);
    }
}

proof fn lemma_known_join(st: PState, a: Seq<Seq<char>>, b: Seq<Seq<char>>)
    requires
        known(st, a),
        known(st, b),
    ensures
        known(st, a + b),
{
    assert forall|i: int| 0 <= i < (a + b).len() implies names_lookup(st, #[trigger] (a + b)[i]) is Some by {
        if i < a.len() {
            assert((a + b)[i] == a[i]);
        } else {
            assert((a + b)[i] == b[i - a.len()]);
        }
    }
}

/// Different numbers give different invented names.
proof fn lemma_fresh_inj(j: nat, k: nat)
    requires
        fresh_name(j) == fresh_name(k),
    ensures
        j == k,
{
    reveal_strlit("v");
    lemma_dec_nat(j);
    lemma_dec_nat(k);
    assert(fresh_name(j).drop_first() =~= dec_nat(j));
    assert(fresh_name(k).drop_first() =~= dec_nat(k));
}

/// Among `fuel + 1` invented names from `k` on, one is printed by no
/// remembered name when at most `fuel` of them are (those listed in `u`).
proof fn lemma_first_free(names: PState, k: nat, fuel: nat, u: Seq<Seq<char>>)
    requires
        u.len() <= fuel,
        forall|j: nat| j >= k && #[trigger] printed_as(names, fresh_name(j)) ==> u.contains(fresh_name(j)),
    ensures
        !printed_as(names, fresh_name(first_free(names, k, fuel))),
    decreases fuel,
{
    if printed_as(names, fresh_name(k)) {
        assert(u.contains(fresh_name(k)));
        let idx = u.index_of(fresh_name(k));
        let u2 = u.remove(idx);
        assert forall|j: nat| j >= k + 1 && #[trigger] printed_as(names, fresh_name(j)) implies u2.contains(
            fresh_name(j),
        ) by {
            assert(u.contains(fresh_name(j)));
            let m = u.index_of(fresh_name(j));
            if m == idx {
                lemma_fresh_inj(j, k);
            }
            if m < idx {
                assert(u2[m] == u[m]);
            } else {
                assert(u2[m - 1] == u[m]);
            }
        }
        lemma_first_free(names, k + 1, (fuel - 1) as nat, u2);
    }
}

/// The invented name the printer picks is printed by no remembered name.
proof fn lemma_invented_unprinted(names: PState)
    ensures
        !printed_as(names, fresh_name(first_free(names, 0, names.len()))),
{
    let u = Seq::new(names.len(), |i: int| names[i].1);
    assert forall|j: nat| j >= 0 && #[trigger] printed_as(names, fresh_name(j)) implies u.contains(
        fresh_name(j),
    ) by {
        let i = choose|i: int| 0 <= i < names.len() && #[trigger] names[i].1 == fresh_name(j);
        assert(u[i] == fresh_name(j));
    }
    lemma_first_free(names, 0, names.len(), u);
}

/// Printing one name keeps the memory injective and remembers the name.
proof fn lemma_name_inv(raw: Seq<char>, st: PState)
    requires
        names_inj(st),
        valid_ident_spec(raw) ==> names_lookup(st, raw) == Some(raw),
    ensures
        names_inj(name_spec(raw, st).1),
        extends(st, name_spec(raw, st).1),
        names_lookup(name_spec(raw, st).1, raw) is Some,
{
    reveal(name_spec);
    if names_lookup(st, raw) is None {
        let c = fresh_name(first_free(st, 0, st.len()));
        lemma_invented_unprinted(st);
        let t = st.push((raw, c));
        assert forall|i: int, j: int|
            #![trigger t[i], t[j]]
            0 <= i < t.len() && 0 <= j < t.len() && t[i].0 != t[j].0 implies t[i].1 != t[j].1 by {
            if i < st.len() && j < st.len() {
                assert(t[i] == st[i] && t[j] == st[j]);
            } else if i < st.len() {
                assert(t[i] == st[i]);
                assert(st[i].1 != c);
            } else if j < st.len() {
                assert(t[j] == st[j]);
                assert(st[j].1 != c);
            }
        }
        assert(t[st.len() as int].0 == raw);
        lemma_lookup_entry(t, raw);
    }
}

proof fn lemma_extends_trans(a: PState, b: PState, c: PState)
    requires
        extends(a, b),
        extends(b, c),
    ensures
        extends(a, c),
{
    assert forall|i: int| 0 <= i < a.len() implies #[trigger] c[i] == a[i] by {
        assert(c[i] == b[i]);
    }
}

proof fn lemma_aexp_inv(a: AexpM, st: PState)
    requires
        names_inj(st),
        kept(st, aexp_names(a)),
    ensures
        names_inj(aexp_text(a, st).1),
        extends(st, aexp_text(a, st).1),
        known(aexp_text(a, st).1, aexp_names(a)),
    decreases a,
{
    reveal(aexp_text);
    match a {
        AexpM::Num(_) => {},
        AexpM::Var(x) => {
            assert(aexp_names(a)[0] == x);
            lemma_name_inv(x, st);
        },
        AexpM::Add(l, r) | AexpM::Sub(l, r) | AexpM::Mul(l, r) | AexpM::Div(l, r) => {
            let s1 = aexp_text(*l, st).1;
            let s2 = aexp_text(*r, s1).1;
            assert(aexp_text(a, st).1 == s2);
            lemma_kept_split(st, aexp_names(*l), aexp_names(*r));
            lemma_aexp_inv(*l, st);
            lemma_kept_extends(st, s1, aexp_names(*r));
            lemma_aexp_inv(*r, s1);
            lemma_known_extends(s1, s2, aexp_names(*l));
            lemma_known_join(s2, aexp_names(*l), aexp_names(*r));
            lemma_extends_trans(st, s1, s2);
        },
    }
}

proof fn lemma_bexp_inv(b: BexpM, st: PState)
    requires
        names_inj(st),
        kept(st, bexp_names(b)),
    ensures
        names_inj(bexp_text(b, st).1),
        extends(st, bexp_text(b, st).1),
        known(bexp_text(b, st).1, bexp_names(b)),
    decreases b,
{
    reveal(bexp_text);
    match b {
        BexpM::True | BexpM::False => {},
        BexpM::Eq(l, r) | BexpM::Le(l, r) => {
            let s1 = aexp_text(*l, st).1;
            let s2 = aexp_text(*r, s1).1;
            assert(bexp_text(b, st).1 == s2);
            lemma_kept_split(st, aexp_names(*l), aexp_names(*r));
            lemma_aexp_inv(*l, st);
            lemma_kept_extends(st, s1, aexp_names(*r));
            lemma_aexp_inv(*r, s1);
            lemma_known_extends(s1, s2, aexp_names(*l));
            lemma_known_join(s2, aexp_names(*l), aexp_names(*r));
            lemma_extends_trans(st, s1, s2);
        },
        BexpM::Not(x) => {
            lemma_bexp_inv(*x, st);
        },
        BexpM::And(l, r) | BexpM::Or(l, r) => {
            let s1 = bexp_text(*l, st).1;
            let s2 = bexp_text(*r, s1).1;
            assert(bexp_text(b, st).1 == s2);
            lemma_kept_split(st, bexp_names(*l), bexp_names(*r));
            lemma_bexp_inv(*l, st);
            lemma_kept_extends(st, s1, bexp_names(*r));
            lemma_bexp_inv(*r, s1);
            lemma_known_extends(s1, s2, bexp_names(*l));
            lemma_known_join(s2, bexp_names(*l), bexp_names(*r));
            lemma_extends_trans(st, s1, s2);
        },
    }
}

proof fn lemma_stmt_inv(c: ComM, st: PState)
    requires
        names_inj(st),
        kept(st, com_names(c)),
    ensures
        names_inj(stmt_text(c, st).1),
        extends(st, stmt_text(c, st).1),
        known(stmt_text(c, st).1, com_names(c)),
    decreases c,
{
    reveal(stmt_text);
    match c {
        ComM::Skip => {},
        ComM::Assign(x, a) => {
            let s1 = name_spec(x, st).1;
            let s2 = aexp_text(*a, s1).1;
            assert(stmt_text(c, st).1 == s2);
            lemma_kept_split(st, seq![x], aexp_names(*a));
            assert(seq![x][0] == x);
            lemma_name_inv(x, st);
            lemma_kept_extends(st, s1, aexp_names(*a));
            lemma_aexp_inv(*a, s1);
            lemma_extends_trans(st, s1, s2);
            assert(known(s1, seq![x]));
            lemma_known_extends(s1, s2, seq![x]);
            lemma_known_join(s2, seq![x], aexp_names(*a));
        },
        ComM::If(b, c0, c1) => {
            let s1 = bexp_text(*b, st).1;
            let s2 = stmt_text(*c0, s1).1;
            let s3 = stmt_text(*c1, s2).1;
            assert(stmt_text(c, st).1 == s3);
            lemma_kept_split(st, bexp_names(*b) + com_names(*c0), com_names(*c1));
            lemma_kept_split(st, bexp_names(*b), com_names(*c0));
            lemma_bexp_inv(*b, st);
            lemma_kept_extends(st, s1, com_names(*c0));
            lemma_kept_extends(st, s1, com_names(*c1));
            lemma_stmt_inv(*c0, s1);
            lemma_kept_extends(s1, s2, com_names(*c1));
            lemma_stmt_inv(*c1, s2);
            lemma_extends_trans(st, s1, s2);
            lemma_extends_trans(st, s2, s3);
            lemma_extends_trans(s1, s2, s3);
            lemma_known_extends(s1, s3, bexp_names(*b));
            lemma_known_extends(s2, s3, com_names(*c0));
            lemma_known_join(s3, bexp_names(*b), com_names(*c0));
            lemma_known_join(s3, bexp_names(*b) + com_names(*c0), com_names(*c1));
        },
        ComM::While(b, body) => {
            let s1 = bexp_text(*b, st).1;
            let s2 = stmt_text(*body, s1).1;
            assert(stmt_text(c, st).1 == s2);
            lemma_kept_split(st, bexp_names(*b), com_names(*body));
            lemma_bexp_inv(*b, st);
            lemma_kept_extends(st, s1, com_names(*body));
            lemma_stmt_inv(*body, s1);
            lemma_extends_trans(st, s1, s2);
            lemma_known_extends(s1, s2, bexp_names(*b));
            lemma_known_join(s2, bexp_names(*b), com_names(*body));
        },
        ComM::Sequence(c0, c1) => {
            let s1 = stmt_text(*c0, st).1;
            let s2 = stmt_text(*c1, s1).1;
            assert(stmt_text(c, st).1 == s2);
            lemma_kept_split(st, com_names(*c0), com_names(*c1));
            lemma_stmt_inv(*c0, st);
            lemma_kept_extends(st, s1, com_names(*c1));
            lemma_stmt_inv(*c1, s1);
            lemma_extends_trans(st, s1, s2);
            lemma_known_extends(s1, s2, com_names(*c0));
            lemma_known_join(s2, com_names(*c0), com_names(*c1));
        },
    }
}

proof fn lemma_com_inv(c: ComM, st: PState)
    requires
        names_inj(st),
        kept(st, com_names(c)),
    ensures
        names_inj(com_text(c, st).1),
        known(com_text(c, st).1, com_names(c)),
{
    match c {
        ComM::Sequence(c0, c1) => {
            let s1 = stmt_text(*c0, st).1;
            let s2 = stmt_text(*c1, s1).1;
            lemma_kept_split(st, com_names(*c0), com_names(*c1));
            lemma_stmt_inv(*c0, st);
            lemma_kept_extends(st, s1, com_names(*c1));
            lemma_stmt_inv(*c1, s1);
            lemma_known_extends(s1, s2, com_names(*c0));
            lemma_known_join(s2, com_names(*c0), com_names(*c1));
        },
        _ => lemma_stmt_inv(c, st),
    }
}

/// The memory a printer starts a command with remembers each valid
/// identifier of the command as printed as itself, and nothing else.
proof fn lemma_start_state(ns: Seq<Seq<char>>)
    ensures
        forall|i: int| 0 <= i < identity_names(ns).len() ==> #[trigger] identity_names(ns)[i].0 == identity_names(ns)[i].1,
        forall|i: int|
            0 <= i < ns.len() && valid_ident_spec(#[trigger] ns[i]) ==> exists|j: int|
                0 <= j < identity_names(ns).len() && #[trigger] identity_names(ns)[j].0 == ns[i],
    decreases ns.len(),
{
    if ns.len() > 0 {
        lemma_start_state(ns.drop_first());
        let t = identity_names(ns.drop_first());
        let u = identity_names(ns);
        if valid_ident_spec(ns[0]) {
            assert(u == seq![(ns[0], ns[0])] + t);
            assert forall|i: int| 0 <= i < u.len() implies #[trigger] u[i].0 == u[i].1 by {
                if i > 0 {
                    assert(u[i] == t[i - 1]);
                }
            }
            assert forall|i: int| 0 <= i < ns.len() && valid_ident_spec(#[trigger] ns[i]) implies exists|j: int|
                0 <= j < u.len() && #[trigger] u[j].0 == ns[i] by {
                if i == 0 {
                    assert(u[0].0 == ns[0]);
                } else {
                    assert(ns.drop_first()[i - 1] == ns[i]);
                    let j = choose|j: int| 0 <= j < t.len() && #[trigger] t[j].0 == ns.drop_first()[i - 1];
                    assert(u[j + 1] == t[j]);
                }
            }
        } else {
            assert forall|i: int| 0 <= i < ns.len() && valid_ident_spec(#[trigger] ns[i]) implies exists|j: int|
                0 <= j < u.len() && #[trigger] u[j].0 == ns[i] by {
                assert(i != 0);
                assert(ns.drop_first()[i - 1] == ns[i]);
            }
        }
    }
}

pub(crate) proof fn lemma_start_inv(c: ComM)
    ensures
        names_inj(start_state(c)),
        kept(start_state(c), com_names(c)),
{
    let ns = com_names(c);
    let t = start_state(c);
    lemma_start_state(ns);
    assert forall|i: int| 0 <= i < ns.len() && valid_ident_spec(#[trigger] ns[i]) implies names_lookup(
        t,
        ns[i],
    ) == Some(ns[i]) by {
        lemma_lookup_entry(t, ns[i]);
        let v = names_lookup(t, ns[i])->Some_0;
        let j = choose|j: int| 0 <= j < t.len() && #[trigger] t[j] == (ns[i], v);
        assert(t[j].0 == t[j].1);
    }
}

/// Law: distinct names of a command are printed as distinct identifiers.
/// After `com_to_source` has printed `c`, its printer remembers every name
/// of `c` with the identifier it printed it as, and two different names
/// have two different identifiers; so the printed program keeps apart the
/// variables that `c` keeps apart.
pub proof fn lemma_printed_names_distinct(c: ComM, x: Seq<char>, y: Seq<char>)
    requires
        com_names(c).contains(x),
        com_names(c).contains(y),
        x != y,
    ensures
        names_lookup(com_text(c, start_state(c)).1, x) matches Some(px) && names_lookup(
            com_text(c, start_state(c)).1,
            y,
        ) matches Some(py) && px != py,
{
    lemma_start_inv(c);
    lemma_com_inv(c, start_state(c));
    let t = com_text(c, start_state(c)).1;
    let ns = com_names(c);
    let ix = ns.index_of(x);
    let iy = ns.index_of(y);
    assert(names_lookup(t, ns[ix]) is Some);
    assert(names_lookup(t, ns[iy]) is Some);
    lemma_lookup_entry(t, x);
    lemma_lookup_entry(t, y);
    let px = names_lookup(t, x)->Some_0;
    let py = names_lookup(t, y)->Some_0;
    let i = choose|i: int| 0 <= i < t.len() && #[trigger] t[i] == (x, px);
    let j = choose|j: int| 0 <= j < t.len() && #[trigger] t[j] == (y, py);
    assert(t[i].0 != t[j].0);
}

} // verus!
