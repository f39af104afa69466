//! Render a solver model of an IMP program back into `.imp` source.

use vstd::prelude::*;
use crate::text::{chars_of, chars_eq, copy_range, string_of};
use crate::imp::ast::{Aexp, Bexp, Com, AexpM, BexpM, ComM};
use crate::toml::scalar::{is_hex, hex_val, hex_digit, hex_value};
use crate::imp::parser::{is_keyword, is_keyword_spec};
use crate::text::{dec_nat, dec_int, push_u64, push_i64};

verus! {

/// The model of an s-expression.
pub ghost enum SexpM {
    Atom(Seq<char>),
    Str(Seq<char>),
    List(Seq<SexpM>),
}

/// An s-expression of a solver model.
#[derive(Debug)]
pub enum Sexp {
    Atom(Vec<char>),
    Str(Vec<char>),
    List(Vec<Sexp>),
}

impl View for Sexp {
    type V = SexpM;

    open spec fn view(&self) -> SexpM
        decreases self,
    {
        match self {
            Sexp::Atom(a) => SexpM::Atom(a@),
            Sexp::Str(t) => SexpM::Str(t@),
            Sexp::List(items) => SexpM::List(
                Seq::new(
                    items.len() as nat,
                    |i: int|
                        if 0 <= i < items.len() {
                            items[i].view()
                        } else {
                            SexpM::Atom(seq![])
                        },
                ),
            ),
        }
    }
}

/// The views of a sequence of s-expressions.
pub open spec fn views(items: Seq<Sexp>) -> Seq<SexpM> {
    Seq::new(items.len(), |i: int| items[i]@)
}

proof fn lemma_list_view(items: Vec<Sexp>)
    ensures
        Sexp::List(items)@ == SexpM::List(views(items@)),
{
    let x = Sexp::List(items);
    let w = x@->List_0;
    assert(x@ is List);
    assert(w.len() == items@.len());
    assert forall|i: int| 0 <= i < w.len() implies w[i] == views(items@)[i] by {
        assert(items[i] == items@[i]);
    }
    assert(w =~= views(items@));
}

// ---------------------------------------------------------------------------
// Reading s-expressions
// ---------------------------------------------------------------------------

/// ASCII white space: space, tab, line feed, form feed, carriage return.
pub open spec fn is_ascii_ws(c: char) -> bool {
    c == ' ' || c == '\t' || c == '\n' || c == '\u{c}' || c == '\r'
}

/// The first position at or after `p` that is not white space.
pub open spec fn skip_ws_spec(s: Seq<char>, p: int) -> int
    decreases s.len() - p,
{
    if 0 <= p < s.len() && is_ascii_ws(s[p]) {
        skip_ws_spec(s, p + 1)
    } else {
        p
    }
}

/// A character that ends an atom.
pub open spec fn ends_atom(c: char) -> bool {
    is_ascii_ws(c) || c == '(' || c == ')' || c == '"'
}

/// The end of the atom that starts at `p`.
pub open spec fn atom_end(s: Seq<char>, p: int) -> int
    decreases s.len() - p,
{
    if 0 <= p < s.len() && !ends_atom(s[p]) {
        atom_end(s, p + 1)
    } else {
        p
    }
}

/// The rest of a string literal from `p`, after its opening quote: the
/// content so far is `acc`; a doubled quote stands for one quote. `None` when
/// the input ends before the closing quote.
pub open spec fn str_body(s: Seq<char>, p: int, acc: Seq<char>) -> Option<(Seq<char>, int)>
    decreases s.len() - p,
{
    if p < 0 || p >= s.len() {
        None
    } else if s[p] == '"' {
        if p + 1 < s.len() && s[p + 1] == '"' {
            str_body(s, p + 2, acc.push('"'))
        } else {
            Some((acc, p + 1))
        }
    } else {
        str_body(s, p + 1, acc.push(s[p]))
    }
}

/// The s-expression at `p` (after white space) and the position after it;
/// `None` when the input ends inside it.
pub open spec fn read_spec(s: Seq<char>, p: int) -> Option<(SexpM, int)>
    decreases s.len() - p, 0int,
{
    let q = skip_ws_spec(s, p);
    if q < p || q >= s.len() {
        None
    } else if s[q] == '(' {
        list_spec(s, q + 1, seq![])
    } else if s[q] == '"' {
        match str_body(s, q + 1, seq![]) {
            Some((t, e)) => Some((SexpM::Str(t), e)),
            None => None,
        }
    } else {
        let e = atom_end(s, q);
        Some((SexpM::Atom(s.subrange(q, e)), e))
    }
}

/// The rest of a list from `p` whose items so far are `acc`.
pub open spec fn list_spec(s: Seq<char>, p: int, acc: Seq<SexpM>) -> Option<(SexpM, int)>
    decreases s.len() - p, 1int,
{
    let q = skip_ws_spec(s, p);
    if q < p || q >= s.len() {
        None
    } else if s[q] == ')' {
        Some((SexpM::List(acc), q + 1))
    } else {
        match read_spec(s, q) {
            Some((x, e)) => if q < e && e <= s.len() {
                list_spec(s, e, acc.push(x))
            } else {
                None
            },
            None => None,
        }
    }
}

pub proof fn lemma_skip_ws(s: Seq<char>, p: int)
    requires
        0 <= p <= s.len(),
    ensures
        p <= skip_ws_spec(s, p) <= s.len(),
    decreases s.len() - p,
{
    if p < s.len() && is_ascii_ws(s[p]) {
        lemma_skip_ws(s, p + 1);
    }
}

pub proof fn lemma_atom_end(s: Seq<char>, p: int)
    requires
        0 <= p <= s.len(),
    ensures
        p <= atom_end(s, p) <= s.len(),
        p < s.len() && !ends_atom(s[p]) ==> p < atom_end(s, p),
    decreases s.len() - p,
{
    if p < s.len() && !ends_atom(s[p]) {
        lemma_atom_end(s, p + 1);
    }
}

/// Executable `is_ascii_ws`.
fn ascii_ws(c: char) -> (r: bool)
    ensures
        r == is_ascii_ws(c),
{
    c == ' ' || c == '\t' || c == '\n' || c == '\u{c}' || c == '\r'
}

/// A reader of s-expressions over the characters of a text.
pub struct Reader {
    chars: Vec<char>,
    pos: usize,
}

impl Reader {
    /// The characters being read.
    pub closed spec fn text(&self) -> Seq<char> {
        self.chars@
    }

    /// The position of the next character to read.
    pub closed spec fn position(&self) -> int {
        self.pos as int
    }

    /// A reader at the start of `s`.
    pub fn new(s: &str) -> (r: Reader)
        ensures
            r.text() == s@,
            r.position() == 0,
    {
        Reader { chars: crate::text::chars_of(s), pos: 0 }
    }

    /// Skip ASCII white space.
    pub fn skip_ws(&mut self)
        requires
            old(self).position() <= old(self).text().len(),
        ensures
            final(self).text() == old(self).text(),
            final(self).position() == skip_ws_spec(old(self).text(), old(self).position()),
    {
        while self.pos < self.chars.len() && ascii_ws(self.chars[self.pos])
            invariant
                self.pos <= self.chars.len(),
                self.chars@ == old(self).chars@,
                skip_ws_spec(self.chars@, self.pos as int) == skip_ws_spec(
                    old(self).chars@,
                    old(self).pos as int,
                ),
            decreases self.chars.len() - self.pos,
        {
            self.pos = self.pos + 1;
        }
    }

    /// Read one s-expression: a list, a string literal (a doubled quote
    /// stands for one quote) or an atom. `None` when the text ends inside it.
    #[verifier::loop_isolation(false)]
    pub fn read(&mut self) -> (r: Option<Sexp>)
        requires
            old(self).position() <= old(self).text().len(),
        ensures
            final(self).text() == old(self).text(),
            final(self).position() <= final(self).text().len(),
            match (r, read_spec(old(self).text(), old(self).position())) {
                (Some(x), Some((m, e))) => x@ == m && final(self).position() == e,
                (None, None) => true,
                _ => false,
            },
        decreases old(self).text().len() - old(self).position(), 0int,
    {
        let ghost s = self.chars@;
        let ghost p0 = self.pos as int;
        proof {
            lemma_skip_ws(s, p0);
        }
        self.skip_ws();
        if self.pos >= self.chars.len() {
            return None;
        }
        let q = self.pos;
        let c = self.chars[q];
        if c == '(' {
            self.pos = q + 1;
            let mut items: Vec<Sexp> = Vec::new();
            assert(views(items@) =~= seq![]);
            loop
                invariant
                    self.chars@ == s,
                    q < self.pos <= s.len(),
                    read_spec(s, p0) == list_spec(s, self.pos as int, views(items@)),
                    q == skip_ws_spec(s, p0),
                    p0 <= q,
                decreases s.len() - self.pos,
            {
                let ghost before = self.pos as int;
                proof {
                    lemma_skip_ws(s, before);
                }
                self.skip_ws();
                if self.pos >= self.chars.len() {
                    return None;
                }
                if self.chars[self.pos] == ')' {
                    self.pos = self.pos + 1;
                    proof {
                        lemma_list_view(items);
                    }
                    return Some(Sexp::List(items));
                }
                let at = self.pos;
                match self.read() {
                    Some(x) => {
                        if self.pos <= at {
                            return None;
                        }
                        let ghost xv = x@;
                        let ghost old_items = items@;
                        items.push(x);
                        assert(views(items@) =~= views(old_items).push(xv));
                    },
                    None => return None,
                }
            }
        } else if c == '"' {
            self.pos = q + 1;
            let mut content: Vec<char> = Vec::new();
            loop
                invariant
                    self.chars@ == s,
                    q < self.pos <= s.len(),
                    str_body(s, q + 1, seq![]) == str_body(s, self.pos as int, content@),
                decreases s.len() - self.pos,
            {
                if self.pos >= self.chars.len() {
                    return None;
                }
                let d = self.chars[self.pos];
                if d == '"' {
                    if self.pos + 1 < self.chars.len() && self.chars[self.pos + 1] == '"' {
                        content.push('"');
                        self.pos = self.pos + 2;
                    } else {
                        self.pos = self.pos + 1;
                        return Some(Sexp::Str(content));
                    }
                } else {
                    content.push(d);
                    self.pos = self.pos + 1;
                }
            }
        } else {
            let mut e = q;
            while e < self.chars.len() && !(ascii_ws(self.chars[e]) || self.chars[e] == '('
                || self.chars[e] == ')' || self.chars[e] == '"')
                invariant
                    self.chars@ == s,
                    q <= e <= s.len(),
                    atom_end(s, q as int) == atom_end(s, e as int),
                decreases s.len() - e,
            {
                e = e + 1;
            }
            self.pos = e;
            Some(Sexp::Atom(crate::text::copy_range(&self.chars, q, e)))
        }
    }
}

// ---------------------------------------------------------------------------
// Locating the program in a model
// ---------------------------------------------------------------------------

/// `pat` occurs in `s` at `i`.
pub open spec fn occurs_at(s: Seq<char>, i: int, pat: Seq<char>) -> bool {
    0 <= i && i + pat.len() <= s.len() && s.subrange(i, i + pat.len()) == pat
}

/// The first position at or after `i` where `pat` occurs.
pub open spec fn find_from(s: Seq<char>, pat: Seq<char>, i: int) -> Option<int>
    decreases s.len() + 1 - i,
{
    if i < 0 || i + pat.len() > s.len() {
        None
    } else if occurs_at(s, i, pat) {
        Some(i)
    } else {
        find_from(s, pat, i + 1)
    }
}

/// The first position where `pat` occurs in `s`.
pub open spec fn find_spec(s: Seq<char>, pat: Seq<char>) -> Option<int> {
    find_from(s, pat, 0)
}

pub proof fn lemma_find_from(s: Seq<char>, pat: Seq<char>, i: int)
    requires
        0 <= i,
    ensures
        find_from(s, pat, i) matches Some(j) ==> i <= j && j + pat.len() <= s.len(),
    decreases s.len() + 1 - i,
{
    if i + pat.len() <= s.len() && !occurs_at(s, i, pat) {
        lemma_find_from(s, pat, i + 1);
    }
}

/// Executable `find_spec`.
fn find(s: &Vec<char>, pat: &str) -> (r: Option<usize>)
    ensures
        match r {
            Some(i) => find_spec(s@, pat@) == Some(i as int),
            None => find_spec(s@, pat@) is None,
        },
{
    let p = chars_of(pat);
    if p.len() > s.len() {
        return None;
    }
    let last = s.len() - p.len();
    let mut i: usize = 0;
    loop
        invariant
            p@ == pat@,
            p.len() <= s.len(),
            last == s.len() - p.len(),
            i <= last,
            find_spec(s@, pat@) == find_from(s@, pat@, i as int),
        decreases last - i,
    {
        if crate::text::range_eq(s, i, i + p.len(), &p) {
            return Some(i);
        }
        if i == last {
            assert(find_from(s@, pat@, i + 1) is None);
            return None;
        }
        i = i + 1;
    }
}

/// The value of `input_0` in a model: the fifth item of
/// `(define-fun input_0 () Com <value>)`, or else the value after
/// `input_0 ->`. `None` when neither is there or the text ends inside it.
pub open spec fn extract_spec(m: Seq<char>) -> Option<SexpM> {
    match find_spec(m, "(define-fun input_0"@) {
        Some(i) => match read_spec(m, i) {
            Some((SexpM::List(items), _)) => if items.len() > 4 {
                Some(items[4])
            } else {
                None
            },
            _ => None,
        },
        None => match find_spec(m, "input_0 ->"@) {
            Some(i) => match read_spec(m, i + "input_0 ->"@.len()) {
                Some((x, _)) => Some(x),
                None => None,
            },
            None => None,
        },
    }
}

/// Locate the `input_0` value in either serialization: the text backend
/// emits `(define-fun input_0 () Com <value>)`, the API backend emits
/// `input_0 -> <value>`.
pub fn extract_input_0(model: &str) -> (r: Option<Sexp>)
    ensures
        match (r, extract_spec(model@)) {
            (Some(x), Some(m)) => x@ == m,
            (None, None) => true,
            _ => false,
        },
{
    let chars = chars_of(model);
    proof {
        reveal_strlit("input_0 ->");
        lemma_find_from(chars@, "(define-fun input_0"@, 0);
        lemma_find_from(chars@, "input_0 ->"@, 0);
    }
    match find(&chars, "(define-fun input_0") {
        Some(i) => {
            let mut reader = Reader { chars, pos: i };
            match reader.read() {
                Some(Sexp::List(items)) => {
                    proof {
                        lemma_list_view(items);
                    }
                    let mut items = items;
                    if items.len() > 4 {
                        let ghost v = views(items@);
                        let x = items.remove(4);
                        assert(x@ == v[4]);
                        Some(x)
                    } else {
                        None
                    }
                },
                _ => None,
            }
        },
        None => match find(&chars, "input_0 ->") {
            Some(i) => {
                let n = chars.len();
                assert("input_0 ->"@.len() == 10);
                assert(i + 10 <= n);
                let mut reader = Reader { chars, pos: i + 10 };
                reader.read()
            },
            None => None,
        },
    }
}

// ---------------------------------------------------------------------------
// Inlining `let` bindings
// ---------------------------------------------------------------------------

/// A binding environment; a later binding of a name hides an earlier one.
pub type EnvM = Seq<(Seq<char>, SexpM)>;

/// The value bound to `a` in `env`.
pub open spec fn env_get(env: EnvM, a: Seq<char>) -> Option<SexpM>
    decreases env.len(),
{
    if env.len() == 0 {
        None
    } else if env.last().0 == a {
        Some(env.last().1)
    } else {
        env_get(env.drop_last(), a)
    }
}

/// The bindings of a `let`: each `(name value)` pair, its value resolved in
/// `env` (the bindings of one `let` do not see each other); other items are
/// ignored.
pub open spec fn bindings_spec(bs: Seq<SexpM>, env: EnvM) -> EnvM
    decreases bs,
{
    if bs.len() == 0 {
        seq![]
    } else {
        let rest = bindings_spec(bs.drop_last(), env);
        match bs.last() {
            SexpM::List(pair) => if pair.len() == 2 && pair[0] is Atom {
                rest.push((pair[0]->Atom_0, resolve_spec(pair[1], env)))
            } else {
                rest
            },
            _ => rest,
        }
    }
}

/// `s` with every `let` inlined: an atom bound in `env` stands for its value.
pub open spec fn resolve_spec(s: SexpM, env: EnvM) -> SexpM
    decreases s,
{
    match s {
        SexpM::Atom(a) => match env_get(env, a) {
            Some(v) => v,
            None => s,
        },
        SexpM::Str(_) => s,
        SexpM::List(items) => if items.len() == 3 && items[0] == SexpM::Atom("let"@)
            && items[1] is List {
            resolve_spec(items[2], env + bindings_spec(items[1]->List_0, env))
        } else {
            SexpM::List(
                Seq::new(
                    items.len(),
                    |i: int|
                        if 0 <= i < items.len() {
                            resolve_spec(items[i], env)
                        } else {
                            SexpM::Atom(seq![])
                        },
                ),
            )
        },
    }
}

/// A copy of an s-expression.
#[verifier::loop_isolation(false)]
pub fn clone_sexp(s: &Sexp) -> (r: Sexp)
    ensures
        r@ == s@,
    decreases s,
{
    match s {
        Sexp::Atom(a) => {
            let c = copy_range(a, 0, a.len());
            assert(a@.subrange(0, a@.len() as int) == a@);
            Sexp::Atom(c)
        },
        Sexp::Str(t) => {
            let c = copy_range(t, 0, t.len());
            assert(t@.subrange(0, t@.len() as int) == t@);
            Sexp::Str(c)
        },
        Sexp::List(items) => {
            let mut out: Vec<Sexp> = Vec::new();
            let mut i: usize = 0;
            while i < items.len()
                invariant
                    i <= items.len(),
                    *s == Sexp::List(*items),
                    views(out@) == views(items@).take(i as int),
                decreases items.len() - i,
            {
                proof {
                    vstd::std_specs::vec::axiom_vec_index_decreases(*items, i as int);
                }
                let x = clone_sexp(&items[i]);
                let ghost old_out = out@;
                out.push(x);
                assert(views(out@) =~= views(old_out).push(items@[i as int]@));
                assert(views(items@).take(i + 1) =~= views(items@).take(i as int).push(
                    items@[i as int]@,
                ));
                i = i + 1;
            }
            assert(views(items@).take(items.len() as int) =~= views(items@));
            proof {
                lemma_list_view(out);
                lemma_list_view(*items);
            }
            Sexp::List(out)
        },
    }
}

/// The view of a binding environment.
pub open spec fn env_view(env: Seq<(Vec<char>, Sexp)>) -> EnvM {
    Seq::new(env.len(), |i: int| (env[i].0@, env[i].1@))
}

/// The value bound to `a`: the latest binding of it.
fn env_lookup(env: &Vec<(Vec<char>, Sexp)>, a: &Vec<char>) -> (r: Option<Sexp>)
    ensures
        match (r, env_get(env_view(env@), a@)) {
            (Some(x), Some(m)) => x@ == m,
            (None, None) => true,
            _ => false,
        },
{
    let mut i = env.len();
    assert(env_view(env@).take(env.len() as int) =~= env_view(env@));
    while i > 0
        invariant
            i <= env.len(),
            env_get(env_view(env@), a@) == env_get(env_view(env@).take(i as int), a@),
        decreases i,
    {
        let ghost t = env_view(env@).take(i as int);
        assert(t.last() == (env@[i - 1].0@, env@[i - 1].1@));
        assert(t.drop_last() =~= env_view(env@).take(i - 1));
        if chars_eq(&env[i - 1].0, a) {
            return Some(clone_sexp(&env[i - 1].1));
        }
        i = i - 1;
    }
    assert(env_view(env@).take(0) =~= Seq::<(Seq<char>, SexpM)>::empty());
    None
}

/// A copy of an environment.
fn clone_env(env: &Vec<(Vec<char>, Sexp)>) -> (r: Vec<(Vec<char>, Sexp)>)
    ensures
        env_view(r@) == env_view(env@),
{
    let mut out: Vec<(Vec<char>, Sexp)> = Vec::new();
    let mut i: usize = 0;
    while i < env.len()
        invariant
            i <= env.len(),
            env_view(out@) == env_view(env@).take(i as int),
        decreases env.len() - i,
    {
        let k = copy_range(&env[i].0, 0, env[i].0.len());
        assert(env@[i as int].0@.subrange(0, env@[i as int].0@.len() as int) == env@[i as int].0@);
        let v = clone_sexp(&env[i].1);
        let ghost old_out = out@;
        out.push((k, v));
        assert(env_view(out@) =~= env_view(old_out).push((env@[i as int].0@, env@[i as int].1@)));
        assert(env_view(env@).take(i + 1) =~= env_view(env@).take(i as int).push(
            (env@[i as int].0@, env@[i as int].1@),
        ));
        i = i + 1;
    }
    assert(env_view(env@).take(env.len() as int) =~= env_view(env@));
    out
}

/// Whether the characters of `v` are those of `lit`.
fn chars_are(v: &Vec<char>, lit: &str) -> (r: bool)
    ensures
        r == (v@ == lit@),
{
    let l = chars_of(lit);
    chars_eq(v, &l)
}

/// Inline solver `let` bindings: names bound by a `let` are aliases of shared
/// subterms, not constructors, so each is replaced by its value.
#[verifier::loop_isolation(false)]
pub fn resolve(s: &Sexp, env: &Vec<(Vec<char>, Sexp)>) -> (r: Sexp)
    ensures
        r@ == resolve_spec(s@, env_view(env@)),
    decreases s,
{
    match s {
        Sexp::Atom(a) => match env_lookup(env, a) {
            Some(v) => v,
            None => clone_sexp(s),
        },
        Sexp::Str(_) => clone_sexp(s),
        Sexp::List(items) => {
            proof {
                lemma_list_view(*items);
                reveal_strlit("let");
            }
            let ghost iv = views(items@);
            if items.len() == 3 {
                let is_let = match &items[0] {
                    Sexp::Atom(h) => chars_are(h, "let"),
                    _ => false,
                };
                assert(is_let == (iv[0] == SexpM::Atom("let"@)));
                if is_let {
                    match &items[1] {
                        Sexp::List(bindings) => {
                            proof {
                                vstd::std_specs::vec::axiom_vec_index_decreases(*items, 1);
                                vstd::std_specs::vec::axiom_vec_index_decreases(*items, 2);
                                lemma_list_view(*bindings);
                            }
                            let ghost bv = views(bindings@);
                            let mut inner = clone_env(env);
                            let mut j: usize = 0;
                            while j < bindings.len()
                                invariant
                                    j <= bindings.len(),
                                    env_view(inner@) == env_view(env@) + bindings_spec(
                                        bv.take(j as int),
                                        env_view(env@),
                                    ),
                                decreases bindings.len() - j,
                            {
                                assert(bv.take(j + 1).drop_last() =~= bv.take(j as int));
                                assert(bv.take(j + 1).last() == bindings@[j as int]@);
                                proof {
                                    vstd::std_specs::vec::axiom_vec_index_decreases(
                                        *bindings,
                                        j as int,
                                    );
                                }
                                match &bindings[j] {
                                    Sexp::List(pair) => {
                                        proof {
                                            lemma_list_view(*pair);
                                        }
                                        if pair.len() == 2 {
                                            match &pair[0] {
                                                Sexp::Atom(name) => {
                                                    proof {
                                                        vstd::std_specs::vec::axiom_vec_index_decreases(
                                                            *pair,
                                                            1,
                                                        );
                                                    }
                                                    let val = resolve(&pair[1], env);
                                                    let k = copy_range(name, 0, name.len());
                                                    assert(name@.subrange(0, name@.len() as int)
                                                        == name@);
                                                    let ghost old_inner = inner@;
                                                    let ghost kv = (k@, val@);
                                                    inner.push((k, val));
                                                    assert(env_view(inner@) =~= env_view(
                                                        old_inner,
                                                    ).push(kv));
                                                },
                                                _ => {},
                                            }
                                        }
                                    },
                                    _ => {},
                                }
                                j = j + 1;
                            }
                            assert(bv.take(bindings.len() as int) =~= bv);
                            return resolve(&items[2], &inner);
                        },
                        _ => {},
                    }
                }
            }
            let mut out: Vec<Sexp> = Vec::new();
            let mut i: usize = 0;
            while i < items.len()
                invariant
                    i <= items.len(),
                    views(out@) == Seq::new(
                        i as nat,
                        |k: int| resolve_spec(iv[k], env_view(env@)),
                    ),
                decreases items.len() - i,
            {
                proof {
                    vstd::std_specs::vec::axiom_vec_index_decreases(*items, i as int);
                }
                let x = resolve(&items[i], env);
                assert(x@ == resolve_spec(iv[i as int], env_view(env@)));
                let ghost old_out = out@;
                out.push(x);
                assert(views(out@) =~= views(old_out).push(x@));
                assert(views(out@) =~= Seq::new(
                    (i + 1) as nat,
                    |k: int| resolve_spec(iv[k], env_view(env@)),
                ));
                i = i + 1;
            }
            proof {
                lemma_list_view(out);
                assert(s@ == SexpM::List(iv));
                assert(views(out@) =~= resolve_spec(s@, env_view(env@))->List_0);
            }
            Sexp::List(out)
        },
    }
}

// ---------------------------------------------------------------------------
// Rebuilding the program
// ---------------------------------------------------------------------------

/// The value of hexadecimal digits.
pub open spec fn hex_text_val(d: Seq<char>) -> nat
    decreases d.len(),
{
    if d.len() == 0 {
        0
    } else {
        hex_text_val(d.drop_last()) * 16 + hex_val(d.last())
    }
}

/// Every character of `d` is a hexadecimal digit.
pub open spec fn all_hex(d: Seq<char>) -> bool {
    forall|i: int| 0 <= i < d.len() ==> is_hex(#[trigger] d[i])
}

/// `u64::from_str_radix(t, 16)`: an optional `+`, then at least one
/// hexadecimal digit, with a value below 2^64.
pub open spec fn u64_hex_spec(t: Seq<char>) -> Option<u64> {
    let d = if t.len() > 1 && t[0] == '+' {
        t.drop_first()
    } else {
        t
    };
    if d.len() > 0 && all_hex(d) && hex_text_val(d) < 0x1_0000_0000_0000_0000 {
        Some(hex_text_val(d) as u64)
    } else {
        None
    }
}

/// A 64-bit pattern read as a two's-complement signed integer.
pub open spec fn signed_of(u: u64) -> i64 {
    if u < 0x8000_0000_0000_0000 {
        u as i64
    } else {
        (u - 0x1_0000_0000_0000_0000) as i64
    }
}

/// A 64-bit literal `#x…`, read as a two's-complement signed integer.
pub open spec fn decode_spec(s: SexpM) -> Option<i64> {
    match s {
        SexpM::Atom(a) => if a.len() >= 2 && a[0] == '#' && a[1] == 'x' {
            match u64_hex_spec(a.skip(2)) {
                Some(u) => Some(signed_of(u)),
                None => None,
            }
        } else {
            None
        },
        _ => None,
    }
}

/// `#x…` is a 64-bit literal; decode it as a two's-complement signed `i64`
/// (`#x8000000000000000` is `i64::MIN`, `#xffffffffffffffff` is `-1`).
#[verifier::loop_isolation(false)]
pub fn decode_bv(s: &Sexp) -> (r: Option<i64>)
    ensures
        r == decode_spec(s@),
{
    let a = match s {
        Sexp::Atom(a) => a,
        _ => return None,
    };
    if a.len() < 2 || a[0] != '#' || a[1] != 'x' {
        return None;
    }
    let ghost t = a@.skip(2);
    let mut start: usize = 2;
    if a.len() > 3 && a[2] == '+' {
        start = 3;
    }
    let ghost d = a@.skip(start as int);
    assert(d == (if t.len() > 1 && t[0] == '+' {
        t.drop_first()
    } else {
        t
    }));
    if start >= a.len() {
        return None;
    }
    let mut i = start;
    while i < a.len()
        invariant
            start <= i <= a.len(),
            d == a@.skip(start as int),
            forall|k: int| 0 <= k < i - start ==> is_hex(#[trigger] d[k]),
        decreases a.len() - i,
    {
        if !hex_digit(a[i]) {
            assert(!is_hex(d[i - start]));
            assert(s@ == SexpM::Atom(a@));
            assert(!all_hex(d));
            return None;
        }
        i = i + 1;
    }
    let mut acc: u64 = 0;
    let mut i = start;
    while i < a.len()
        invariant
            start <= i <= a.len(),
            d == a@.skip(start as int),
            acc == hex_text_val(d.take(i - start)),
            forall|k: int| 0 <= k < d.len() ==> is_hex(#[trigger] d[k]),
        decreases a.len() - i,
    {
        assert(d.take(i + 1 - start).drop_last() == d.take(i - start));
        assert(d.take(i + 1 - start).last() == a@[i as int]);
        let v = hex_value(a[i]);
        if acc > 0x0fff_ffff_ffff_ffff {
            proof {
                lemma_hex_text_val_mono(d, (i - start) as int, (a.len() - start) as int);
                assert(d.take(a.len() - start) == d);
            }
            return None;
        }
        acc = acc * 16 + (v as u64);
        i = i + 1;
    }
    assert(d.take(a.len() - start) == d);
    let u = acc;
    if u < 0x8000_0000_0000_0000 {
        Some(u as i64)
    } else {
        Some(-((0xffff_ffff_ffff_ffff - u) as i64) - 1)
    }
}

pub proof fn lemma_hex_text_val_mono(d: Seq<char>, i: int, j: int)
    requires
        0 <= i <= j <= d.len(),
        forall|k: int| 0 <= k < d.len() ==> is_hex(#[trigger] d[k]),
    ensures
        hex_text_val(d.take(i)) <= hex_text_val(d.take(j)),
        i < j ==> hex_text_val(d.take(i)) * 16 <= hex_text_val(d.take(j)),
    decreases j - i,
{
    if i < j {
        lemma_hex_text_val_mono(d, i, j - 1);
        assert(d.take(j).drop_last() == d.take(j - 1));
        if i < j - 1 {
            assert(hex_text_val(d.take(j - 1)) * 16 <= hex_text_val(d.take(j))) by (nonlinear_arith)
                requires
                    hex_text_val(d.take(j)) == hex_text_val(d.take(j - 1)) * 16 + hex_val(d.take(j).last()),
            ;
            assert(hex_text_val(d.take(i)) * 16 <= hex_text_val(d.take(j - 1)) * 16) by (nonlinear_arith)
                requires
                    hex_text_val(d.take(i)) <= hex_text_val(d.take(j - 1)),
            ;
        }
    }
}

/// The head and the arguments of a constructor application: an atom alone
/// (no arguments), or a list whose first item is an atom.
pub open spec fn head_args_spec(s: SexpM) -> Option<(Seq<char>, Seq<SexpM>)> {
    match s {
        SexpM::Atom(a) => Some((a, seq![])),
        SexpM::List(items) => if items.len() > 0 && items[0] is Atom {
            Some((items[0]->Atom_0, items.skip(1)))
        } else {
            None
        },
        SexpM::Str(_) => None,
    }
}

/// The head and arguments of a constructor application.
pub fn head_args(s: &Sexp) -> (r: Option<(&Vec<char>, &[Sexp])>)
    ensures
        match (r, head_args_spec(s@)) {
            (Some((h, args)), Some((hm, am))) => h@ == hm && views(args@) == am,
            (None, None) => true,
            _ => false,
        },
        r matches Some((h, args)) ==> match s {
            Sexp::List(items) => items@.len() > 0 && args@ == items@.skip(1),
            _ => args@.len() == 0,
        },
{
    match s {
        Sexp::Atom(a) => {
            let empty: &[Sexp] = &[];
            assert(views(empty@) =~= seq![]);
            Some((a, empty))
        },
        Sexp::List(items) => {
            proof {
                lemma_list_view(*items);
            }
            if items.len() == 0 {
                return None;
            }
            match &items[0] {
                Sexp::Atom(h) => {
                    let (_, args) = items.as_slice().split_at(1);
                    assert(views(args@) =~= views(items@).skip(1));
                    assert(args@ =~= items@.skip(1));
                    Some((h, args))
                },
                _ => None,
            }
        },
        Sexp::Str(_) => None,
    }
}

/// A string field: the content of a string literal.
pub open spec fn build_string_spec(s: SexpM) -> Option<Seq<char>> {
    match s {
        SexpM::Str(t) => Some(t),
        _ => None,
    }
}

/// The arithmetic expression an s-expression denotes, if any.
pub open spec fn build_aexp_spec(s: SexpM) -> Option<AexpM>
    decreases s,
{
    match s {
        SexpM::List(items) => if items.len() > 0 && items[0] is Atom {
            let h = items[0]->Atom_0;
            if h == "Aexp_Num"@ && items.len() > 1 {
                match decode_spec(items[1]) {
                    Some(v) => Some(AexpM::Num(v)),
                    None => None,
                }
            } else if h == "Aexp_Var"@ && items.len() > 1 {
                match build_string_spec(items[1]) {
                    Some(x) => Some(AexpM::Var(x)),
                    None => None,
                }
            } else if (h == "Aexp_Add"@ || h == "Aexp_Sub"@ || h == "Aexp_Mul"@ || h
                == "Aexp_Div"@) && items.len() > 2 {
                match (build_aexp_spec(items[1]), build_aexp_spec(items[2])) {
                    (Some(l), Some(r)) => Some(
                        if h == "Aexp_Add"@ {
                            AexpM::Add(Box::new(l), Box::new(r))
                        } else if h == "Aexp_Sub"@ {
                            AexpM::Sub(Box::new(l), Box::new(r))
                        } else if h == "Aexp_Mul"@ {
                            AexpM::Mul(Box::new(l), Box::new(r))
                        } else {
                            AexpM::Div(Box::new(l), Box::new(r))
                        },
                    ),
                    _ => None,
                }
            } else {
                None
            }
        } else {
            None
        },
        _ => None,
    }
}

/// The boolean expression an s-expression denotes, if any.
pub open spec fn build_bexp_spec(s: SexpM) -> Option<BexpM>
    decreases s,
{
    match s {
        SexpM::Atom(h) => if h == "Bexp_True"@ {
            Some(BexpM::True)
        } else if h == "Bexp_False"@ {
            Some(BexpM::False)
        } else {
            None
        },
        SexpM::List(items) => if items.len() > 0 && items[0] is Atom {
            let h = items[0]->Atom_0;
            if h == "Bexp_True"@ {
                Some(BexpM::True)
            } else if h == "Bexp_False"@ {
                Some(BexpM::False)
            } else if (h == "Bexp_Eq"@ || h == "Bexp_Le"@) && items.len() > 2 {
                match (build_aexp_spec(items[1]), build_aexp_spec(items[2])) {
                    (Some(l), Some(r)) => Some(
                        if h == "Bexp_Eq"@ {
                            BexpM::Eq(Box::new(l), Box::new(r))
                        } else {
                            BexpM::Le(Box::new(l), Box::new(r))
                        },
                    ),
                    _ => None,
                }
            } else if h == "Bexp_Not"@ && items.len() > 1 {
                match build_bexp_spec(items[1]) {
                    Some(b) => Some(BexpM::Not(Box::new(b))),
                    None => None,
                }
            } else if (h == "Bexp_And"@ || h == "Bexp_Or"@) && items.len() > 2 {
                match (build_bexp_spec(items[1]), build_bexp_spec(items[2])) {
                    (Some(l), Some(r)) => Some(
                        if h == "Bexp_And"@ {
                            BexpM::And(Box::new(l), Box::new(r))
                        } else {
                            BexpM::Or(Box::new(l), Box::new(r))
                        },
                    ),
                    _ => None,
                }
            } else {
                None
            }
        } else {
            None
        },
        _ => None,
    }
}

/// The command an s-expression denotes, if any.
pub open spec fn build_com_spec(s: SexpM) -> Option<ComM>
    decreases s,
{
    match s {
        SexpM::Atom(h) => if h == "Com_Skip"@ {
            Some(ComM::Skip)
        } else {
            None
        },
        SexpM::List(items) => if items.len() > 0 && items[0] is Atom {
            let h = items[0]->Atom_0;
            if h == "Com_Skip"@ {
                Some(ComM::Skip)
            } else if h == "Com_Assign"@ && items.len() > 2 {
                match (build_string_spec(items[1]), build_aexp_spec(items[2])) {
                    (Some(x), Some(a)) => Some(ComM::Assign(x, Box::new(a))),
                    _ => None,
                }
            } else if h == "Com_Seq"@ && items.len() > 2 {
                match (build_com_spec(items[1]), build_com_spec(items[2])) {
                    (Some(c0), Some(c1)) => Some(ComM::Sequence(Box::new(c0), Box::new(c1))),
                    _ => None,
                }
            } else if h == "Com_If"@ && items.len() > 3 {
                match (build_bexp_spec(items[1]), build_com_spec(items[2]), build_com_spec(items[3])) {
                    (Some(b), Some(c0), Some(c1)) => Some(
                        ComM::If(Box::new(b), Box::new(c0), Box::new(c1)),
                    ),
                    _ => None,
                }
            } else if h == "Com_While"@ && items.len() > 2 {
                match (build_bexp_spec(items[1]), build_com_spec(items[2])) {
                    (Some(b), Some(c)) => Some(ComM::While(Box::new(b), Box::new(c))),
                    _ => None,
                }
            } else {
                None
            }
        } else {
            None
        },
        _ => None,
    }
}

/// A string field: the content of a string literal.
pub fn build_string(s: &Sexp) -> (r: Option<String>)
    ensures
        match (r, build_string_spec(s@)) {
            (Some(x), Some(m)) => x@ == m,
            (None, None) => true,
            _ => false,
        },
{
    match s {
        Sexp::Str(t) => Some(string_of(t)),
        _ => None,
    }
}

/// `s` is the list `items`, and `args` its items after the first.
spec fn args_of(s: Sexp, args: Seq<Sexp>) -> bool {
    s matches Sexp::List(items) && items@.len() > 0 && args == items@.skip(1)
}

proof fn lemma_arg_decreases(s: Sexp, args: Seq<Sexp>, i: int)
    requires
        args_of(s, args),
        0 <= i < args.len(),
    ensures
        decreases_to!(s => args[i]),
{
    let items = s->List_0;
    vstd::std_specs::vec::axiom_vec_index_decreases(items, i + 1);
    assert(args[i] == items@[i + 1]);
}

/// The arithmetic expression `s` denotes, if any.
pub fn build_aexp(s: &Sexp) -> (r: Option<Aexp>)
    ensures
        match (r, build_aexp_spec(s@)) {
            (Some(a), Some(m)) => a@ == m,
            (None, None) => true,
            _ => false,
        },
    decreases s,
{
    proof {
        reveal_strlit("Aexp_Num");
        reveal_strlit("Aexp_Var");
        reveal_strlit("Aexp_Add");
        reveal_strlit("Aexp_Sub");
        reveal_strlit("Aexp_Mul");
        reveal_strlit("Aexp_Div");
    }
    if let Sexp::List(items) = s {
        proof {
            lemma_list_view(*items);
        }
    } else {
        return None;
    }
    let (h, args) = match head_args(s) {
        Some(p) => p,
        None => return None,
    };
    let ghost iv = s@->List_0;
    assert(args.len() + 1 == iv.len());
    if chars_are(h, "Aexp_Num") && args.len() > 0 {
        assert(views(args@)[0] == iv[1]);
        match decode_bv(&args[0]) {
            Some(v) => Some(Aexp::Num(v)),
            None => None,
        }
    } else if chars_are(h, "Aexp_Var") && args.len() > 0 {
        assert(views(args@)[0] == iv[1]);
        match build_string(&args[0]) {
            Some(x) => Some(Aexp::Var(x)),
            None => None,
        }
    } else if (chars_are(h, "Aexp_Add") || chars_are(h, "Aexp_Sub") || chars_are(h, "Aexp_Mul")
        || chars_are(h, "Aexp_Div")) && args.len() > 1 {
        assert(views(args@)[0] == iv[1]);
        assert(views(args@)[1] == iv[2]);
        proof {
            lemma_arg_decreases(*s, args@, 0);
            lemma_arg_decreases(*s, args@, 1);
        }
        let l = match build_aexp(&args[0]) {
            Some(l) => l,
            None => return None,
        };
        let r = match build_aexp(&args[1]) {
            Some(r) => r,
            None => return None,
        };
        if chars_are(h, "Aexp_Add") {
            Some(Aexp::Add(Box::new(l), Box::new(r)))
        } else if chars_are(h, "Aexp_Sub") {
            Some(Aexp::Sub(Box::new(l), Box::new(r)))
        } else if chars_are(h, "Aexp_Mul") {
            Some(Aexp::Mul(Box::new(l), Box::new(r)))
        } else {
            Some(Aexp::Div(Box::new(l), Box::new(r)))
        }
    } else {
        None
    }
}

/// The boolean expression `s` denotes, if any.
pub fn build_bexp(s: &Sexp) -> (r: Option<Bexp>)
    ensures
        match (r, build_bexp_spec(s@)) {
            (Some(b), Some(m)) => b@ == m,
            (None, None) => true,
            _ => false,
        },
    decreases s,
{
    proof {
        reveal_strlit("Bexp_True");
        reveal_strlit("Bexp_False");
        reveal_strlit("Bexp_Eq");
        reveal_strlit("Bexp_Le");
        reveal_strlit("Bexp_Not");
        reveal_strlit("Bexp_And");
        reveal_strlit("Bexp_Or");
    }
    if let Sexp::List(items) = s {
        proof {
            lemma_list_view(*items);
        }
    }
    let (h, args) = match head_args(s) {
        Some(p) => p,
        None => return None,
    };
    if chars_are(h, "Bexp_True") {
        return Some(Bexp::True);
    }
    if chars_are(h, "Bexp_False") {
        return Some(Bexp::False);
    }
    if let Sexp::Atom(_) = s {
        return None;
    }
    let ghost iv = s@->List_0;
    assert(args.len() + 1 == iv.len());
    if (chars_are(h, "Bexp_Eq") || chars_are(h, "Bexp_Le")) && args.len() > 1 {
        assert(views(args@)[0] == iv[1]);
        assert(views(args@)[1] == iv[2]);
        let l = match build_aexp(&args[0]) {
            Some(l) => l,
            None => return None,
        };
        let r = match build_aexp(&args[1]) {
            Some(r) => r,
            None => return None,
        };
        if chars_are(h, "Bexp_Eq") {
            Some(Bexp::Eq(Box::new(l), Box::new(r)))
        } else {
            Some(Bexp::Le(Box::new(l), Box::new(r)))
        }
    } else if chars_are(h, "Bexp_Not") && args.len() > 0 {
        assert(views(args@)[0] == iv[1]);
        proof {
            lemma_arg_decreases(*s, args@, 0);
        }
        match build_bexp(&args[0]) {
            Some(b) => Some(Bexp::Not(Box::new(b))),
            None => None,
        }
    } else if (chars_are(h, "Bexp_And") || chars_are(h, "Bexp_Or")) && args.len() > 1 {
        assert(views(args@)[0] == iv[1]);
        assert(views(args@)[1] == iv[2]);
        proof {
            lemma_arg_decreases(*s, args@, 0);
            lemma_arg_decreases(*s, args@, 1);
        }
        let l = match build_bexp(&args[0]) {
            Some(l) => l,
            None => return None,
        };
        let r = match build_bexp(&args[1]) {
            Some(r) => r,
            None => return None,
        };
        if chars_are(h, "Bexp_And") {
            Some(Bexp::And(Box::new(l), Box::new(r)))
        } else {
            Some(Bexp::Or(Box::new(l), Box::new(r)))
        }
    } else {
        None
    }
}

/// The command `s` denotes, if any.
pub fn build_com(s: &Sexp) -> (r: Option<Com>)
    ensures
        match (r, build_com_spec(s@)) {
            (Some(c), Some(m)) => c@ == m,
            (None, None) => true,
            _ => false,
        },
    decreases s,
{
    proof {
        reveal_strlit("Com_Skip");
        reveal_strlit("Com_Assign");
        reveal_strlit("Com_Seq");
        reveal_strlit("Com_If");
        reveal_strlit("Com_While");
    }
    if let Sexp::List(items) = s {
        proof {
            lemma_list_view(*items);
        }
    }
    let (h, args) = match head_args(s) {
        Some(p) => p,
        None => return None,
    };
    if chars_are(h, "Com_Skip") {
        return Some(Com::Skip);
    }
    if let Sexp::Atom(_) = s {
        return None;
    }
    let ghost iv = s@->List_0;
    assert(args.len() + 1 == iv.len());
    if chars_are(h, "Com_Assign") && args.len() > 1 {
        assert(views(args@)[0] == iv[1]);
        assert(views(args@)[1] == iv[2]);
        let x = match build_string(&args[0]) {
            Some(x) => x,
            None => return None,
        };
        match build_aexp(&args[1]) {
            Some(a) => Some(Com::Assign(x, Box::new(a))),
            None => None,
        }
    } else if chars_are(h, "Com_Seq") && args.len() > 1 {
        assert(views(args@)[0] == iv[1]);
        assert(views(args@)[1] == iv[2]);
        proof {
            lemma_arg_decreases(*s, args@, 0);
            lemma_arg_decreases(*s, args@, 1);
        }
        let c0 = match build_com(&args[0]) {
            Some(c) => c,
            None => return None,
        };
        match build_com(&args[1]) {
            Some(c1) => Some(Com::Sequence(Box::new(c0), Box::new(c1))),
            None => None,
        }
    } else if chars_are(h, "Com_If") && args.len() > 2 {
        assert(views(args@)[0] == iv[1]);
        assert(views(args@)[1] == iv[2]);
        assert(views(args@)[2] == iv[3]);
        proof {
            lemma_arg_decreases(*s, args@, 1);
            lemma_arg_decreases(*s, args@, 2);
        }
        let b = match build_bexp(&args[0]) {
            Some(b) => b,
            None => return None,
        };
        let c0 = match build_com(&args[1]) {
            Some(c) => c,
            None => return None,
        };
        match build_com(&args[2]) {
            Some(c1) => Some(Com::If(Box::new(b), Box::new(c0), Box::new(c1))),
            None => None,
        }
    } else if chars_are(h, "Com_While") && args.len() > 1 {
        assert(views(args@)[0] == iv[1]);
        assert(views(args@)[1] == iv[2]);
        proof {
            lemma_arg_decreases(*s, args@, 1);
        }
        let b = match build_bexp(&args[0]) {
            Some(b) => b,
            None => return None,
        };
        match build_com(&args[1]) {
            Some(c) => Some(Com::While(Box::new(b), Box::new(c))),
            None => None,
        }
    } else {
        None
    }
}

// ---------------------------------------------------------------------------
// Printing the program
// ---------------------------------------------------------------------------

/// `A-Z / a-z`.
pub open spec fn is_ascii_alpha(c: char) -> bool {
    ('A' <= c <= 'Z') || ('a' <= c <= 'z')
}

/// A character that may continue an identifier.
pub open spec fn is_ident_char(c: char) -> bool {
    is_ascii_alpha(c) || ('0' <= c <= '9') || c == '_'
}

/// A valid IMP identifier: a letter or `_`, then letters, digits and `_`,
/// and not a reserved word.
pub open spec fn valid_ident_spec(n: Seq<char>) -> bool {
    &&& n.len() > 0
    &&& (is_ascii_alpha(n[0]) || n[0] == '_')
    &&& forall|i: int| 1 <= i < n.len() ==> is_ident_char(#[trigger] n[i])
    &&& !is_keyword_spec(n)
}

/// Whether `name` is a valid IMP identifier.
pub fn is_valid_ident(name: &str) -> (r: bool)
    ensures
        r == valid_ident_spec(name@),
{
    let v = chars_of(name);
    if v.len() == 0 {
        return false;
    }
    let c = v[0];
    if !(('A' <= c && c <= 'Z') || ('a' <= c && c <= 'z') || c == '_') {
        return false;
    }
    let mut i: usize = 1;
    while i < v.len()
        invariant
            1 <= i <= v.len(),
            v@ == name@,
            forall|k: int| 1 <= k < i ==> is_ident_char(#[trigger] v@[k]),
        decreases v.len() - i,
    {
        let d = v[i];
        if !(('A' <= d && d <= 'Z') || ('a' <= d && d <= 'z') || ('0' <= d && d <= '9') || d
            == '_') {
            assert(!is_ident_char(v@[i as int]));
            return false;
        }
        i = i + 1;
    }
    !is_keyword(name)
}

/// The printer's memory: each name met so far with the name it prints as,
/// and the number of invented names.
pub type PState = Seq<(Seq<char>, Seq<char>)>;

/// The printed form remembered for `raw`.
pub open spec fn names_lookup(names: Seq<(Seq<char>, Seq<char>)>, raw: Seq<char>) -> Option<
    Seq<char>,
>
    decreases names.len(),
{
    if names.len() == 0 {
        None
    } else if names[0].0 == raw {
        Some(names[0].1)
    } else {
        names_lookup(names.drop_first(), raw)
    }
}

/// The invented name number `k`: `v<k>`.
pub open spec fn fresh_name(k: nat) -> Seq<char> {
    "v"@ + dec_nat(k)
}

/// Some remembered name is printed as `w`.
pub open spec fn printed_as(names: Seq<(Seq<char>, Seq<char>)>, w: Seq<char>) -> bool {
    exists|i: int| 0 <= i < names.len() && #[trigger] names[i].1 == w
}

/// The first number from `k` on (looking at most `fuel` numbers ahead)
/// whose invented name no remembered name is printed as.
pub open spec fn first_free(names: Seq<(Seq<char>, Seq<char>)>, k: nat, fuel: nat) -> nat
    decreases fuel,
{
    if fuel == 0 || !printed_as(names, fresh_name(k)) {
        k
    } else {
        first_free(names, k + 1, (fuel - 1) as nat)
    }
}

/// The printed name of `raw`: the one given before, else `raw` itself when
/// it is a valid identifier, else the first invented name `v0`, `v1`, ...
/// that no remembered name is printed as.
#[verifier::opaque]
pub open spec fn name_spec(raw: Seq<char>, st: PState) -> (Seq<char>, PState) {
    match names_lookup(st, raw) {
        Some(c) => (c, st),
        None => if valid_ident_spec(raw) {
            (raw, st.push((raw, raw)))
        } else {
            let c = fresh_name(first_free(st, 0, st.len()));
            (c, st.push((raw, c)))
        },
    }
}

/// `(l op r)`.
#[verifier::opaque]
pub open spec fn bin_text(l: Seq<char>, op: Seq<char>, r: Seq<char>) -> Seq<char> {
    "("@ + l + " "@ + op + " "@ + r + ")"@
}

/// The text of an arithmetic expression.
#[verifier::opaque]
pub open spec fn aexp_text(a: AexpM, st: PState) -> (Seq<char>, PState)
    decreases a,
{
    match a {
        AexpM::Num(n) => (dec_int(n as int), st),
        AexpM::Var(x) => name_spec(x, st),
        AexpM::Add(l, r) | AexpM::Sub(l, r) | AexpM::Mul(l, r) | AexpM::Div(l, r) => {
            let (ls, s1) = aexp_text(*l, st);
            let (rs, s2) = aexp_text(*r, s1);
            let op = match a {
                AexpM::Add(_, _) => "+"@,
                AexpM::Sub(_, _) => "-"@,
                AexpM::Mul(_, _) => "*"@,
                _ => "/"@,
            };
            (bin_text(ls, op, rs), s2)
        },
    }
}

/// The text of a boolean expression.
#[verifier::opaque]
pub open spec fn bexp_text(b: BexpM, st: PState) -> (Seq<char>, PState)
    decreases b,
{
    match b {
        BexpM::True => ("true"@, st),
        BexpM::False => ("false"@, st),
        BexpM::Eq(l, r) | BexpM::Le(l, r) => {
            let (ls, s1) = aexp_text(*l, st);
            let (rs, s2) = aexp_text(*r, s1);
            (
                bin_text(
                    ls,
                    if b is Eq {
                        "=="@
                    } else {
                        "<="@
                    },
                    rs,
                ),
                s2,
            )
        },
        BexpM::Not(x) => {
            let (xs, s1) = bexp_text(*x, st);
            ("(not "@ + xs + ")"@, s1)
        },
        BexpM::And(l, r) | BexpM::Or(l, r) => {
            let (ls, s1) = bexp_text(*l, st);
            let (rs, s2) = bexp_text(*r, s1);
            (
                bin_text(
                    ls,
                    if b is And {
                        "and"@
                    } else {
                        "or"@
                    },
                    rs,
                ),
                s2,
            )
        },
    }
}

/// The text of a command in statement position (a sequence is
/// parenthesized).
#[verifier::opaque]
pub open spec fn stmt_text(c: ComM, st: PState) -> (Seq<char>, PState)
    decreases c,
{
    match c {
        ComM::Skip => ("skip"@, st),
        ComM::Assign(x, a) => {
            let (n, s1) = name_spec(x, st);
            let (t, s2) = aexp_text(*a, s1);
            (n + " := "@ + t, s2)
        },
        ComM::If(b, c0, c1) => {
            let (bs, s1) = bexp_text(*b, st);
            let (t0, s2) = stmt_text(*c0, s1);
            let (t1, s3) = stmt_text(*c1, s2);
            ("if "@ + bs + " then "@ + t0 + " else "@ + t1, s3)
        },
        ComM::While(b, body) => {
            let (bs, s1) = bexp_text(*b, st);
            let (t, s2) = stmt_text(*body, s1);
            ("while "@ + bs + " do "@ + t, s2)
        },
        ComM::Sequence(c0, c1) => {
            let (t0, s1) = stmt_text(*c0, st);
            let (t1, s2) = stmt_text(*c1, s1);
            ("("@ + t0 + " ; "@ + t1 + ")"@, s2)
        },
    }
}

/// The text of a whole program: a top-level sequence is not parenthesized.
pub open spec fn com_text(c: ComM, st: PState) -> (Seq<char>, PState) {
    match c {
        ComM::Sequence(c0, c1) => {
            let (t0, s1) = stmt_text(*c0, st);
            let (t1, s2) = stmt_text(*c1, s1);
            (t0 + " ; "@ + t1, s2)
        },
        _ => stmt_text(c, st),
    }
}

/// The names view of the printer's memory.
pub open spec fn names_view(names: Seq<(Vec<char>, Vec<char>)>) -> Seq<(Seq<char>, Seq<char>)> {
    Seq::new(names.len(), |i: int| (names[i].0@, names[i].1@))
}

/// The names of an arithmetic expression, in order of occurrence.
pub open spec fn aexp_names(a: AexpM) -> Seq<Seq<char>>
    decreases a,
{
    match a {
        AexpM::Num(_) => Seq::empty(),
        AexpM::Var(x) => seq![x],
        AexpM::Add(l, r) | AexpM::Sub(l, r) | AexpM::Mul(l, r) | AexpM::Div(l, r) => aexp_names(*l)
            + aexp_names(*r),
    }
}

/// The names of a boolean expression, in order of occurrence.
pub open spec fn bexp_names(b: BexpM) -> Seq<Seq<char>>
    decreases b,
{
    match b {
        BexpM::True | BexpM::False => Seq::empty(),
        BexpM::Eq(l, r) | BexpM::Le(l, r) => aexp_names(*l) + aexp_names(*r),
        BexpM::Not(x) => bexp_names(*x),
        BexpM::And(l, r) | BexpM::Or(l, r) => bexp_names(*l) + bexp_names(*r),
    }
}

/// The names of a command, in order of occurrence.
pub open spec fn com_names(c: ComM) -> Seq<Seq<char>>
    decreases c,
{
    match c {
        ComM::Skip => Seq::empty(),
        ComM::Assign(x, a) => seq![x] + aexp_names(*a),
        ComM::If(b, c0, c1) => bexp_names(*b) + com_names(*c0) + com_names(*c1),
        ComM::While(b, body) => bexp_names(*b) + com_names(*body),
        ComM::Sequence(c0, c1) => com_names(*c0) + com_names(*c1),
    }
}

/// The valid identifiers among `ns`, each remembered as printed as itself.
pub open spec fn identity_names(ns: Seq<Seq<char>>) -> PState
    decreases ns.len(),
{
    if ns.len() == 0 {
        Seq::empty()
    } else if valid_ident_spec(ns[0]) {
        seq![(ns[0], ns[0])] + identity_names(ns.drop_first())
    } else {
        identity_names(ns.drop_first())
    }
}

pub proof fn lemma_identity_names_concat(a: Seq<Seq<char>>, b: Seq<Seq<char>>)
    ensures
        identity_names(a + b) == identity_names(a) + identity_names(b),
    decreases a.len(),
{
    if a.len() == 0 {
        assert(a + b =~= b);
    } else {
        assert((a + b).drop_first() =~= a.drop_first() + b);
        lemma_identity_names_concat(a.drop_first(), b);
        if valid_ident_spec(a[0]) {
            assert(seq![(a[0], a[0])] + (identity_names(a.drop_first()) + identity_names(b))
                =~= seq![(a[0], a[0])] + identity_names(a.drop_first()) + identity_names(b));
        }
    }
}

/// The memory a printer starts a command with: every valid identifier of
/// the command is printed as itself, so that no invented name can take it.
pub open spec fn start_state(c: ComM) -> PState {
    identity_names(com_names(c))
}

/// Prints programs, renaming names that are not valid identifiers.
pub struct Printer {
    names: Vec<(Vec<char>, Vec<char>)>,
}

impl Printer {
    /// The printer's memory.
    pub closed spec fn state(&self) -> PState {
        names_view(self.names@)
    }

    /// A printer that has met no name yet.
    pub fn new() -> (p: Printer)
        ensures
            p.state() == Seq::<(Seq<char>, Seq<char>)>::empty(),
    {
        let p = Printer { names: Vec::new() };
        assert(names_view(p.names@) =~= Seq::<(Seq<char>, Seq<char>)>::empty());
        p
    }

    /// Remember `raw` as printed as itself when it is a valid identifier.
    fn keep_valid(&mut self, raw: &String)
        ensures
            final(self).state() == old(self).state() + identity_names(seq![raw@]),
    {
        let ghost ns = seq![raw@];
        assert(ns.drop_first() =~= Seq::<Seq<char>>::empty());
        assert(identity_names(ns.drop_first()) == Seq::<(Seq<char>, Seq<char>)>::empty());
        assert(ns[0] == raw@);
        if is_valid_ident(raw.as_str()) {
            let r = chars_of(raw.as_str());
            let k = copy_range(&r, 0, r.len());
            let c = copy_range(&r, 0, r.len());
            assert(r@.subrange(0, r@.len() as int) == r@);
            let ghost before = self.names@;
            self.names.push((k, c));
            assert(identity_names(ns) =~= seq![(raw@, raw@)]);
            assert(names_view(self.names@) =~= names_view(before) + identity_names(ns));
        } else {
            assert(identity_names(ns) =~= Seq::<(Seq<char>, Seq<char>)>::empty());
            assert(names_view(self.names@) =~= names_view(self.names@) + identity_names(ns));
        }
    }

    /// Remember the valid identifiers of an arithmetic expression.
    fn keep_aexp(&mut self, a: &Aexp)
        ensures
            final(self).state() == old(self).state() + identity_names(aexp_names(a@)),
        decreases a,
    {
        match a {
            Aexp::Num(_) => {
                assert(old(self).state() + identity_names(aexp_names(a@)) =~= old(self).state());
            },
            Aexp::Var(x) => self.keep_valid(x),
            Aexp::Add(l, r) | Aexp::Sub(l, r) | Aexp::Mul(l, r) | Aexp::Div(l, r) => {
                self.keep_aexp(l);
                self.keep_aexp(r);
                proof {
                    lemma_identity_names_concat(aexp_names((**l)@), aexp_names((**r)@));
                }
                assert(aexp_names(a@) == aexp_names((**l)@) + aexp_names((**r)@));
                assert(self.state() =~= old(self).state() + identity_names(aexp_names(a@)));
            },
        }
    }

    /// Remember the valid identifiers of a boolean expression.
    fn keep_bexp(&mut self, b: &Bexp)
        ensures
            final(self).state() == old(self).state() + identity_names(bexp_names(b@)),
        decreases b,
    {
        match b {
            Bexp::True | Bexp::False => {
                assert(old(self).state() + identity_names(bexp_names(b@)) =~= old(self).state());
            },
            Bexp::Eq(l, r) | Bexp::Le(l, r) => {
                self.keep_aexp(l);
                self.keep_aexp(r);
                proof {
                    lemma_identity_names_concat(aexp_names((**l)@), aexp_names((**r)@));
                }
                assert(bexp_names(b@) == aexp_names((**l)@) + aexp_names((**r)@));
                assert(self.state() =~= old(self).state() + identity_names(bexp_names(b@)));
            },
            Bexp::Not(x) => self.keep_bexp(x),
            Bexp::And(l, r) | Bexp::Or(l, r) => {
                self.keep_bexp(l);
                self.keep_bexp(r);
                proof {
                    lemma_identity_names_concat(bexp_names((**l)@), bexp_names((**r)@));
                }
                assert(bexp_names(b@) == bexp_names((**l)@) + bexp_names((**r)@));
                assert(self.state() =~= old(self).state() + identity_names(bexp_names(b@)));
            },
        }
    }

    /// Remember the valid identifiers of a command.
    fn keep_com(&mut self, c: &Com)
        ensures
            final(self).state() == old(self).state() + identity_names(com_names(c@)),
        decreases c,
    {
        match c {
            Com::Skip => {
                assert(old(self).state() + identity_names(com_names(c@)) =~= old(self).state());
            },
            Com::Assign(x, a) => {
                self.keep_valid(x);
                self.keep_aexp(a);
                proof {
                    lemma_identity_names_concat(seq![x@], aexp_names((**a)@));
                }
                assert(self.state() =~= old(self).state() + identity_names(com_names(c@)));
            },
            Com::If(b, c0, c1) => {
                self.keep_bexp(b);
                self.keep_com(c0);
                self.keep_com(c1);
                proof {
                    lemma_identity_names_concat(bexp_names((**b)@), com_names((**c0)@));
                    lemma_identity_names_concat(
                        bexp_names((**b)@) + com_names((**c0)@),
                        com_names((**c1)@),
                    );
                }
                assert(self.state() =~= old(self).state() + identity_names(com_names(c@)));
            },
            Com::While(b, body) => {
                self.keep_bexp(b);
                self.keep_com(body);
                proof {
                    lemma_identity_names_concat(bexp_names((**b)@), com_names((**body)@));
                }
                assert(self.state() =~= old(self).state() + identity_names(com_names(c@)));
            },
            Com::Sequence(c0, c1) => {
                self.keep_com(c0);
                self.keep_com(c1);
                proof {
                    lemma_identity_names_concat(com_names((**c0)@), com_names((**c1)@));
                }
                assert(self.state() =~= old(self).state() + identity_names(com_names(c@)));
            },
        }
    }

    /// A printer for the command `c`: it starts by remembering every valid
    /// identifier of `c` as printed as itself.
    pub fn for_command(c: &Com) -> (p: Printer)
        ensures
            p.state() == start_state(c@),
    {
        let mut p = Printer::new();
        p.keep_com(c);
        assert(p.state() =~= start_state(c@));
        p
    }

    /// Map each distinct name of the model to a valid IMP identifier, reusing
    /// the same name for repeated occurrences. Solvers pick degenerate names
    /// (empty, `!0!`, ...); the specific name does not affect which marker is
    /// reached, so renaming them to the first of `v0`, `v1`, ... that no
    /// remembered name is printed as keeps the program parseable and
    /// replayable (see `lemma_printed_names_distinct`).
    #[verifier::loop_isolation(false)]
    pub fn name(&mut self, raw: &String, out: &mut Vec<char>)
        requires
        ensures
            final(out)@ == old(out)@ + name_spec(raw@, old(self).state()).0,
            final(self).state() == name_spec(raw@, old(self).state()).1,
    {
        proof {
            reveal(name_spec);
        }
        let r = chars_of(raw.as_str());
        let mut i: usize = 0;
        assert(names_view(self.names@).skip(0) =~= names_view(self.names@));
        while i < self.names.len()
            invariant
                i <= self.names.len(),
                r@ == raw@,
                out@ == old(out)@,
                names_lookup(names_view(self.names@), raw@) == names_lookup(
                    names_view(self.names@).skip(i as int),
                    raw@,
                ),
            decreases self.names.len() - i,
        {
            let ghost rest = names_view(self.names@).skip(i as int);
            assert(rest[0] == (self.names@[i as int].0@, self.names@[i as int].1@));
            assert(rest.drop_first() =~= names_view(self.names@).skip(i + 1));
            if chars_eq(&self.names[i].0, &r) {
                let canon = &self.names[i].1;
                let mut j: usize = 0;
                assert(old(out)@ + canon@.take(0) =~= old(out)@);
                while j < canon.len()
                    invariant
                        j <= canon.len(),
                        out@ == old(out)@ + canon@.take(j as int),
                    decreases canon.len() - j,
                {
                    out.push(canon[j]);
                    assert(canon@.take(j + 1) == canon@.take(j as int).push(canon@[j as int]));
                    j = j + 1;
                }
                assert(canon@.take(canon.len() as int) == canon@);
                return;
            }
            i = i + 1;
        }
        assert(names_view(self.names@).skip(self.names.len() as int) =~= Seq::<
            (Seq<char>, Seq<char>),
        >::empty());
        let ghost old_names = self.names@;
        if is_valid_ident(raw.as_str()) {
            let mut j: usize = 0;
            assert(old(out)@ + r@.take(0) =~= old(out)@);
            while j < r.len()
                invariant
                    j <= r.len(),
                    out@ == old(out)@ + r@.take(j as int),
                decreases r.len() - j,
            {
                out.push(r[j]);
                assert(r@.take(j + 1) == r@.take(j as int).push(r@[j as int]));
                j = j + 1;
            }
            assert(r@.take(r.len() as int) == r@);
            let c = copy_range(&r, 0, r.len());
            assert(r@.subrange(0, r@.len() as int) == r@);
            let k = copy_range(&r, 0, r.len());
            self.names.push((k, c));
            assert(names_view(self.names@) =~= names_view(old_names).push((raw@, raw@)));
        } else {
            let n = self.names.len();
            let mut k: usize = 0;
            let mut c = fresh_chars(k);
            while k < n && printed_in(&self.names, &c)
                invariant
                    k <= n == self.names.len(),
                    self.names@ == old_names,
                    c@ == fresh_name(k as nat),
                    first_free(names_view(old_names), 0, n as nat) == first_free(
                        names_view(old_names),
                        k as nat,
                        (n - k) as nat,
                    ),
                decreases n - k,
            {
                k = k + 1;
                c = fresh_chars(k);
            }
            assert(first_free(names_view(old_names), k as nat, (n - k) as nat) == k);
            let mut j: usize = 0;
            assert(old(out)@ + c@.take(0) =~= old(out)@);
            while j < c.len()
                invariant
                    j <= c.len(),
                    out@ == old(out)@ + c@.take(j as int),
                decreases c.len() - j,
            {
                out.push(c[j]);
                assert(c@.take(j + 1) == c@.take(j as int).push(c@[j as int]));
                j = j + 1;
            }
            assert(c@.take(c.len() as int) == c@);
            let kr = copy_range(&r, 0, r.len());
            assert(r@.subrange(0, r@.len() as int) == r@);
            let ghost cv = c@;
            self.names.push((kr, c));
            assert(names_view(self.names@) =~= names_view(old_names).push((raw@, cv)));
        }
    }
}

/// The characters of the invented name number `k`.
fn fresh_chars(k: usize) -> (c: Vec<char>)
    ensures
        c@ == fresh_name(k as nat),
{
    let mut c: Vec<char> = Vec::new();
    c.push('v');
    push_u64(&mut c, k as u64);
    proof {
        reveal_strlit("v");
        assert(c@ =~= "v"@ + dec_nat(k as nat));
    }
    c
}

/// Whether some remembered name is printed as `w`.
fn printed_in(names: &Vec<(Vec<char>, Vec<char>)>, w: &Vec<char>) -> (r: bool)
    ensures
        r == printed_as(names_view(names@), w@),
{
    let mut i: usize = 0;
    while i < names.len()
        invariant
            i <= names.len(),
            forall|m: int| 0 <= m < i ==> names@[m].1@ != w@,
        decreases names.len() - i,
    {
        if chars_eq(&names[i].1, w) {
            assert(names_view(names@)[i as int].1 == w@);
            return true;
        }
        i = i + 1;
    }
    assert forall|m: int| 0 <= m < names_view(names@).len() implies #[trigger] names_view(names@)[m].1
        != w@ by {
        assert(names_view(names@)[m].1 == names@[m].1@);
    }
    false
}

/// Append the characters of `lit`.
fn push_lit(out: &mut Vec<char>, lit: &str)
    ensures
        final(out)@ == old(out)@ + lit@,
{
    let v = chars_of(lit);
    let mut i: usize = 0;
    while i < v.len()
        invariant
            i <= v.len(),
            v@ == lit@,
            out@ == old(out)@ + v@.take(i as int),
        decreases v.len() - i,
    {
        out.push(v[i]);
        assert(v@.take(i + 1) == v@.take(i as int).push(v@[i as int]));
        i = i + 1;
    }
    assert(v@.take(v.len() as int) == v@);
}

impl Printer {
    /// Print an arithmetic expression.
    pub fn aexp(&mut self, a: &Aexp, out: &mut Vec<char>)
        requires
        ensures
            final(out)@ == old(out)@ + aexp_text(a@, old(self).state()).0,
            final(self).state() == aexp_text(a@, old(self).state()).1,
        decreases a,
    {
        proof {
            reveal(aexp_text);
            reveal(bin_text);
        }
        match a {
            Aexp::Num(n) => push_i64(out, *n),
            Aexp::Var(x) => self.name(x, out),
            Aexp::Add(l, r) | Aexp::Sub(l, r) | Aexp::Mul(l, r) | Aexp::Div(l, r) => {
                let ghost o0 = out@;
                let ghost st0 = self.state();
                push_lit(out, "(");
                self.aexp(l, out);
                let op = match a {
                    Aexp::Add(_, _) => "+",
                    Aexp::Sub(_, _) => "-",
                    Aexp::Mul(_, _) => "*",
                    _ => "/",
                };
                push_lit(out, " ");
                push_lit(out, op);
                push_lit(out, " ");
                self.aexp(r, out);
                push_lit(out, ")");
                proof {
                    reveal_strlit("+");
                    reveal_strlit("-");
                    reveal_strlit("*");
                    reveal_strlit("/");
                    let (ls, s1) = aexp_text((**l)@, st0);
                    let (rs, s2) = aexp_text((**r)@, s1);
                    assert(out@ =~= o0 + bin_text(ls, op@, rs));
                }
            },
        }
    }

    /// Print a boolean expression.
    pub fn bexp(&mut self, b: &Bexp, out: &mut Vec<char>)
        requires
        ensures
            final(out)@ == old(out)@ + bexp_text(b@, old(self).state()).0,
            final(self).state() == bexp_text(b@, old(self).state()).1,
        decreases b,
    {
        proof {
            reveal(bexp_text);
            reveal(bin_text);
        }
        let ghost o0 = out@;
        let ghost st0 = self.state();
        match b {
            Bexp::True => push_lit(out, "true"),
            Bexp::False => push_lit(out, "false"),
            Bexp::Eq(l, r) | Bexp::Le(l, r) => {
                push_lit(out, "(");
                self.aexp(l, out);
                let op = if let Bexp::Eq(_, _) = b {
                    "=="
                } else {
                    "<="
                };
                push_lit(out, " ");
                push_lit(out, op);
                push_lit(out, " ");
                self.aexp(r, out);
                push_lit(out, ")");
                proof {
                    let (ls, s1) = aexp_text((**l)@, st0);
                    let (rs, s2) = aexp_text((**r)@, s1);
                    assert(out@ =~= o0 + bin_text(ls, op@, rs));
                }
            },
            Bexp::Not(x) => {
                push_lit(out, "(not ");
                self.bexp(x, out);
                push_lit(out, ")");
                proof {
                    let (xs, s1) = bexp_text((**x)@, st0);
                    assert(out@ =~= o0 + ("(not "@ + xs + ")"@));
                }
            },
            Bexp::And(l, r) | Bexp::Or(l, r) => {
                push_lit(out, "(");
                self.bexp(l, out);
                let op = if let Bexp::And(_, _) = b {
                    "and"
                } else {
                    "or"
                };
                push_lit(out, " ");
                push_lit(out, op);
                push_lit(out, " ");
                self.bexp(r, out);
                push_lit(out, ")");
                proof {
                    let (ls, s1) = bexp_text((**l)@, st0);
                    let (rs, s2) = bexp_text((**r)@, s1);
                    assert(out@ =~= o0 + bin_text(ls, op@, rs));
                }
            },
        }
    }

    /// Print a command in statement position.
    pub fn stmt(&mut self, c: &Com, out: &mut Vec<char>)
        requires
        ensures
            final(out)@ == old(out)@ + stmt_text(c@, old(self).state()).0,
            final(self).state() == stmt_text(c@, old(self).state()).1,
        decreases c,
    {
        proof {
            reveal(stmt_text);
        }
        let ghost o0 = out@;
        let ghost st0 = self.state();
        match c {
            Com::Skip => push_lit(out, "skip"),
            Com::Assign(x, a) => {
                self.name(x, out);
                push_lit(out, " := ");
                self.aexp(a, out);
                proof {
                    let (n, s1) = name_spec(x@, st0);
                    let (t, s2) = aexp_text((**a)@, s1);
                    assert(out@ =~= o0 + (n + " := "@ + t));
                }
            },
            Com::If(b, c0, c1) => {
                push_lit(out, "if ");
                self.bexp(b, out);
                push_lit(out, " then ");
                self.stmt(c0, out);
                push_lit(out, " else ");
                self.stmt(c1, out);
                proof {
                    let (bs, s1) = bexp_text((**b)@, st0);
                    let (t0, s2) = stmt_text((**c0)@, s1);
                    let (t1, s3) = stmt_text((**c1)@, s2);
                    assert(out@ =~= o0 + ("if "@ + bs + " then "@ + t0 + " else "@ + t1));
                }
            },
            Com::While(b, body) => {
                push_lit(out, "while ");
                self.bexp(b, out);
                push_lit(out, " do ");
                self.stmt(body, out);
                proof {
                    let (bs, s1) = bexp_text((**b)@, st0);
                    let (t, s2) = stmt_text((**body)@, s1);
                    assert(out@ =~= o0 + ("while "@ + bs + " do "@ + t));
                }
            },
            Com::Sequence(c0, c1) => {
                push_lit(out, "(");
                self.stmt(c0, out);
                push_lit(out, " ; ");
                self.stmt(c1, out);
                push_lit(out, ")");
                proof {
                    let (t0, s1) = stmt_text((**c0)@, st0);
                    let (t1, s2) = stmt_text((**c1)@, s1);
                    assert(out@ =~= o0 + ("("@ + t0 + " ; "@ + t1 + ")"@));
                }
            },
        }
    }

    /// Print a whole program.
    pub fn com(&mut self, c: &Com, out: &mut Vec<char>)
        requires
        ensures
            final(out)@ == old(out)@ + com_text(c@, old(self).state()).0,
            final(self).state() == com_text(c@, old(self).state()).1,
    {
        let ghost o0 = out@;
        let ghost st0 = self.state();
        match c {
            Com::Sequence(c0, c1) => {
                self.stmt(c0, out);
                push_lit(out, " ; ");
                self.stmt(c1, out);
                proof {
                    let (t0, s1) = stmt_text((**c0)@, st0);
                    let (t1, s2) = stmt_text((**c1)@, s1);
                    assert(out@ =~= o0 + (t0 + " ; "@ + t1));
                }
            },
            _ => self.stmt(c, out),
        }
    }
}

/// The source text of a program, as printed by a printer for it.
pub open spec fn source_text(c: ComM) -> Seq<char> {
    com_text(c, start_state(c)).0
}

/// Pretty-print a [`Com`] as `.imp` source accepted by `parse_imp_source`.
pub fn com_to_source(c: &Com) -> (r: String)
    ensures
        r@ == source_text(c@),
{
    let mut p = Printer::for_command(c);
    let mut out: Vec<char> = Vec::new();
    p.com(c, &mut out);
    assert(out@ =~= com_text(c@, start_state(c@)).0);
    string_of(&out)
}

/// The program of a model: the value of `input_0`, its `let`s inlined,
/// rebuilt as a command.
pub open spec fn model_spec(m: Seq<char>) -> Option<ComM> {
    match extract_spec(m) {
        Some(v) => build_com_spec(resolve_spec(v, seq![])),
        None => None,
    }
}

/// Parse a solver model, extract the `input_0` definition, and rebuild it as
/// a [`Com`]. Names and literals are kept as the model gives them; the
/// readable rewriting happens in [`com_to_source`].
pub fn model_to_com(model_text: &str) -> (r: Result<Com, String>)
    ensures
        match r {
            Ok(c) => model_spec(model_text@) == Some(c@),
            Err(e) => model_spec(model_text@) is None && e@ == (if extract_spec(
                model_text@,
            ) is None {
                "input_0 not found in model"@
            } else {
                "input_0 is not an IMP program"@
            }),
        },
{
    let value = match extract_input_0(model_text) {
        Some(v) => v,
        None => return Err(String::from_str("input_0 not found in model")),
    };
    let env: Vec<(Vec<char>, Sexp)> = Vec::new();
    assert(env_view(env@) =~= seq![]);
    let resolved = resolve(&value, &env);
    match build_com(&resolved) {
        Some(c) => Ok(c),
        None => Err(String::from_str("input_0 is not an IMP program")),
    }
}

/// The first line of a text (without a final carriage return).
pub open spec fn first_line(t: Seq<char>) -> Seq<char> {
    match find_spec(t, "\n"@) {
        Some(i) => t.take(i),
        None => t,
    }
}

/// Render a whole solver response: `Some(source)` for a `sat` model, `None`
/// for `unsat`/`unknown`/`timeout` or malformed input.
pub fn render_response(response_text: &str) -> (r: Option<String>)
    ensures
        match r {
            Some(src) => crate::text::trim(first_line(response_text@)) == "sat"@ && exists|c: ComM|
                model_spec(response_text@) == Some(c) && src@ == source_text(c),
            None => crate::text::trim(first_line(response_text@)) != "sat"@ || model_spec(
                response_text@,
            ) is None,
        },
{
    let chars = chars_of(response_text);
    let end = match find(&chars, "\n") {
        Some(i) => {
            proof {
                lemma_find_from(chars@, "\n"@, 0);
                reveal_strlit("\n");
            }
            i
        },
        None => chars.len(),
    };
    let line = copy_range(&chars, 0, end);
    assert(line@ == first_line(response_text@));
    let (a, b) = crate::text::trim_bounds(&line);
    let t = copy_range(&line, a, b);
    if !chars_are(&t, "sat") {
        return None;
    }
    match model_to_com(response_text) {
        Ok(c) => Some(com_to_source(&c)),
        Err(_) => None,
    }
}

} // verus!
