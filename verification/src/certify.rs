//! Replay verdicts for candidate object-language programs.
//!
//! A candidate is accepted for a target marker only if, re-executed through the
//! reference semantics, it reaches every marker the target names. A verdict
//! travels between processes as a single line ("wire" form); decoding the
//! encoding of a verdict gives that verdict back.

use vstd::prelude::*;
use crate::text::{
    copy_range, chars_of, string_of, trim, trim_bounds, has_prefix, range_eq, range_has_prefix, is_ws,
    is_whitespace, dec_nat, push_u64, parse_usize, parse_usize_spec, lemma_dec_nat, all_digits,
    digits_val, lead_ws, trail_ws, lemma_lead_ws_unique, lemma_trail_ws_unique,
};
use crate::markers::{
    Path, marker_id, marker_id_spec, marker_name, marker_name_spec, DIVISION_BY_ZERO,
    UNDEFINED_VARIABLE,
};
use crate::imp::{EvalResult, ceval, eval_com};
use crate::toml::{ParseResult as TomlParseResult, toml_marker};
use crate::toml::document::{parse_toml, toml_spec};
use crate::imp::parser::{parse_imp_source, program_spec, err_msg};
use crate::imp::store::{Store, StoreModel, seq_lt, chars_lt, lemma_seq_lt_total, lemma_seq_lt_trans, lemma_seq_lt_asym};

verus! {

/// The outcome of certifying a candidate program against a target marker.
#[derive(Debug, Clone, PartialEq, Eq)]
pub enum Verdict {
    /// Parsed, terminated within budget, and the targeted marker fired.
    ReachedTarget,
    /// Parsed and terminated, but not every targeted marker fired (the
    /// identifiers that fired are carried, in increasing order).
    ReachedOtherMarker(Vec<usize>),
    /// Parsed and terminated normally, firing no marker.
    NoMarker,
    /// The candidate did not parse as object-language source.
    ParseError(String),
    /// Replay exceeded its budget (e.g. a non-terminating loop).
    Timeout,
    /// The isolated replay process died abnormally.
    Crashed(String),
}

/// The mathematical model of a [`Verdict`].
pub ghost enum VerdictModel {
    ReachedTarget,
    ReachedOtherMarker(Seq<usize>),
    NoMarker,
    ParseError(Seq<char>),
    Timeout,
    Crashed(Seq<char>),
}

impl View for Verdict {
    type V = VerdictModel;

    open spec fn view(&self) -> VerdictModel {
        match self {
            Verdict::ReachedTarget => VerdictModel::ReachedTarget,
            Verdict::ReachedOtherMarker(ids) => VerdictModel::ReachedOtherMarker(ids@),
            Verdict::NoMarker => VerdictModel::NoMarker,
            Verdict::ParseError(m) => VerdictModel::ParseError(m@),
            Verdict::Timeout => VerdictModel::Timeout,
            Verdict::Crashed(m) => VerdictModel::Crashed(m@),
        }
    }
}

/// `m` with every line feed replaced by a space.
pub open spec fn no_newlines(m: Seq<char>) -> Seq<char> {
    Seq::new(m.len(), |i: int| if m[i] == '\n' { ' ' } else { m[i] })
}

/// Decimal identifiers separated by single spaces.
pub open spec fn join_ids(ids: Seq<usize>) -> Seq<char>
    decreases ids.len(),
{
    if ids.len() == 0 {
        seq![]
    } else if ids.len() == 1 {
        dec_nat(ids[0] as nat)
    } else {
        dec_nat(ids[0] as nat) + seq![' '] + join_ids(ids.drop_first())
    }
}

/// The single line that encodes a verdict.
pub open spec fn wire(v: VerdictModel) -> Seq<char> {
    match v {
        VerdictModel::ReachedTarget => "REACHED_TARGET"@,
        VerdictModel::ReachedOtherMarker(ids) => "REACHED_OTHER "@ + join_ids(ids),
        VerdictModel::NoMarker => "NO_MARKER"@,
        VerdictModel::ParseError(m) => "PARSE_ERROR "@ + no_newlines(m),
        VerdictModel::Timeout => "TIMEOUT"@,
        VerdictModel::Crashed(m) => "CRASHED "@ + no_newlines(m),
    }
}

proof fn lemma_join_ids_push(ids: Seq<usize>)
    requires
        ids.len() >= 2,
    ensures
        join_ids(ids) == join_ids(ids.drop_last()) + seq![' '] + dec_nat(ids.last() as nat),
    decreases ids.len(),
{
    let d0 = dec_nat(ids[0] as nat);
    if ids.len() == 2 {
        assert(ids.drop_last().len() == 1);
        assert(ids.drop_first().len() == 1);
        assert(join_ids(ids.drop_last()) == d0);
        assert(join_ids(ids.drop_first()) == dec_nat(ids.last() as nat));
    } else {
        let df = ids.drop_first();
        lemma_join_ids_push(df);
        assert(df.drop_last() == ids.drop_last().drop_first());
        assert(join_ids(ids.drop_last()) == d0 + seq![' '] + join_ids(df.drop_last()));
        assert(join_ids(ids) == d0 + seq![' '] + join_ids(df));
        assert(join_ids(ids) =~= join_ids(ids.drop_last()) + seq![' '] + dec_nat(ids.last() as nat));
    }
}

fn push_str(out: &mut Vec<char>, s: &str)
    ensures
        final(out)@ == old(out)@ + s@,
{
    let v = chars_of(s);
    let mut i: usize = 0;
    while i < v.len()
        invariant
            i <= v.len(),
            v@ == s@,
            out@ == old(out)@ + v@.take(i as int),
        decreases v.len() - i,
    {
        out.push(v[i]);
        assert(v@.take(i + 1) == v@.take(i as int).push(v@[i as int]));
        i = i + 1;
    }
    assert(v@.take(v.len() as int) == v@);
}

fn push_no_newlines(out: &mut Vec<char>, m: &String)
    ensures
        final(out)@ == old(out)@ + no_newlines(m@),
{
    let v = chars_of(m.as_str());
    let mut i: usize = 0;
    while i < v.len()
        invariant
            i <= v.len(),
            v@ == m@,
            out@ == old(out)@ + no_newlines(m@).take(i as int),
        decreases v.len() - i,
    {
        let c = v[i];
        out.push(if c == '\n' { ' ' } else { c });
        assert(no_newlines(m@).take(i + 1) == no_newlines(m@).take(i as int).push(
            no_newlines(m@)[i as int],
        ));
        i = i + 1;
    }
    assert(no_newlines(m@).take(v.len() as int) == no_newlines(m@));
}

impl Verdict {
    /// Whether the candidate is an accepted witness for the target marker.
    pub fn is_certified(&self) -> (r: bool)
        ensures
            r == (self is ReachedTarget),
    {
        match self {
            Verdict::ReachedTarget => true,
            _ => false,
        }
    }

    /// Encode this verdict as the single line a replay subprocess prints.
    pub fn to_wire(&self) -> (r: String)
        ensures
            r@ == wire(self@),
    {
        let mut out: Vec<char> = Vec::new();
        match self {
            Verdict::ReachedTarget => push_str(&mut out, "REACHED_TARGET"),
            Verdict::ReachedOtherMarker(ids) => {
                push_str(&mut out, "REACHED_OTHER ");
                let ghost base = out@;
                let mut i: usize = 0;
                while i < ids.len()
                    invariant
                        i <= ids.len(),
                        out@ == base + join_ids(ids@.take(i as int)),
                    decreases ids.len() - i,
                {
                    if i > 0 {
                        out.push(' ');
                    }
                    push_u64(&mut out, ids[i] as u64);
                    proof {
                        let t = ids@.take(i + 1);
                        if i == 0 {
                            assert(t.len() == 1);
                        } else {
                            lemma_join_ids_push(t);
                            assert(t.drop_last() == ids@.take(i as int));
                        }
                    }
                    i = i + 1;
                }
                assert(ids@.take(ids.len() as int) == ids@);
            },
            Verdict::NoMarker => push_str(&mut out, "NO_MARKER"),
            Verdict::ParseError(m) => {
                push_str(&mut out, "PARSE_ERROR ");
                push_no_newlines(&mut out, m);
            },
            Verdict::Timeout => push_str(&mut out, "TIMEOUT"),
            Verdict::Crashed(m) => {
                push_str(&mut out, "CRASHED ");
                push_no_newlines(&mut out, m);
            },
        }
        string_of(&out)
    }
}

} // verus!

verus! {

/// Length of the leading run of non-white-space characters.
pub open spec fn tok_len(s: Seq<char>) -> nat
    decreases s.len(),
{
    if s.len() > 0 && !is_ws(s[0]) {
        1 + tok_len(s.drop_first())
    } else {
        0
    }
}

pub proof fn lemma_tok_len(s: Seq<char>)
    ensures
        tok_len(s) <= s.len(),
        s.len() > 0 && !is_ws(s[0]) ==> tok_len(s) >= 1,
        forall|j: int| 0 <= j < tok_len(s) ==> !is_ws(#[trigger] s[j]),
        tok_len(s) < s.len() ==> is_ws(s[tok_len(s) as int]),
    decreases s.len(),
{
    if s.len() > 0 && !is_ws(s[0]) {
        lemma_tok_len(s.drop_first());
        assert forall|j: int| 0 <= j < tok_len(s) implies !is_ws(#[trigger] s[j]) by {
            if j > 0 {
                assert(s[j] == s.drop_first()[j - 1]);
            }
        }
    }
}

pub proof fn lemma_tok_len_unique(s: Seq<char>, k: int)
    requires
        0 <= k <= s.len(),
        forall|j: int| 0 <= j < k ==> !is_ws(#[trigger] s[j]),
        k < s.len() ==> is_ws(s[k]),
    ensures
        tok_len(s) == k,
    decreases s.len(),
{
    if k > 0 {
        assert forall|j: int| 0 <= j < k - 1 implies !is_ws(#[trigger] s.drop_first()[j]) by {
            assert(s.drop_first()[j] == s[j + 1]);
        }
        lemma_tok_len_unique(s.drop_first(), k - 1);
    }
}

/// The white-space separated tokens of `s` (as `str::split_whitespace`).
pub open spec fn split_ws(s: Seq<char>) -> Seq<Seq<char>>
    decreases s.len(),
{
    if s.len() == 0 {
        seq![]
    } else if is_ws(s[0]) {
        split_ws(s.drop_first())
    } else {
        let k = tok_len(s);
        if 1 <= k <= s.len() {
            seq![s.take(k as int)] + split_ws(s.skip(k as int))
        } else {
            seq![]
        }
    }
}

/// Parse every token as a `usize`; `None` if any token does not parse.
pub open spec fn parse_tokens(ts: Seq<Seq<char>>) -> Option<Seq<usize>>
    decreases ts.len(),
{
    if ts.len() == 0 {
        Some(seq![])
    } else {
        match (parse_usize_spec(ts[0]), parse_tokens(ts.drop_first())) {
            (Some(a), Some(r)) => Some(seq![a] + r),
            _ => None,
        }
    }
}

/// The verdict that a wire line denotes, if it denotes one.
pub open spec fn from_wire_spec(line: Seq<char>) -> Option<VerdictModel> {
    let t = trim(line);
    if t == "REACHED_TARGET"@ {
        Some(VerdictModel::ReachedTarget)
    } else if t == "NO_MARKER"@ {
        Some(VerdictModel::NoMarker)
    } else if t == "TIMEOUT"@ {
        Some(VerdictModel::Timeout)
    } else if has_prefix(t, "REACHED_OTHER"@) {
        match parse_tokens(split_ws(t.skip("REACHED_OTHER"@.len() as int))) {
            Some(ids) => Some(VerdictModel::ReachedOtherMarker(ids)),
            None => None,
        }
    } else if has_prefix(t, "PARSE_ERROR"@) {
        Some(VerdictModel::ParseError(trim(t.skip("PARSE_ERROR"@.len() as int))))
    } else if has_prefix(t, "CRASHED"@) {
        Some(VerdictModel::Crashed(trim(t.skip("CRASHED"@.len() as int))))
    } else {
        None
    }
}

/// Parse the white-space separated identifiers of `v[start..end]`.
fn parse_id_list(v: &Vec<char>, start: usize, end: usize) -> (r: Option<Vec<usize>>)
    requires
        start <= end <= v.len(),
    ensures
        match r {
            Some(ids) => parse_tokens(split_ws(v@.subrange(start as int, end as int))) == Some(
                ids@,
            ),
            None => parse_tokens(split_ws(v@.subrange(start as int, end as int))) is None,
        },
{
    let mut ids: Vec<usize> = Vec::new();
    let mut p = start;
    while p < end
        invariant
            start <= p <= end <= v.len(),
            match parse_tokens(split_ws(v@.subrange(p as int, end as int))) {
                Some(rest) => parse_tokens(split_ws(v@.subrange(start as int, end as int)))
                    == Some(ids@ + rest),
                None => parse_tokens(split_ws(v@.subrange(start as int, end as int))) is None,
            },
        decreases end - p,
    {
        let ghost s = v@.subrange(p as int, end as int);
        if is_whitespace(v[p]) {
            assert(s.drop_first() == v@.subrange(p + 1, end as int));
            p = p + 1;
        } else {
            let mut q = p;
            while q < end && !is_whitespace(v[q])
                invariant
                    p <= q <= end <= v.len(),
                    forall|j: int| p <= j < q ==> !is_ws(#[trigger] v@[j]),
                decreases end - q,
            {
                q = q + 1;
            }
            proof {
                assert forall|j: int| 0 <= j < q - p implies !is_ws(#[trigger] s[j]) by {
                    assert(s[j] == v@[p + j]);
                }
                if q < end {
                    assert(s[q - p] == v@[q as int]);
                }
                lemma_tok_len_unique(s, q - p);
                assert(s.take(q - p) == v@.subrange(p as int, q as int));
                assert(s.skip(q - p) == v@.subrange(q as int, end as int));
            }
            match parse_usize(v, p, q) {
                None => {
                    return None;
                },
                Some(n) => {
                    proof {
                        let ts = split_ws(s);
                        assert(ts.drop_first() == split_ws(v@.subrange(q as int, end as int)));
                        match parse_tokens(split_ws(v@.subrange(q as int, end as int))) {
                            Some(rest) => {
                                assert(ids@.push(n) + rest =~= ids@ + (seq![n] + rest));
                            },
                            None => {},
                        }
                    }
                    ids.push(n);
                },
            }
            p = q;
        }
    }
    assert(v@.subrange(end as int, end as int) =~= Seq::<char>::empty());
    assert(ids@ + Seq::<usize>::empty() =~= ids@);
    Some(ids)
}

impl Verdict {
    /// Decode a verdict line printed by a replay subprocess.
    pub fn from_wire(line: &str) -> (r: Option<Verdict>)
        ensures
            match r {
                Some(v) => from_wire_spec(line@) == Some(v@),
                None => from_wire_spec(line@) is None,
            },
    {
        let v = chars_of(line);
        let (a, b) = trim_bounds(&v);
        let ghost t = trim(line@);
        assert(v@.subrange(a as int, b as int) == t);
        if range_eq(&v, a, b, &chars_of("REACHED_TARGET")) {
            return Some(Verdict::ReachedTarget);
        }
        if range_eq(&v, a, b, &chars_of("NO_MARKER")) {
            return Some(Verdict::NoMarker);
        }
        if range_eq(&v, a, b, &chars_of("TIMEOUT")) {
            return Some(Verdict::Timeout);
        }
        let kw = chars_of("REACHED_OTHER");
        if range_has_prefix(&v, a, b, &kw) {
            assert(t.skip(kw@.len() as int) == v@.subrange(a + kw.len(), b as int));
            return match parse_id_list(&v, a + kw.len(), b) {
                Some(ids) => Some(Verdict::ReachedOtherMarker(ids)),
                None => None,
            };
        }
        let kw = chars_of("PARSE_ERROR");
        if range_has_prefix(&v, a, b, &kw) {
            let rest = copy_range(&v, a + kw.len(), b);
            assert(rest@ == t.skip(kw@.len() as int));
            let (c, d) = trim_bounds(&rest);
            let msg = copy_range(&rest, c, d);
            return Some(Verdict::ParseError(string_of(&msg)));
        }
        let kw = chars_of("CRASHED");
        if range_has_prefix(&v, a, b, &kw) {
            let rest = copy_range(&v, a + kw.len(), b);
            assert(rest@ == t.skip(kw@.len() as int));
            let (c, d) = trim_bounds(&rest);
            let msg = copy_range(&rest, c, d);
            return Some(Verdict::Crashed(string_of(&msg)));
        }
        None
    }
}


} // verus!

verus! {

/// A message crosses the wire unchanged when it holds no line feed and has
/// no white space at either end.
pub open spec fn wire_safe_message(m: Seq<char>) -> bool {
    &&& forall|i: int| 0 <= i < m.len() ==> #[trigger] m[i] != '\n'
    &&& m.len() == 0 || (!is_ws(m[0]) && !is_ws(m.last()))
}

/// The verdicts whose encoding decodes to themselves.
pub open spec fn wire_safe(v: VerdictModel) -> bool {
    match v {
        VerdictModel::ParseError(m) => wire_safe_message(m),
        VerdictModel::Crashed(m) => wire_safe_message(m),
        _ => true,
    }
}

proof fn lemma_parse_dec(n: usize)
    ensures
        parse_usize_spec(dec_nat(n as nat)) == Some(n),
{
    lemma_dec_nat(n as nat);
}

proof fn lemma_split_join(ids: Seq<usize>)
    requires
        ids.len() >= 1,
    ensures
        split_ws(join_ids(ids)) == Seq::new(ids.len(), |i: int| dec_nat(ids[i] as nat)),
    decreases ids.len(),
{
    let s = join_ids(ids);
    let d = dec_nat(ids[0] as nat);
    lemma_dec_nat(ids[0] as nat);
    if ids.len() == 1 {
        assert(s == d);
        lemma_tok_len_unique(s, s.len() as int);
        assert(s.take(s.len() as int) == s);
        assert(s.skip(s.len() as int) =~= Seq::<char>::empty());
        assert(split_ws(s.skip(s.len() as int)) =~= Seq::<Seq<char>>::empty());
        assert(tok_len(s) == s.len());
        assert(split_ws(s) == seq![s.take(s.len() as int)] + split_ws(s.skip(s.len() as int)));
        assert(split_ws(s) =~= seq![d]);
        assert(Seq::new(ids.len(), |i: int| dec_nat(ids[i] as nat)) =~= seq![d]);
    } else {
        let tail = ids.drop_first();
        let rest = join_ids(tail);
        assert(s == d + seq![' '] + rest);
        assert forall|j: int| 0 <= j < d.len() implies !is_ws(#[trigger] s[j]) by {
            assert(s[j] == d[j]);
        }
        assert(s[d.len() as int] == ' ');
        lemma_tok_len_unique(s, d.len() as int);
        assert(s.take(d.len() as int) =~= d);
        let after = s.skip(d.len() as int);
        assert(after =~= seq![' '] + rest);
        assert(after.drop_first() =~= rest);
        assert(split_ws(after) == split_ws(rest));
        lemma_split_join(tail);
        assert(split_ws(s) == seq![d] + split_ws(rest));
        assert(split_ws(s) =~= Seq::new(ids.len(), |i: int| dec_nat(ids[i] as nat)));
    }
}

proof fn lemma_parse_tokens_dec(ids: Seq<usize>)
    ensures
        parse_tokens(Seq::new(ids.len(), |i: int| dec_nat(ids[i] as nat))) == Some(ids),
    decreases ids.len(),
{
    let ts = Seq::new(ids.len(), |i: int| dec_nat(ids[i] as nat));
    if ids.len() > 0 {
        lemma_parse_dec(ids[0]);
        let tail = ids.drop_first();
        lemma_parse_tokens_dec(tail);
        assert(ts.drop_first() =~= Seq::new(tail.len(), |i: int| dec_nat(tail[i] as nat)));
        assert(seq![ids[0]] + tail =~= ids);
    } else {
        assert(ids =~= Seq::<usize>::empty());
    }
}

proof fn lemma_trim_id(s: Seq<char>)
    requires
        s.len() > 0,
        !is_ws(s[0]),
        !is_ws(s.last()),
    ensures
        trim(s) == s,
{
    lemma_lead_ws_unique(s, 0);
    assert(s.skip(0) == s);
    lemma_trail_ws_unique(s, 0);
    assert(s.take(s.len() as int) == s);
}

/// `kw ++ " " ++ m` trims to `kw ++ " " ++ m`, or to `kw` when `m` is empty;
/// either way, what follows `kw` trims to `m`.
proof fn lemma_trim_tagged(kw: Seq<char>, m: Seq<char>)
    requires
        kw.len() > 0,
        !is_ws(kw[0]),
        !is_ws(kw.last()),
        m.len() == 0 || (!is_ws(m[0]) && !is_ws(m.last())),
    ensures
        has_prefix(trim(kw + seq![' '] + m), kw),
        trim(trim(kw + seq![' '] + m).skip(kw.len() as int)) == m,
        m.len() > 0 ==> trim(kw + seq![' '] + m) == kw + seq![' '] + m,
        m.len() == 0 ==> trim(kw + seq![' '] + m) == kw,
{
    let w = kw + seq![' '] + m;
    if m.len() == 0 {
        lemma_lead_ws_unique(w, 0);
        assert(w.skip(0) == w);
        assert(w.last() == ' ');
        assert(w.drop_last() =~= kw);
        lemma_trail_ws_unique(kw, 0);
        lemma_trail_ws_unique(w, 1);
        assert(trim(w) =~= kw);
        assert(kw.take(kw.len() as int) =~= kw);
        assert(kw.skip(kw.len() as int) =~= Seq::<char>::empty());
        lemma_lead_ws_unique(Seq::<char>::empty(), 0);
        assert(trim(Seq::<char>::empty()) =~= m);
    } else {
        assert(w[0] == kw[0]);
        assert(w.last() == m.last());
        lemma_trim_id(w);
        assert(w.take(kw.len() as int) =~= kw);
        let rest = w.skip(kw.len() as int);
        assert(rest =~= seq![' '] + m);
        lemma_lead_ws_unique(rest, 1);
        assert(rest.skip(1) =~= m);
        lemma_trail_ws_unique(m, 0);
        assert(m.take(m.len() as int) =~= m);
    }
}

/// Law: decoding the encoding of a verdict gives that verdict back, for every
/// verdict whose message (if any) has no line feed and no white space at its
/// ends.
pub proof fn lemma_wire_roundtrip(v: VerdictModel)
    requires
        wire_safe(v),
    ensures
        from_wire_spec(wire(v)) == Some(v),
{
    reveal_strlit("REACHED_TARGET");
    reveal_strlit("REACHED_OTHER ");
    reveal_strlit("REACHED_OTHER");
    reveal_strlit("NO_MARKER");
    reveal_strlit("PARSE_ERROR ");
    reveal_strlit("PARSE_ERROR");
    reveal_strlit("TIMEOUT");
    reveal_strlit("CRASHED ");
    reveal_strlit("CRASHED");
    let w = wire(v);
    match v {
        VerdictModel::ReachedTarget => {
            lemma_trim_id(w);
        },
        VerdictModel::NoMarker => {
            lemma_trim_id(w);
        },
        VerdictModel::Timeout => {
            lemma_trim_id(w);
        },
        VerdictModel::ReachedOtherMarker(ids) => {
            let kw = "REACHED_OTHER"@;
            let j = join_ids(ids);
            assert("REACHED_OTHER "@ =~= kw + seq![' ']);
            if ids.len() > 0 {
                lemma_dec_nat(ids[0] as nat);
                lemma_split_join(ids);
                if ids.len() == 1 {
                    assert(j == dec_nat(ids[0] as nat));
                } else {
                    assert(j == dec_nat(ids[0] as nat) + seq![' '] + join_ids(ids.drop_first()));
                    lemma_dec_nat(ids.last() as nat);
                    lemma_join_ids_push(ids);
                }
                assert(!is_ws(j[0]));
                assert(!is_ws(j.last()));
            }
            lemma_trim_tagged(kw, j);
            let t = trim(w);
            assert(w =~= kw + seq![' '] + j);
            assert(t[8] == 'O');
            assert(t != "REACHED_TARGET"@);
            assert(t.len() != "NO_MARKER"@.len() || t[0] != 'N');
            assert(t.len() != "TIMEOUT"@.len() || t[0] != 'T');
            if ids.len() > 0 {
                assert(t.skip(kw.len() as int) =~= seq![' '] + j);
                assert((seq![' '] + j).drop_first() =~= j);
                lemma_parse_tokens_dec(ids);
            } else {
                assert(t.skip(kw.len() as int) =~= Seq::<char>::empty());
                assert(split_ws(Seq::<char>::empty()) =~= Seq::<Seq<char>>::empty());
                assert(ids =~= Seq::<usize>::empty());
            }
        },
        VerdictModel::ParseError(m) => {
            let kw = "PARSE_ERROR"@;
            assert("PARSE_ERROR "@ =~= kw + seq![' ']);
            assert(no_newlines(m) =~= m);
            lemma_trim_tagged(kw, m);
            assert(w =~= kw + seq![' '] + m);
            let t = trim(w);
            assert(t[0] == 'P');
        },
        VerdictModel::Crashed(m) => {
            let kw = "CRASHED"@;
            assert("CRASHED "@ =~= kw + seq![' ']);
            assert(no_newlines(m) =~= m);
            lemma_trim_tagged(kw, m);
            assert(w =~= kw + seq![' '] + m);
            let t = trim(w);
            assert(t[0] == 'C');
            assert(t.len() != "TIMEOUT"@.len() || t[1] != 'I');
        },
    }
}

} // verus!

verus! {

/// The pieces of `s` between commas (as `str::split(',')`).
pub open spec fn split_commas(s: Seq<char>) -> Seq<Seq<char>>
    decreases s.len(),
{
    if s.len() == 0 {
        seq![seq![]]
    } else {
        let p = split_commas(s.drop_last());
        if s.last() == ',' {
            p.push(seq![])
        } else {
            p.update(p.len() - 1, p.last().push(s.last()))
        }
    }
}

proof fn lemma_split_commas_len(s: Seq<char>)
    ensures
        split_commas(s).len() >= 1,
    decreases s.len(),
{
    if s.len() > 0 {
        lemma_split_commas_len(s.drop_last());
    }
}

/// A target names one marker, or several separated by commas (white space
/// around a name is ignored, empty names are skipped). It is reached on a run
/// when it names at least one marker and every marker it names fired.
pub open spec fn target_reached(target: Seq<char>, fired: Seq<usize>) -> bool {
    let ps = split_commas(target);
    &&& exists|i: int| 0 <= i < ps.len() && trim(#[trigger] ps[i]).len() > 0
    &&& forall|i: int|
        0 <= i < ps.len() && trim(#[trigger] ps[i]).len() > 0 ==> (marker_id_spec(trim(ps[i]))
            matches Some(m) && fired.contains(m))
}

/// The verdict for a run that fired the markers of `fired`.
pub open spec fn verdict_for_spec(target: Seq<char>, fired: Seq<usize>) -> VerdictModel {
    if target_reached(target, fired) {
        VerdictModel::ReachedTarget
    } else {
        VerdictModel::ReachedOtherMarker(fired)
    }
}

fn split_target(t: &Vec<char>) -> (r: Vec<Vec<char>>)
    ensures
        r@.len() == split_commas(t@).len(),
        forall|i: int| 0 <= i < r@.len() ==> #[trigger] r@[i]@ == split_commas(t@)[i],
{
    let mut r: Vec<Vec<char>> = Vec::new();
    r.push(Vec::new());
    let mut i: usize = 0;
    while i < t.len()
        invariant
            i <= t.len(),
            r@.len() == split_commas(t@.take(i as int)).len(),
            r@.len() >= 1,
            forall|j: int| 0 <= j < r@.len() ==> #[trigger] r@[j]@ == split_commas(
                t@.take(i as int),
            )[j],
        decreases t.len() - i,
    {
        let ghost pre = t@.take(i as int);
        assert(t@.take(i + 1).drop_last() == pre);
        assert(t@.take(i + 1).last() == t@[i as int]);
        let c = t[i];
        if c == ',' {
            r.push(Vec::new());
        } else {
            let last = r.len() - 1;
            let ghost before = r@;
            let mut piece = r.pop().unwrap();
            piece.push(c);
            r.push(piece);
            proof {
                assert forall|j: int| 0 <= j < r@.len() implies #[trigger] r@[j]@ == split_commas(
                    t@.take(i + 1),
                )[j] by {
                    if j < last {
                        assert(r@[j] == before[j]);
                    }
                }
            }
        }
        i = i + 1;
    }
    assert(t@.take(t.len() as int) == t@);
    r
}

} // verus!

verus! {

/// Decide the verdict for `target` against the markers that fired on a run.
///
/// Certification is a subset test: the run may fire further markers.
pub fn verdict_for(target: &str, fired: &Path) -> (r: Verdict)
    ensures
        r@ == verdict_for_spec(target@, fired@),
{
    let t = chars_of(target);
    let ps = split_target(&t);
    let ghost sp = split_commas(target@);
    let mut any = false;
    let mut all = true;
    let mut i: usize = 0;
    while i < ps.len()
        invariant
            i <= ps.len(),
            ps@.len() == sp.len(),
            forall|j: int| 0 <= j < ps@.len() ==> #[trigger] ps@[j]@ == sp[j],
            any == exists|j: int| 0 <= j < i && trim(#[trigger] sp[j]).len() > 0,
            all == forall|j: int|
                0 <= j < i && trim(#[trigger] sp[j]).len() > 0 ==> (marker_id_spec(trim(sp[j]))
                    matches Some(m) && fired@.contains(m)),
        decreases ps.len() - i,
    {
        let piece = &ps[i];
        assert(piece@ == sp[i as int]);
        let (a, b) = trim_bounds(piece);
        if a < b {
            any = true;
            let name = copy_range(piece, a, b);
            match marker_id(&name) {
                Some(m) => {
                    if !fired.contains(m) {
                        all = false;
                    }
                },
                None => {
                    all = false;
                },
            }
        }
        i = i + 1;
    }
    if any && all {
        Verdict::ReachedTarget
    } else {
        Verdict::ReachedOtherMarker(fired.ids().clone())
    }
}

} // verus!

verus! {

/// The canonical line of one store entry: location, `=`, value.
pub open spec fn entry_line(e: (Seq<char>, i64)) -> Seq<char> {
    e.0 + "="@ + crate::text::dec_int(e.1 as int)
}

/// The canonical lines of a store, one per entry, in entry order.
pub open spec fn store_lines(s: StoreModel) -> Seq<Seq<char>> {
    s.map_values(|e: (Seq<char>, i64)| entry_line(e))
}

/// Lines in non-decreasing lexicographic order.
pub open spec fn lines_sorted(ls: Seq<Seq<char>>) -> bool {
    forall|i: int, j: int| 0 <= i < j < ls.len() ==> !seq_lt(#[trigger] ls[j], #[trigger] ls[i])
}

/// The lines of `ls` joined by `sep`.
pub open spec fn join_with(ls: Seq<Seq<char>>, sep: char) -> Seq<char>
    decreases ls.len(),
{
    if ls.len() == 0 {
        seq![]
    } else if ls.len() == 1 {
        ls[0]
    } else {
        ls[0] + seq![sep] + join_with(ls.drop_first(), sep)
    }
}

/// The views of a sequence of character vectors.
pub open spec fn views(s: Seq<Vec<char>>) -> Seq<Seq<char>> {
    s.map_values(|v: Vec<char>| v@)
}

/// `t` is the canonical text of the store `s`: its lines, sorted, joined by
/// `;`.
pub open spec fn canonical_store(s: StoreModel, t: Seq<char>) -> bool {
    exists|ls: Seq<Seq<char>>|
        lines_sorted(ls) && ls.to_multiset() == store_lines(s).to_multiset() && t == join_with(
            ls,
            ';',
        )
}

proof fn lemma_sorted_insert(ls: Seq<Seq<char>>, j: int, x: Seq<char>)
    requires
        lines_sorted(ls),
        0 <= j <= ls.len(),
        forall|i: int| 0 <= i < j ==> !seq_lt(x, #[trigger] ls[i]),
        j < ls.len() ==> seq_lt(x, ls[j]),
    ensures
        lines_sorted(ls.insert(j, x)),
{
    let r = ls.insert(j, x);
    assert forall|a: int, b: int| 0 <= a < b < r.len() implies !seq_lt(#[trigger] r[b], #[trigger] r[a]) by {
        if b < j {
            assert(r[a] == ls[a] && r[b] == ls[b]);
        } else if b == j {
            assert(r[a] == ls[a]);
        } else if a == j {
            assert(r[b] == ls[b - 1]);
            if b - 1 > j {
                assert(!seq_lt(ls[b - 1], ls[j]));
                lemma_seq_lt_total(ls[b - 1], ls[j]);
                if ls[b - 1] != ls[j] {
                    lemma_seq_lt_trans(x, ls[j], ls[b - 1]);
                }
            }
            lemma_seq_lt_asym(x, ls[b - 1]);
        } else if a < j {
            assert(r[a] == ls[a] && r[b] == ls[b - 1]);
        } else {
            assert(r[a] == ls[a - 1] && r[b] == ls[b - 1]);
        }
    }
}

/// Insert `x` into the sorted `out`, after every line not above it.
fn insert_line(out: &mut Vec<Vec<char>>, x: Vec<char>)
    requires
        lines_sorted(views(old(out)@)),
    ensures
        lines_sorted(views(final(out)@)),
        views(final(out)@).to_multiset() == views(old(out)@).to_multiset().insert(x@),
{
    let ghost ls = views(out@);
    let mut j: usize = 0;
    while j < out.len()
        invariant
            j <= out.len(),
            ls == views(out@),
            forall|i: int| 0 <= i < j ==> !seq_lt(x@, #[trigger] ls[i]),
        ensures
            j <= out.len(),
            ls == views(out@),
            forall|i: int| 0 <= i < j ==> !seq_lt(x@, #[trigger] ls[i]),
            j < out.len() ==> seq_lt(x@, ls[j as int]),
        decreases out.len() - j,
    {
        if chars_lt(&x, &out[j]) {
            break;
        }
        j = j + 1;
    }
    let ghost xv = x@;
    proof {
        lemma_sorted_insert(ls, j as int, xv);
        vstd::seq_lib::to_multiset_insert(ls, j as int, xv);
    }
    out.insert(j, x);
    assert(views(out@) =~= ls.insert(j as int, xv));
}

/// Sort lines into non-decreasing order.
fn sort_lines(v: Vec<Vec<char>>) -> (r: Vec<Vec<char>>)
    ensures
        lines_sorted(views(r@)),
        views(r@).to_multiset() == views(v@).to_multiset(),
{
    let mut out: Vec<Vec<char>> = Vec::new();
    let mut i: usize = 0;
    assert(views(out@) =~= views(v@).take(0));
    while i < v.len()
        invariant
            i <= v.len(),
            lines_sorted(views(out@)),
            views(out@).to_multiset() == views(v@).take(i as int).to_multiset(),
        decreases v.len() - i,
    {
        let x = copy_range(&v[i], 0, v[i].len());
        assert(x@ == v@[i as int]@);
        insert_line(&mut out, x);
        proof {
            assert(views(v@).take(i + 1) =~= views(v@).take(i as int).push(v@[i as int]@));
            vstd::seq_lib::to_multiset_build(views(v@).take(i as int), v@[i as int]@);
        }
        i = i + 1;
    }
    assert(views(v@).take(v.len() as int) =~= views(v@));
    out
}

proof fn lemma_join_push(ls: Seq<Seq<char>>, x: Seq<char>, sep: char)
    requires
        ls.len() >= 1,
    ensures
        join_with(ls.push(x), sep) == join_with(ls, sep) + seq![sep] + x,
    decreases ls.len(),
{
    if ls.len() == 1 {
        assert(ls.push(x).drop_first() =~= seq![x]);
        assert(join_with(ls.push(x), sep) == ls[0] + seq![sep] + join_with(seq![x], sep));
    } else {
        lemma_join_push(ls.drop_first(), x, sep);
        assert(ls.push(x).drop_first() =~= ls.drop_first().push(x));
        assert(join_with(ls.push(x), sep) =~= ls[0] + seq![sep] + join_with(
            ls.drop_first().push(x),
            sep,
        ));
    }
}

/// Join lines with `sep`.
fn join_lines(ls: &Vec<Vec<char>>, sep: char, out: &mut Vec<char>)
    ensures
        final(out)@ == old(out)@ + join_with(views(ls@), sep),
{
    let mut i: usize = 0;
    while i < ls.len()
        invariant
            i <= ls.len(),
            out@ == old(out)@ + join_with(views(ls@).take(i as int), sep),
        decreases ls.len() - i,
    {
        let ghost pre = out@;
        if i > 0 {
            out.push(sep);
        }
        let line = &ls[i];
        let mut j: usize = 0;
        while j < line.len()
            invariant
                j <= line.len(),
                out@ == pre + (if i > 0 {
                    seq![sep]
                } else {
                    seq![]
                }) + line@.take(j as int),
            decreases line.len() - j,
        {
            out.push(line[j]);
            assert(line@.take(j + 1) == line@.take(j as int).push(line@[j as int]));
            j = j + 1;
        }
        proof {
            assert(line@.take(line.len() as int) == line@);
            let t = views(ls@).take(i as int);
            assert(views(ls@).take(i + 1) =~= t.push(line@));
            if i > 0 {
                lemma_join_push(t, line@, sep);
            } else {
                assert(t.push(line@) =~= seq![line@]);
            }
        }
        i = i + 1;
    }
    assert(views(ls@).take(ls.len() as int) =~= views(ls@));
}

/// The canonical text of a well-formed store.
fn canonical_store_text(store: &Store, out: &mut Vec<char>)
    requires
        store.wf(),
    ensures
        exists|t: Seq<char>| canonical_store(store@, t) && final(out)@ == old(out)@ + t,
{
    let mut lines: Vec<Vec<char>> = Vec::new();
    let n = store.len();
    let mut i: usize = 0;
    while i < n
        invariant
            store.wf(),
            n == store@.len(),
            i <= n,
            views(lines@) == store_lines(store@.take(i as int)),
        decreases n - i,
    {
        let (k, v) = store.entry(i);
        let mut line = copy_range(k, 0, k.len());
        line.push('=');
        crate::text::push_i64(&mut line, v);
        proof {
            assert(k@.subrange(0, k@.len() as int) == k@);
            reveal_strlit("=");
            assert(line@ == entry_line(store@[i as int]));
            assert(store_lines(store@.take(i + 1)) =~= store_lines(store@.take(i as int)).push(
                entry_line(store@[i as int]),
            ));
        }
        lines.push(line);
        assert(views(lines@) =~= store_lines(store@.take(i + 1)));
        i = i + 1;
    }
    assert(store@.take(n as int) == store@);
    let sorted = sort_lines(lines);
    join_lines(&sorted, ';', out);
    assert(canonical_store(store@, join_with(views(sorted@), ';')));
}

} // verus!

verus! {

/// Separator between marker names in a multi-marker target. Marker names
/// are snake_case identifiers, so `,` cannot occur inside one.
pub const TARGET_SEP: char = ',';

/// A default loop budget for callers of the library: the number of
/// iterations any one loop may run. Replay of a synthesized witness needs
/// few; the budget only bounds non-terminating candidates. (The command line
/// bounds a replay by the wall clock instead, and gives runs no loop bound.)
pub const DEFAULT_FUEL: u64 = 1_000_000;

/// The name reported for an IMP error marker: the first IMP marker that
/// fired, else `unknown_marker`.
pub open spec fn imp_error_name(fired: Seq<usize>) -> Seq<char> {
    if fired.contains(DIVISION_BY_ZERO) {
        marker_name_spec(DIVISION_BY_ZERO as int)
    } else if fired.contains(UNDEFINED_VARIABLE) {
        marker_name_spec(UNDEFINED_VARIABLE as int)
    } else {
        "unknown_marker"@
    }
}

/// `t` is the observable behaviour of the IMP program `src` within `fuel`:
/// `OK <store>`, `ERR <marker>`, `PARSE_ERROR <message>` or `TIMEOUT`.
pub open spec fn imp_observation(src: Seq<char>, fuel: nat, t: Seq<char>) -> bool {
    let bytes = vstd::utf8::encode_utf8(src);
    match program_spec(bytes) {
        Err(e) => t == "PARSE_ERROR "@ + err_msg(bytes, e),
        Ok(c) => match ceval(c, Seq::empty(), fuel) {
            None => t == "TIMEOUT"@,
            Some(Ok(s)) => exists|u: Seq<char>| canonical_store(s, u) && t == "OK "@ + u,
            Some(Err(m)) => t == "ERR "@ + imp_error_name(seq![m]),
        },
    }
}

/// The observable behaviour of running an IMP program through the reference
/// semantics, as a canonical string for differential comparison against an
/// independent implementation:
///
///  * `OK <store>`      — normal termination; the final store as `name=value`
///    entries, sorted, separated by `;` (`OK ` for the empty store);
///  * `ERR <marker>`    — a named error marker fired (e.g. `division_by_zero`);
///  * `PARSE_ERROR ...` — the source did not parse as IMP;
///  * `TIMEOUT`         — some loop needed more than `fuel` iterations.
pub fn observe_imp(source: &str, fuel: u64) -> (r: String)
    ensures
        imp_observation(source@, fuel as nat, r@),
{
    let mut out: Vec<char> = Vec::new();
    let program = match parse_imp_source(source) {
        Ok(p) => p,
        Err(e) => {
            push_str(&mut out, "PARSE_ERROR ");
            push_str(&mut out, e.as_str());
            proof { reveal_strlit("PARSE_ERROR "); }
            return string_of(&out);
        },
    };
    match eval_com(&program, fuel) {
        None => {
            push_str(&mut out, "TIMEOUT");
        },
        Some(EvalResult::Value(store)) => {
            push_str(&mut out, "OK ");
            canonical_store_text(&store, &mut out);
            proof { reveal_strlit("OK "); }
        },
        Some(EvalResult::Error(path)) => {
            push_str(&mut out, "ERR ");
            if path.contains(DIVISION_BY_ZERO) {
                push_str(&mut out, marker_name(DIVISION_BY_ZERO));
            } else if path.contains(UNDEFINED_VARIABLE) {
                push_str(&mut out, marker_name(UNDEFINED_VARIABLE));
            } else {
                push_str(&mut out, "unknown_marker");
            }
            proof { reveal_strlit("ERR "); }
        },
    }
    string_of(&out)
}

/// The verdict of replaying the IMP program `src` against `target` within
/// `fuel`.
pub open spec fn certify_imp_spec(src: Seq<char>, target: Seq<char>, fuel: nat) -> VerdictModel {
    let bytes = vstd::utf8::encode_utf8(src);
    match program_spec(bytes) {
        Err(e) => VerdictModel::ParseError(err_msg(bytes, e)),
        Ok(c) => match ceval(c, Seq::empty(), fuel) {
            None => VerdictModel::Timeout,
            Some(Ok(_)) => VerdictModel::NoMarker,
            Some(Err(m)) => verdict_for_spec(target, seq![m]),
        },
    }
}

/// Re-execute `source` through the concrete reference semantics and report
/// whether it reaches the marker(s) named by `target` (one name, or several
/// separated by commas, all of which must fire), with at most `fuel`
/// iterations of any loop.
pub fn certify_imp(source: &str, target: &str, fuel: u64) -> (r: Verdict)
    ensures
        r@ == certify_imp_spec(source@, target@, fuel as nat),
{
    let program = match parse_imp_source(source) {
        Ok(p) => p,
        Err(e) => return Verdict::ParseError(e),
    };
    match eval_com(&program, fuel) {
        None => Verdict::Timeout,
        Some(EvalResult::Value(_)) => Verdict::NoMarker,
        Some(EvalResult::Error(path)) => verdict_for(target, &path),
    }
}

} // verus!

verus! {

// ---------------------------------------------------------------------------
// TOML: the same arbiter, with the TOML reference parser as checker.
// ---------------------------------------------------------------------------

/// The verdict for a TOML parse outcome: a fired marker is checked against
/// the target; an accepted document, or one that no rule matched, fired no
/// marker.
pub open spec fn toml_verdict_spec<T>(outcome: TomlParseResult<T>, target: Seq<char>) -> VerdictModel {
    match outcome {
        TomlParseResult::Error(m) => verdict_for_spec(target, seq![m]),
        _ => VerdictModel::NoMarker,
    }
}

/// The verdict for a TOML parse outcome against `target`.
pub fn toml_verdict<T>(outcome: &TomlParseResult<T>, target: &str) -> (r: Verdict)
    ensures
        r@ == toml_verdict_spec(*outcome, target@),
{
    match outcome {
        TomlParseResult::Error(m) => verdict_for(target, &Path::named(*m)),
        _ => Verdict::NoMarker,
    }
}

/// The markers that the TOML reference parser fires on `source`: `None`
/// when the document parsed or no rule matched.
pub fn toml_markers_fired(source: &str) -> (r: Option<Path>)
    ensures
        match toml_spec(source@) {
            TomlParseResult::Error(m) => r matches Some(p) && p.wf() && p@ == seq![m],
            _ => r is None,
        },
        r matches Some(p) ==> p.wf() && p@.len() == 1 && toml_marker(p@[0]),
{
    let chars = chars_of(source);
    match parse_toml(&chars) {
        TomlParseResult::Error(m) => Some(Path::named(m)),
        _ => None,
    }
}

/// Check that `source`, parsed by the TOML reference parser, reaches the
/// marker(s) named by `target` (one name, or several separated by commas,
/// all of which must fire).
pub fn certify_toml(source: &str, target: &str) -> (r: Verdict)
    ensures
        r@ == toml_verdict_spec(toml_spec(source@), target@),
        r is ReachedTarget || r is ReachedOtherMarker || r is NoMarker,
        r@ is ReachedTarget ==> exists|m: usize|
            toml_marker(m) && target_reached(target@, seq![m]),
        r@ matches VerdictModel::ReachedOtherMarker(ids) ==> ids.len() == 1 && toml_marker(ids[0])
            && !target_reached(target@, ids),
{
    let chars = chars_of(source);
    let outcome = parse_toml(&chars);
    let r = toml_verdict(&outcome, target);
    proof {
        match outcome {
            TomlParseResult::Error(m) => {
                assert(toml_marker(m));
                if r@ is ReachedTarget {
                    assert(target_reached(target@, seq![m]));
                }
            },
            _ => {},
        }
    }
    r
}

/// The observable behaviour of `outcome`: `OK`, `NOMATCH`, `ERR <marker>` for
/// a TOML marker, or `ERR unnamed`.
pub open spec fn toml_observation<T>(outcome: TomlParseResult<T>) -> Seq<char> {
    match outcome {
        TomlParseResult::Value(_, _) => "OK"@,
        TomlParseResult::NoMatch => "NOMATCH"@,
        TomlParseResult::Error(m) => if toml_marker(m) {
            "ERR "@ + marker_name_spec(m as int)
        } else {
            "ERR unnamed"@
        },
    }
}

/// The observable behaviour of a TOML parse outcome.
pub fn observe_toml_outcome<T>(outcome: &TomlParseResult<T>) -> (r: String)
    ensures
        r@ == toml_observation(*outcome),
{
    let mut out: Vec<char> = Vec::new();
    match outcome {
        TomlParseResult::Value(_, _) => push_str(&mut out, "OK"),
        TomlParseResult::NoMatch => push_str(&mut out, "NOMATCH"),
        TomlParseResult::Error(m) => {
            if crate::markers::IMP_MARKER_COUNT <= *m && *m < crate::markers::MARKER_COUNT {
                push_str(&mut out, "ERR ");
                push_str(&mut out, marker_name(*m));
            } else {
                push_str(&mut out, "ERR unnamed");
            }
        },
    }
    string_of(&out)
}

/// Observable accept/reject behaviour of the TOML reference parser, as a
/// canonical string for differential comparison against an independent
/// implementation: `OK` (accepted), `ERR <marker>` (rejected, labelled by the
/// rule the reference flags), `ERR unnamed`, or `NOMATCH`.
pub fn observe_toml(source: &str) -> (r: String)
    ensures
        r@ == toml_observation(toml_spec(source@)),
        r@ == "OK"@ || r@ == "NOMATCH"@ || exists|m: usize|
            toml_marker(m) && r@ == "ERR "@ + marker_name_spec(m as int),
{
    let chars = chars_of(source);
    let outcome = parse_toml(&chars);
    observe_toml_outcome(&outcome)
}

// ---------------------------------------------------------------------------
// Language registry
// ---------------------------------------------------------------------------

/// The object languages with a reference semantics.
#[derive(Debug, Clone, Copy, PartialEq, Eq)]
pub enum Language {
    Imp,
    Toml,
}

/// A language registered with the synthesis pipeline: what the pipeline
/// needs to describe the language to a proposer and to replay candidates.
#[derive(Debug, Clone, Copy)]
pub struct LanguageOracle {
    /// Language name; equals the parser directory name.
    pub name: &'static str,
    /// File extension of object-language sources (e.g. `imp`, `toml`).
    pub ext: &'static str,
    /// A short object-language description included in proposer prompts.
    pub brief: &'static str,
    /// The language whose reference semantics replays candidates.
    pub language: Language,
}

/// Object-language brief for IMP.
pub const IMP_BRIEF: &'static str = "IMP/WHILE program. Grammar (whitespace-insensitive):\n\
  com  ::= stmt (';' stmt)*\n\
  stmt ::= 'skip' | ident ':=' aexp | '(' com ')'\n\
         | 'if' bexp 'then' stmt 'else' stmt | 'while' bexp 'do' stmt\n\
  aexp ::= integer arithmetic over '+' '-' '*' '/' with parentheses,\n\
           signed 64-bit literals, and identifiers\n\
  bexp ::= 'true' | 'false' | 'not' b | b 'and' b | b 'or' b\n\
         | aexp '==' aexp | aexp '<=' aexp\n\
Execution starts from an EMPTY store. Reading a variable that was never \
assigned is the error marker `undefined_variable`; dividing by zero is the \
error marker `division_by_zero`. Example program: A := (1 + 2); B := (A * A)";

/// Object-language brief for TOML.
pub const TOML_BRIEF: &'static str = "A TOML v1.1.0 document (UTF-8 text): key/value pairs \
(bare or quoted keys, '=', values: strings, integers, floats, booleans, \
datetimes, arrays, inline tables), [table] and [[array-of-table]] headers, \
'#' comments. The parser flags specification violations with named markers.";

impl LanguageOracle {
    /// Replay check: run `source` through the language's reference semantics
    /// against `target`; `fuel` bounds the loops of an IMP run.
    pub fn certify(&self, source: &str, target: &str, fuel: u64) -> (r: Verdict)
        ensures
            self.language == Language::Imp ==> r@ == certify_imp_spec(
                source@,
                target@,
                fuel as nat,
            ),
            self.language == Language::Toml ==> r@ == toml_verdict_spec(toml_spec(source@), target@),
    {
        match self.language {
            Language::Imp => certify_imp(source, target, fuel),
            Language::Toml => certify_toml(source, target),
        }
    }
}

/// Look up the oracle for a language by its name (`imp` or `toml`).
pub fn oracle_for(name: &str) -> (r: Option<LanguageOracle>)
    ensures
        name@ == "imp"@ ==> (r matches Some(o) && o.name@ == "imp"@ && o.ext@ == "imp"@
            && o.brief@ == IMP_BRIEF@ && o.language == Language::Imp),
        name@ == "toml"@ ==> (r matches Some(o) && o.name@ == "toml"@ && o.ext@ == "toml"@
            && o.brief@ == TOML_BRIEF@ && o.language == Language::Toml),
        name@ != "imp"@ && name@ != "toml"@ ==> r is None,
{
    proof {
        reveal_strlit("imp");
        reveal_strlit("toml");
    }
    if crate::text::str_eq(name, "imp") {
        Some(LanguageOracle { name: "imp", ext: "imp", brief: IMP_BRIEF, language: Language::Imp })
    } else if crate::text::str_eq(name, "toml") {
        Some(
            LanguageOracle {
                name: "toml",
                ext: "toml",
                brief: TOML_BRIEF,
                language: Language::Toml,
            },
        )
    } else {
        None
    }
}

} // verus!

verus! {

// ---------------------------------------------------------------------------
// Laws of the arbiter
// ---------------------------------------------------------------------------

/// Law: a target is certified only when it names at least one marker and
/// every marker it names fired on the run (a subset test: further markers may
/// fire too). In particular a target that names no marker certifies nothing.
pub proof fn lemma_certified_target_fired(target: Seq<char>, fired: Seq<usize>)
    ensures
        verdict_for_spec(target, fired) is ReachedTarget ==> (exists|i: int|
            0 <= i < split_commas(target).len() && trim(#[trigger] split_commas(target)[i]).len()
                > 0),
        verdict_for_spec(target, fired) is ReachedTarget ==> forall|i: int|
            0 <= i < split_commas(target).len() && trim(#[trigger] split_commas(target)[i]).len()
                > 0 ==> (marker_id_spec(trim(split_commas(target)[i])) matches Some(m)
                && fired.contains(m)),
        !(verdict_for_spec(target, fired) is ReachedTarget) ==> verdict_for_spec(target, fired)
            == VerdictModel::ReachedOtherMarker(fired),
{
}

/// Law: an IMP run fires at most one marker, so a target that names two
/// different markers is never certified for an IMP program.
pub proof fn lemma_imp_two_markers_never_certified(
    src: Seq<char>,
    target: Seq<char>,
    fuel: nat,
    i: int,
    j: int,
)
    requires
        0 <= i < split_commas(target).len(),
        0 <= j < split_commas(target).len(),
        marker_id_spec(trim(split_commas(target)[i])) is Some,
        marker_id_spec(trim(split_commas(target)[j])) is Some,
        marker_id_spec(trim(split_commas(target)[i])) != marker_id_spec(
            trim(split_commas(target)[j]),
        ),
    ensures
        !(certify_imp_spec(src, target, fuel) is ReachedTarget),
{
    let ps = split_commas(target);
    let mi = marker_id_spec(trim(ps[i]))->0;
    let mj = marker_id_spec(trim(ps[j]))->0;
    assert(trim(ps[i]).len() > 0) by {
        if trim(ps[i]).len() == 0 {
            assert(marker_name_spec(0) != trim(ps[i])) by {
                reveal_strlit("division_by_zero");
            }
            lemma_find_marker_nonempty(trim(ps[i]), 0);
        }
    }
    assert(trim(ps[j]).len() > 0) by {
        if trim(ps[j]).len() == 0 {
            lemma_find_marker_nonempty(trim(ps[j]), 0);
        }
    }
    let bytes = vstd::utf8::encode_utf8(src);
    match program_spec(bytes) {
        Ok(c) => match ceval(c, Seq::empty(), fuel) {
            Some(Err(m)) => {
                if target_reached(target, seq![m]) {
                    assert(seq![m].contains(mi));
                    assert(seq![m].contains(mj));
                    assert(mi == m && mj == m);
                }
            },
            _ => {},
        },
        _ => {},
    }
}

/// No catalog marker has an empty name.
proof fn lemma_find_marker_nonempty(name: Seq<char>, from: int)
    requires
        name.len() == 0,
        0 <= from,
    ensures
        crate::markers::find_marker(name, from) is None,
    decreases crate::markers::MARKER_COUNT - from,
{
    if from < crate::markers::MARKER_COUNT {
        lemma_marker_name_nonempty(from);
        lemma_find_marker_nonempty(name, from + 1);
    }
}

proof fn lemma_marker_name_nonempty(i: int)
    requires
        0 <= i < crate::markers::MARKER_COUNT,
    ensures
        marker_name_spec(i).len() > 0,
{
    crate::markers::lemma_marker_name_len(i);
}

/// Law: once replay within some fuel gives an answer other than a timeout,
/// more fuel gives the same verdict (the budget only decides whether an
/// answer is given).
pub proof fn lemma_certify_imp_fuel_mono(src: Seq<char>, target: Seq<char>, f: nat, g: nat)
    requires
        f <= g,
        !(certify_imp_spec(src, target, f) is Timeout),
    ensures
        certify_imp_spec(src, target, g) == certify_imp_spec(src, target, f),
{
    let bytes = vstd::utf8::encode_utf8(src);
    match program_spec(bytes) {
        Ok(c) => {
            crate::imp::lemma_ceval_fuel_mono(c, Seq::empty(), f, g);
        },
        _ => {},
    }
}

} // verus!

verus! {

proof fn lemma_no_comma_split(s: Seq<char>)
    requires
        forall|i: int| 0 <= i < s.len() ==> s[i] != ',',
    ensures
        split_commas(s) == seq![s],
    decreases s.len(),
{
    if s.len() > 0 {
        lemma_no_comma_split(s.drop_last());
        assert(s.drop_last().push(s.last()) =~= s);
    } else {
        assert(s =~= seq![]);
    }
}

proof fn lemma_trim_plain(s: Seq<char>)
    requires
        s.len() > 0,
        !is_ws(s[0]),
        !is_ws(s.last()),
    ensures
        trim(s) == s,
{
    crate::text::lemma_lead_ws_zero(s);
    assert(s.skip(0) =~= s);
    crate::text::lemma_trail_ws_zero(s);
    assert(s.take(s.len() as int) =~= s);
}

/// A target that is a single marker name `name` with identifier `m` is
/// reached on a run that fired only `e` exactly when `e` is `m`.
proof fn lemma_single_name_target(name: Seq<char>, m: usize, e: usize)
    requires
        name.len() > 0,
        forall|i: int| 0 <= i < name.len() ==> name[i] != ',',
        !is_ws(name[0]),
        !is_ws(name.last()),
        marker_id_spec(name) == Some(m),
    ensures
        target_reached(name, seq![e]) <==> e == m,
{
    lemma_no_comma_split(name);
    lemma_trim_plain(name);
    let ps = split_commas(name);
    assert(ps[0] == name);
    if e == m {
        assert(seq![e][0] == m);
        assert(seq![e].contains(m));
        assert(trim(ps[0]).len() > 0);
    } else {
        if target_reached(name, seq![e]) {
            assert(seq![e].contains(m));
        }
    }
}

/// The names of the IMP markers are plain names that the catalog maps back
/// to their identifiers.
proof fn lemma_imp_marker_name(m: usize)
    requires
        m == DIVISION_BY_ZERO || m == UNDEFINED_VARIABLE,
    ensures
        marker_name_spec(m as int).len() > 0,
        forall|i: int|
            0 <= i < marker_name_spec(m as int).len() ==> marker_name_spec(m as int)[i] != ',',
        !is_ws(marker_name_spec(m as int)[0]),
        !is_ws(marker_name_spec(m as int).last()),
        marker_id_spec(marker_name_spec(m as int)) == Some(m),
{
    let name = marker_name_spec(m as int);
    if m == DIVISION_BY_ZERO {
        reveal_strlit("division_by_zero");
        assert(name == "division_by_zero"@);
        assert(marker_id_spec(name) == Some(m));
    } else {
        reveal_strlit("undefined_variable");
        reveal_strlit("division_by_zero");
        assert(name == "undefined_variable"@);
        assert(marker_name_spec(0) != name);
        assert(crate::markers::find_marker(name, 1) == Some(1usize));
        assert(marker_id_spec(name) == Some(m));
    }
}

/// Law: for each IMP marker, a program is certified for the marker's name
/// exactly when it parses and its run ends by firing that marker.
pub proof fn lemma_imp_certified_iff_marker_fires(src: Seq<char>, fuel: nat, m: usize)
    requires
        m == DIVISION_BY_ZERO || m == UNDEFINED_VARIABLE,
    ensures
        certify_imp_spec(src, marker_name_spec(m as int), fuel) is ReachedTarget <==> (program_spec(
            vstd::utf8::encode_utf8(src),
        ) matches Ok(c) && ceval(c, Seq::empty(), fuel) == Some(
            Err::<crate::imp::store::StoreModel, usize>(m),
        )),
{
    let name = marker_name_spec(m as int);
    lemma_imp_marker_name(m);
    let bytes = vstd::utf8::encode_utf8(src);
    match program_spec(bytes) {
        Ok(c) => match ceval(c, Seq::empty(), fuel) {
            Some(Err(e)) => {
                lemma_single_name_target(name, m, e);
            },
            _ => {},
        },
        _ => {},
    }
}

/// Law: for a target that is one marker name (no comma, no white space at
/// its ends) that the catalog maps to marker `m`, a TOML document is
/// certified exactly when the reference parser rejects it with `m`.
pub proof fn lemma_toml_certified_iff_marker_fires(src: Seq<char>, name: Seq<char>, m: usize)
    requires
        name.len() > 0,
        forall|i: int| 0 <= i < name.len() ==> name[i] != ',',
        !is_ws(name[0]),
        !is_ws(name.last()),
        marker_id_spec(name) == Some(m),
    ensures
        toml_verdict_spec(toml_spec(src), name) is ReachedTarget <==> toml_spec(src)
            == TomlParseResult::<crate::toml::value::ValueM>::Error(m),
{
    match toml_spec(src) {
        TomlParseResult::Error(e) => {
            lemma_single_name_target(name, m, e);
        },
        _ => {},
    }
}

/// A catalog name read back from an observation names the marker observed.
proof fn lemma_observed_name(m: usize, n: Seq<char>)
    requires
        toml_marker(m),
        "ERR "@ + marker_name_spec(m as int) == "ERR "@ + n,
    ensures
        n.len() > 0,
        forall|i: int| 0 <= i < n.len() ==> n[i] != ',',
        !is_ws(n[0]),
        !is_ws(n.last()),
        marker_id_spec(n) == Some(m),
{
    let name = marker_name_spec(m as int);
    assert(("ERR "@ + name).subrange(4, ("ERR "@ + name).len() as int) =~= name) by {
        reveal_strlit("ERR ");
    }
    assert(("ERR "@ + n).subrange(4, ("ERR "@ + n).len() as int) =~= n) by {
        reveal_strlit("ERR ");
    }
    crate::marker_names::lemma_catalog_plain(m as int);
    crate::marker_names::lemma_marker_id_of_name(m as int);
    assert(crate::marker_names::name_char(n[0]));
    assert(crate::marker_names::name_char(n[n.len() - 1]));
    assert forall|i: int| 0 <= i < n.len() implies n[i] != ',' by {
        assert(crate::marker_names::name_char(n[i]));
    }
}

/// An observation `ERR n` for a name `n` other than `unnamed` comes from a
/// rejection by the catalog marker named `n`.
proof fn lemma_observed_err(o: TomlParseResult<crate::toml::value::ValueM>, n: Seq<char>)
    requires
        toml_observation(o) == "ERR "@ + n,
        n != "unnamed"@,
    ensures
        o is Error,
        toml_marker(o->Error_0),
        marker_id_spec(n) == Some(o->Error_0),
        n.len() > 0,
        forall|i: int| 0 <= i < n.len() ==> n[i] != ',',
        !is_ws(n[0]),
        !is_ws(n.last()),
{
    reveal_strlit("ERR ");
    reveal_strlit("ERR unnamed");
    reveal_strlit("unnamed");
    reveal_strlit("OK");
    reveal_strlit("NOMATCH");
    assert(("ERR "@ + n).len() >= 4);
    match o {
        TomlParseResult::Error(m) => {
            if toml_marker(m) {
                lemma_observed_name(m, n);
            } else {
                assert(("ERR "@ + n).len() == 11);
                assert(n =~= ("ERR "@ + n).subrange(4, 11));
                assert(n =~= ("ERR unnamed"@).subrange(4, 11));
                assert(n =~= "unnamed"@);
            }
        },
        _ => {
            assert(("ERR "@ + n)[0] == "ERR "@[0]);
        },
    }
}

/// The observation `OK` or `NOMATCH` comes from no rejection.
proof fn lemma_observed_plain(o: TomlParseResult<crate::toml::value::ValueM>, target: Seq<char>)
    requires
        toml_observation(o) == "OK"@ || toml_observation(o) == "NOMATCH"@,
    ensures
        toml_verdict_spec(o, target) is NoMarker,
{
    reveal_strlit("ERR ");
    reveal_strlit("ERR unnamed");
    reveal_strlit("OK");
    reveal_strlit("NOMATCH");
    match o {
        TomlParseResult::Error(m) => {
            let obs = toml_observation(o);
            if toml_marker(m) {
                assert(("ERR "@ + marker_name_spec(m as int))[0] == "ERR "@[0]);
            }
            assert(obs[0] == 'E');
        },
        _ => {},
    }
}

/// Law: what `observe_toml` reports of a document is what `certify_toml`
/// confirms: an observation `ERR n` for a catalog name `n` means that the
/// document is certified for the target `n`, and an observation `OK` or
/// `NOMATCH` means that it is certified for no target.
pub proof fn lemma_toml_observation_certifies(src: Seq<char>, n: Seq<char>, target: Seq<char>)
    ensures
        toml_observation(toml_spec(src)) == "ERR "@ + n && n != "unnamed"@ ==> toml_verdict_spec(
            toml_spec(src),
            n,
        ) is ReachedTarget,
        toml_observation(toml_spec(src)) == "OK"@ || toml_observation(toml_spec(src)) == "NOMATCH"@
            ==> toml_verdict_spec(toml_spec(src), target) is NoMarker,
{
    let o = toml_spec(src);
    if toml_observation(o) == "ERR "@ + n && n != "unnamed"@ {
        lemma_observed_err(o, n);
        lemma_toml_certified_iff_marker_fires(src, n, o->Error_0);
    }
    if toml_observation(o) == "OK"@ || toml_observation(o) == "NOMATCH"@ {
        lemma_observed_plain(o, target);
    }
}

proof fn lemma_sorted_unique(a: Seq<Seq<char>>, b: Seq<Seq<char>>)
    requires
        lines_sorted(a),
        lines_sorted(b),
        a.to_multiset() == b.to_multiset(),
    ensures
        a == b,
    decreases a.len(),
{
    broadcast use vstd::seq_lib::group_to_multiset_ensures;

    vstd::seq_lib::to_multiset_len(a);
    vstd::seq_lib::to_multiset_len(b);
    assert(a.len() == b.len());
    if a.len() > 0 {
        assert(a.contains(a[0]));
        assert(b.to_multiset().count(a[0]) > 0);
        assert(b.contains(a[0]));
        let k = choose|k: int| 0 <= k < b.len() && b[k] == a[0];
        assert(b.contains(b[0]));
        assert(a.to_multiset().count(b[0]) > 0);
        let l = choose|l: int| 0 <= l < a.len() && a[l] == b[0];
        if k > 0 {
            assert(!seq_lt(b[k], b[0]));
        }
        if l > 0 {
            assert(!seq_lt(a[l], a[0]));
        }
        lemma_seq_lt_total(a[0], b[0]);
        assert(a[0] == b[0]);
        assert(a.remove(0) =~= a.drop_first());
        assert(b.remove(0) =~= b.drop_first());
        assert(a.drop_first().to_multiset() == b.drop_first().to_multiset());
        lemma_sorted_unique(a.drop_first(), b.drop_first());
        assert(a =~= seq![a[0]] + a.drop_first());
        assert(b =~= seq![b[0]] + b.drop_first());
    } else {
        assert(a =~= b);
    }
}

/// Law: the canonical text of a store is unique: the observation of a run
/// that ends normally is determined character for character by its final
/// store.
pub proof fn lemma_canonical_store_unique(s: StoreModel, t1: Seq<char>, t2: Seq<char>)
    requires
        canonical_store(s, t1),
        canonical_store(s, t2),
    ensures
        t1 == t2,
{
    let l1 = choose|ls: Seq<Seq<char>>|
        lines_sorted(ls) && ls.to_multiset() == store_lines(s).to_multiset() && t1 == join_with(
            ls,
            ';',
        );
    let l2 = choose|ls: Seq<Seq<char>>|
        lines_sorted(ls) && ls.to_multiset() == store_lines(s).to_multiset() && t2 == join_with(
            ls,
            ';',
        );
    lemma_sorted_unique(l1, l2);
}

/// Law: the observation of an IMP program is a function of the program and
/// the budget: two observations agree.
pub proof fn lemma_imp_observation_unique(src: Seq<char>, fuel: nat, t1: Seq<char>, t2: Seq<char>)
    requires
        imp_observation(src, fuel, t1),
        imp_observation(src, fuel, t2),
    ensures
        t1 == t2,
{
    let bytes = vstd::utf8::encode_utf8(src);
    match program_spec(bytes) {
        Ok(c) => match ceval(c, Seq::empty(), fuel) {
            Some(Ok(st)) => {
                let u1 = choose|u: Seq<char>| canonical_store(st, u) && t1 == "OK "@ + u;
                let u2 = choose|u: Seq<char>| canonical_store(st, u) && t2 == "OK "@ + u;
                lemma_canonical_store_unique(st, u1, u2);
            },
            _ => {},
        },
        _ => {},
    }
}

} // verus!
