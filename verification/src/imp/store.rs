//! The IMP store: a finite map from locations to 64-bit integers, kept as an
//! association list sorted by location name.

use vstd::prelude::*;
use crate::text::{chars_of, chars_eq};

verus! {

/// Lexicographic order on character sequences, by code point (the order of
/// `String`'s `Ord`).
pub open spec fn seq_lt(a: Seq<char>, b: Seq<char>) -> bool
    decreases a.len(),
{
    if a.len() == 0 {
        b.len() > 0
    } else if b.len() == 0 {
        false
    } else if a[0] != b[0] {
        (a[0] as u32) < (b[0] as u32)
    } else {
        seq_lt(a.drop_first(), b.drop_first())
    }
}

pub proof fn lemma_seq_lt_irrefl(a: Seq<char>)
    ensures
        !seq_lt(a, a),
    decreases a.len(),
{
    if a.len() > 0 {
        lemma_seq_lt_irrefl(a.drop_first());
    }
}

pub proof fn lemma_seq_lt_trans(a: Seq<char>, b: Seq<char>, c: Seq<char>)
    requires
        seq_lt(a, b),
        seq_lt(b, c),
    ensures
        seq_lt(a, c),
    decreases a.len(),
{
    if a.len() > 0 && b.len() > 0 && c.len() > 0 {
        if a[0] == b[0] && b[0] == c[0] {
            lemma_seq_lt_trans(a.drop_first(), b.drop_first(), c.drop_first());
        }
    }
}

pub proof fn lemma_seq_lt_total(a: Seq<char>, b: Seq<char>)
    ensures
        a == b || seq_lt(a, b) || seq_lt(b, a),
    decreases a.len(),
{
    if a.len() > 0 && b.len() > 0 && a[0] == b[0] {
        lemma_seq_lt_total(a.drop_first(), b.drop_first());
        if a.drop_first() == b.drop_first() {
            assert(a =~= seq![a[0]] + a.drop_first());
            assert(b =~= seq![b[0]] + b.drop_first());
        }
    } else if a.len() == 0 && b.len() == 0 {
        assert(a =~= b);
    } else if a.len() > 0 && b.len() > 0 {
        vstd::utf8::char_u32_cast(a[0], a[0] as u32);
        vstd::utf8::char_u32_cast(b[0], b[0] as u32);
        assert(a[0] as u32 != b[0] as u32);
    }
}

pub proof fn lemma_seq_lt_asym(a: Seq<char>, b: Seq<char>)
    requires
        seq_lt(a, b),
    ensures
        !seq_lt(b, a),
{
    if seq_lt(b, a) {
        lemma_seq_lt_trans(a, b, a);
        lemma_seq_lt_irrefl(a);
    }
}

/// Executable `seq_lt`.
pub fn chars_lt(a: &Vec<char>, b: &Vec<char>) -> (r: bool)
    ensures
        r == seq_lt(a@, b@),
{
    let mut i: usize = 0;
    assert(a@.skip(0) == a@);
    assert(b@.skip(0) == b@);
    while i < a.len() && i < b.len()
        invariant
            i <= a.len(),
            i <= b.len(),
            forall|j: int| 0 <= j < i ==> a@[j] == b@[j],
            seq_lt(a@, b@) == seq_lt(a@.skip(i as int), b@.skip(i as int)),
        decreases a.len() - i,
    {
        proof {
            assert(a@.skip(i as int)[0] == a@[i as int]);
            assert(b@.skip(i as int)[0] == b@[i as int]);
            assert(a@.skip(i as int).drop_first() == a@.skip(i + 1));
            assert(b@.skip(i as int).drop_first() == b@.skip(i + 1));
        }
        if a[i] != b[i] {
            return (a[i] as u32) < (b[i] as u32);
        }
        i = i + 1;
    }
    i < b.len()
}

/// The model of a store: (location, value) entries.
pub type StoreModel = Seq<(Seq<char>, i64)>;

/// Entries strictly increasing by location.
pub open spec fn store_sorted(s: StoreModel) -> bool {
    forall|i: int, j: int| 0 <= i < j < s.len() ==> seq_lt(#[trigger] s[i].0, #[trigger] s[j].0)
}

/// The value stored at `k`, if any.
pub open spec fn store_lookup(s: StoreModel, k: Seq<char>) -> Option<i64>
    decreases s.len(),
{
    if s.len() == 0 {
        None
    } else if s[0].0 == k {
        Some(s[0].1)
    } else {
        store_lookup(s.drop_first(), k)
    }
}

/// Store `v` at `k`: overwrite the entry for `k`, or add one in order.
pub open spec fn store_insert(s: StoreModel, k: Seq<char>, v: i64) -> StoreModel
    decreases s.len(),
{
    if s.len() == 0 {
        seq![(k, v)]
    } else if s[0].0 == k {
        seq![(k, v)] + s.drop_first()
    } else if seq_lt(k, s[0].0) {
        seq![(k, v)] + s
    } else {
        seq![s[0]] + store_insert(s.drop_first(), k, v)
    }
}

pub proof fn lemma_insert_sorted(s: StoreModel, k: Seq<char>, v: i64)
    requires
        store_sorted(s),
    ensures
        store_sorted(store_insert(s, k, v)),
        store_insert(s, k, v).len() > 0,
        forall|i: int|
            0 <= i < store_insert(s, k, v).len() ==> (#[trigger] store_insert(s, k, v)[i]).0 == k
                || (exists|j: int| 0 <= j < s.len() && s[j].0 == store_insert(s, k, v)[i].0),
    decreases s.len(),
{
    let r = store_insert(s, k, v);
    if s.len() == 0 {
    } else if s[0].0 == k {
        assert forall|i: int, j: int| 0 <= i < j < r.len() implies seq_lt(
            #[trigger] r[i].0,
            #[trigger] r[j].0,
        ) by {
            assert(r[j] == s[j]);
            if i > 0 {
                assert(r[i] == s[i]);
            }
        }
        assert forall|i: int| 0 <= i < r.len() implies (#[trigger] r[i]).0 == k || (exists|j: int|
            0 <= j < s.len() && s[j].0 == r[i].0) by {
            if i > 0 {
                assert(r[i] == s[i]);
            }
        }
    } else if seq_lt(k, s[0].0) {
        assert forall|i: int, j: int| 0 <= i < j < r.len() implies seq_lt(
            #[trigger] r[i].0,
            #[trigger] r[j].0,
        ) by {
            assert(r[j] == s[j - 1]);
            if i > 0 {
                assert(r[i] == s[i - 1]);
            } else if j > 1 {
                lemma_seq_lt_trans(k, s[0].0, s[j - 1].0);
            }
        }
        assert forall|i: int| 0 <= i < r.len() implies (#[trigger] r[i]).0 == k || (exists|j: int|
            0 <= j < s.len() && s[j].0 == r[i].0) by {
            if i > 0 {
                assert(r[i] == s[i - 1]);
            }
        }
    } else {
        let t = s.drop_first();
        assert(store_sorted(t)) by {
            assert forall|i: int, j: int| 0 <= i < j < t.len() implies seq_lt(
                #[trigger] t[i].0,
                #[trigger] t[j].0,
            ) by {
                assert(t[i] == s[i + 1]);
                assert(t[j] == s[j + 1]);
            }
        }
        lemma_insert_sorted(t, k, v);
        let rt = store_insert(t, k, v);
        lemma_seq_lt_total(k, s[0].0);
        assert(seq_lt(s[0].0, k));
        assert forall|i: int, j: int| 0 <= i < j < r.len() implies seq_lt(
            #[trigger] r[i].0,
            #[trigger] r[j].0,
        ) by {
            assert(r[j] == rt[j - 1]);
            if i > 0 {
                assert(r[i] == rt[i - 1]);
            } else {
                let x = rt[j - 1];
                if x.0 != k {
                    let jj = choose|jj: int| 0 <= jj < t.len() && t[jj].0 == x.0;
                    assert(t[jj] == s[jj + 1]);
                }
            }
        }
        assert forall|i: int| 0 <= i < r.len() implies (#[trigger] r[i]).0 == k || (exists|j: int|
            0 <= j < s.len() && s[j].0 == r[i].0) by {
            if i > 0 {
                assert(r[i] == rt[i - 1]);
                if rt[i - 1].0 != k {
                    let jj = choose|jj: int| 0 <= jj < t.len() && t[jj].0 == rt[i - 1].0;
                    assert(t[jj] == s[jj + 1]);
                }
            } else {
                assert(s[0].0 == r[0].0);
            }
        }
    }
}

/// A store of IMP locations.
#[derive(Debug, PartialEq, Eq)]
pub struct Store {
    keys: Vec<Vec<char>>,
    vals: Vec<i64>,
}

impl View for Store {
    type V = StoreModel;

    closed spec fn view(&self) -> StoreModel {
        Seq::new(self.keys@.len(), |i: int| (self.keys@[i]@, self.vals@[i]))
    }
}

impl Store {
    /// Internal consistency: one value per key, keys strictly increasing.
    pub closed spec fn wf(&self) -> bool {
        &&& self.keys@.len() == self.vals@.len()
        &&& store_sorted(self@)
    }

    /// The empty store.
    pub fn new() -> (s: Store)
        ensures
            s.wf(),
            s@ == Seq::<(Seq<char>, i64)>::empty(),
    {
        let s = Store { keys: Vec::new(), vals: Vec::new() };
        assert(s@ =~= Seq::<(Seq<char>, i64)>::empty());
        s
    }

    /// Number of locations.
    pub fn len(&self) -> (n: usize)
        requires
            self.wf(),
        ensures
            n == self@.len(),
    {
        self.keys.len()
    }

    /// The `i`-th location (in increasing order) and its value.
    pub fn entry(&self, i: usize) -> (r: (&Vec<char>, i64))
        requires
            self.wf(),
            i < self@.len(),
        ensures
            r.0@ == self@[i as int].0,
            r.1 == self@[i as int].1,
    {
        (&self.keys[i], self.vals[i])
    }

    /// Read a location.
    pub fn get(&self, k: &str) -> (r: Option<i64>)
        requires
            self.wf(),
        ensures
            r == store_lookup(self@, k@),
    {
        let kc = chars_of(k);
        let mut i: usize = 0;
        assert(self@.skip(0) == self@);
        while i < self.keys.len()
            invariant
                self.wf(),
                kc@ == k@,
                i <= self.keys.len(),
                store_lookup(self@, k@) == store_lookup(self@.skip(i as int), k@),
            decreases self.keys.len() - i,
        {
            proof {
                assert(self@.skip(i as int)[0] == self@[i as int]);
                assert(self@.skip(i as int).drop_first() == self@.skip(i + 1));
            }
            assert(self@[i as int] == (self.keys@[i as int]@, self.vals@[i as int]));
            proof {
                let t = self@.skip(i as int);
                assert(t.len() > 0);
                assert(store_lookup(t, k@) == if t[0].0 == k@ {
                    Some(t[0].1)
                } else {
                    store_lookup(t.drop_first(), k@)
                });
            }
            if chars_eq(&self.keys[i], &kc) {
                return Some(self.vals[i]);
            }
            i = i + 1;
        }
        None
    }

    /// Store `v` at `k`.
    pub fn set(&mut self, k: &str, v: i64)
        requires
            old(self).wf(),
        ensures
            final(self).wf(),
            final(self)@ == store_insert(old(self)@, k@, v),
    {
        let kc = chars_of(k);
        let ghost s0 = self@;
        let mut i: usize = 0;
        assert(s0.skip(0) == s0);
        assert(s0.take(0) + store_insert(s0, k@, v) =~= store_insert(s0, k@, v));
        while i < self.keys.len() && !chars_eq(&self.keys[i], &kc) && !chars_lt(&kc, &self.keys[i])
            invariant
                self.wf(),
                kc@ == k@,
                self@ == s0,
                i <= self.keys.len(),
                store_insert(s0, k@, v) == s0.take(i as int) + store_insert(s0.skip(i as int), k@, v),
            decreases self.keys.len() - i,
        {
            proof {
                let t = s0.skip(i as int);
                assert(s0[i as int] == (self.keys@[i as int]@, self.vals@[i as int]));
                assert(t[0] == s0[i as int]);
                assert(t.len() > 0);
                assert(t[0].0 != k@);
                assert(!seq_lt(k@, t[0].0));
                assert(store_insert(t, k@, v) == seq![t[0]] + store_insert(t.drop_first(), k@, v));
                assert(t.drop_first() == s0.skip(i + 1));
                assert(s0.take(i + 1) == s0.take(i as int).push(s0[i as int]));
                assert(s0.take(i as int) + store_insert(t, k@, v) =~= s0.take(i + 1)
                    + store_insert(s0.skip(i + 1), k@, v));
            }
            i = i + 1;
        }
        proof {
            lemma_insert_sorted(s0, k@, v);
        }
        let ghost t = s0.skip(i as int);
        if i < self.keys.len() && chars_eq(&self.keys[i], &kc) {
            self.vals.set(i, v);
            proof {
                assert(s0[i as int] == (self.keys@[i as int]@, old(self).vals@[i as int]));
                assert(t[0] == s0[i as int]);
                assert(self@ =~= s0.take(i as int) + (seq![(k@, v)] + t.drop_first()));
            }
        } else {
            self.keys.insert(i, kc);
            self.vals.insert(i, v);
            proof {
                if i < s0.len() {
                    assert(s0[i as int] == (old(self).keys@[i as int]@, old(self).vals@[i as int]));
                    assert(t[0] == s0[i as int]);
                } else {
                    assert(t =~= Seq::<(Seq<char>, i64)>::empty());
                }
                assert(self@ =~= s0.take(i as int) + (seq![(k@, v)] + t));
            }
        }
    }
}

} // verus!
