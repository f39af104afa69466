//! TOML values and tables, and the merge of tables.
//!
//! A table is a list of bindings of keys to values. Binding a key that is
//! already bound replaces the value of its first binding in place; binding a
//! new key puts it in front of the others.

use vstd::prelude::*;
use crate::toml::scalar::{DateTime, DateTimeM};
use crate::text::chars_eq;
use crate::imp::store::{seq_lt, chars_lt};

verus! {

/// A TOML value.
#[derive(Debug)]
pub enum Value {
    String(Vec<char>),
    Integer(i64),
    /// A float, as its literal text.
    Float(Vec<char>),
    Boolean(bool),
    DateTime(DateTime),
    Array(Vec<Value>),
    Table(Table),
}

/// A table: its bindings in the order they were made.
#[derive(Debug)]
pub struct Table {
    pub entries: Vec<(Vec<char>, Value)>,
}

/// The model of a value.
pub ghost enum ValueM {
    String(Seq<char>),
    Integer(i64),
    Float(Seq<char>),
    Boolean(bool),
    DateTime(DateTimeM),
    Array(Seq<ValueM>),
    Table(Seq<(Seq<char>, ValueM)>),
}

/// The model of a value.
pub open spec fn value_model(v: Value) -> ValueM
    decreases v,
{
    match v {
        Value::String(t) => ValueM::String(t@),
        Value::Integer(i) => ValueM::Integer(i),
        Value::Float(t) => ValueM::Float(t@),
        Value::Boolean(b) => ValueM::Boolean(b),
        Value::DateTime(d) => ValueM::DateTime(d@),
        Value::Array(items) => ValueM::Array(values_model(items@)),
        Value::Table(t) => ValueM::Table(entries_model(t.entries@)),
    }
}

/// The models of a sequence of values.
pub open spec fn values_model(s: Seq<Value>) -> Seq<ValueM>
    decreases s,
{
    if s.len() == 0 {
        Seq::empty()
    } else {
        values_model(s.drop_last()).push(value_model(s.last()))
    }
}

/// The models of a sequence of bindings.
pub open spec fn entries_model(s: Seq<(Vec<char>, Value)>) -> Seq<(Seq<char>, ValueM)>
    decreases s,
{
    if s.len() == 0 {
        Seq::empty()
    } else {
        entries_model(s.drop_last()).push((s.last().0@, value_model(s.last().1)))
    }
}

impl View for Value {
    type V = ValueM;

    open spec fn view(&self) -> ValueM {
        value_model(*self)
    }
}

impl View for Table {
    type V = Seq<(Seq<char>, ValueM)>;

    open spec fn view(&self) -> Seq<(Seq<char>, ValueM)> {
        entries_model(self.entries@)
    }
}

/// The models of a sequence of values, element by element.
pub proof fn lemma_values_model(s: Seq<Value>)
    ensures
        values_model(s).len() == s.len(),
        forall|i: int| 0 <= i < s.len() ==> #[trigger] values_model(s)[i] == value_model(s[i]),
    decreases s.len(),
{
    if s.len() > 0 {
        lemma_values_model(s.drop_last());
        assert forall|i: int| 0 <= i < s.len() implies #[trigger] values_model(s)[i] == value_model(
            s[i],
        ) by {
            if i < s.len() - 1 {
                assert(s.drop_last()[i] == s[i]);
            }
        }
    }
}

/// The models of a sequence of bindings, binding by binding.
pub proof fn lemma_entries_model(s: Seq<(Vec<char>, Value)>)
    ensures
        entries_model(s).len() == s.len(),
        forall|i: int|
            0 <= i < s.len() ==> #[trigger] entries_model(s)[i] == (s[i].0@, value_model(s[i].1)),
    decreases s.len(),
{
    if s.len() > 0 {
        lemma_entries_model(s.drop_last());
        assert forall|i: int| 0 <= i < s.len() implies #[trigger] entries_model(s)[i] == (
            s[i].0@,
            value_model(s[i].1),
        ) by {
            if i < s.len() - 1 {
                assert(s.drop_last()[i] == s[i]);
            }
        }
    }
}

/// Replacing one binding replaces its model.
pub proof fn lemma_entries_update(s: Seq<(Vec<char>, Value)>, j: int, e: (Vec<char>, Value))
    requires
        0 <= j < s.len(),
    ensures
        entries_model(s.update(j, e)) == entries_model(s).update(j, (e.0@, value_model(e.1))),
{
    lemma_entries_model(s);
    lemma_entries_model(s.update(j, e));
    assert(entries_model(s.update(j, e)) =~= entries_model(s).update(j, (e.0@, value_model(e.1))));
}

/// The first place from `i` on where `t` binds `k`.
pub open spec fn find_from(t: Seq<(Seq<char>, ValueM)>, k: Seq<char>, i: int) -> Option<int>
    decreases t.len() - i,
{
    if i < 0 || i >= t.len() {
        None
    } else if t[i].0 == k {
        Some(i)
    } else {
        find_from(t, k, i + 1)
    }
}

/// The first place where `t` binds `k`.
pub open spec fn find_spec(t: Seq<(Seq<char>, ValueM)>, k: Seq<char>) -> Option<int> {
    find_from(t, k, 0)
}

proof fn lemma_find_from(t: Seq<(Seq<char>, ValueM)>, k: Seq<char>, i: int)
    requires
        0 <= i,
    ensures
        find_from(t, k, i) matches Some(j) ==> i <= j < t.len() && t[j].0 == k,
    decreases t.len() - i,
{
    if i < t.len() && t[i].0 != k {
        lemma_find_from(t, k, i + 1);
    }
}

/// The rank of a value in the merge: an array merges after its last table.
pub open spec fn merge_rank(a: ValueM) -> nat {
    if a is Array {
        2
    } else {
        1
    }
}

/// Binding `k` to `v` in `t`: the first binding of `k` takes the value `v`
/// and the others stay as they are; a new key is bound in front.
pub open spec fn table_store_spec(
    t: Seq<(Seq<char>, ValueM)>,
    k: Seq<char>,
    v: ValueM,
) -> Seq<(Seq<char>, ValueM)> {
    match find_spec(t, k) {
        None => seq![(k, v)] + t,
        Some(j) => t.update(j, (k, v)),
    }
}

/// The places `0 .. n` of a table's bindings.
pub open spec fn all_places(n: int) -> Seq<int> {
    Seq::new(n as nat, |i: int| i)
}

/// From place `q` of `rem` on, starting from the best place `best` so far,
/// the first place whose binding in `bt` has the smallest key.
pub open spec fn min_from(bt: Seq<(Seq<char>, ValueM)>, rem: Seq<int>, q: int, best: int) -> int
    decreases rem.len() - q,
{
    if q < 0 || q >= rem.len() {
        best
    } else if seq_lt(bt[rem[q]].0, bt[rem[best]].0) {
        min_from(bt, rem, q + 1, q)
    } else {
        min_from(bt, rem, q + 1, best)
    }
}

/// The place in `rem` of the binding of `bt` that merges next: the first of
/// those with the smallest key.
pub open spec fn min_place(bt: Seq<(Seq<char>, ValueM)>, rem: Seq<int>) -> int {
    min_from(bt, rem, 1, 0)
}

/// The merge of two values under one key: tables merge binding by binding,
/// arrays concatenate, and a table merges into the last table of an array.
/// Any other meeting fails.
pub open spec fn merge_value_spec(a: ValueM, b: ValueM) -> Option<ValueM>
    decreases b, merge_rank(a), 0nat,
{
    match b {
        ValueM::Table(bt) => match a {
            ValueM::Table(at) => match merge_rest_spec(at, b, all_places(bt.len() as int)) {
                Some(m) => Some(ValueM::Table(m)),
                None => None,
            },
            ValueM::Array(aa) => if aa.len() == 0 {
                None
            } else {
                match aa.last() {
                    ValueM::Table(lt) => match merge_value_spec(ValueM::Table(lt), b) {
                        Some(m) => Some(ValueM::Array(aa.drop_last().push(m))),
                        None => None,
                    },
                    _ => None,
                }
            },
            _ => None,
        },
        ValueM::Array(ba) => match a {
            ValueM::Array(aa) => Some(ValueM::Array(aa + ba)),
            _ => None,
        },
        _ => None,
    }
}

/// The merge into `acc` of the bindings of table `b` at the places `rem`,
/// smallest key first (of equal keys, the earliest): a key bound in `acc`
/// binds the merge of the two values, a new key is bound in front.
pub open spec fn merge_rest_spec(acc: Seq<(Seq<char>, ValueM)>, b: ValueM, rem: Seq<int>) -> Option<
    Seq<(Seq<char>, ValueM)>,
>
    decreases b, 0nat, rem.len(),
{
    match b {
        ValueM::Table(bt) => if rem.len() == 0 {
            Some(acc)
        } else {
            let p = min_place(bt, rem);
            if !(0 <= p < rem.len()) || !(0 <= rem[p] < bt.len()) {
                None
            } else {
                let i = rem[p];
                match find_spec(acc, bt[i].0) {
                    None => merge_rest_spec(table_store_spec(acc, bt[i].0, bt[i].1), b, rem.remove(p)),
                    Some(j) => match merge_value_spec(acc[j].1, bt[i].1) {
                        Some(m) => merge_rest_spec(table_store_spec(acc, bt[i].0, m), b, rem.remove(p)),
                        None => None,
                    },
                }
            }
        },
        _ => None,
    }
}

/// The merge of table `new` into table `acc`: `None` when two values under
/// one key do not merge.
pub open spec fn merge_tables_spec(
    acc: Seq<(Seq<char>, ValueM)>,
    new: Seq<(Seq<char>, ValueM)>,
) -> Option<Seq<(Seq<char>, ValueM)>> {
    merge_rest_spec(acc, ValueM::Table(new), all_places(new.len() as int))
}

/// Merging the empty table into a table leaves the table as it is (a blank
/// or comment line adds nothing to a document).
pub proof fn lemma_merge_empty_table(acc: Seq<(Seq<char>, ValueM)>)
    ensures
        merge_tables_spec(acc, Seq::empty()) == Some(acc),
{
}

/// `t` binds `k`.
pub open spec fn binds(t: Seq<(Seq<char>, ValueM)>, k: Seq<char>) -> bool {
    exists|i: int| 0 <= i < t.len() && #[trigger] t[i].0 == k
}

proof fn lemma_find_first(t: Seq<(Seq<char>, ValueM)>, k: Seq<char>, i: int)
    requires
        0 <= i,
    ensures
        find_from(t, k, i) matches Some(j) ==> i <= j < t.len() && t[j].0 == k && forall|m: int|
            i <= m < j ==> #[trigger] t[m].0 != k,
        find_from(t, k, i) is None ==> forall|m: int| i <= m < t.len() ==> #[trigger] t[m].0 != k,
    decreases t.len() - i,
{
    if i < t.len() && t[i].0 != k {
        lemma_find_first(t, k, i + 1);
    }
}

/// Law: binding a key that the table does not bind puts the new binding in
/// front; binding a bound key gives its first binding the new value and
/// leaves every other binding, and the order, as it was.
pub proof fn lemma_table_store(t: Seq<(Seq<char>, ValueM)>, k: Seq<char>, v: ValueM)
    ensures
        !binds(t, k) ==> table_store_spec(t, k, v) == seq![(k, v)] + t,
        binds(t, k) ==> exists|j: int|
            0 <= j < t.len() && t[j].0 == k && (forall|m: int| 0 <= m < j ==> #[trigger] t[m].0 != k)
                && table_store_spec(t, k, v) == t.update(j, (k, v)),
{
    lemma_find_first(t, k, 0);
    match find_spec(t, k) {
        Some(j) => {
            assert(binds(t, k));
            assert(forall|m: int| 0 <= m < j ==> #[trigger] t[m].0 != k);
            assert(table_store_spec(t, k, v) == t.update(j, (k, v)));
            assert(0 <= j < t.len() && t[j].0 == k);
        },
        None => {
            if binds(t, k) {
                let i = choose|i: int| 0 <= i < t.len() && #[trigger] t[i].0 == k;
                assert(t[i].0 != k);
            }
        },
    }
}

proof fn lemma_store_keys(t: Seq<(Seq<char>, ValueM)>, k: Seq<char>, v: ValueM, w: Seq<char>)
    ensures
        binds(table_store_spec(t, k, v), w) <==> (binds(t, w) || w == k),
{
    lemma_find_first(t, k, 0);
    let u = table_store_spec(t, k, v);
    match find_spec(t, k) {
        None => {
            if binds(u, w) {
                let i = choose|i: int| 0 <= i < u.len() && #[trigger] u[i].0 == w;
                if i > 0 {
                    assert(t[i - 1] == u[i]);
                }
            }
            if binds(t, w) {
                let i = choose|i: int| 0 <= i < t.len() && #[trigger] t[i].0 == w;
                assert(u[i + 1] == t[i]);
            }
            if w == k {
                assert(u[0].0 == k);
            }
        },
        Some(j) => {
            if binds(u, w) {
                let i = choose|i: int| 0 <= i < u.len() && #[trigger] u[i].0 == w;
                assert(t[i].0 == w);
            }
            if binds(t, w) {
                let i = choose|i: int| 0 <= i < t.len() && #[trigger] t[i].0 == w;
                assert(u[i].0 == w);
            }
            if w == k {
                assert(u[j].0 == k);
            }
        },
    }
}

/// Some binding of `bt` at a place in `rem` has key `k`.
pub open spec fn rem_binds(bt: Seq<(Seq<char>, ValueM)>, rem: Seq<int>, k: Seq<char>) -> bool {
    exists|q: int| 0 <= q < rem.len() && #[trigger] bt[rem[q]].0 == k
}

proof fn lemma_merge_rest_keys(
    acc: Seq<(Seq<char>, ValueM)>,
    bt: Seq<(Seq<char>, ValueM)>,
    rem: Seq<int>,
    k: Seq<char>,
)
    requires
        merge_rest_spec(acc, ValueM::Table(bt), rem) is Some,
    ensures
        binds(merge_rest_spec(acc, ValueM::Table(bt), rem)->Some_0, k) <==> (binds(acc, k)
            || rem_binds(bt, rem, k)),
    decreases rem.len(),
{
    let b = ValueM::Table(bt);
    if rem.len() > 0 {
        let p = min_place(bt, rem);
        let i = rem[p];
        let a2 = match find_spec(acc, bt[i].0) {
            None => table_store_spec(acc, bt[i].0, bt[i].1),
            Some(j) => table_store_spec(acc, bt[i].0, merge_value_spec(acc[j].1, bt[i].1)->Some_0),
        };
        let r2 = rem.remove(p);
        assert(merge_rest_spec(acc, b, rem) == merge_rest_spec(a2, b, r2));
        lemma_merge_rest_keys(a2, bt, r2, k);
        // the keys of a2
        assert(binds(a2, k) <==> (binds(acc, k) || bt[i].0 == k)) by {
            match find_spec(acc, bt[i].0) {
                None => lemma_store_keys(acc, bt[i].0, bt[i].1, k),
                Some(j) => {
                    let m = merge_value_spec(acc[j].1, bt[i].1)->Some_0;
                    lemma_store_keys(acc, bt[i].0, m, k);
                    lemma_find_first(acc, bt[i].0, 0);
                    assert(binds(acc, bt[i].0));
                },
            }
        }
        // the keys at the places left
        assert(rem_binds(bt, rem, k) <==> (rem_binds(bt, r2, k) || bt[i].0 == k)) by {
            if rem_binds(bt, rem, k) {
                let q = choose|q: int| 0 <= q < rem.len() && #[trigger] bt[rem[q]].0 == k;
                if q < p {
                    assert(r2[q] == rem[q]);
                } else if q > p {
                    assert(r2[q - 1] == rem[q]);
                }
            }
            if rem_binds(bt, r2, k) {
                let q = choose|q: int| 0 <= q < r2.len() && #[trigger] bt[r2[q]].0 == k;
                if q < p {
                    assert(r2[q] == rem[q]);
                } else {
                    assert(r2[q] == rem[q + 1]);
                }
            }
            if bt[i].0 == k {
                assert(bt[rem[p]].0 == k);
            }
        }
    }
}

/// Law: the keys of a merged table are those of the two tables merged.
pub proof fn lemma_merge_keys(
    acc: Seq<(Seq<char>, ValueM)>,
    new: Seq<(Seq<char>, ValueM)>,
    k: Seq<char>,
)
    requires
        merge_tables_spec(acc, new) is Some,
    ensures
        binds(merge_tables_spec(acc, new)->Some_0, k) <==> (binds(acc, k) || binds(new, k)),
{
    let rem = all_places(new.len() as int);
    lemma_merge_rest_keys(acc, new, rem, k);
    if rem_binds(new, rem, k) {
        let q = choose|q: int| 0 <= q < rem.len() && #[trigger] new[rem[q]].0 == k;
        assert(new[q].0 == k);
    }
    if binds(new, k) {
        let i = choose|i: int| 0 <= i < new.len() && #[trigger] new[i].0 == k;
        assert(new[rem[i]].0 == k);
    }
}

/// A value that is neither a table nor an array.
pub open spec fn is_scalar(v: ValueM) -> bool {
    !(v is Table) && !(v is Array)
}

/// The first binding of `k` in `t` holds a scalar.
pub open spec fn first_scalar(t: Seq<(Seq<char>, ValueM)>, k: Seq<char>) -> bool {
    find_spec(t, k) matches Some(j) && is_scalar(t[j].1)
}

proof fn lemma_find_is(t: Seq<(Seq<char>, ValueM)>, k: Seq<char>, j: int)
    requires
        0 <= j < t.len(),
        t[j].0 == k,
        forall|m: int| 0 <= m < j ==> #[trigger] t[m].0 != k,
    ensures
        find_spec(t, k) == Some(j),
{
    lemma_find_first(t, k, 0);
}

proof fn lemma_store_other(t: Seq<(Seq<char>, ValueM)>, k2: Seq<char>, v: ValueM, k: Seq<char>)
    requires
        k2 != k,
        first_scalar(t, k),
    ensures
        first_scalar(table_store_spec(t, k2, v), k),
{
    lemma_find_first(t, k, 0);
    lemma_find_first(t, k2, 0);
    let j = find_spec(t, k)->Some_0;
    let u = table_store_spec(t, k2, v);
    match find_spec(t, k2) {
        None => {
            assert forall|m: int| 0 <= m < j + 1 implies #[trigger] u[m].0 != k by {
                if m > 0 {
                    assert(u[m] == t[m - 1]);
                }
            }
            assert(u[j + 1] == t[j]);
            lemma_find_is(u, k, j + 1);
        },
        Some(j2) => {
            assert(j2 != j);
            assert forall|m: int| 0 <= m < j implies #[trigger] u[m].0 != k by {
                if m != j2 {
                    assert(u[m] == t[m]);
                }
            }
            assert(u[j] == t[j]);
            lemma_find_is(u, k, j);
        },
    }
}

proof fn lemma_merge_rest_first_scalar(
    acc: Seq<(Seq<char>, ValueM)>,
    bt: Seq<(Seq<char>, ValueM)>,
    rem: Seq<int>,
    k: Seq<char>,
)
    requires
        first_scalar(acc, k),
        rem_binds(bt, rem, k),
    ensures
        merge_rest_spec(acc, ValueM::Table(bt), rem) is None,
    decreases rem.len(),
{
    let b = ValueM::Table(bt);
    let p = min_place(bt, rem);
    if 0 <= p < rem.len() && 0 <= rem[p] < bt.len() {
        let i = rem[p];
        if bt[i].0 != k {
            let r2 = rem.remove(p);
            let q = choose|q: int| 0 <= q < rem.len() && #[trigger] bt[rem[q]].0 == k;
            assert(q != p);
            if q < p {
                assert(r2[q] == rem[q]);
            } else {
                assert(r2[q - 1] == rem[q]);
            }
            assert(rem_binds(bt, r2, k));
            match find_spec(acc, bt[i].0) {
                None => {
                    lemma_store_other(acc, bt[i].0, bt[i].1, k);
                    lemma_merge_rest_first_scalar(table_store_spec(acc, bt[i].0, bt[i].1), bt, r2, k);
                },
                Some(j) => match merge_value_spec(acc[j].1, bt[i].1) {
                    Some(m) => {
                        lemma_store_other(acc, bt[i].0, m, k);
                        lemma_merge_rest_first_scalar(table_store_spec(acc, bt[i].0, m), bt, r2, k);
                    },
                    None => {},
                },
            }
        }
    }
}

proof fn lemma_merge_rest_scalar_new(
    acc: Seq<(Seq<char>, ValueM)>,
    bt: Seq<(Seq<char>, ValueM)>,
    rem: Seq<int>,
    k: Seq<char>,
    q: int,
)
    requires
        binds(acc, k),
        0 <= q < rem.len(),
        0 <= rem[q] < bt.len(),
        bt[rem[q]].0 == k,
        is_scalar(bt[rem[q]].1),
    ensures
        merge_rest_spec(acc, ValueM::Table(bt), rem) is None,
    decreases rem.len(),
{
    let b = ValueM::Table(bt);
    let p = min_place(bt, rem);
    lemma_find_first(acc, k, 0);
    if 0 <= p < rem.len() && 0 <= rem[p] < bt.len() {
        let i = rem[p];
        if p != q {
            let r2 = rem.remove(p);
            let q2 = if q < p {
                q
            } else {
                q - 1
            };
            assert(r2[q2] == rem[q]);
            match find_spec(acc, bt[i].0) {
                None => {
                    lemma_store_keys(acc, bt[i].0, bt[i].1, k);
                    lemma_merge_rest_scalar_new(table_store_spec(acc, bt[i].0, bt[i].1), bt, r2, k, q2);
                },
                Some(j) => match merge_value_spec(acc[j].1, bt[i].1) {
                    Some(m) => {
                        lemma_store_keys(acc, bt[i].0, m, k);
                        lemma_merge_rest_scalar_new(table_store_spec(acc, bt[i].0, m), bt, r2, k, q2);
                    },
                    None => {},
                },
            }
        } else {
            let w = choose|w: int| 0 <= w < acc.len() && #[trigger] acc[w].0 == k;
            assert(acc[w].0 == k);
            assert(find_spec(acc, k) is Some);
            let j = find_spec(acc, k)->Some_0;
            assert(merge_value_spec(acc[j].1, bt[i].1) is None);
            assert(merge_rest_spec(acc, b, rem) is None);
        }
    }
}

/// Law: a key is given a value once. Merging fails where the table merged
/// into binds a key to a value that is neither a table nor an array and the
/// new table binds that key too, and where the new table binds to such a
/// value a key that the table merged into already binds.
pub proof fn lemma_merge_redefinition(
    acc: Seq<(Seq<char>, ValueM)>,
    new: Seq<(Seq<char>, ValueM)>,
    k: Seq<char>,
)
    ensures
        first_scalar(acc, k) && binds(new, k) ==> merge_tables_spec(acc, new) is None,
        binds(acc, k) && (exists|i: int|
            0 <= i < new.len() && #[trigger] new[i].0 == k && is_scalar(new[i].1))
            ==> merge_tables_spec(acc, new) is None,
{
    let rem = all_places(new.len() as int);
    if first_scalar(acc, k) && binds(new, k) {
        let i = choose|i: int| 0 <= i < new.len() && #[trigger] new[i].0 == k;
        assert(new[rem[i]].0 == k);
        lemma_merge_rest_first_scalar(acc, new, rem, k);
    }
    if binds(acc, k) && (exists|i: int|
        0 <= i < new.len() && #[trigger] new[i].0 == k && is_scalar(new[i].1)) {
        let i = choose|i: int| 0 <= i < new.len() && #[trigger] new[i].0 == k && is_scalar(new[i].1);
        assert(rem[i] == i);
        lemma_merge_rest_scalar_new(acc, new, rem, k, i);
    }
}

/// A copy of a character sequence.
pub fn clone_chars(v: &Vec<char>) -> (r: Vec<char>)
    ensures
        r@ == v@,
{
    let r = crate::text::copy_range(v, 0, v.len());
    assert(v@.subrange(0, v@.len() as int) == v@);
    r
}

/// A copy of a date-time.
pub fn clone_datetime(d: &DateTime) -> (r: DateTime)
    ensures
        r@ == d@,
{
    match d {
        DateTime::OffsetDateTime(t) => DateTime::OffsetDateTime(clone_chars(t)),
        DateTime::LocalDateTime(t) => DateTime::LocalDateTime(clone_chars(t)),
        DateTime::LocalDate(t) => DateTime::LocalDate(clone_chars(t)),
        DateTime::LocalTime(t) => DateTime::LocalTime(clone_chars(t)),
    }
}

/// A copy of a value.
#[verifier::loop_isolation(false)]
pub fn clone_value(v: &Value) -> (r: Value)
    ensures
        r@ == v@,
    decreases v,
{
    match v {
        Value::String(t) => Value::String(clone_chars(t)),
        Value::Integer(i) => Value::Integer(*i),
        Value::Float(t) => Value::Float(clone_chars(t)),
        Value::Boolean(b) => Value::Boolean(*b),
        Value::DateTime(d) => Value::DateTime(clone_datetime(d)),
        Value::Array(items) => {
            let mut out: Vec<Value> = Vec::new();
            let mut i: usize = 0;
            while i < items.len()
                invariant
                    i <= items.len(),
                    values_model(out@) == values_model(items@.subrange(0, i as int)),
                decreases items.len() - i,
            {
                proof {
                    vstd::std_specs::vec::axiom_vec_index_decreases(*items, i as int);
                    assert(items@.subrange(0, i + 1).drop_last() == items@.subrange(0, i as int));
                }
                let c = clone_value(&items[i]);
                let ghost before = out@;
                out.push(c);
                proof {
                    assert(out@.drop_last() == before);
                }
                i = i + 1;
            }
            proof {
                assert(items@.subrange(0, items@.len() as int) == items@);
            }
            Value::Array(out)
        },
        Value::Table(t) => Value::Table(clone_table(t)),
    }
}

/// A copy of a table.
#[verifier::loop_isolation(false)]
pub fn clone_table(t: &Table) -> (r: Table)
    ensures
        r@ == t@,
    decreases t,
{
    let mut out: Vec<(Vec<char>, Value)> = Vec::new();
    let mut i: usize = 0;
    while i < t.entries.len()
        invariant
            i <= t.entries.len(),
            entries_model(out@) == entries_model(t.entries@.subrange(0, i as int)),
        decreases t.entries.len() - i,
    {
        proof {
            vstd::std_specs::vec::axiom_vec_index_decreases(t.entries, i as int);
            assert(t.entries@.subrange(0, i + 1).drop_last() == t.entries@.subrange(0, i as int));
        }
        let (k, v) = &t.entries[i];
        let e = (clone_chars(k), clone_value(v));
        let ghost before = out@;
        out.push(e);
        proof {
            assert(out@.drop_last() == before);
        }
        i = i + 1;
    }
    proof {
        assert(t.entries@.subrange(0, t.entries@.len() as int) == t.entries@);
    }
    Table { entries: out }
}

/// The empty table.
pub fn table_new() -> (t: Table)
    ensures
        t.entries@.len() == 0,
        t@ == Seq::<(Seq<char>, ValueM)>::empty(),
{
    Table { entries: Vec::new() }
}

/// The views of the segments of a dotted key.
pub open spec fn key_view(k: Seq<Vec<char>>) -> Seq<Seq<char>> {
    k.map_values(|c: Vec<char>| c@)
}

/// The value that binds the segments of `keys` from place `n` on, nested,
/// to `v`.
pub open spec fn nest_spec(keys: Seq<Seq<char>>, n: int, v: ValueM) -> ValueM
    decreases keys.len() - n,
{
    if n < 0 || n >= keys.len() {
        v
    } else {
        ValueM::Table(seq![(keys[n], nest_spec(keys, n + 1, v))])
    }
}

/// The table that binds the dotted key `keys` to `v` (the empty table for an
/// empty key).
pub open spec fn nested_table_spec(keys: Seq<Seq<char>>, v: ValueM) -> Seq<(Seq<char>, ValueM)> {
    if keys.len() == 0 {
        Seq::empty()
    } else {
        seq![(keys[0], nest_spec(keys, 1, v))]
    }
}

/// The table that binds the dotted key `keys` to `value`.
pub fn make_nested_table(keys: &Vec<Vec<char>>, value: Value) -> (r: Table)
    ensures
        r@ == nested_table_spec(key_view(keys@), value@),
{
    if keys.len() == 0 {
        return table_new();
    }
    let ghost kv = key_view(keys@);
    let ghost v0 = value@;
    let mut v = value;
    let mut n = keys.len();
    while n > 1
        invariant
            1 <= n <= keys.len(),
            kv == key_view(keys@),
            v@ == nest_spec(kv, n as int, v0),
        decreases n,
    {
        let mut entries: Vec<(Vec<char>, Value)> = Vec::new();
        let k = clone_chars(&keys[n - 1]);
        let ghost vm = v@;
        entries.push((k, v));
        proof {
            assert(entries@.drop_last().len() == 0);
            assert(kv[n - 1] == keys@[n - 1]@);
            reveal_with_fuel(entries_model, 2);
            assert(entries_model(entries@) =~= seq![(kv[n - 1], vm)]);
        }
        v = Value::Table(Table { entries });
        n = n - 1;
    }
    let mut entries: Vec<(Vec<char>, Value)> = Vec::new();
    let k = clone_chars(&keys[0]);
    let ghost vm = v@;
    entries.push((k, v));
    proof {
        assert(entries@.drop_last().len() == 0);
        assert(kv[0] == keys@[0]@);
        reveal_with_fuel(entries_model, 2);
        assert(entries_model(entries@) =~= seq![(kv[0], vm)]);
    }
    Table { entries }
}

/// The first place where `t` binds `k`, if any.
pub fn table_find(t: &Table, k: &Vec<char>) -> (r: Option<usize>)
    ensures
        match r {
            Some(i) => find_spec(t@, k@) == Some(i as int),
            None => find_spec(t@, k@) is None,
        },
{
    proof {
        lemma_entries_model(t.entries@);
    }
    let mut i: usize = 0;
    while i < t.entries.len()
        invariant
            i <= t.entries.len(),
            t@.len() == t.entries@.len(),
            forall|m: int| 0 <= m < t.entries@.len() ==> #[trigger] t@[m].0 == t.entries@[m].0@,
            find_spec(t@, k@) == find_from(t@, k@, i as int),
        decreases t.entries.len() - i,
    {
        if chars_eq(&t.entries[i].0, k) {
            return Some(i);
        }
        i = i + 1;
    }
    None
}

/// Merge value `b` into value `a` (see [`merge_value_spec`]).
pub fn merge_values(a: Value, b: &Value) -> (r: Option<Value>)
    ensures
        match r {
            Some(v) => merge_value_spec(a@, b@) == Some(v@),
            None => merge_value_spec(a@, b@) is None,
        },
    decreases b,
{
    match b {
        Value::Table(nt) => match a {
            Value::Table(at) => {
                let ghost at0 = at@;
                proof {
                    assert(a@ == ValueM::Table(at0));
                    assert(b@ == ValueM::Table(nt@));
                }
                match recursive_merge_tables(at, nt) {
                    Some(m) => {
                        proof {
                            assert(merge_value_spec(a@, b@) == Some(ValueM::Table(m@)));
                        }
                        Some(Value::Table(m))
                    },
                    None => None,
                }
            },
            Value::Array(aa) => {
                let ghost aa0 = aa@;
                let mut all = aa;
                proof {
                    lemma_values_model(aa0);
                }
                match all.pop() {
                    Some(Value::Table(lt)) => {
                        proof {
                            assert(values_model(aa0).last() == ValueM::Table(lt@));
                        }
                        match recursive_merge_tables(lt, nt) {
                            Some(m) => {
                                let ghost mm = m@;
                                let tm = Value::Table(m);
                                let ghost tmv = tm;
                                all.push(tm);
                                proof {
                                    assert(all@.drop_last() == aa0.drop_last());
                                    assert(values_model(aa0).drop_last() == values_model(aa0.drop_last()));
                                    assert(value_model(tmv) == ValueM::Table(mm));
                                    assert(values_model(all@) == values_model(aa0.drop_last()).push(ValueM::Table(mm)));
                                    assert(merge_value_spec(ValueM::Table(lt@), b@) == Some(ValueM::Table(mm)));
                                    assert(a@ == ValueM::Array(values_model(aa0)));
                                }
                                Some(Value::Array(all))
                            },
                            None => None,
                        }
                    },
                    _ => None,
                }
            },
            _ => None,
        },
        Value::Array(na) => match a {
            Value::Array(aa) => {
                let ghost aa0 = aa@;
                let mut all = aa;
                let mut x: usize = 0;
                while x < na.len()
                    invariant
                        x <= na.len(),
                        values_model(all@) == values_model(aa0) + values_model(na@.subrange(0, x as int)),
                    decreases na.len() - x,
                {
                    proof {
                        assert(na@.subrange(0, x + 1).drop_last() == na@.subrange(0, x as int));
                    }
                    let c = clone_value(&na[x]);
                    let ghost before = all@;
                    all.push(c);
                    proof {
                        assert(all@.drop_last() == before);
                        assert(values_model(aa0) + values_model(na@.subrange(0, x + 1)) =~= (
                        values_model(aa0) + values_model(na@.subrange(0, x as int))).push(c@));
                    }
                    x = x + 1;
                }
                proof {
                    assert(na@.subrange(0, na@.len() as int) == na@);
                }
                Some(Value::Array(all))
            },
            _ => None,
        },
        _ => None,
    }
}

/// The places held in a list of indices.
pub open spec fn places(rem: Seq<usize>) -> Seq<int> {
    rem.map_values(|x: usize| x as int)
}

/// Merge the table `new` into `acc` (see [`merge_tables_spec`]): the
/// bindings of `new` are taken smallest key first; each merges into the
/// first binding of its key, or is bound in front; `None` when two values
/// under one key do not merge.
#[verifier::loop_isolation(false)]
pub fn recursive_merge_tables(acc: Table, new: &Table) -> (r: Option<Table>)
    ensures
        match r {
            Some(t) => merge_tables_spec(acc@, new@) == Some(t@),
            None => merge_tables_spec(acc@, new@) is None,
        },
    decreases new,
{
    let ghost a0 = acc@;
    let ghost b0 = ValueM::Table(new@);
    proof {
        lemma_entries_model(new.entries@);
    }
    let mut acc = acc;
    let mut rem: Vec<usize> = Vec::new();
    let mut o: usize = 0;
    while o < new.entries.len()
        invariant
            o <= new.entries.len(),
            rem@.len() == o,
            forall|q: int| 0 <= q < o ==> rem@[q] == q,
        decreases new.entries.len() - o,
    {
        rem.push(o);
        o = o + 1;
    }
    assert(places(rem@) =~= all_places(new@.len() as int));
    while rem.len() > 0
        invariant
            b0 == ValueM::Table(new@),
            new@.len() == new.entries@.len(),
            forall|i: int|
                0 <= i < new.entries@.len() ==> #[trigger] new@[i] == (
                    new.entries@[i].0@,
                    value_model(new.entries@[i].1),
                ),
            forall|q: int| 0 <= q < rem@.len() ==> #[trigger] rem@[q] < new.entries@.len(),
            merge_tables_spec(a0, new@) == merge_rest_spec(acc@, b0, places(rem@)),
        decreases rem.len(),
    {
        let ghost rv = places(rem@);
        let mut best: usize = 0;
        let mut q: usize = 1;
        while q < rem.len()
            invariant
                1 <= q <= rem.len(),
                best < q,
                rv == places(rem@),
                min_place(new@, rv) == min_from(new@, rv, q as int, best as int),
            decreases rem.len() - q,
        {
            proof {
                assert(rv[q as int] == rem@[q as int]);
                assert(rv[best as int] == rem@[best as int]);
            }
            if chars_lt(&new.entries[rem[q]].0, &new.entries[rem[best]].0) {
                best = q;
            }
            q = q + 1;
        }
        let i = rem.remove(best);
        proof {
            assert(places(rem@) =~= rv.remove(best as int));
            assert(rv[best as int] == i);
            vstd::std_specs::vec::axiom_vec_index_decreases(new.entries, i as int);
            lemma_entries_model(acc.entries@);
        }
        let k = &new.entries[i].0;
        let nv = &new.entries[i].1;
        match table_find(&acc, k) {
            None => {
                let e = (clone_chars(k), clone_value(nv));
                let ghost before = acc.entries@;
                acc.entries.insert(0, e);
                proof {
                    assert(acc.entries@ =~= seq![e] + before);
                    lemma_entries_model(before);
                    lemma_entries_model(acc.entries@);
                    assert(acc@ =~= seq![(k@, value_model(*nv))] + entries_model(before));
                }
            },
            Some(j) => {
                let ghost before = acc.entries@;
                let ghost acc1 = acc@;
                proof {
                    lemma_find_from(acc1, k@, 0);
                    assert(acc1[j as int] == (before[j as int].0@, value_model(before[j as int].1)));
                }
                let (ak, av) = acc.entries.remove(j);
                proof {
                    assert((ak, av) == before[j as int]);
                }
                match merge_values(av, nv) {
                    Some(m) => {
                        acc.entries.insert(j, (ak, m));
                        proof {
                            assert(acc.entries@ =~= before.update(j as int, (ak, m)));
                            lemma_entries_update(before, j as int, (ak, m));
                            assert(ak@ == k@);
                        }
                    },
                    None => {
                        return None;
                    },
                }
            },
        }
    }
    Some(acc)
}

} // verus!
