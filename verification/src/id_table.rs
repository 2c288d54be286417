//! Tables keyed by identifiers.

use rustc_hash::FxHashMap;
use vstd::prelude::*;
use crate::ids::Uuid;

verus! {

/// The hash builder of `rustc_hash`.
#[verifier::external_type_specification]
#[verifier::external_body]
pub struct ExFxBuildHasher(rustc_hash::FxBuildHasher);

/// `rustc_hash::FxHashMap::default`: a map without entries.
#[verifier::external_body]
pub(crate) fn fx_new<T>() -> (m: FxHashMap<u128, T>)
    ensures
        forall|k: u128| !(#[trigger] m@.contains_key(k)),
{
    FxHashMap::default()
}

/// `rustc_hash::FxHashMap::insert`: sets the entry of a key, in place of any it had.
#[verifier::external_body]
pub(crate) fn fx_insert<T>(m: &mut FxHashMap<u128, T>, key: u128, value: T)
    ensures
        final(m)@ == old(m)@.insert(key, value),
{
    m.insert(key, value);
}

/// `rustc_hash::FxHashMap::get`: the entry of a key, if it has one.
#[verifier::external_body]
pub(crate) fn fx_get<T>(m: &FxHashMap<u128, T>, key: u128) -> (r: Option<&T>)
    ensures
        match r {
            Some(v) => m@.contains_key(key) && *v == m@[key],
            None => !m@.contains_key(key),
        },
{
    m.get(&key)
}

/// `rustc_hash::FxHashMap::get_mut`: access to the entry of a key, if it has one. What is
/// written through it becomes the entry.
#[verifier::external_body]
fn fx_get_mut<T>(m: &mut FxHashMap<u128, T>, key: u128) -> (r: Option<&mut T>)
    ensures
        match r {
            Some(v) => old(m)@.contains_key(key) && *v == old(m)@[key] && final(m)@
                == old(m)@.insert(key, *final(v)),
            None => !old(m)@.contains_key(key) && final(m)@ == old(m)@,
        },
    no_unwind
{
    m.get_mut(&key)
}

/// `rustc_hash::FxHashMap::remove`: takes the entry of a key out, if it has one.
#[verifier::external_body]
fn fx_remove<T>(m: &mut FxHashMap<u128, T>, key: u128) -> (r: Option<T>)
    ensures
        final(m)@ == old(m)@.remove(key),
        match r {
            Some(v) => old(m)@.contains_key(key) && v == old(m)@[key],
            None => !old(m)@.contains_key(key),
        },
{
    m.remove(&key)
}

/// The table holds an entry of `id`.
pub open spec fn holds<T>(rows: Seq<(Uuid, T)>, id: Uuid) -> bool {
    exists|i: int| 0 <= i < rows.len() && (#[trigger] rows[i]).0 == id
}

/// The entry of `id`.
pub open spec fn lookup<T>(rows: Seq<(Uuid, T)>, id: Uuid) -> Option<T> {
    if holds(rows, id) {
        Some(rows[choose|i: int| 0 <= i < rows.len() && (#[trigger] rows[i]).0 == id].1)
    } else {
        None
    }
}

/// A row with a new value, if it is the row of `id`.
pub open spec fn overwritten<T>(id: Uuid, value: T) -> spec_fn((Uuid, T)) -> (Uuid, T) {
    |row: (Uuid, T)|
        if row.0 == id {
            (id, value)
        } else {
            row
        }
}

/// `rows` with `value` as the entry of `id`, in its place or else at the end.
pub open spec fn put<T>(rows: Seq<(Uuid, T)>, id: Uuid, value: T) -> Seq<(Uuid, T)> {
    if holds(rows, id) {
        rows.map_values(overwritten(id, value))
    } else {
        rows.push((id, value))
    }
}

/// Tells the rows of other identifiers than `id`.
pub open spec fn other_than<T>(id: Uuid) -> spec_fn((Uuid, T)) -> bool {
    |row: (Uuid, T)| row.0 != id
}

/// `rows` without the entry of `id`.
pub open spec fn without<T>(rows: Seq<(Uuid, T)>, id: Uuid) -> Seq<(Uuid, T)> {
    rows.filter(other_than(id))
}

/// No two rows have the same identifier.
pub open spec fn ids_distinct<T>(rows: Seq<(Uuid, T)>) -> bool {
    forall|i: int, j: int|
        0 <= i < j < rows.len() ==> (#[trigger] rows[i]).0 != (#[trigger] rows[j]).0
}

/// The entry of an identifier that stands at `i`.
pub proof fn lemma_lookup_at<T>(rows: Seq<(Uuid, T)>, i: int)
    requires
        ids_distinct(rows),
        0 <= i < rows.len(),
    ensures
        holds(rows, rows[i].0),
        lookup(rows, rows[i].0) == Some(rows[i].1),
{
    let id = rows[i].0;
    let k = choose|k: int| 0 <= k < rows.len() && (#[trigger] rows[k]).0 == id;
    if k < i {
        assert(rows[k].0 != rows[i].0);
    }
    if i < k {
        assert(rows[i].0 != rows[k].0);
    }
}

/// The rows of an entry that is set in its place.
proof fn lemma_put_at<T>(rows: Seq<(Uuid, T)>, i: int, value: T)
    requires
        ids_distinct(rows),
        0 <= i < rows.len(),
    ensures
        put(rows, rows[i].0, value) == rows.update(i, (rows[i].0, value)),
{
    let id = rows[i].0;
    let out = put(rows, id, value);
    assert forall|k: int| 0 <= k < rows.len() implies out[k] == rows.update(i, (id, value))[k] by {
        if k < i {
            assert(rows[k].0 != rows[i].0);
        }
        if i < k {
            assert(rows[i].0 != rows[k].0);
        }
    }
    assert(out =~= rows.update(i, (id, value)));
}

proof fn lemma_without_overwritten<T>(rows: Seq<(Uuid, T)>, id: Uuid, value: T)
    ensures
        rows.map_values(overwritten(id, value)).filter(other_than(id)) == rows.filter(other_than(id)),
    decreases rows.len(),
{
    reveal(Seq::filter);
    let g = overwritten(id, value);
    if rows.len() > 0 {
        lemma_without_overwritten(rows.drop_last(), id, value);
        assert(rows.map_values(g).drop_last() =~= rows.drop_last().map_values(g));
        assert(rows.map_values(g).last() == g(rows.last()));
    } else {
        assert(rows.map_values(g) =~= rows);
    }
}

/// A row that goes leaves nothing of what was put into it.
pub proof fn lemma_without_put<T>(rows: Seq<(Uuid, T)>, id: Uuid, value: T)
    ensures
        without(put(rows, id, value), id) == without(rows, id),
{
    reveal(Seq::filter);
    if holds(rows, id) {
        lemma_without_overwritten(rows, id, value);
    } else {
        assert(rows.push((id, value)).drop_last() =~= rows);
    }
}

/// The rows with their entries replaced by what `f` makes of them.
pub open spec fn mapped<T, U>(rows: Seq<(Uuid, T)>, f: spec_fn(T) -> U) -> Seq<(Uuid, U)> {
    rows.map_values(|row: (Uuid, T)| (row.0, f(row.1)))
}

/// Setting, taking out and looking up commute with mapping the entries.
pub proof fn lemma_mapped<T, U>(rows: Seq<(Uuid, T)>, f: spec_fn(T) -> U, id: Uuid, value: T)
    requires
        ids_distinct(rows),
    ensures
        ids_distinct(mapped(rows, f)),
        holds(mapped(rows, f), id) == holds(rows, id),
        lookup(mapped(rows, f), id) == match lookup(rows, id) {
            Some(v) => Some(f(v)),
            None => None,
        },
        put(mapped(rows, f), id, f(value)) == mapped(put(rows, id, value), f),
        without(mapped(rows, f), id) == mapped(without(rows, id), f),
{
    let m = mapped(rows, f);
    assert forall|i: int, j: int| 0 <= i < j < m.len() implies (#[trigger] m[i]).0 != (
    #[trigger] m[j]).0 by {
        assert(rows[i].0 != rows[j].0);
    }
    if holds(rows, id) {
        let i = choose|i: int| 0 <= i < rows.len() && (#[trigger] rows[i]).0 == id;
        assert(m[i].0 == id);
        lemma_lookup_at(rows, i);
        lemma_lookup_at(m, i);
    }
    if holds(m, id) {
        let i = choose|i: int| 0 <= i < m.len() && (#[trigger] m[i]).0 == id;
        assert(rows[i].0 == id);
    }
    assert(put(m, id, f(value)) =~= mapped(put(rows, id, value), f));
    lemma_without_mapped(rows, f, id);
}

proof fn lemma_without_mapped<T, U>(rows: Seq<(Uuid, T)>, f: spec_fn(T) -> U, id: Uuid)
    ensures
        without(mapped(rows, f), id) == mapped(without(rows, id), f),
    decreases rows.len(),
{
    reveal(Seq::filter);
    if rows.len() > 0 {
        let front = rows.drop_last();
        lemma_without_mapped(front, f, id);
        assert(mapped(rows, f).drop_last() =~= mapped(front, f));
        assert(mapped(rows, f).last() == (rows.last().0, f(rows.last().1)));
    }
    assert(without(mapped(rows, f), id) =~= mapped(without(rows, id), f));
}

/// A table that holds one entry for each identifier and remembers the order in which they came.
pub struct IdTable<T> {
    order: Vec<u128>,
    entries: FxHashMap<u128, T>,
}

impl<T> View for IdTable<T> {
    type V = Seq<(Uuid, T)>;

    closed spec fn view(&self) -> Seq<(Uuid, T)> {
        Seq::new(
            self.order@.len(),
            |i: int| (Uuid(self.order@[i]), self.entries@[self.order@[i]]),
        )
    }
}

impl<T> IdTable<T> {
    #[verifier::type_invariant]
    spec fn inv(self) -> bool {
        &&& self.order@.no_duplicates()
        &&& forall|k: u128| #[trigger] self.entries@.contains_key(k) <==> self.order@.contains(k)
    }

    proof fn lemma_view(self)
        requires
            self.inv(),
        ensures
            ids_distinct(self@),
            forall|k: u128|
                #![trigger self.entries@.contains_key(k)]
                self.entries@.contains_key(k) <==> holds(self@, Uuid(k)),
            forall|k: u128|
                #![trigger self.entries@[k]]
                self.entries@.contains_key(k) ==> lookup(self@, Uuid(k)) == Some(self.entries@[k]),
    {
        assert forall|i: int, j: int| 0 <= i < j < self@.len() implies (#[trigger] self@[i]).0 != (
        #[trigger] self@[j]).0 by {
            assert(self.order@[i] != self.order@[j]);
        }
        assert forall|k: u128| #[trigger] self.entries@.contains_key(k) <==> holds(
            self@,
            Uuid(k),
        ) by {
            if self.order@.contains(k) {
                let i = choose|i: int| 0 <= i < self.order@.len() && self.order@[i] == k;
                assert(self@[i].0 == Uuid(k));
            }
            if holds(self@, Uuid(k)) {
                let i = choose|i: int| 0 <= i < self@.len() && (#[trigger] self@[i]).0 == Uuid(k);
                assert(self.order@[i] == k);
            }
        }
        assert forall|k: u128| self.entries@.contains_key(k) implies lookup(self@, Uuid(k)) == Some(
            #[trigger] self.entries@[k],
        ) by {
            let i = choose|i: int| 0 <= i < self.order@.len() && self.order@[i] == k;
            lemma_lookup_at(self@, i);
        }
    }

    /// A table without entries.
    pub fn new() -> (t: Self)
        ensures
            t@ == Seq::<(Uuid, T)>::empty(),
    {
        let t = IdTable { order: Vec::new(), entries: fx_new() };
        assert(t@ =~= Seq::<(Uuid, T)>::empty());
        t
    }

    /// The entry of `id`.
    pub fn get(&self, id: Uuid) -> (r: Option<&T>)
        ensures
            match r {
                Some(v) => lookup(self@, id) == Some(*v),
                None => lookup(self@, id) is None,
            },
            ids_distinct(self@),
    {
        proof {
            use_type_invariant(self);
            self.lemma_view();
            assert(Uuid(id.0) == id);
            assert(self.entries@.contains_key(id.0) <==> holds(self@, id));
        }
        fx_get(&self.entries, id.0)
    }

    /// True when the table holds an entry of `id`.
    pub fn contains(&self, id: Uuid) -> (r: bool)
        ensures
            r == holds(self@, id),
    {
        self.get(id).is_some()
    }

    fn take_parts(&mut self) -> (parts: (Vec<u128>, FxHashMap<u128, T>))
        ensures
            parts.0@ == old(self).order@,
            parts.1@ == old(self).entries@,
            old(self).inv(),
    {
        proof {
            use_type_invariant(&*self);
        }
        let mut other: Self = IdTable::new();
        std::mem::swap(self, &mut other);
        let IdTable { order, entries } = other;
        (order, entries)
    }

    fn find(order: &Vec<u128>, key: u128) -> (i: usize)
        ensures
            i <= order@.len(),
            i < order@.len() ==> order@[i as int] == key,
            i == order@.len() ==> !order@.contains(key),
    {
        let mut i: usize = 0;
        while i < order.len()
            invariant
                i <= order@.len(),
                forall|j: int| 0 <= j < i ==> order@[j] != key,
            decreases order@.len() - i,
        {
            if order[i] == key {
                return i;
            }
            i = i + 1;
        }
        i
    }

    /// Sets the entry of `id`. An identifier that is there already keeps its place.
    pub fn insert(&mut self, id: Uuid, value: T)
        ensures
            final(self)@ == put(old(self)@, id, value),
            ids_distinct(old(self)@),
    {
        let ghost before = *self;
        let (mut order, mut entries) = self.take_parts();
        let present = fx_get(&entries, id.0).is_some();
        let ghost ids = order@;
        proof {
            before.lemma_view();
            assert(before.entries@.contains_key(id.0) <==> holds(before@, Uuid(id.0)));
            assert(before.entries@.contains_key(id.0) <==> ids.contains(id.0));
        }
        fx_insert(&mut entries, id.0, value);
        if present {
            *self = IdTable { order, entries };
            proof {
                let i = choose|i: int| 0 <= i < ids.len() && ids[i] == id.0;
                lemma_put_at(before@, i, value);
                assert forall|k: int| 0 <= k < self@.len() implies self@[k] == before@.update(
                    i,
                    (id, value),
                )[k] by {
                    if k != i {
                        assert(ids[k] != ids[i]);
                    }
                }
                assert(self@ =~= put(before@, id, value));
            }
        } else {
            order.push(id.0);
            proof {
                assert forall|k: u128| #[trigger] entries@.contains_key(k) <==> order@.contains(
                    k,
                ) by {
                    if ids.contains(k) {
                        let j = choose|j: int| 0 <= j < ids.len() && ids[j] == k;
                        assert(order@[j] == k);
                    }
                    if order@.contains(k) {
                        let j = choose|j: int| 0 <= j < order@.len() && order@[j] == k;
                        if j < ids.len() {
                            assert(ids[j] == k);
                        }
                    }
                    assert(order@[ids.len() as int] == id.0);
                    assert(before.entries@.contains_key(k) <==> ids.contains(k));
                }
            }
            *self = IdTable { order, entries };
            proof {
                assert forall|k: int| 0 <= k < self@.len() implies self@[k] == before@.push(
                    (id, value),
                )[k] by {
                    if k < ids.len() {
                        assert(ids.contains(ids[k]));
                        assert(ids[k] != id.0);
                    }
                }
                assert(self@ =~= put(before@, id, value));
            }
        }
    }

    /// Takes the entry of `id` out.
    pub fn remove(&mut self, id: Uuid) -> (r: Option<T>)
        ensures
            final(self)@ == without(old(self)@, id),
            r == lookup(old(self)@, id),
            ids_distinct(old(self)@),
    {
        let ghost before = *self;
        let (mut order, mut entries) = self.take_parts();
        let i = Self::find(&order, id.0);
        let ghost ids = order@;
        proof {
            before.lemma_view();
            assert(before.entries@.contains_key(id.0) <==> holds(before@, Uuid(id.0)));
        }
        let ghost keep = other_than::<T>(id);
        let r = fx_remove(&mut entries, id.0);
        if i < order.len() {
            assert(ids.contains(ids[i as int]));
            order.remove(i);
            proof {
                crate::seqs::lemma_remove_no_duplicates(ids, i as int);
                assert forall|k: u128| #[trigger] entries@.contains_key(k) <==> order@.contains(
                    k,
                ) by {
                    assert(before.entries@.contains_key(k) <==> ids.contains(k));
                    if order@.contains(k) {
                        let j = choose|j: int| 0 <= j < order@.len() && order@[j] == k;
                        let m = if j < i {
                            j
                        } else {
                            j + 1
                        };
                        assert(ids[m] == k);
                        assert(m != i as int);
                    }
                    if ids.contains(k) && k != id.0 {
                        let m = choose|m: int| 0 <= m < ids.len() && ids[m] == k;
                        let j = if m < i {
                            m
                        } else {
                            m - 1
                        };
                        assert(order@[j] == k);
                    }
                }
            }
            *self = IdTable { order, entries };
            proof {
                lemma_without_at(before@, i as int);
                assert forall|k: int| 0 <= k < self@.len() implies self@[k] == before@.remove(
                    i as int,
                )[k] by {
                    let m = if k < i {
                        k
                    } else {
                        k + 1
                    };
                    assert(order@[k] == ids[m]);
                    assert(ids[m] != ids[i as int]);
                }
                assert(self@ =~= without(before@, id));
            }
        } else {
            proof {
                assert(entries@ =~= before.entries@);
                assert forall|k: int| 0 <= k < before@.len() implies keep(#[trigger] before@[k]) by {
                    assert(ids.contains(ids[k]));
                }
                crate::seqs::lemma_filter_all(before@, keep);
            }
            *self = IdTable { order, entries };
            assert(self@ =~= without(before@, id));
        }
        r
    }

    /// Access to the entry of `id`. What is written through it becomes the entry.
    pub fn get_mut(&mut self, id: Uuid) -> (r: Option<&mut T>)
        ensures
            match r {
                Some(v) => lookup(old(self)@, id) == Some(*v) && final(self)@ == put(
                    old(self)@,
                    id,
                    *final(v),
                ),
                None => lookup(old(self)@, id) is None && final(self)@ == old(self)@,
            },
            ids_distinct(old(self)@),
    {
        let ghost before = *self;
        proof {
            use_type_invariant(&*self);
            self.lemma_view();
            assert(before.entries@.contains_key(id.0) <==> holds(before@, Uuid(id.0)));
        }
        fx_get_mut(&mut self.entries, id.0)
    }

    /// The number of entries.
    pub fn len(&self) -> (n: usize)
        ensures
            n == self@.len(),
            ids_distinct(self@),
    {
        proof {
            use_type_invariant(self);
            self.lemma_view();
        }
        self.order.len()
    }

    /// The identifier that came at place `i`.
    pub fn id_at(&self, i: usize) -> (id: Uuid)
        requires
            i < self@.len(),
        ensures
            id == self@[i as int].0,
    {
        Uuid(self.order[i])
    }

    /// The entry that came at place `i`.
    pub fn value_at(&self, i: usize) -> (v: &T)
        requires
            i < self@.len(),
        ensures
            *v == self@[i as int].1,
    {
        let key: u128 = self.order[i];
        proof {
            use_type_invariant(self);
            assert(self.order@.contains(self.order@[i as int]));
        }
        match fx_get(&self.entries, key) {
            Some(v) => v,
            None => {
                proof {
                    assert(false);
                }
                vstd::pervasive::unreached()
            },
        }
    }

    /// Takes all entries out.
    pub fn clear(&mut self)
        ensures
            final(self)@ == Seq::<(Uuid, T)>::empty(),
    {
        *self = IdTable::new();
    }
}

/// Without an identifier its row is gone.
proof fn lemma_without_at<T>(rows: Seq<(Uuid, T)>, i: int)
    requires
        ids_distinct(rows),
        0 <= i < rows.len(),
    ensures
        without(rows, rows[i].0) == rows.remove(i),
{
    let id = rows[i].0;
    let keep = other_than::<T>(id);
    let front = rows.take(i);
    let back = rows.skip(i + 1);
    let one = seq![rows[i]];
    assert(rows =~= front + one + back);
    Seq::filter_distributes_over_add(front + one, back, keep);
    Seq::filter_distributes_over_add(front, one, keep);
    assert forall|j: int| 0 <= j < front.len() implies keep(#[trigger] front[j]) by {
        assert(rows[j].0 != rows[i].0);
    }
    assert forall|j: int| 0 <= j < back.len() implies keep(#[trigger] back[j]) by {
        assert(back[j] == rows[j + i + 1]);
        assert(rows[i].0 != rows[j + i + 1].0);
    }
    crate::seqs::lemma_filter_all(front, keep);
    crate::seqs::lemma_filter_all(back, keep);
    assert(one.filter(keep) =~= Seq::<(Uuid, T)>::empty()) by {
        reveal(Seq::filter);
        assert(one.drop_last() =~= Seq::<(Uuid, T)>::empty());
        assert(one.drop_last().filter(keep) =~= Seq::<(Uuid, T)>::empty());
        assert(one.last() == rows[i]);
    }
    assert(front + Seq::<(Uuid, T)>::empty() + back =~= rows.remove(i));
}

} // verus!
