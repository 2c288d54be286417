//! Stable insertion sort over elements that carry an integer rank.

use vstd::prelude::*;

verus! {

/// A value that is ordered by an integer rank. Values of equal rank are interchangeable for
/// the order, and a stable sort keeps them as they came.
pub trait Rank: Sized {
    /// The number that decides the order.
    spec fn rank(&self) -> int;
}

/// A value whose rank can be compared at run time.
pub trait Ranked: Rank {
    /// True when `self` belongs strictly behind `other`.
    fn ranks_after(&self, other: &Self) -> (after: bool)
        ensures
            after == (self.rank() > other.rank()),
    ;
}

/// `s` with `x` placed behind every element whose rank does not exceed that of `x`,
/// searching from the end.
pub open spec fn inserted<T: Rank>(s: Seq<T>, x: T) -> Seq<T>
    decreases s.len(),
{
    if s.len() > 0 && s.last().rank() > x.rank() {
        inserted(s.drop_last(), x).push(s.last())
    } else {
        s.push(x)
    }
}

/// The stable sort of `s` by rank.
pub open spec fn sorted_by_rank<T: Rank>(s: Seq<T>) -> Seq<T>
    decreases s.len(),
{
    if s.len() == 0 {
        s
    } else {
        inserted(sorted_by_rank(s.drop_last()), s.last())
    }
}

/// Ranks never fall from one element to the next.
pub open spec fn is_ranked<T: Rank>(s: Seq<T>) -> bool {
    forall|i: int, j: int| 0 <= i <= j < s.len() ==> (#[trigger] s[i]).rank() <= (#[trigger] s[j]).rank()
}

/// Where `inserted` puts `x`: at `pos`, when all behind `pos` rank above `x` and the
/// element before `pos` does not.
proof fn lemma_inserted_at<T: Rank>(s: Seq<T>, x: T, pos: int)
    requires
        0 <= pos <= s.len(),
        pos > 0 ==> s[pos - 1].rank() <= x.rank(),
        forall|i: int| pos <= i < s.len() ==> (#[trigger] s[i]).rank() > x.rank(),
    ensures
        inserted(s, x) == s.insert(pos, x),
    decreases s.len(),
{
    if pos == s.len() {
        assert(s.insert(pos, x) =~= s.push(x));
    } else {
        let front = s.drop_last();
        assert(s.last() == s[s.len() - 1]);
        lemma_inserted_at(front, x, pos);
        assert(front.insert(pos, x).push(s.last()) =~= s.insert(pos, x));
    }
}

/// Insertion keeps a ranked sequence ranked.
pub proof fn lemma_inserted_ranked<T: Rank>(s: Seq<T>, x: T)
    requires
        is_ranked(s),
    ensures
        is_ranked(inserted(s, x)),
        inserted(s, x).len() == s.len() + 1,
        inserted(s, x).last().rank() == if s.len() > 0 && s.last().rank() > x.rank() {
            s.last().rank()
        } else {
            x.rank()
        },
    decreases s.len(),
{
    if s.len() > 0 && s.last().rank() > x.rank() {
        let front = s.drop_last();
        assert(is_ranked(front));
        lemma_inserted_ranked(front, x);
        let grown = inserted(front, x);
        assert(front.len() > 0 ==> front.last().rank() <= s.last().rank());
        let all = grown.push(s.last());
        assert forall|i: int, j: int| 0 <= i <= j < all.len() implies (#[trigger] all[i]).rank() <= (
        #[trigger] all[j]).rank() by {
            if j == grown.len() {
                if i < grown.len() {
                    assert(grown[i].rank() <= grown[grown.len() - 1].rank());
                }
            } else {
                assert(grown[i].rank() <= grown[j].rank());
            }
        }
    } else {
        let all = s.push(x);
        assert forall|i: int, j: int| 0 <= i <= j < all.len() implies (#[trigger] all[i]).rank() <= (
        #[trigger] all[j]).rank() by {
            if j == s.len() && i < s.len() {
                assert(s[i].rank() <= s[s.len() - 1].rank());
            }
        }
    }
}

/// Insertion adds `x` and nothing else.
pub proof fn lemma_inserted_elements<T: Rank>(s: Seq<T>, x: T)
    ensures
        inserted(s, x).len() == s.len() + 1,
        inserted(s, x).to_multiset() == s.to_multiset().insert(x),
        forall|y: T|
            #![trigger inserted(s, x).contains(y)]
            #![trigger s.contains(y)]
            inserted(s, x).contains(y) <==> (y == x || s.contains(y)),
    decreases s.len(),
{
    broadcast use vstd::seq_lib::group_to_multiset_ensures;

    if s.len() > 0 && s.last().rank() > x.rank() {
        let front = s.drop_last();
        lemma_inserted_elements(front, x);
        let grown = inserted(front, x);
        assert(s =~= front.push(s.last()));
        assert(grown.push(s.last()).to_multiset() =~= s.to_multiset().insert(x));
    }
    assert forall|y: T| inserted(s, x).contains(y) <==> (y == x || s.contains(y)) by {
        assert(inserted(s, x).contains(y) <==> inserted(s, x).to_multiset().count(y) > 0);
        assert(s.contains(y) <==> s.to_multiset().count(y) > 0);
    }
}

/// A sorted sequence is ranked and holds the same elements as its source.
pub proof fn lemma_sorted<T: Rank>(s: Seq<T>)
    ensures
        is_ranked(sorted_by_rank(s)),
        sorted_by_rank(s).len() == s.len(),
        sorted_by_rank(s).to_multiset() == s.to_multiset(),
        forall|y: T|
            #![trigger sorted_by_rank(s).contains(y)]
            #![trigger s.contains(y)]
            sorted_by_rank(s).contains(y) <==> s.contains(y),
    decreases s.len(),
{
    broadcast use vstd::seq_lib::group_to_multiset_ensures;

    if s.len() > 0 {
        let front = s.drop_last();
        lemma_sorted(front);
        lemma_inserted_ranked(sorted_by_rank(front), s.last());
        lemma_inserted_elements(sorted_by_rank(front), s.last());
        assert(s =~= front.push(s.last()));
    }
    assert forall|y: T| sorted_by_rank(s).contains(y) <==> s.contains(y) by {
        assert(sorted_by_rank(s).contains(y) <==> sorted_by_rank(s).to_multiset().count(y) > 0);
        assert(s.contains(y) <==> s.to_multiset().count(y) > 0);
    }
}

/// Sorting changes nothing in a sequence that is already ranked.
pub proof fn lemma_sorted_fixpoint<T: Rank>(s: Seq<T>)
    requires
        is_ranked(s),
    ensures
        sorted_by_rank(s) == s,
    decreases s.len(),
{
    if s.len() > 0 {
        let front = s.drop_last();
        assert(is_ranked(front));
        lemma_sorted_fixpoint(front);
        if front.len() > 0 {
            assert(s[s.len() - 2].rank() <= s[s.len() - 1].rank());
        }
        assert(front.push(s.last()) =~= s);
    }
}

/// Mapping a sequence by a function that keeps ranks commutes with insertion.
proof fn lemma_inserted_map<T: Rank, U: Rank>(s: Seq<T>, x: T, f: spec_fn(T) -> U)
    requires
        forall|y: T| (#[trigger] f(y)).rank() == y.rank(),
    ensures
        inserted(s, x).map_values(f) == inserted(s.map_values(f), f(x)),
    decreases s.len(),
{
    if s.len() > 0 {
        assert(f(s.last()).rank() == s.last().rank());
        assert(f(x).rank() == x.rank());
        assert(s.map_values(f).last() == f(s.last()));
    }
    if s.len() > 0 && s.last().rank() > x.rank() {
        let front = s.drop_last();
        lemma_inserted_map(front, x, f);
        assert(s.map_values(f).drop_last() =~= front.map_values(f));
        assert(inserted(s, x).map_values(f) =~= inserted(front, x).map_values(f).push(f(s.last())));
    } else {
        assert(s.push(x).map_values(f) =~= s.map_values(f).push(f(x)));
    }
}

/// Mapping a sequence by a function that keeps ranks commutes with sorting.
pub proof fn lemma_sorted_map<T: Rank, U: Rank>(s: Seq<T>, f: spec_fn(T) -> U)
    requires
        forall|y: T| (#[trigger] f(y)).rank() == y.rank(),
    ensures
        sorted_by_rank(s).map_values(f) == sorted_by_rank(s.map_values(f)),
    decreases s.len(),
{
    if s.len() > 0 {
        let front = s.drop_last();
        lemma_sorted_map(front, f);
        lemma_inserted_map(sorted_by_rank(front), s.last(), f);
        assert(s.map_values(f).drop_last() =~= front.map_values(f));
        assert(s.map_values(f).last() == f(s.last()));
    } else {
        assert(s.map_values(f) =~= Seq::<U>::empty());
        assert(sorted_by_rank(s).map_values(f) =~= Seq::<U>::empty());
    }
}

/// The index at which `x` belongs in `v[..end]`.
fn insertion_point<T: Ranked>(v: &Vec<T>, end: usize, x: &T) -> (pos: usize)
    requires
        end <= v@.len(),
    ensures
        pos <= end,
        inserted(v@.take(end as int), *x) == v@.take(end as int).insert(pos as int, *x),
{
    let mut pos: usize = end;
    while pos > 0 && v[pos - 1].ranks_after(x)
        invariant
            pos <= end <= v@.len(),
            forall|i: int| pos <= i < end ==> (#[trigger] v@[i]).rank() > x.rank(),
        decreases pos,
    {
        pos = pos - 1;
    }
    proof {
        let front = v@.take(end as int);
        assert(pos > 0 ==> front[pos - 1] == v@[pos - 1]);
        lemma_inserted_at(front, *x, pos as int);
    }
    pos
}

/// Sorts `v` by rank; elements of equal rank keep their order.
pub fn sort_ranked<T: Ranked>(v: &mut Vec<T>)
    ensures
        final(v)@ == sorted_by_rank(old(v)@),
{
    let n: usize = v.len();
    let ghost source = v@;
    let mut i: usize = 0;
    assert(source.take(0) =~= Seq::<T>::empty());
    assert(v@ =~= sorted_by_rank(source.take(0)) + source.skip(0));
    while i < n
        invariant
            i <= n == source.len(),
            v@ == sorted_by_rank(source.take(i as int)) + source.skip(i as int),
            sorted_by_rank(source.take(i as int)).len() == i,
        decreases n - i,
    {
        let ghost front = sorted_by_rank(source.take(i as int));
        let ghost x = source[i as int];
        assert(v@[i as int] == x);
        assert(v@.take(i as int) =~= front);
        let pos = insertion_point(v, i, &v[i]);
        if pos < i {
            let moved = v.remove(i);
            assert(v@ =~= front + source.skip(i + 1));
            v.insert(pos, moved);
        }
        proof {
            let next = source.take(i + 1);
            assert(next.drop_last() =~= source.take(i as int));
            assert(next.last() == x);
            assert(sorted_by_rank(next) == inserted(front, x));
            assert(v@ =~= front.insert(pos as int, x) + source.skip(i + 1));
        }
        i = i + 1;
    }
    assert(source.take(n as int) =~= source);
    assert(v@ =~= sorted_by_rank(source));
}

} // verus!
