//! Facts about sequences that several modules use.

use vstd::prelude::*;

verus! {

/// Filtering a prefix, one element at a time.
pub proof fn lemma_filter_take<A>(s: Seq<A>, i: int, p: spec_fn(A) -> bool)
    requires
        0 <= i < s.len(),
    ensures
        s.take(i + 1).filter(p) == if p(s[i]) {
            s.take(i).filter(p).push(s[i])
        } else {
            s.take(i).filter(p)
        },
{
    reveal(Seq::filter);
    let next = s.take(i + 1);
    assert(next.drop_last() =~= s.take(i));
    assert(next.last() == s[i]);
}

/// The elements that `f` keeps, as `f` maps them, one prefix element at a time.
pub proof fn lemma_filter_map_take<A, B>(s: Seq<A>, i: int, f: spec_fn(A) -> Option<B>)
    requires
        0 <= i < s.len(),
    ensures
        s.take(i + 1).filter_map(f) == match f(s[i]) {
            Some(b) => s.take(i).filter_map(f).push(b),
            None => s.take(i).filter_map(f),
        },
{
    reveal(Seq::filter_map);
    let next = s.take(i + 1);
    assert(next.drop_last() =~= s.take(i));
    assert(next.last() == s[i]);
    if let Some(b) = f(s[i]) {
        assert(s.take(i).filter_map(f) + seq![b] =~= s.take(i).filter_map(f).push(b));
    }
}

/// An element that stands at two places is counted at least twice.
pub proof fn lemma_count_two<A>(s: Seq<A>, i: int, j: int)
    requires
        0 <= i < j < s.len(),
        s[i] == s[j],
    ensures
        s.to_multiset().count(s[i]) >= 2,
{
    broadcast use vstd::seq_lib::group_to_multiset_ensures;

    let front = s.take(j);
    let back = s.skip(j);
    assert(s =~= front + back);
    vstd::seq_lib::lemma_multiset_commutative(front, back);
    assert(front[i] == s[i]);
    assert(front.contains(s[i]));
    assert(back[0] == s[i]);
    assert(back.contains(s[i]));
    assert(front.to_multiset().count(s[i]) >= 1);
    assert(back.to_multiset().count(s[i]) >= 1);
}

/// An element that stands at one place only is counted once.
pub proof fn lemma_count_one<A>(s: Seq<A>, i: int)
    requires
        0 <= i < s.len(),
        forall|j: int| 0 <= j < s.len() && j != i ==> #[trigger] s[j] != s[i],
    ensures
        s.to_multiset().count(s[i]) == 1,
{
    broadcast use vstd::seq_lib::group_to_multiset_ensures;

    let x = s[i];
    let front = s.take(i);
    let back = s.skip(i + 1);
    assert(s =~= front.push(x) + back);
    vstd::seq_lib::lemma_multiset_commutative(front.push(x), back);
    assert(!front.contains(x)) by {
        if front.contains(x) {
            let k = choose|k: int| 0 <= k < front.len() && front[k] == x;
            assert(s[k] == x);
        }
    }
    assert(!back.contains(x)) by {
        if back.contains(x) {
            let k = choose|k: int| 0 <= k < back.len() && back[k] == x;
            assert(s[k + i + 1] == x);
        }
    }
    assert(front.to_multiset().count(x) == 0);
    assert(back.to_multiset().count(x) == 0);
}

/// A filter that every element passes changes nothing.
pub proof fn lemma_filter_all<A>(s: Seq<A>, p: spec_fn(A) -> bool)
    requires
        forall|j: int| 0 <= j < s.len() ==> p(#[trigger] s[j]),
    ensures
        s.filter(p) == s,
    decreases s.len(),
{
    reveal(Seq::filter);
    if s.len() > 0 {
        let front = s.drop_last();
        assert forall|j: int| 0 <= j < front.len() implies p(#[trigger] front[j]) by {
            assert(front[j] == s[j]);
        }
        lemma_filter_all(front, p);
        assert(p(s[s.len() - 1]));
        assert(front.push(s.last()) =~= s);
    }
}

/// Without one of its elements a sequence of distinct elements stays distinct.
pub proof fn lemma_remove_no_duplicates<A>(s: Seq<A>, i: int)
    requires
        0 <= i < s.len(),
        s.no_duplicates(),
    ensures
        s.remove(i).no_duplicates(),
{
    let r = s.remove(i);
    assert forall|a: int, b: int| 0 <= a < r.len() && 0 <= b < r.len() && a != b implies r[a] != r[b] by {
        let x = if a < i {
            a
        } else {
            a + 1
        };
        let y = if b < i {
            b
        } else {
            b + 1
        };
        assert(r[a] == s[x] && r[b] == s[y] && x != y);
    }
}

/// Filtering one element out of distinct elements removes its place.
pub proof fn lemma_filter_but_one<A>(s: Seq<A>, i: int)
    requires
        0 <= i < s.len(),
        s.no_duplicates(),
    ensures
        s.filter(|a: A| a != s[i]) == s.remove(i),
{
    let p = |a: A| a != s[i];
    let front = s.take(i);
    let back = s.skip(i + 1);
    let one = seq![s[i]];
    assert(s =~= front + one + back);
    Seq::filter_distributes_over_add(front + one, back, p);
    Seq::filter_distributes_over_add(front, one, p);
    assert forall|j: int| 0 <= j < front.len() implies p(#[trigger] front[j]) by {
        assert(front[j] == s[j]);
    }
    assert forall|j: int| 0 <= j < back.len() implies p(#[trigger] back[j]) by {
        assert(back[j] == s[j + i + 1]);
    }
    lemma_filter_all(front, p);
    lemma_filter_all(back, p);
    assert(one.filter(p) =~= Seq::<A>::empty()) by {
        reveal(Seq::filter);
        assert(one.drop_last() =~= Seq::<A>::empty());
        assert(one.drop_last().filter(p) =~= Seq::<A>::empty());
        assert(one.last() == s[i]);
    }
    assert(front + Seq::<A>::empty() + back =~= s.remove(i));
}

/// A copy of a slice.
pub fn copy_rows<T: Copy>(rows: &[T]) -> (r: Vec<T>)
    ensures
        r@ == rows@,
{
    let mut out: Vec<T> = Vec::new();
    let mut i: usize = 0;
    while i < rows.len()
        invariant
            i <= rows@.len(),
            out@ == rows@.take(i as int),
        decreases rows@.len() - i,
    {
        out.push(rows[i]);
        i += 1;
        assert(out@ =~= rows@.take(i as int));
    }
    assert(out@ =~= rows@);
    out
}

/// What an element is mapped to is there.
pub proof fn lemma_filter_map_has<A, B>(s: Seq<A>, f: spec_fn(A) -> Option<B>, i: int)
    requires
        0 <= i < s.len(),
        f(s[i]) is Some,
    ensures
        s.filter_map(f).contains(f(s[i])->Some_0),
    decreases s.len(),
{
    reveal(Seq::filter_map);
    let front = s.drop_last();
    let x = f(s[i])->Some_0;
    let out = s.filter_map(f);
    if i < front.len() {
        lemma_filter_map_has(front, f, i);
        let few = front.filter_map(f);
        let k = choose|k: int| 0 <= k < few.len() && few[k] == x;
        assert(out[k] == x);
    } else {
        assert(out[out.len() - 1] == x);
    }
}

} // verus!
