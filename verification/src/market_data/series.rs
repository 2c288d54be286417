//! Records of one stream in order of time, at most one for each timestamp.

use vstd::prelude::*;
use crate::market::{Kline, OpenInterest, Trade};
use crate::market_data::range::MarketDataRange;
use crate::seqs::lemma_filter_take;
use crate::time::UnixMs;

verus! {

/// A record with a timestamp.
pub trait Timed: Copy {
    /// The timestamp of the record.
    spec fn at(&self) -> UnixMs;

    /// The timestamp of the record.
    fn time(&self) -> (t: UnixMs)
        ensures
            t == self.at(),
    ;
}

impl Timed for Trade {
    open spec fn at(&self) -> UnixMs {
        self.time
    }

    fn time(&self) -> (t: UnixMs) {
        self.time
    }
}

impl Timed for Kline {
    open spec fn at(&self) -> UnixMs {
        self.time
    }

    fn time(&self) -> (t: UnixMs) {
        self.time
    }
}

impl Timed for OpenInterest {
    open spec fn at(&self) -> UnixMs {
        self.time
    }

    fn time(&self) -> (t: UnixMs) {
        self.time
    }
}

/// Timestamps rise from one record to the next.
pub open spec fn rising<T: Timed>(s: Seq<T>) -> bool {
    forall|i: int, j: int| 0 <= i < j < s.len() ==> (#[trigger] s[i]).at().0 < (#[trigger] s[j]).at().0
}

/// `s` with `x` at its place in time, instead of a record with the same timestamp.
pub open spec fn upserted<T: Timed>(s: Seq<T>, x: T) -> Seq<T>
    decreases s.len(),
{
    if s.len() > 0 && s.last().at().0 > x.at().0 {
        upserted(s.drop_last(), x).push(s.last())
    } else if s.len() > 0 && s.last().at() == x.at() {
        s.drop_last().push(x)
    } else {
        s.push(x)
    }
}

/// `s` with all of `xs`, one after the other.
pub open spec fn upserted_all<T: Timed>(s: Seq<T>, xs: Seq<T>) -> Seq<T>
    decreases xs.len(),
{
    if xs.len() == 0 {
        s
    } else {
        upserted(upserted_all(s, xs.drop_last()), xs.last())
    }
}

/// The newest `cap` records.
pub open spec fn newest<T>(s: Seq<T>, cap: nat) -> Seq<T> {
    if s.len() > cap {
        s.skip(s.len() - cap)
    } else {
        s
    }
}

/// The records whose timestamp lies in `range`.
pub open spec fn within<T: Timed>(s: Seq<T>, range: MarketDataRange) -> Seq<T> {
    s.filter(|x: T| range.covers(x.at().0 as int))
}

/// The record with that timestamp.
pub open spec fn record_at<T: Timed>(s: Seq<T>, t: UnixMs) -> Option<T> {
    if exists|i: int| 0 <= i < s.len() && (#[trigger] s[i]).at() == t {
        Some(s[choose|i: int| 0 <= i < s.len() && (#[trigger] s[i]).at() == t])
    } else {
        None
    }
}

proof fn lemma_upserted_at<T: Timed>(s: Seq<T>, x: T, pos: int)
    requires
        0 <= pos <= s.len(),
        pos > 0 ==> s[pos - 1].at().0 <= x.at().0,
        forall|i: int| pos <= i < s.len() ==> (#[trigger] s[i]).at().0 > x.at().0,
    ensures
        upserted(s, x) == if pos > 0 && s[pos - 1].at() == x.at() {
            s.update(pos - 1, x)
        } else {
            s.insert(pos, x)
        },
    decreases s.len(),
{
    if pos == s.len() {
        if pos > 0 && s[pos - 1].at() == x.at() {
            assert(s.drop_last().push(x) =~= s.update(pos - 1, x));
        } else {
            assert(s.insert(pos, x) =~= s.push(x));
        }
    } else {
        let front = s.drop_last();
        assert(s.last() == s[s.len() - 1]);
        lemma_upserted_at(front, x, pos);
        if pos > 0 && s[pos - 1].at() == x.at() {
            assert(front.update(pos - 1, x).push(s.last()) =~= s.update(pos - 1, x));
        } else {
            assert(front.insert(pos, x).push(s.last()) =~= s.insert(pos, x));
        }
    }
}

/// Puts a record at its place in time, instead of one with the same timestamp.
pub fn upsert<T: Timed>(rows: &mut Vec<T>, x: T)
    ensures
        final(rows)@ == upserted(old(rows)@, x),
{
    let t = x.time();
    let mut pos: usize = rows.len();
    while pos > 0 && rows[pos - 1].time().0 > t.0
        invariant
            pos <= rows@.len(),
            rows@ == old(rows)@,
            t == x.at(),
            forall|i: int| pos <= i < rows@.len() ==> (#[trigger] rows@[i]).at().0 > t.0,
        decreases pos,
    {
        pos = pos - 1;
    }
    proof {
        lemma_upserted_at(rows@, x, pos as int);
    }
    if pos > 0 && rows[pos - 1].time() == t {
        rows.set(pos - 1, x);
    } else {
        rows.insert(pos, x);
    }
}

/// Puts each record of `xs` at its place in time.
pub fn upsert_all<T: Timed>(rows: &mut Vec<T>, xs: &[T])
    ensures
        final(rows)@ == upserted_all(old(rows)@, xs@),
{
    let ghost start = rows@;
    let mut i: usize = 0;
    assert(xs@.take(0) =~= Seq::<T>::empty());
    while i < xs.len()
        invariant
            i <= xs@.len(),
            rows@ == upserted_all(start, xs@.take(i as int)),
        decreases xs@.len() - i,
    {
        upsert(rows, xs[i]);
        proof {
            let next = xs@.take(i + 1);
            assert(next.drop_last() =~= xs@.take(i as int));
            assert(next.last() == xs@[i as int]);
        }
        i = i + 1;
    }
    assert(xs@.take(i as int) =~= xs@);
}

/// Drops the oldest records until at most `cap` are left.
pub fn keep_newest<T: Timed>(rows: &mut Vec<T>, cap: usize)
    ensures
        final(rows)@ == newest(old(rows)@, cap as nat),
{
    let n: usize = rows.len();
    if n <= cap {
        return;
    }
    let excess: usize = n - cap;
    let kept = rows.split_off(excess);
    *rows = kept;
    assert(rows@ =~= newest(old(rows)@, cap as nat));
}

/// The records whose timestamp lies in `range`.
pub fn select<T: Timed>(rows: &Vec<T>, range: &MarketDataRange) -> (r: Vec<T>)
    ensures
        r@ == within(rows@, *range),
{
    let ghost keep = |x: T| range.covers(x.at().0 as int);
    let mut out: Vec<T> = Vec::new();
    let mut i: usize = 0;
    assert(rows@.take(0).filter(keep) =~= Seq::<T>::empty());
    while i < rows.len()
        invariant
            i <= rows@.len(),
            keep == (|x: T| range.covers(x.at().0 as int)),
            out@ == rows@.take(i as int).filter(keep),
        decreases rows@.len() - i,
    {
        proof {
            lemma_filter_take(rows@, i as int, keep);
        }
        let x = rows[i];
        if range.contains_timestamp(x.time()) {
            out.push(x);
        }
        i = i + 1;
    }
    assert(rows@.take(i as int) =~= rows@);
    out
}

proof fn lemma_upserted<T: Timed>(s: Seq<T>, x: T)
    requires
        rising(s),
    ensures
        rising(upserted(s, x)),
        upserted(s, x).len() > 0,
        upserted(s, x).len() <= s.len() + 1,
        upserted(s, x).last().at().0 == if s.len() > 0 && s.last().at().0 > x.at().0 {
            s.last().at().0
        } else {
            x.at().0
        },
        forall|y: T|
            #![trigger upserted(s, x).contains(y)]
            upserted(s, x).contains(y) <==> (y == x || (s.contains(y) && y.at() != x.at())),
    decreases s.len(),
{
    let out = upserted(s, x);
    if s.len() > 0 && s.last().at().0 > x.at().0 {
        let front = s.drop_last();
        let last = s.last();
        assert(last == s[s.len() - 1]);
        assert forall|i: int, j: int| 0 <= i < j < front.len() implies (#[trigger] front[i]).at().0 < (
        #[trigger] front[j]).at().0 by {
            assert(s[i].at().0 < s[j].at().0);
        }
        lemma_upserted(front, x);
        let g = upserted(front, x);
        if front.len() > 0 {
            assert(s[s.len() - 2].at().0 < s[s.len() - 1].at().0);
        }
        assert forall|i: int, j: int| 0 <= i < j < out.len() implies (#[trigger] out[i]).at().0 < (
        #[trigger] out[j]).at().0 by {
            if j < g.len() {
                assert(g[i].at().0 < g[j].at().0);
            } else if i < g.len() - 1 {
                assert(g[i].at().0 < g[g.len() - 1].at().0);
            }
        }
        assert forall|y: T| #[trigger] out.contains(y) <==> (y == x || (s.contains(y) && y.at()
            != x.at())) by {
            if out.contains(y) {
                let k = choose|k: int| 0 <= k < out.len() && out[k] == y;
                if k < g.len() {
                    assert(g[k] == y);
                    assert(g.contains(y));
                    if y != x {
                        let m = choose|m: int| 0 <= m < front.len() && front[m] == y;
                        assert(s[m] == y);
                    }
                } else {
                    assert(s[s.len() - 1] == y);
                }
            }
            if y == x || (s.contains(y) && y.at() != x.at()) {
                if y != x {
                    let m = choose|m: int| 0 <= m < s.len() && s[m] == y;
                    if m < front.len() {
                        assert(front[m] == y);
                        assert(front.contains(y));
                    } else {
                        assert(out[out.len() - 1] == y);
                    }
                }
                if y == x || front.contains(y) {
                    assert(g.contains(y));
                    let k = choose|k: int| 0 <= k < g.len() && g[k] == y;
                    assert(out[k] == y);
                }
            }
        }
    } else {
        let base = if s.len() > 0 && s.last().at() == x.at() {
            s.drop_last()
        } else {
            s
        };
        assert(out =~= base.push(x));
        assert forall|i: int| 0 <= i < base.len() implies (#[trigger] base[i]).at().0 < x.at().0 by {
            if i < s.len() - 1 {
                assert(s[i].at().0 < s[s.len() - 1].at().0);
            }
        }
        assert forall|i: int, j: int| 0 <= i < j < out.len() implies (#[trigger] out[i]).at().0 < (
        #[trigger] out[j]).at().0 by {
            if j < base.len() {
                assert(s[i].at().0 < s[j].at().0);
            } else {
                assert(out[i] == base[i]);
            }
        }
        assert forall|y: T| #[trigger] out.contains(y) <==> (y == x || (s.contains(y) && y.at()
            != x.at())) by {
            if out.contains(y) {
                let k = choose|k: int| 0 <= k < out.len() && out[k] == y;
                if k < base.len() {
                    assert(s[k] == y);
                    assert(base[k].at().0 < x.at().0);
                }
            }
            if y == x {
                assert(out[base.len() as int] == y);
            }
            if s.contains(y) && y.at() != x.at() {
                let m = choose|m: int| 0 <= m < s.len() && s[m] == y;
                if m == s.len() - 1 && s.last().at() == x.at() {
                    assert(false);
                }
                assert(out[m] == y);
            }
        }
    }
}

/// In a rising sequence the record of a timestamp is the one that is there.
proof fn lemma_record_of<T: Timed>(s: Seq<T>, y: T)
    requires
        rising(s),
        s.contains(y),
    ensures
        record_at(s, y.at()) == Some(y),
{
    let i = choose|i: int| 0 <= i < s.len() && s[i] == y;
    assert(s[i].at() == y.at());
    let k = choose|k: int| 0 <= k < s.len() && (#[trigger] s[k]).at() == y.at();
    if i < k {
        assert(s[i].at().0 < s[k].at().0);
    }
    if k < i {
        assert(s[k].at().0 < s[i].at().0);
    }
}

/// Inserting a record keeps the order of time, and afterwards the record of its timestamp is
/// the inserted one while every other timestamp has the record it had.
pub proof fn law_last_write_wins<T: Timed>(s: Seq<T>, x: T, t: UnixMs)
    requires
        rising(s),
    ensures
        rising(upserted(s, x)),
        record_at(upserted(s, x), t) == if t == x.at() {
            Some(x)
        } else {
            record_at(s, t)
        },
{
    lemma_upserted(s, x);
    let out = upserted(s, x);
    if t == x.at() {
        assert(out.contains(x));
        lemma_record_of(out, x);
    } else {
        if exists|i: int| 0 <= i < s.len() && (#[trigger] s[i]).at() == t {
            let i = choose|i: int| 0 <= i < s.len() && (#[trigger] s[i]).at() == t;
            assert(s.contains(s[i]));
            lemma_record_of(s, s[i]);
            assert(out.contains(s[i]));
            lemma_record_of(out, s[i]);
        } else {
            if exists|i: int| 0 <= i < out.len() && (#[trigger] out[i]).at() == t {
                let i = choose|i: int| 0 <= i < out.len() && (#[trigger] out[i]).at() == t;
                assert(out.contains(out[i]));
                assert(s.contains(out[i]));
                let k = choose|k: int| 0 <= k < s.len() && s[k] == out[i];
                assert(s[k].at() == t);
            }
        }
    }
}

/// Inserting records keeps the order of time.
pub proof fn law_inserts_keep_order<T: Timed>(s: Seq<T>, xs: Seq<T>, cap: nat)
    requires
        rising(s),
    ensures
        rising(upserted_all(s, xs)),
        rising(newest(upserted_all(s, xs), cap)),
        newest(upserted_all(s, xs), cap).len() <= cap,
    decreases xs.len(),
{
    if xs.len() > 0 {
        law_inserts_keep_order(s, xs.drop_last(), cap);
        lemma_upserted(upserted_all(s, xs.drop_last()), xs.last());
    }
    let all = upserted_all(s, xs);
    let kept = newest(all, cap);
    assert forall|i: int, j: int| 0 <= i < j < kept.len() implies (#[trigger] kept[i]).at().0 < (
    #[trigger] kept[j]).at().0 by {
        let off = all.len() - kept.len();
        assert(kept[i] == all[i + off] && kept[j] == all[j + off]);
    }
}

/// What is dropped for want of room is older than everything that stays.
pub proof fn law_oldest_go_first<T: Timed>(s: Seq<T>, cap: nat, i: int, j: int)
    requires
        rising(s),
        0 <= i < s.len() - newest(s, cap).len(),
        0 <= j < newest(s, cap).len(),
    ensures
        s[i].at().0 < newest(s, cap)[j].at().0,
{
    let off = s.len() - newest(s, cap).len();
    assert(newest(s, cap)[j] == s[j + off]);
}

/// `y` is the last record of `xs` with its timestamp.
pub open spec fn written_last<T: Timed>(xs: Seq<T>, y: T) -> bool {
    exists|i: int|
        0 <= i < xs.len() && (#[trigger] xs[i]) == y && forall|j: int|
            i < j < xs.len() ==> (#[trigger] xs[j]).at() != y.at()
}

/// Some record of `xs` has the timestamp `t`.
pub open spec fn written_at<T: Timed>(xs: Seq<T>, t: UnixMs) -> bool {
    exists|i: int| 0 <= i < xs.len() && (#[trigger] xs[i]).at() == t
}

/// After `xs` were written over `old_rows`, the record of its timestamp is `y`: the last one of
/// `xs`, or the one that was there, where `xs` has none.
pub open spec fn stands_after<T: Timed>(old_rows: Seq<T>, xs: Seq<T>, y: T) -> bool {
    written_last(xs, y) || (old_rows.contains(y) && !written_at(xs, y.at()))
}

/// Inserting records leaves exactly those that were there and are not replaced, and the last of
/// those that came for each timestamp.
pub proof fn law_inserts_exact<T: Timed>(s: Seq<T>, xs: Seq<T>, y: T)
    requires
        rising(s),
    ensures
        upserted_all(s, xs).contains(y) <==> stands_after(s, xs, y),
    decreases xs.len(),
{
    if xs.len() > 0 {
        let front = xs.drop_last();
        let x = xs.last();
        let mid = upserted_all(s, front);
        law_inserts_keep_order(s, front, 0);
        law_inserts_exact(s, front, y);
        lemma_upserted(mid, x);
        assert(x == xs[xs.len() - 1]);
        assert(upserted_all(s, xs).contains(y) <==> (y == x || (mid.contains(y) && y.at()
            != x.at())));
        if y.at() != x.at() {
            if written_last(front, y) {
                let i = choose|i: int|
                    0 <= i < front.len() && (#[trigger] front[i]) == y && forall|j: int|
                        i < j < front.len() ==> (#[trigger] front[j]).at() != y.at();
                assert(xs[i] == y);
                assert forall|j: int| i < j < xs.len() implies (#[trigger] xs[j]).at() != y.at() by {
                    if j < front.len() {
                        assert(xs[j] == front[j]);
                    }
                }
                assert(written_last(xs, y));
            }
            if written_last(xs, y) {
                let i = choose|i: int|
                    0 <= i < xs.len() && (#[trigger] xs[i]) == y && forall|j: int|
                        i < j < xs.len() ==> (#[trigger] xs[j]).at() != y.at();
                assert(front[i] == y);
                assert forall|j: int| i < j < front.len() implies (#[trigger] front[j]).at()
                    != y.at() by {
                    assert(xs[j] == front[j]);
                }
                assert(written_last(front, y));
            }
            if written_at(xs, y.at()) {
                let i = choose|i: int| 0 <= i < xs.len() && (#[trigger] xs[i]).at() == y.at();
                assert(front[i].at() == y.at());
            }
            if written_at(front, y.at()) {
                let i = choose|i: int| 0 <= i < front.len() && (#[trigger] front[i]).at() == y.at();
                assert(xs[i].at() == y.at());
            }
        } else {
            assert(xs[xs.len() - 1].at() == y.at());
            assert(written_at(xs, y.at()));
            if written_last(xs, y) {
                let i = choose|i: int|
                    0 <= i < xs.len() && (#[trigger] xs[i]) == y && forall|j: int|
                        i < j < xs.len() ==> (#[trigger] xs[j]).at() != y.at();
                if i < xs.len() - 1 {
                    assert(xs[xs.len() - 1].at() != y.at());
                }
            }
        }
    } else {
        assert(!written_at(xs, y.at()));
        assert(!written_last(xs, y));
    }
}

/// A query finds exactly the records from the start of a range up to its end, in order of time.
pub proof fn law_query_exact<T: Timed>(s: Seq<T>, range: MarketDataRange, y: T)
    ensures
        within(s, range).contains(y) <==> s.contains(y) && range.from.0 <= y.at().0 < range.to.0,
        rising(s) ==> rising(within(s, range)),
{
    let p = |x: T| range.covers(x.at().0 as int);
    let out = within(s, range);
    if out.contains(y) {
        let i = choose|i: int| 0 <= i < out.len() && out[i] == y;
        s.lemma_filter_pred(p, i);
        s.lemma_filter_contains_rev(p, y);
    }
    if s.contains(y) && range.from.0 <= y.at().0 < range.to.0 {
        let i = choose|i: int| 0 <= i < s.len() && s[i] == y;
        s.lemma_filter_contains(p, i);
    }
    if rising(s) {
        lemma_filter_rising(s, p);
    }
}

proof fn lemma_filter_rising<T: Timed>(s: Seq<T>, p: spec_fn(T) -> bool)
    requires
        rising(s),
    ensures
        rising(s.filter(p)),
        s.len() > 0 ==> forall|i: int|
            0 <= i < s.filter(p).len() ==> (#[trigger] s.filter(p)[i]).at().0 <= s.last().at().0,
    decreases s.len(),
{
    reveal(Seq::filter);
    if s.len() > 0 {
        let front = s.drop_last();
        assert(s.last() == s[s.len() - 1]);
        assert forall|i: int, j: int| 0 <= i < j < front.len() implies (#[trigger] front[i]).at().0 < (
        #[trigger] front[j]).at().0 by {
            assert(s[i].at().0 < s[j].at().0);
        }
        lemma_filter_rising(front, p);
        let kept = front.filter(p);
        let out = s.filter(p);
        if front.len() > 0 {
            assert(front.last() == s[s.len() - 2]);
            assert(s[s.len() - 2].at().0 < s[s.len() - 1].at().0);
        }
        assert forall|i: int, j: int| 0 <= i < j < out.len() implies (#[trigger] out[i]).at().0 < (
        #[trigger] out[j]).at().0 by {
            assert(out[i] == kept[i]);
            if j < kept.len() {
                assert(out[j] == kept[j]);
            }
        }
        assert forall|i: int| 0 <= i < out.len() implies (#[trigger] out[i]).at().0
            <= s.last().at().0 by {
            if i < kept.len() {
                assert(out[i] == kept[i]);
            }
        }
    }
}

} // verus!
