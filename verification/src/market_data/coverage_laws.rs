//! Laws of the coverage ledger.

use vstd::prelude::*;
use crate::market_data::coverage::{
    complete_at, complete_entry, complete_of, covered_at, fuse_neighbours, fuse_stamped, fused,
    fuses, gives_way, kept_beside, marked, missing_at, persisted, persisted_key, restored,
    restored_order, rows, stamped_rows, unstamped, with_entry, EntryView, Facts, StampedEntry,
};
use crate::market_data::key::{law_display_parts_round_trip, KeyView};
use crate::market_data::range::{all_valid, any_covers, missing, MarketDataRange};
use crate::market_data::range_laws::{
    law_fully_covered_iff_nothing_missing, law_nothing_missing_iff_covered,
};
use crate::sorting::{lemma_sorted, lemma_sorted_fixpoint, sorted_by_rank, Rank};

verus! {

/// Every entry is about a range that holds something.
pub open spec fn entries_valid(s: Seq<EntryView>) -> bool {
    forall|i: int| 0 <= i < s.len() ==> (#[trigger] s[i]).range.valid()
}

/// The entries follow one another in time and share nothing.
pub open spec fn entries_in_order(s: Seq<EntryView>) -> bool {
    forall|i: int, j: int|
        0 <= i < j < s.len() ==> (#[trigger] s[i]).range.to.0 <= (#[trigger] s[j]).range.from.0
}

/// No two neighbours could be fused.
pub open spec fn entries_unfusable(s: Seq<EntryView>) -> bool {
    forall|i: int, j: int|
        0 <= i && j == i + 1 && j < s.len() ==> !fuses(#[trigger] s[i], #[trigger] s[j])
}

/// The compact form in which the ledger keeps its entries.
pub open spec fn tidy(s: Seq<EntryView>) -> bool {
    entries_valid(s) && entries_in_order(s) && entries_unfusable(s)
}

/// A complete entry holds the millisecond `t`.
pub open spec fn complete_covers(s: Seq<EntryView>, t: int) -> bool {
    exists|i: int| 0 <= i < s.len() && (#[trigger] s[i]).status is Complete && s[i].range.covers(t)
}

pub(crate) proof fn lemma_complete_covers(s: Seq<EntryView>, t: int)
    ensures
        any_covers(complete_of(s), t) <==> complete_covers(s, t),
        entries_valid(s) ==> all_valid(complete_of(s)),
{
    let p = |e: EntryView| e.status is Complete;
    let kept = s.filter(p);
    let rs = complete_of(s);
    assert(rs.len() == kept.len());
    if any_covers(rs, t) {
        let i = choose|i: int| 0 <= i < rs.len() && (#[trigger] rs[i]).covers(t);
        assert(rs[i] == kept[i].range);
        s.lemma_filter_pred(p, i);
        assert(kept.contains(kept[i]));
        s.lemma_filter_contains_rev(p, kept[i]);
        let k = choose|k: int| 0 <= k < s.len() && s[k] == kept[i];
        assert(s[k].status is Complete && s[k].range.covers(t));
    }
    if complete_covers(s, t) {
        let k = choose|k: int|
            0 <= k < s.len() && (#[trigger] s[k]).status is Complete && s[k].range.covers(t);
        s.lemma_filter_contains(p, k);
        let i = choose|i: int| 0 <= i < kept.len() && kept[i] == s[k];
        assert(rs[i].covers(t));
    }
    if entries_valid(s) {
        assert forall|i: int| 0 <= i < rs.len() implies (#[trigger] rs[i]).valid() by {
            assert(rs[i] == kept[i].range);
            assert(kept.contains(kept[i]));
            s.lemma_filter_contains_rev(p, kept[i]);
            let k = choose|k: int| 0 <= k < s.len() && s[k] == kept[i];
            assert(s[k].range.valid());
        }
    }
}

proof fn lemma_complete_covers_push(s: Seq<EntryView>, e: EntryView, t: int)
    ensures
        complete_covers(s.push(e), t) <==> complete_covers(s, t) || (e.status is Complete
            && e.range.covers(t)),
{
    let all = s.push(e);
    if complete_covers(s, t) {
        let i = choose|i: int|
            0 <= i < s.len() && (#[trigger] s[i]).status is Complete && s[i].range.covers(t);
        assert(all[i].status is Complete && all[i].range.covers(t));
    }
    if e.status is Complete && e.range.covers(t) {
        assert(all[s.len() as int].status is Complete);
    }
    if complete_covers(all, t) {
        let i = choose|i: int|
            0 <= i < all.len() && (#[trigger] all[i]).status is Complete && all[i].range.covers(t);
        if i < s.len() {
            assert(s[i].status is Complete && s[i].range.covers(t));
        }
    }
}

proof fn lemma_complete_covers_contains(a: Seq<EntryView>, b: Seq<EntryView>, t: int)
    requires
        forall|e: EntryView| #[trigger] a.contains(e) ==> b.contains(e),
        complete_covers(a, t),
    ensures
        complete_covers(b, t),
{
    let i = choose|i: int|
        0 <= i < a.len() && (#[trigger] a[i]).status is Complete && a[i].range.covers(t);
    assert(a.contains(a[i]));
    let k = choose|k: int| 0 <= k < b.len() && b[k] == a[i];
    assert(b[k].status is Complete && b[k].range.covers(t));
}

/// The entries of `s` that do not overlap `range`.
pub open spec fn clear_of(s: Seq<EntryView>, range: MarketDataRange) -> Seq<EntryView> {
    s.filter(|e: EntryView| !e.range.crosses(range))
}

/// Any two entries are apart in time, unless both are complete.
spec fn pairwise_apart(s: Seq<EntryView>) -> bool {
    forall|i: int, j: int|
        0 <= i < s.len() && 0 <= j < s.len() && i != j ==> parted(#[trigger] s[i], #[trigger] s[j])
}

/// Two entries share nothing, or both are complete.
spec fn parted(a: EntryView, b: EntryView) -> bool {
    !a.range.crosses(b.range) || (a.status is Complete && b.status is Complete)
}

/// The entries start one after the other, and each ends before the next starts, unless both are
/// complete.
spec fn entries_by_start(s: Seq<EntryView>) -> bool {
    forall|i: int, j: int|
        0 <= i < j < s.len() ==> (#[trigger] s[i]).range.from.0 <= (#[trigger] s[j]).range.from.0
            && (s[i].range.to.0 <= s[j].range.from.0 || (s[i].status is Complete
            && s[j].status is Complete))
}

proof fn lemma_filter_shape(s: Seq<EntryView>, p: spec_fn(EntryView) -> bool)
    requires
        entries_valid(s),
        entries_in_order(s),
    ensures
        entries_valid(s.filter(p)),
        entries_in_order(s.filter(p)),
        forall|i: int| 0 <= i < s.filter(p).len() ==> p(#[trigger] s.filter(p)[i]),
        s.len() > 0 ==> forall|i: int|
            0 <= i < s.filter(p).len() ==> (#[trigger] s.filter(p)[i]).range.to.0
                <= s.last().range.to.0,
    decreases s.len(),
{
    reveal(Seq::filter);
    if s.len() > 0 {
        let front = s.drop_last();
        let last = s.last();
        assert(last == s[s.len() - 1]);
        assert forall|i: int| 0 <= i < front.len() implies (#[trigger] front[i]).range.valid() by {
            assert(s[i].range.valid());
        }
        assert forall|i: int, j: int| 0 <= i < j < front.len() implies (#[trigger] front[i]).range.to.0
            <= (#[trigger] front[j]).range.from.0 by {
            assert(s[i].range.to.0 <= s[j].range.from.0);
        }
        lemma_filter_shape(front, p);
        let kept = front.filter(p);
        let all = s.filter(p);
        if front.len() > 0 {
            assert(s[s.len() - 2].range.to.0 <= s[s.len() - 1].range.from.0);
            assert(front.last() == s[s.len() - 2]);
        }
        assert forall|i: int, j: int| 0 <= i < j < all.len() implies (#[trigger] all[i]).range.to.0 <= (
        #[trigger] all[j]).range.from.0 by {
            assert(all[i] == kept[i]);
            if j < kept.len() {
                assert(all[j] == kept[j]);
            }
        }
        assert forall|i: int| 0 <= i < all.len() implies (#[trigger] all[i]).range.valid() && p(
            all[i],
        ) && all[i].range.to.0 <= last.range.to.0 by {
            if i < kept.len() {
                assert(all[i] == kept[i]);
            }
        }
    }
}

proof fn lemma_kept_apart(s: Seq<EntryView>, e: EntryView)
    requires
        entries_valid(s),
        entries_in_order(s),
        e.range.valid(),
    ensures
        entries_valid(kept_beside(s, e).push(e)),
        pairwise_apart(kept_beside(s, e).push(e)),
{
    lemma_filter_shape(s, |x: EntryView| !gives_way(x, e));
    let kept = kept_beside(s, e);
    let all = kept.push(e);
    assert forall|i: int, j: int|
        0 <= i < all.len() && 0 <= j < all.len() && i != j implies parted(
        #[trigger] all[i],
        #[trigger] all[j],
    ) by {
        if i < kept.len() && j < kept.len() {
            assert(all[i] == kept[i] && all[j] == kept[j]);
            if i < j {
                assert(kept[i].range.to.0 <= kept[j].range.from.0);
            } else {
                assert(kept[j].range.to.0 <= kept[i].range.from.0);
            }
        } else if i < kept.len() {
            assert(!gives_way(kept[i], e));
        } else if j < kept.len() {
            assert(!gives_way(kept[j], e));
        }
    }
}

proof fn lemma_sorted_by_start(s: Seq<EntryView>)
    requires
        entries_valid(s),
        pairwise_apart(s),
    ensures
        entries_valid(sorted_by_rank(s)),
        entries_by_start(sorted_by_rank(s)),
{
    let out = sorted_by_rank(s);
    lemma_sorted(s);
    assert forall|i: int| 0 <= i < out.len() implies (#[trigger] out[i]).range.valid() by {
        assert(out.contains(out[i]));
        let k = choose|k: int| 0 <= k < s.len() && s[k] == out[i];
        assert(s[k].range.valid());
    }
    assert forall|i: int, j: int|
        0 <= i < j < out.len() implies (#[trigger] out[i]).range.from.0 <= (
    #[trigger] out[j]).range.from.0 && (out[i].range.to.0 <= out[j].range.from.0 || (
    out[i].status is Complete && out[j].status is Complete)) by {
        assert(out[i].rank() <= out[j].rank());
        assert(out.contains(out[i]) && out.contains(out[j]));
        let a = choose|a: int| 0 <= a < s.len() && s[a] == out[i];
        let b = choose|b: int| 0 <= b < s.len() && s[b] == out[j];
        assert(s[a].range.valid() && s[b].range.valid());
        if a != b {
            assert(parted(s[a], s[b]));
        } else if !(s[a].status is Complete) {
            crate::seqs::lemma_count_two(out, i, j);
            assert forall|k: int| 0 <= k < s.len() && k != a implies #[trigger] s[k] != s[a] by {
                assert(parted(s[k], s[a]));
            }
            crate::seqs::lemma_count_one(s, a);
        }
    }
}

/// Every entry ends at `bound` or before.
spec fn ends_by(s: Seq<EntryView>, bound: int) -> bool {
    forall|i: int| 0 <= i < s.len() ==> (#[trigger] s[i]).range.to.0 <= bound
}

proof fn lemma_fuse(s: Seq<EntryView>)
    requires
        entries_valid(s),
        entries_by_start(s),
    ensures
        tidy(fuse_neighbours(s)),
        s.len() > 0 ==> {
            let last = fuse_neighbours(s).last();
            &&& fuse_neighbours(s).len() > 0
            &&& last.range.from.0 <= s.last().range.from.0
            &&& last.status is Complete == s.last().status is Complete
            &&& !(s.last().status is Complete) ==> last == s.last()
        },
        forall|bound: int| #[trigger] ends_by(s, bound) ==> ends_by(fuse_neighbours(s), bound),
        forall|t: int| #[trigger]
            complete_covers(fuse_neighbours(s), t) <==> complete_covers(s, t),
    decreases s.len(),
{
    if s.len() > 0 {
        let front = s.drop_last();
        let last = s.last();
        assert(last == s[s.len() - 1]);
        assert forall|i: int| 0 <= i < front.len() implies (#[trigger] front[i]).range.valid() by {
            assert(s[i].range.valid());
        }
        assert(entries_by_start(front)) by {
            assert forall|i: int, j: int|
                0 <= i < j < front.len() implies (#[trigger] front[i]).range.from.0 <= (
            #[trigger] front[j]).range.from.0 && (front[i].range.to.0 <= front[j].range.from.0 || (
            front[i].status is Complete && front[j].status is Complete)) by {
                assert(s[i].range.from.0 <= s[j].range.from.0);
            }
        }
        lemma_fuse(front);
        let g = fuse_neighbours(front);
        let out = fuse_neighbours(s);
        assert(s =~= front.push(last));
        if front.len() > 0 {
            assert(front.last() == s[s.len() - 2]);
            assert(s[s.len() - 2].range.from.0 <= s[s.len() - 1].range.from.0);
        }
        if g.len() > 0 {
            assert(g.last() == g[g.len() - 1]);
            assert(g[g.len() - 1].range.valid());
        } else {
            assert(front.len() == 0);
        }
        assert forall|bound: int| #[trigger] ends_by(s, bound) implies ends_by(out, bound) by {
            assert(s[s.len() - 1].range.to.0 <= bound);
            assert(ends_by(front, bound)) by {
                assert forall|i: int| 0 <= i < front.len() implies (#[trigger] front[i]).range.to.0
                    <= bound by {
                    assert(s[i].range.to.0 <= bound);
                }
            }
            assert(ends_by(g, bound));
            assert forall|i: int| 0 <= i < out.len() implies (#[trigger] out[i]).range.to.0 <= bound by {
                if i < g.len() {
                    assert(g[i].range.to.0 <= bound);
                }
            }
        }
        if g.len() > 0 && fuses(g.last(), last) {
            let p = g.last();
            let f = fused(p, last);
            assert(out =~= g.drop_last().push(f));
            assert(f.range.from == p.range.from && f.range.to.0 >= p.range.to.0);
            assert forall|i: int, j: int| 0 <= i < j < out.len() implies (#[trigger] out[i]).range.to.0
                <= (#[trigger] out[j]).range.from.0 by {
                assert(out[i] == g[i]);
                assert(g[i].range.to.0 <= g[j].range.from.0);
            }
            assert forall|i: int| 0 <= i < out.len() implies (#[trigger] out[i]).range.valid() by {
                if i < g.len() - 1 {
                    assert(out[i] == g[i]);
                }
            }
            assert forall|i: int, j: int| 0 <= i && j == i + 1 && j < out.len() implies !fuses(
                #[trigger] out[i],
                #[trigger] out[j],
            ) by {
                assert(out[i] == g[i]);
                assert(!fuses(g[i], g[j]));
                assert(g[i].range.to.0 <= g[j].range.from.0);
                assert(g[i].range.valid() && g[j].range.valid());
                assert(out[i].range.valid() && out[j].range.valid());
            }
            assert forall|t: int| #[trigger] complete_covers(out, t) <==> complete_covers(s, t) by {
                lemma_complete_covers_push(front, last, t);
                lemma_complete_covers_push(g.drop_last(), f, t);
                lemma_complete_covers_push(g.drop_last(), p, t);
                assert(g =~= g.drop_last().push(p));
                assert(complete_covers(g, t) <==> complete_covers(front, t));
                assert(f.range.covers(t) <==> p.range.covers(t) || last.range.covers(t));
            }
        } else {
            assert(out =~= g.push(last));
            if !(last.status is Complete) {
                assert(ends_by(front, last.range.from.0 as int)) by {
                    assert forall|i: int|
                        0 <= i < front.len() implies (#[trigger] front[i]).range.to.0
                        <= last.range.from.0 by {
                        assert(s[i].range.to.0 <= s[s.len() - 1].range.from.0);
                    }
                }
                assert(ends_by(g, last.range.from.0 as int));
            } else if g.len() > 0 && !(g.last().status is Complete) {
                assert(s[s.len() - 2].range.to.0 <= s[s.len() - 1].range.from.0);
            }
            if g.len() > 0 {
                assert(g[g.len() - 1].range.to.0 <= last.range.from.0);
            }
            assert forall|i: int, j: int| 0 <= i < j < out.len() implies (#[trigger] out[i]).range.to.0
                <= (#[trigger] out[j]).range.from.0 by {
                if j < g.len() {
                    assert(g[i].range.to.0 <= g[j].range.from.0);
                } else {
                    if i < g.len() - 1 {
                        assert(g[i].range.to.0 <= g[g.len() - 1].range.from.0);
                    }
                }
            }
            assert forall|i: int, j: int| 0 <= i && j == i + 1 && j < out.len() implies !fuses(
                #[trigger] out[i],
                #[trigger] out[j],
            ) by {
                if j < g.len() {
                    assert(!fuses(g[i], g[j]));
                }
            }
            assert forall|t: int| #[trigger] complete_covers(out, t) <==> complete_covers(s, t) by {
                lemma_complete_covers_push(front, last, t);
                lemma_complete_covers_push(g, last, t);
                assert(complete_covers(g, t) <==> complete_covers(front, t));
            }
        }
    }
}

/// Marking a valid range keeps the entries tidy: in order, without overlap, fused.
pub proof fn law_marking_keeps_tidy(s: Seq<EntryView>, e: EntryView)
    requires
        tidy(s),
        e.range.valid(),
    ensures
        tidy(with_entry(s, e)),
{
    lemma_kept_apart(s, e);
    lemma_sorted_by_start(kept_beside(s, e).push(e));
    lemma_fuse(sorted_by_rank(kept_beside(s, e).push(e)));
}

proof fn lemma_kept_covers(s: Seq<EntryView>, e: EntryView, t: int)
    requires
        e.status is Complete,
    ensures
        complete_covers(kept_beside(s, e), t) ==> complete_covers(s, t),
        complete_covers(s, t) ==> complete_covers(kept_beside(s, e), t) || e.range.covers(t),
{
    let p = |x: EntryView| !gives_way(x, e);
    let kept = kept_beside(s, e);
    if complete_covers(kept, t) {
        assert forall|x: EntryView| #[trigger] kept.contains(x) implies s.contains(x) by {
            s.lemma_filter_contains_rev(p, x);
        }
        lemma_complete_covers_contains(kept, s, t);
    }
    if complete_covers(s, t) {
        let i = choose|i: int|
            0 <= i < s.len() && (#[trigger] s[i]).status is Complete && s[i].range.covers(t);
        if !gives_way(s[i], e) {
            s.lemma_filter_contains(p, i);
            let k = choose|k: int| 0 <= k < kept.len() && kept[k] == s[i];
            assert(kept[k].status is Complete && kept[k].range.covers(t));
        }
    }
}

/// Marking a range complete makes exactly its milliseconds complete besides those that were:
/// nothing that was fetched is forgotten. After any other mark, a millisecond is complete exactly
/// when an entry that does not overlap the range said so before.
pub proof fn law_marking_exact(s: Seq<EntryView>, e: EntryView, t: int)
    requires
        tidy(s),
        e.range.valid(),
    ensures
        complete_covers(with_entry(s, e), t) <==> if e.status is Complete {
            complete_covers(s, t) || e.range.covers(t)
        } else {
            complete_covers(clear_of(s, e.range), t)
        },
{
    let all = kept_beside(s, e).push(e);
    let sorted = sorted_by_rank(all);
    lemma_kept_apart(s, e);
    lemma_sorted_by_start(all);
    lemma_fuse(sorted);
    lemma_sorted(all);
    lemma_complete_covers_push(kept_beside(s, e), e, t);
    assert(complete_covers(fuse_neighbours(sorted), t) <==> complete_covers(sorted, t));
    if complete_covers(sorted, t) {
        lemma_complete_covers_contains(sorted, all, t);
    }
    if complete_covers(all, t) {
        lemma_complete_covers_contains(all, sorted, t);
    }
    if e.status is Complete {
        lemma_kept_covers(s, e, t);
    } else {
        assert((|x: EntryView| !gives_way(x, e)) =~= (|x: EntryView| !x.range.crosses(e.range)));
    }
}

/// A mark other than complete adds only itself: every other entry was there before. An entry that
/// does not overlap it stays.
pub proof fn law_other_marks_add_only_themselves(s: Seq<EntryView>, e: EntryView, x: EntryView)
    requires
        tidy(s),
        e.range.valid(),
        !(e.status is Complete),
    ensures
        with_entry(s, e).contains(x) <==> x == e || (s.contains(x) && !(x.range.from.0
            < e.range.to.0 && e.range.from.0 < x.range.to.0)),
{
    let p = |y: EntryView| !gives_way(y, e);
    let kept = kept_beside(s, e);
    let all = kept.push(e);
    let sorted = sorted_by_rank(all);
    lemma_kept_apart(s, e);
    lemma_sorted_by_start(all);
    lemma_sorted(all);
    lemma_filter_shape(s, p);
    assert(unfusable_apart(s)) by {
        lemma_unfusable_apart(s);
    }
    assert forall|i: int, j: int|
        0 <= i < sorted.len() && 0 <= j < sorted.len() && i != j implies !fuses(
        #[trigger] sorted[i],
        #[trigger] sorted[j],
    ) by {
        assert(sorted.contains(sorted[i]) && sorted.contains(sorted[j]));
        if sorted[i].status is Complete && sorted[j].status is Complete {
            let a = choose|a: int| 0 <= a < all.len() && all[a] == sorted[i];
            let b = choose|b: int| 0 <= b < all.len() && all[b] == sorted[j];
            assert(kept.contains(kept[a]) && kept.contains(kept[b]));
            s.lemma_filter_contains_rev(p, kept[a]);
            s.lemma_filter_contains_rev(p, kept[b]);
            let k = choose|k: int| 0 <= k < s.len() && s[k] == kept[a];
            let m = choose|m: int| 0 <= m < s.len() && s[m] == kept[b];
            if k == m {
                if i < j {
                    crate::seqs::lemma_count_two(sorted, i, j);
                } else {
                    crate::seqs::lemma_count_two(sorted, j, i);
                }
                assert forall|q: int| 0 <= q < all.len() && q != a implies #[trigger] all[q]
                    != all[a] by {
                    if q < kept.len() {
                        if q < a {
                            assert(kept[q].range.to.0 <= kept[a].range.from.0);
                        } else {
                            assert(kept[a].range.to.0 <= kept[q].range.from.0);
                        }
                        assert(kept[q].range.valid() && kept[a].range.valid());
                    }
                }
                crate::seqs::lemma_count_one(all, a);
            } else {
                assert(!fuses(s[k], s[m]));
            }
        }
    }
    lemma_fuse_neighbours_unfusable(sorted);
    assert(with_entry(s, e) == sorted);
    if sorted.contains(x) {
        assert(all.contains(x));
        let k = choose|k: int| 0 <= k < all.len() && all[k] == x;
        if k < kept.len() {
            assert(kept.contains(kept[k]));
            s.lemma_filter_contains_rev(p, kept[k]);
            assert(p(kept[k]));
        }
    }
    if x == e {
        assert(all[kept.len() as int] == e);
        assert(all.contains(e));
    }
    if s.contains(x) && !x.range.crosses(e.range) {
        let k = choose|k: int| 0 <= k < s.len() && s[k] == x;
        s.lemma_filter_contains(p, k);
        let m = choose|m: int| 0 <= m < kept.len() && kept[m] == x;
        assert(all[m] == x);
        assert(all.contains(x));
    }
}

/// No two entries could be fused, neighbours or not.
spec fn unfusable_apart(s: Seq<EntryView>) -> bool {
    forall|i: int, j: int|
        0 <= i < s.len() && 0 <= j < s.len() && i != j ==> !fuses(#[trigger] s[i], #[trigger] s[j])
}

proof fn lemma_unfusable_apart(s: Seq<EntryView>)
    requires
        tidy(s),
    ensures
        unfusable_apart(s),
{
    assert forall|i: int, j: int| 0 <= i < j < s.len() implies !fuses(s[i], s[j]) && !fuses(
        s[j],
        s[i],
    ) by {
        assert(s[i].range.to.0 <= s[j].range.from.0);
        assert(s[i].range.valid() && s[j].range.valid());
        if j == i + 1 {
            assert(!fuses(s[i], s[j]));
        } else {
            assert(s[i].range.to.0 <= s[i + 1].range.from.0);
            assert(s[i + 1].range.valid());
            assert(s[i + 1].range.to.0 <= s[j].range.from.0);
        }
    }
}

proof fn lemma_fuse_neighbours_unfusable(s: Seq<EntryView>)
    requires
        unfusable_apart(s),
    ensures
        fuse_neighbours(s) == s,
    decreases s.len(),
{
    if s.len() > 0 {
        let front = s.drop_last();
        assert forall|i: int, j: int|
            0 <= i < front.len() && 0 <= j < front.len() && i != j implies !fuses(
            #[trigger] front[i],
            #[trigger] front[j],
        ) by {
            assert(!fuses(s[i], s[j]));
        }
        lemma_fuse_neighbours_unfusable(front);
        if front.len() > 0 {
            assert(!fuses(s[s.len() - 2], s[s.len() - 1]));
        }
        assert(front.push(s.last()) =~= s);
    }
}

/// A range that was marked complete is covered, and so is every valid range within it: nothing
/// of it is missing.
pub proof fn law_complete_is_covered(
    facts: Facts,
    key: KeyView,
    range: MarketDataRange,
    count: usize,
    inner: MarketDataRange,
)
    requires
        tidy(rows(facts, key)),
        range.valid(),
        inner.valid(),
        range.encloses(inner),
    ensures
        covered_at(marked(facts, key, complete_entry(range, count)), key, inner),
        missing_at(marked(facts, key, complete_entry(range, count)), key, inner).len() == 0,
{
    let s = rows(facts, key);
    let e = complete_entry(range, count);
    let after = marked(facts, key, e);
    let out = with_entry(s, e);
    assert(rows(after, key) == out);
    law_marking_keeps_tidy(s, e);
    assert forall|t: int| inner.covers(t) implies #[trigger] any_covers(complete_of(out), t) by {
        law_marking_exact(s, e, t);
        lemma_complete_covers(out, t);
    }
    law_nothing_missing_iff_covered(inner, complete_of(out));
    lemma_complete_covers(out, 0);
    law_fully_covered_iff_nothing_missing(inner, complete_of(out));
}

proof fn lemma_missing_untouched(desired: MarketDataRange, covered: Seq<MarketDataRange>)
    requires
        forall|i: int| 0 <= i < covered.len() ==> !(#[trigger] covered[i]).crosses(desired),
    ensures
        missing(desired, covered) == seq![desired],
    decreases covered.len(),
{
    if covered.len() > 0 {
        let front = covered.drop_last();
        assert forall|i: int| 0 <= i < front.len() implies !(#[trigger] front[i]).crosses(desired) by {
            assert(covered[i] == front[i]);
        }
        lemma_missing_untouched(desired, front);
        let one = seq![desired];
        assert(!covered[covered.len() - 1].crosses(desired));
        assert(one.drop_last() =~= Seq::<MarketDataRange>::empty());
        assert(one.last() == desired);
        assert(crate::market_data::range::minus_each(one.drop_last(), covered.last()) =~= Seq::<
            MarketDataRange,
        >::empty());
        assert(missing(desired, covered) =~= seq![desired]);
    }
}

/// A range that was marked empty, partial, failed or stale is missing as a whole, whatever was
/// complete in it before.
pub proof fn law_incomplete_is_missing(facts: Facts, key: KeyView, e: EntryView)
    requires
        tidy(rows(facts, key)),
        e.range.valid(),
        !(e.status is Complete),
    ensures
        missing_at(marked(facts, key, e), key, e.range) == seq![e.range],
        !covered_at(marked(facts, key, e), key, e.range),
{
    let s = rows(facts, key);
    let after = marked(facts, key, e);
    let out = with_entry(s, e);
    assert(rows(after, key) == out);
    law_marking_keeps_tidy(s, e);
    lemma_filter_shape(s, |x: EntryView| !x.range.crosses(e.range));
    let rs = complete_of(out);
    lemma_complete_covers(out, 0);
    assert forall|i: int| 0 <= i < rs.len() implies !(#[trigger] rs[i]).crosses(e.range) by {
        if rs[i].crosses(e.range) {
            assert(rs[i].valid());
            let t = if rs[i].from.0 >= e.range.from.0 {
                rs[i].from.0 as int
            } else {
                e.range.from.0 as int
            };
            assert(rs[i].covers(t) && e.range.covers(t));
            assert(any_covers(rs, t));
            lemma_complete_covers(out, t);
            law_marking_exact(s, e, t);
            let kept = clear_of(s, e.range);
            let k = choose|k: int|
                0 <= k < kept.len() && (#[trigger] kept[k]).status is Complete
                    && kept[k].range.covers(t);
            assert(!kept[k].range.crosses(e.range));
        }
    }
    lemma_missing_untouched(e.range, rs);
    law_fully_covered_iff_nothing_missing(e.range, rs);
}

/// Marking a range of one stream leaves every other stream as it was.
pub proof fn law_other_streams_untouched(facts: Facts, key: KeyView, e: EntryView, other: KeyView)
    requires
        other != key,
    ensures
        rows(marked(facts, key, e), other) == rows(facts, other),
        complete_at(marked(facts, key, e), other) == complete_at(facts, other),
{
}

proof fn lemma_fuse_stamped_tidy(s: Seq<StampedEntry>)
    requires
        tidy(unstamped(s)),
    ensures
        fuse_stamped(sorted_by_rank(s)) == s,
    decreases s.len(),
{
    let u = unstamped(s);
    assert forall|i: int, j: int| 0 <= i <= j < s.len() implies (#[trigger] s[i]).rank() <= (
    #[trigger] s[j]).rank() by {
        assert(u[i] == s[i].entry && u[j] == s[j].entry);
        if i < j {
            assert(u[i].range.to.0 <= u[j].range.from.0);
            assert(u[i].range.valid());
        }
    }
    lemma_sorted_fixpoint(s);
    lemma_fuse_stamped_unfusable(s);
}

proof fn lemma_fuse_stamped_unfusable(s: Seq<StampedEntry>)
    requires
        entries_unfusable(unstamped(s)),
    ensures
        fuse_stamped(s) == s,
    decreases s.len(),
{
    if s.len() > 0 {
        let front = s.drop_last();
        let u = unstamped(s);
        let v = unstamped(front);
        assert forall|i: int, j: int| 0 <= i && j == i + 1 && j < v.len() implies !fuses(
            #[trigger] v[i],
            #[trigger] v[j],
        ) by {
            assert(v[i] == u[i] && v[j] == u[j]);
        }
        lemma_fuse_stamped_unfusable(front);
        if front.len() > 0 {
            assert(!fuses(u[u.len() - 2], u[u.len() - 1]));
            assert(u[u.len() - 2] == front.last().entry);
            assert(u[u.len() - 1] == s.last().entry);
        }
        assert(front.push(s.last()) =~= s);
    }
}

proof fn lemma_restored(order: Seq<KeyView>, m: Map<KeyView, Seq<StampedEntry>>, n: int)
    requires
        0 <= n <= order.len(),
        order.no_duplicates(),
        forall|k: KeyView| order.contains(k) ==> tidy(unstamped(#[trigger] m[k])),
    ensures
        restored(persisted(order, m).take(n)) == Map::new(
            |k: KeyView| order.take(n).contains(k),
            |k: KeyView| m[k],
        ),
        restored_order(persisted(order, m).take(n)) == order.take(n),
    decreases n,
{
    let p = persisted(order, m);
    let goal = Map::new(|k: KeyView| order.take(n).contains(k), |k: KeyView| m[k]);
    if n == 0 {
        assert(restored(p.take(0)) =~= goal);
        assert(restored_order(p.take(0)) =~= order.take(0));
    } else {
        lemma_restored(order, m, n - 1);
        let key = order[n - 1];
        assert(p.take(n).drop_last() =~= p.take(n - 1));
        assert(p.take(n).last() == persisted_key(key, m[key]));
        law_display_parts_round_trip(key);
        let front = restored(p.take(n - 1));
        let fewer = order.take(n - 1);
        let more = order.take(n);
        assert(more =~= fewer.push(key));
        assert(!fewer.contains(key)) by {
            if fewer.contains(key) {
                let j = choose|j: int| 0 <= j < fewer.len() && fewer[j] == key;
                assert(order[j] == key);
            }
        }
        assert(stamped_rows(front, key) =~= Seq::<StampedEntry>::empty());
        assert(stamped_rows(front, key) + m[key] =~= m[key]);
        assert(order.contains(key));
        lemma_fuse_stamped_tidy(m[key]);
        assert forall|k: KeyView| more.contains(k) <==> (k == key || fewer.contains(k)) by {
            if more.contains(k) {
                let j = choose|j: int| 0 <= j < more.len() && more[j] == k;
                if j < n - 1 {
                    assert(fewer[j] == k);
                }
            }
            if fewer.contains(k) {
                let j = choose|j: int| 0 <= j < fewer.len() && fewer[j] == k;
                assert(more[j] == k);
            }
            assert(more[n - 1] == key);
        }
        assert(restored(p.take(n)) =~= goal);
        assert(restored_order(p.take(n)) =~= more);
    }
}

/// What was kept between runs comes back: a tidy ledger restored from its kept form is the
/// same ledger, stamps, counts and order included.
pub proof fn law_persistence_round_trip(
    order: Seq<KeyView>,
    m: Map<KeyView, Seq<StampedEntry>>,
)
    requires
        order.no_duplicates(),
        forall|k: KeyView|
            #![trigger order.contains(k)]
            #![trigger m.contains_key(k)]
            order.contains(k) <==> m.contains_key(k),
        forall|k: KeyView| #[trigger] m.contains_key(k) ==> tidy(unstamped(m[k])),
    ensures
        restored(persisted(order, m)) == m,
        restored_order(persisted(order, m)) == order,
{
    let p = persisted(order, m);
    assert forall|k: KeyView| order.contains(k) implies tidy(unstamped(#[trigger] m[k])) by {
        assert(m.contains_key(k));
    }
    lemma_restored(order, m, order.len() as int);
    assert(p.take(order.len() as int) =~= p);
    assert(order.take(order.len() as int) =~= order);
    assert(restored(p) =~= m);
}

/// Two complete ranges that become one hold each instant of both and of nothing else, as they
/// overlap or touch. Where they only touch, the records of both are counted; where one lies within
/// the other, those of the larger.
pub proof fn law_fused_ranges(a: EntryView, b: EntryView, t: int)
    requires
        a.status is Complete,
        b.status is Complete,
        a.range.from.0 < a.range.to.0,
        b.range.from.0 < b.range.to.0,
        a.range.from.0 <= b.range.to.0,
        b.range.from.0 <= a.range.to.0,
    ensures
        fuses(a, b),
        fused(a, b).status is Complete,
        fused(a, b).range.from.0 <= t < fused(a, b).range.to.0 <==> a.range.from.0 <= t
            < a.range.to.0 || b.range.from.0 <= t < b.range.to.0,
        a.range.to == b.range.from && a.record_count is Some && b.record_count is Some
            && a.record_count->Some_0 + b.record_count->Some_0 <= usize::MAX ==> fused(
            a,
            b,
        ).record_count == Some((a.record_count->Some_0 + b.record_count->Some_0) as usize),
        a.range.from.0 <= b.range.from.0 && b.range.to.0 <= a.range.to.0 && a.range != b.range ==> (
        a.range.from.0 < b.range.to.0 ==> fused(a, b).record_count == a.record_count),
{
}

} // verus!
