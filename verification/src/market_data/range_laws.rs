//! Laws of ranges: what the operations keep, and how they fit together.

use vstd::prelude::*;
use crate::market_data::range::{
    aligned, alignable, all_valid, any_covers, ceil_to, first_crossing, floor_to, in_order,
    join_neighbours, merged, minus_each, missing, reaches, separated, settled, with_required,
    with_segment, MarketDataRange,
};
use crate::sorting::{is_ranked, lemma_sorted, lemma_sorted_fixpoint, sorted_by_rank, Rank};
use crate::time::UnixMs;

verus! {

/// Overlap, adjacency, intersection, merging and gaps do not depend on the order of the two
/// ranges.
pub proof fn law_pairs_are_symmetric(a: MarketDataRange, b: MarketDataRange)
    requires
        a.valid(),
        b.valid(),
    ensures
        a.crosses(b) == b.crosses(a),
        a.touches(b) == b.touches(a),
        a.common(b) == b.common(a),
        a.joined(b) == b.joined(a),
        a.gap(b) == b.gap(a),
{
}

/// The intersection holds exactly the milliseconds that both ranges hold, and it exists
/// exactly when valid ranges overlap.
pub proof fn law_intersection_exact(a: MarketDataRange, b: MarketDataRange)
    ensures
        forall|t: int|
            (a.covers(t) && b.covers(t)) <==> (a.common(b) is Some && (#[trigger] a.common(
                b,
            )->Some_0.covers(t))),
        a.valid() && b.valid() ==> (a.common(b) is Some <==> a.crosses(b)),
{
}

/// Two valid ranges that overlap or touch merge into a range that holds exactly what either
/// of them holds.
pub proof fn law_merge_exact(a: MarketDataRange, b: MarketDataRange)
    requires
        a.valid(),
        b.valid(),
        a.joined(b) is Some,
    ensures
        forall|t: int| #[trigger]
            a.joined(b)->Some_0.covers(t) <==> a.covers(t) || b.covers(t),
{
}

/// Two valid ranges either overlap, or touch, or leave a gap, and the gap holds exactly the
/// milliseconds between them.
pub proof fn law_gap_exact(a: MarketDataRange, b: MarketDataRange)
    requires
        a.valid(),
        b.valid(),
    ensures
        a.gap(b) is None <==> a.crosses(b) || a.touches(b),
        a.gap(b) matches Some(g) ==> forall|t: int| #[trigger]
            g.covers(t) <==> a.hull(b).covers(t) && !a.covers(t) && !b.covers(t),
{
}

/// Subtraction leaves exactly the milliseconds that only the first range holds.
pub proof fn law_subtract_exact(a: MarketDataRange, b: MarketDataRange, t: int)
    ensures
        any_covers(a.minus(b), t) <==> a.covers(t) && !b.covers(t),
{
    let m = a.minus(b);
    if a.covers(t) && !b.covers(t) {
        if !a.crosses(b) {
            assert(m[0].covers(t));
        } else if t < b.from.0 {
            assert(m[0].covers(t));
        } else {
            assert(m[m.len() - 1].covers(t));
        }
    }
}

/// The two parts of a split hold exactly what the whole holds, the first what lies before the
/// cut and the second what does not, and where both exist they merge back into the whole.
pub proof fn law_split_rejoins(r: MarketDataRange, at: UnixMs)
    requires
        r.valid(),
    ensures
        r.from.0 < at.0 < r.to.0 ==> {
            let left = MarketDataRange { from: r.from, to: at };
            let right = MarketDataRange { from: at, to: r.to };
            &&& left.joined(right) == Some(r)
            &&& forall|t: int| #[trigger]
                r.covers(t) ==> (left.covers(t) <==> t < at.0) && (right.covers(t) <==> t >= at.0)
        },
{
}

proof fn lemma_minus_each_exact(rs: Seq<MarketDataRange>, cover: MarketDataRange, t: int)
    ensures
        any_covers(minus_each(rs, cover), t) <==> any_covers(rs, t) && !cover.covers(t),
    decreases rs.len(),
{
    if rs.len() > 0 {
        let front = rs.drop_last();
        lemma_minus_each_exact(front, cover, t);
        law_subtract_exact(rs.last(), cover, t);
        let a = minus_each(front, cover);
        let b = rs.last().minus(cover);
        let all = a + b;
        if any_covers(all, t) {
            let i = choose|i: int| 0 <= i < all.len() && (#[trigger] all[i]).covers(t);
            if i < a.len() {
                assert(a[i].covers(t));
                let k = choose|k: int| 0 <= k < front.len() && (#[trigger] front[k]).covers(t);
                assert(rs[k].covers(t));
            } else {
                assert(b[i - a.len()].covers(t));
                assert(rs[rs.len() - 1].covers(t));
            }
        }
        if any_covers(rs, t) && !cover.covers(t) {
            let k = choose|k: int| 0 <= k < rs.len() && (#[trigger] rs[k]).covers(t);
            if k < front.len() {
                assert(front[k].covers(t));
                let i = choose|i: int| 0 <= i < a.len() && (#[trigger] a[i]).covers(t);
                assert(all[i].covers(t));
            } else {
                let i = choose|i: int| 0 <= i < b.len() && (#[trigger] b[i]).covers(t);
                assert(all[a.len() + i].covers(t));
            }
        }
    }
}

/// The missing ranges hold exactly the milliseconds of the desired range that no covered range
/// holds.
pub proof fn law_missing_exact(desired: MarketDataRange, covered: Seq<MarketDataRange>, t: int)
    ensures
        any_covers(missing(desired, covered), t) <==> desired.covers(t) && !any_covers(covered, t),
    decreases covered.len(),
{
    if covered.len() == 0 {
        let one = seq![desired];
        if desired.covers(t) {
            assert(one[0].covers(t));
        }
    } else {
        let front = covered.drop_last();
        law_missing_exact(desired, front, t);
        lemma_minus_each_exact(missing(desired, front), covered.last(), t);
        if any_covers(covered, t) {
            let i = choose|i: int| 0 <= i < covered.len() && (#[trigger] covered[i]).covers(t);
            if i < front.len() {
                assert(front[i].covers(t));
            }
        }
        if any_covers(front, t) {
            let i = choose|i: int| 0 <= i < front.len() && (#[trigger] front[i]).covers(t);
            assert(covered[i].covers(t));
        }
        if covered.last().covers(t) {
            assert(covered[covered.len() - 1].covers(t));
        }
    }
}

/// Every piece lies within `whole`.
pub open spec fn all_within(rs: Seq<MarketDataRange>, whole: MarketDataRange) -> bool {
    forall|i: int| 0 <= i < rs.len() ==> whole.encloses(#[trigger] rs[i])
}

/// No range of `rs` ends behind `bound`.
spec fn ends_by(rs: Seq<MarketDataRange>, bound: int) -> bool {
    forall|i: int| 0 <= i < rs.len() ==> (#[trigger] rs[i]).to.0 <= bound
}

proof fn lemma_minus_each_shape(
    rs: Seq<MarketDataRange>,
    cover: MarketDataRange,
    whole: MarketDataRange,
)
    requires
        all_valid(rs),
        all_within(rs, whole),
    ensures
        all_valid(minus_each(rs, cover)),
        all_within(minus_each(rs, cover), whole),
        cover.valid() && in_order(rs) ==> in_order(minus_each(rs, cover)),
        forall|bound: int| ends_by(rs, bound) ==> #[trigger] ends_by(minus_each(rs, cover), bound),
    decreases rs.len(),
{
    if rs.len() > 0 {
        let front = rs.drop_last();
        let last = rs.last();
        assert(last == rs[rs.len() - 1]);
        assert forall|i: int| 0 <= i < front.len() implies (#[trigger] front[i]).valid()
            && whole.encloses(front[i]) by {
            assert(front[i] == rs[i]);
        }
        if in_order(rs) {
            assert forall|i: int, j: int| 0 <= i < j < front.len() implies (#[trigger] front[i]).to.0
                <= (#[trigger] front[j]).from.0 by {
                assert(rs[i].to.0 <= rs[j].from.0);
            }
        }
        lemma_minus_each_shape(front, cover, whole);
        let a = minus_each(front, cover);
        let b = last.minus(cover);
        let all = a + b;
        assert forall|i: int| 0 <= i < all.len() implies (#[trigger] all[i]).valid()
            && whole.encloses(all[i]) by {
            if i < a.len() {
                assert(all[i] == a[i]);
            } else {
                assert(all[i] == b[i - a.len()]);
            }
        }
        if cover.valid() && in_order(rs) {
            let bound = last.from.0 as int;
            assert forall|i: int| 0 <= i < front.len() implies (#[trigger] front[i]).to.0 <= bound by {
                assert(rs[i].to.0 <= rs[rs.len() - 1].from.0);
            }
            assert(ends_by(front, bound));
            assert(ends_by(a, bound));
            assert forall|i: int, j: int| 0 <= i < j < all.len() implies (#[trigger] all[i]).to.0 <= (
            #[trigger] all[j]).from.0 by {
                if j < a.len() {
                    assert(a[i].to.0 <= a[j].from.0);
                } else if i < a.len() {
                    assert(a[i].to.0 <= bound);
                    assert(all[j] == b[j - a.len()]);
                } else {
                    assert(all[i] == b[i - a.len()]);
                    assert(all[j] == b[j - a.len()]);
                }
            }
        }
        assert forall|bound: int| ends_by(rs, bound) implies #[trigger] ends_by(
            minus_each(rs, cover),
            bound,
        ) by {
            assert forall|i: int| 0 <= i < front.len() implies (#[trigger] front[i]).to.0 <= bound by {
                assert(rs[i].to.0 <= bound);
            }
            assert(ends_by(front, bound));
            assert(ends_by(a, bound));
            assert forall|i: int| 0 <= i < all.len() implies (#[trigger] all[i]).to.0 <= bound by {
                if i < a.len() {
                    assert(a[i].to.0 <= bound);
                } else {
                    assert(all[i] == b[i - a.len()]);
                    assert(rs[rs.len() - 1].to.0 <= bound);
                }
            }
        }
    }
}

/// The missing ranges of a valid range are valid and lie within it; where all covered ranges
/// are valid, they come in order of time and share nothing.
pub proof fn law_missing_in_order(desired: MarketDataRange, covered: Seq<MarketDataRange>)
    requires
        desired.valid(),
    ensures
        all_valid(missing(desired, covered)),
        all_within(missing(desired, covered), desired),
        all_valid(covered) ==> in_order(missing(desired, covered)),
    decreases covered.len(),
{
    if covered.len() > 0 {
        let front = covered.drop_last();
        law_missing_in_order(desired, front);
        if all_valid(covered) {
            assert(covered[covered.len() - 1].valid());
            assert forall|i: int| 0 <= i < front.len() implies (#[trigger] front[i]).valid() by {
                assert(covered[i].valid());
            }
        }
        lemma_minus_each_shape(missing(desired, front), covered.last(), desired);
    }
}

proof fn lemma_minus_each_separated(rs: Seq<MarketDataRange>, cover: MarketDataRange)
    requires
        all_valid(rs),
        separated(rs),
        cover.valid(),
    ensures
        separated(minus_each(rs, cover)),
    decreases rs.len(),
{
    if rs.len() > 0 {
        let front = rs.drop_last();
        let last = rs.last();
        let bound = last.from.0 - 1;
        assert(last == rs[rs.len() - 1]);
        assert forall|i: int| 0 <= i < front.len() implies (#[trigger] front[i]).valid()
            && front[i].to.0 <= bound by {
            assert(rs[i].to.0 < rs[rs.len() - 1].from.0);
            assert(rs[i].valid());
        }
        assert forall|i: int, j: int| 0 <= i < j < front.len() implies (#[trigger] front[i]).to.0 < (
        #[trigger] front[j]).from.0 by {
            assert(rs[i].to.0 < rs[j].from.0);
        }
        lemma_minus_each_separated(front, cover);
        let a = minus_each(front, cover);
        let b = last.minus(cover);
        let all = a + b;
        let whole = MarketDataRange { from: UnixMs(0), to: UnixMs(u64::MAX) };
        assert(all_within(front, whole));
        lemma_minus_each_shape(front, cover, whole);
        assert(ends_by(front, bound));
        assert(ends_by(a, bound));
        assert forall|i: int, j: int| 0 <= i < j < all.len() implies (#[trigger] all[i]).to.0 < (
        #[trigger] all[j]).from.0 by {
            if j < a.len() {
                assert(a[i].to.0 < a[j].from.0);
            } else if i < a.len() {
                assert(a[i].to.0 <= bound);
                assert(all[j] == b[j - a.len()]);
            } else {
                assert(all[i] == b[i - a.len()]);
                assert(all[j] == b[j - a.len()]);
            }
        }
    }
}

/// Between any two missing ranges something is covered.
pub proof fn law_missing_separated(desired: MarketDataRange, covered: Seq<MarketDataRange>)
    requires
        desired.valid(),
        all_valid(covered),
    ensures
        separated(missing(desired, covered)),
    decreases covered.len(),
{
    if covered.len() > 0 {
        let front = covered.drop_last();
        assert(covered[covered.len() - 1].valid());
        assert forall|i: int| 0 <= i < front.len() implies (#[trigger] front[i]).valid() by {
            assert(covered[i].valid());
        }
        law_missing_separated(desired, front);
        law_missing_in_order(desired, front);
        lemma_minus_each_separated(missing(desired, front), covered.last());
    }
}

/// Nothing of a valid range is missing exactly when every millisecond of it is covered.
pub proof fn law_nothing_missing_iff_covered(
    desired: MarketDataRange,
    covered: Seq<MarketDataRange>,
)
    requires
        desired.valid(),
    ensures
        missing(desired, covered).len() == 0 <==> forall|t: int|
            desired.covers(t) ==> #[trigger] any_covers(covered, t),
{
    let m = missing(desired, covered);
    law_missing_in_order(desired, covered);
    if m.len() == 0 {
        assert forall|t: int| desired.covers(t) implies #[trigger] any_covers(covered, t) by {
            law_missing_exact(desired, covered, t);
        }
    } else {
        let t = m[0].from.0 as int;
        assert(m[0].covers(t));
        law_missing_exact(desired, covered, t);
        assert(!any_covers(covered, t));
    }
}

/// A covered range more never makes more missing.
pub proof fn law_missing_shrinks(
    desired: MarketDataRange,
    covered: Seq<MarketDataRange>,
    extra: MarketDataRange,
    t: int,
)
    ensures
        any_covers(missing(desired, covered.push(extra)), t) ==> any_covers(
            missing(desired, covered),
            t,
        ),
{
    law_missing_exact(desired, covered, t);
    law_missing_exact(desired, covered.push(extra), t);
    if any_covers(covered, t) {
        let i = choose|i: int| 0 <= i < covered.len() && (#[trigger] covered[i]).covers(t);
        assert(covered.push(extra)[i].covers(t));
    }
}

proof fn lemma_any_covers_contains(a: Seq<MarketDataRange>, b: Seq<MarketDataRange>, t: int)
    requires
        forall|r: MarketDataRange| a.contains(r) ==> b.contains(r),
        any_covers(a, t),
    ensures
        any_covers(b, t),
{
    let i = choose|i: int| 0 <= i < a.len() && (#[trigger] a[i]).covers(t);
    assert(a.contains(a[i]));
    let k = choose|k: int| 0 <= k < b.len() && b[k] == a[i];
    assert(b[k].covers(t));
}

proof fn lemma_any_covers_push(s: Seq<MarketDataRange>, r: MarketDataRange, t: int)
    ensures
        any_covers(s.push(r), t) <==> any_covers(s, t) || r.covers(t),
{
    let all = s.push(r);
    if any_covers(s, t) {
        let i = choose|i: int| 0 <= i < s.len() && (#[trigger] s[i]).covers(t);
        assert(all[i].covers(t));
    }
    if r.covers(t) {
        assert(all[s.len() as int].covers(t));
    }
    if any_covers(all, t) {
        let i = choose|i: int| 0 <= i < all.len() && (#[trigger] all[i]).covers(t);
        if i < s.len() {
            assert(s[i].covers(t));
        }
    }
}

proof fn lemma_join_neighbours(s: Seq<MarketDataRange>)
    requires
        all_valid(s),
        is_ranked(s),
    ensures
        all_valid(join_neighbours(s)),
        separated(join_neighbours(s)),
        s.len() > 0 ==> join_neighbours(s).len() > 0 && join_neighbours(s).last().from.0
            <= s.last().from.0,
        forall|t: int| #[trigger] any_covers(join_neighbours(s), t) <==> any_covers(s, t),
    decreases s.len(),
{
    if s.len() == 0 {
        assert(join_neighbours(s) =~= s);
    } else {
        let front = s.drop_last();
        let last = s.last();
        assert(last == s[s.len() - 1]);
        assert forall|i: int| 0 <= i < front.len() implies (#[trigger] front[i]).valid() by {
            assert(s[i].valid());
        }
        assert forall|i: int, j: int| 0 <= i <= j < front.len() implies (#[trigger] front[i]).rank() <= (
        #[trigger] front[j]).rank() by {
            assert(s[i].rank() <= s[j].rank());
        }
        lemma_join_neighbours(front);
        assert(s =~= front.push(last));
        let g = join_neighbours(front);
        let out = join_neighbours(s);
        if front.len() == 0 {
            assert(g.len() == 0);
            assert(out =~= seq![last]);
            assert forall|t: int| #[trigger] any_covers(out, t) <==> any_covers(s, t) by {
                assert(s =~= seq![last]);
            }
        } else {
            assert(front.last() == s[s.len() - 2]);
            assert(s[s.len() - 2].rank() <= s[s.len() - 1].rank());
            let p = g.last();
            assert(p == g[g.len() - 1]);
            assert(p.from.0 <= last.from.0);
            match p.joined(last) {
                Some(hull) => {
                    assert(out =~= g.drop_last().push(hull));
                    assert forall|i: int| 0 <= i < out.len() implies (#[trigger] out[i]).valid() by {
                        if i < g.len() - 1 {
                            assert(out[i] == g[i]);
                        }
                    }
                    assert forall|i: int, j: int| 0 <= i < j < out.len() implies (#[trigger] out[i]).to.0
                        < (#[trigger] out[j]).from.0 by {
                        assert(out[i] == g[i]);
                        assert(g[i].to.0 < g[j].from.0);
                    }
                    assert forall|t: int| #[trigger] any_covers(out, t) <==> any_covers(s, t) by {
                        lemma_any_covers_push(front, last, t);
                        lemma_any_covers_push(g.drop_last(), hull, t);
                        lemma_any_covers_push(g.drop_last(), p, t);
                        assert(g =~= g.drop_last().push(p));
                        assert(any_covers(g, t) <==> any_covers(front, t));
                        law_merge_exact(p, last);
                        assert(p.joined(last)->Some_0.covers(t) <==> p.covers(t) || last.covers(t));
                    }
                },
                None => {
                    assert(out =~= g.push(last));
                    assert forall|i: int, j: int| 0 <= i < j < out.len() implies (#[trigger] out[i]).to.0
                        < (#[trigger] out[j]).from.0 by {
                        if j < g.len() {
                            assert(g[i].to.0 < g[j].from.0);
                        } else if i < g.len() - 1 {
                            assert(g[i].to.0 < g[g.len() - 1].from.0);
                        }
                    }
                    assert forall|t: int| #[trigger] any_covers(out, t) <==> any_covers(s, t) by {
                        lemma_any_covers_push(front, last, t);
                        lemma_any_covers_push(g, last, t);
                        assert(any_covers(g, t) <==> any_covers(front, t));
                    }
                },
            }
        }
    }
}

/// Merging valid ranges keeps exactly the milliseconds they hold, in valid ranges in order of
/// time with a gap between any two.
pub proof fn law_merge_ranges(s: Seq<MarketDataRange>)
    requires
        all_valid(s),
    ensures
        all_valid(merged(s)),
        separated(merged(s)),
        forall|t: int| #[trigger] any_covers(merged(s), t) <==> any_covers(s, t),
{
    let sorted = sorted_by_rank(s);
    lemma_sorted(s);
    assert forall|i: int| 0 <= i < sorted.len() implies (#[trigger] sorted[i]).valid() by {
        assert(sorted.contains(sorted[i]));
        let k = choose|k: int| 0 <= k < s.len() && s[k] == sorted[i];
        assert(s[k].valid());
    }
    lemma_join_neighbours(sorted);
    assert forall|t: int| #[trigger] any_covers(merged(s), t) <==> any_covers(s, t) by {
        assert(any_covers(join_neighbours(sorted), t) <==> any_covers(sorted, t));
        if any_covers(sorted, t) {
            lemma_any_covers_contains(sorted, s, t);
        }
        if any_covers(s, t) {
            lemma_any_covers_contains(s, sorted, t);
        }
    }
}

proof fn lemma_join_separated(s: Seq<MarketDataRange>)
    requires
        all_valid(s),
        separated(s),
    ensures
        join_neighbours(s) == s,
    decreases s.len(),
{
    if s.len() > 0 {
        let front = s.drop_last();
        assert forall|i: int| 0 <= i < front.len() implies (#[trigger] front[i]).valid() by {
            assert(s[i].valid());
        }
        assert forall|i: int, j: int| 0 <= i < j < front.len() implies (#[trigger] front[i]).to.0 < (
        #[trigger] front[j]).from.0 by {
            assert(s[i].to.0 < s[j].from.0);
        }
        lemma_join_separated(front);
        if front.len() > 0 {
            assert(s[s.len() - 2].to.0 < s[s.len() - 1].from.0);
            assert(s[s.len() - 1].valid() && s[s.len() - 2].valid());
        }
        assert(s =~= front.push(s.last()));
    }
}

/// Merging what is merged changes nothing.
pub proof fn law_merge_ranges_idempotent(s: Seq<MarketDataRange>)
    requires
        all_valid(s),
    ensures
        merged(merged(s)) == merged(s),
{
    let m = merged(s);
    law_merge_ranges(s);
    assert forall|i: int, j: int| 0 <= i <= j < m.len() implies (#[trigger] m[i]).rank() <= (
    #[trigger] m[j]).rank() by {
        if i < j {
            assert(m[i].to.0 < m[j].from.0);
            assert(m[i].valid());
        }
    }
    lemma_sorted_fixpoint(m);
    lemma_join_separated(m);
}

proof fn lemma_reaches(rs: Seq<MarketDataRange>, cursor: UnixMs, to: UnixMs)
    requires
        all_valid(rs),
        separated(rs),
        cursor.0 < to.0,
    ensures
        reaches(rs, cursor, to) <==> forall|t: int|
            cursor.0 <= t < to.0 ==> #[trigger] any_covers(rs, t),
    decreases rs.len(),
{
    if rs.len() == 0 {
        assert(!any_covers(rs, cursor.0 as int));
    } else if rs[0].from.0 > cursor.0 {
        assert forall|i: int| 0 <= i < rs.len() implies !(#[trigger] rs[i]).covers(cursor.0 as int) by {
            if i > 0 {
                assert(rs[0].to.0 < rs[i].from.0);
                assert(rs[0].valid());
            }
        }
        assert(!any_covers(rs, cursor.0 as int));
    } else {
        let first = rs[0];
        let next = crate::time::later(cursor, first.to);
        let rest = rs.skip(1);
        assert forall|i: int| 0 <= i < rest.len() implies (#[trigger] rest[i]).valid() by {
            assert(rest[i] == rs[i + 1]);
        }
        assert forall|i: int, j: int| 0 <= i < j < rest.len() implies (#[trigger] rest[i]).to.0 < (
        #[trigger] rest[j]).from.0 by {
            assert(rs[i + 1].to.0 < rs[j + 1].from.0);
        }
        if next.0 >= to.0 {
            assert forall|t: int| cursor.0 <= t < to.0 implies #[trigger] any_covers(rs, t) by {
                assert(rs[0].covers(t));
            }
        } else {
            lemma_reaches(rest, next, to);
            if reaches(rest, next, to) {
                assert forall|t: int| cursor.0 <= t < to.0 implies #[trigger] any_covers(rs, t) by {
                    if t < first.to.0 {
                        assert(rs[0].covers(t));
                    } else {
                        assert(any_covers(rest, t));
                        let k = choose|k: int| 0 <= k < rest.len() && (#[trigger] rest[k]).covers(t);
                        assert(rs[k + 1].covers(t));
                    }
                }
            } else {
                let t = choose|t: int| next.0 <= t < to.0 && !#[trigger] any_covers(rest, t);
                if any_covers(rs, t) {
                    let k = choose|k: int| 0 <= k < rs.len() && (#[trigger] rs[k]).covers(t);
                    if k > 0 {
                        assert(rest[k - 1].covers(t));
                    }
                }
                assert(!any_covers(rs, t));
            }
        }
    }
}

/// A valid range is fully covered by valid ranges exactly when nothing of it is missing.
pub proof fn law_fully_covered_iff_nothing_missing(
    range: MarketDataRange,
    covered: Seq<MarketDataRange>,
)
    requires
        range.valid(),
        all_valid(covered),
    ensures
        reaches(merged(covered), range.from, range.to) <==> missing(range, covered).len() == 0,
{
    law_merge_ranges(covered);
    law_nothing_missing_iff_covered(range, covered);
    lemma_reaches(merged(covered), range.from, range.to);
    if reaches(merged(covered), range.from, range.to) {
        assert forall|t: int| range.covers(t) implies #[trigger] any_covers(covered, t) by {
            assert(any_covers(merged(covered), t));
        }
    }
    if missing(range, covered).len() == 0 {
        assert forall|t: int| range.from.0 <= t < range.to.0 implies #[trigger] any_covers(
            merged(covered),
            t,
        ) by {
            assert(range.covers(t));
            assert(any_covers(covered, t));
        }
    }
}

/// A valid range aligned to candles holds the range, starts and ends on candle boundaries less
/// than one candle away, and stays as it is when aligned again.
pub proof fn law_alignment(range: MarketDataRange, timeframe_ms: u64)
    requires
        timeframe_ms > 0,
        alignable(range.to, timeframe_ms),
        range.valid(),
    ensures
        aligned(range, timeframe_ms) matches Some(r) && {
            &&& r.encloses(range)
            &&& r.from.0 % timeframe_ms == 0
            &&& r.to.0 % timeframe_ms == 0
            &&& range.from.0 - r.from.0 < timeframe_ms
            &&& r.to.0 - range.to.0 < timeframe_ms
            &&& aligned(r, timeframe_ms) == Some(r)
        },
{
    let f = range.from.0 as int;
    let t = range.to.0 as int;
    let s = timeframe_ms as int;
    assert(0 <= f % s < s && f % s <= f && (f - f % s) % s == 0) by (nonlinear_arith)
        requires
            s > 0,
            f >= 0,
    ;
    assert(0 <= t % s < s && (t + (s - t % s)) % s == 0) by (nonlinear_arith)
        requires
            s > 0,
            t >= 0,
    ;
    assert(floor_to(f, s) <= f && ceil_to(t, s) >= t);
    let r = MarketDataRange {
        from: UnixMs(floor_to(f, s) as u64),
        to: UnixMs(ceil_to(t, s) as u64),
    };
    assert(r.valid());
    assert(r.from.0 as int % s == 0);
    assert(r.to.0 as int % s == 0);
}

proof fn lemma_first_crossing_bounds(s: Seq<MarketDataRange>, segment: MarketDataRange)
    ensures
        0 <= first_crossing(s, segment) <= s.len(),
        first_crossing(s, segment) < s.len() ==> s[first_crossing(s, segment)].crosses(segment),
        forall|i: int|
            0 <= i < first_crossing(s, segment) ==> !(#[trigger] s[i]).crosses(segment),
    decreases s.len(),
{
    if s.len() > 0 && !s[0].crosses(segment) {
        let rest = s.skip(1);
        lemma_first_crossing_bounds(rest, segment);
        assert forall|i: int| 0 <= i < first_crossing(s, segment) implies !(
        #[trigger] s[i]).crosses(segment) by {
            if i > 0 {
                assert(s[i] == rest[i - 1]);
            }
        }
    }
}

/// No two ranges share a millisecond.
pub open spec fn apart(s: Seq<MarketDataRange>) -> bool {
    forall|i: int, j: int|
        0 <= i < s.len() && 0 <= j < s.len() && i != j ==> !(#[trigger] s[i]).crosses(
            #[trigger] s[j],
        )
}

proof fn lemma_any_covers_remove(s: Seq<MarketDataRange>, i: int, t: int)
    requires
        0 <= i < s.len(),
    ensures
        any_covers(s, t) <==> any_covers(s.remove(i), t) || s[i].covers(t),
{
    let rest = s.remove(i);
    if any_covers(s, t) {
        let k = choose|k: int| 0 <= k < s.len() && (#[trigger] s[k]).covers(t);
        if k < i {
            assert(rest[k].covers(t));
        } else if k > i {
            assert(rest[k - 1].covers(t));
        }
    }
    if any_covers(rest, t) {
        let k = choose|k: int| 0 <= k < rest.len() && (#[trigger] rest[k]).covers(t);
        if k < i {
            assert(s[k].covers(t));
        } else {
            assert(s[k + 1].covers(t));
        }
    }
}

proof fn lemma_settled_exact(s: Seq<MarketDataRange>, segment: MarketDataRange, at: int, t: int)
    requires
        all_valid(s),
        segment.valid(),
        0 <= at <= s.len(),
    ensures
        all_valid(settled(s, segment, at)),
        any_covers(settled(s, segment, at), t) <==> any_covers(s, t) || segment.covers(t),
    decreases s.len(),
{
    let i = first_crossing(s, segment);
    lemma_first_crossing_bounds(s, segment);
    if i < s.len() {
        let rest = s.remove(i);
        assert(s[i].valid());
        law_merge_exact(s[i], segment);
        assert(s[i].joined(segment)->Some_0.covers(t) <==> s[i].covers(t) || segment.covers(t));
        assert forall|k: int| 0 <= k < rest.len() implies (#[trigger] rest[k]).valid() by {
            if k < i {
                assert(rest[k] == s[k]);
            } else {
                assert(rest[k] == s[k + 1]);
            }
        }
        lemma_any_covers_remove(s, i, t);
        lemma_settled_exact(
            rest,
            s[i].hull(segment),
            if i < at {
                i
            } else {
                at
            },
            t,
        );
    } else {
        let out = s.insert(at, segment);
        assert(out.remove(at) =~= s);
        lemma_any_covers_remove(out, at, t);
        assert forall|k: int| 0 <= k < out.len() implies (#[trigger] out[k]).valid() by {
            if k < at {
                assert(out[k] == s[k]);
            } else if k > at {
                assert(out[k] == s[k - 1]);
            }
        }
    }
}

proof fn lemma_settled_apart(s: Seq<MarketDataRange>, segment: MarketDataRange, at: int)
    requires
        apart(s),
        0 <= at <= s.len(),
    ensures
        apart(settled(s, segment, at)),
    decreases s.len(),
{
    let i = first_crossing(s, segment);
    lemma_first_crossing_bounds(s, segment);
    if i < s.len() {
        let rest = s.remove(i);
        assert forall|a: int, b: int|
            0 <= a < rest.len() && 0 <= b < rest.len() && a != b implies !(
        #[trigger] rest[a]).crosses(#[trigger] rest[b]) by {
            let x = if a < i {
                a
            } else {
                a + 1
            };
            let y = if b < i {
                b
            } else {
                b + 1
            };
            assert(!s[x].crosses(s[y]));
        }
        lemma_settled_apart(
            rest,
            s[i].hull(segment),
            if i < at {
                i
            } else {
                at
            },
        );
    } else {
        let out = s.insert(at, segment);
        assert forall|a: int, b: int|
            0 <= a < out.len() && 0 <= b < out.len() && a != b implies !(#[trigger] out[a]).crosses(
            #[trigger] out[b],
        ) by {
            let x = if a < at {
                a
            } else {
                a - 1
            };
            let y = if b < at {
                b
            } else {
                b - 1
            };
            if a != at && b != at {
                assert(!s[x].crosses(s[y]));
            } else if a != at {
                assert(!s[x].crosses(segment));
            } else {
                assert(!s[y].crosses(segment));
            }
        }
    }
}

/// A segment that was added lies within one of the segments.
pub(crate) proof fn lemma_settled_encloses(
    s: Seq<MarketDataRange>,
    segment: MarketDataRange,
    at: int,
) -> (k: int)
    requires
        0 <= at <= s.len(),
    ensures
        0 <= k < settled(s, segment, at).len(),
        settled(s, segment, at)[k].encloses(segment),
    decreases s.len(),
{
    let i = first_crossing(s, segment);
    lemma_first_crossing_bounds(s, segment);
    if i < s.len() {
        lemma_settled_encloses(
            s.remove(i),
            s[i].hull(segment),
            if i < at {
                i
            } else {
                at
            },
        )
    } else {
        at
    }
}

/// Adding a valid segment to valid segments keeps what they hold and adds what it holds.
pub proof fn law_add_segment_exact(s: Seq<MarketDataRange>, segment: MarketDataRange, t: int)
    requires
        all_valid(s),
        segment.valid(),
    ensures
        all_valid(with_segment(s, segment)),
        any_covers(with_segment(s, segment), t) <==> any_covers(s, t) || segment.covers(t),
{
    lemma_settled_exact(s, segment, s.len() as int, t);
}

/// Segments that share nothing go on sharing nothing, whatever segment is added. One of them then
/// holds all of it.
pub proof fn law_segments_stay_apart(s: Seq<MarketDataRange>, segment: MarketDataRange)
    requires
        apart(s),
    ensures
        apart(with_segment(s, segment)),
        exists|k: int|
            0 <= k < with_segment(s, segment).len() && (#[trigger] with_segment(
                s,
                segment,
            )[k]).encloses(segment),
{
    lemma_settled_apart(s, segment, s.len() as int);
    let k = lemma_settled_encloses(s, segment, s.len() as int);
    assert(with_segment(s, segment)[k].encloses(segment));
}

/// Adding a valid required segment keeps what the segments hold and adds what it holds, and
/// afterwards nothing of it is missing.
pub proof fn law_required_segment_exact(s: Seq<MarketDataRange>, segment: MarketDataRange)
    requires
        segment.valid(),
    ensures
        forall|t: int| #[trigger]
            any_covers(with_required(s, segment), t) <==> any_covers(s, t) || segment.covers(t),
        missing(segment, with_required(s, segment)).len() == 0,
{
    let keep = |e: MarketDataRange| e.minus(segment).len() > 0;
    let kept = s.filter(keep);
    let out = with_required(s, segment);
    assert forall|t: int| #[trigger] any_covers(out, t) <==> any_covers(s, t) || segment.covers(
        t,
    ) by {
        law_nothing_missing_iff_covered(segment, s);
        if missing(segment, s).len() > 0 {
            let all = kept.push(segment);
            lemma_sorted(all);
            lemma_any_covers_push(kept, segment, t);
            if any_covers(out, t) {
                lemma_any_covers_contains(out, all, t);
                if any_covers(kept, t) {
                    let k = choose|k: int| 0 <= k < kept.len() && (#[trigger] kept[k]).covers(t);
                    s.lemma_filter_contains_rev(keep, kept[k]);
                    let m = choose|m: int| 0 <= m < s.len() && s[m] == kept[k];
                    assert(s[m].covers(t));
                }
            }
            if any_covers(s, t) || segment.covers(t) {
                if any_covers(s, t) && !segment.covers(t) {
                    let k = choose|k: int| 0 <= k < s.len() && (#[trigger] s[k]).covers(t);
                    law_subtract_exact(s[k], segment, t);
                    assert(keep(s[k]));
                    s.lemma_filter_contains(keep, k);
                    let m = choose|m: int| 0 <= m < kept.len() && kept[m] == s[k];
                    assert(kept[m].covers(t));
                    assert(any_covers(kept, t));
                }
                lemma_any_covers_contains(all, out, t);
            }
        }
    }
    law_nothing_missing_iff_covered(segment, out);
    assert forall|t: int| segment.covers(t) implies #[trigger] any_covers(out, t) by {}
}

} // verus!
