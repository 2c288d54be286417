//! Time ranges and the operations that coverage tracking is built from.

use vstd::prelude::*;
use vstd::string::*;
use crate::seqs::lemma_filter_take;
use crate::sorting::{sort_ranked, sorted_by_rank, Rank, Ranked};
use crate::time::{clock_text, earlier, format_time_short, later, UnixMs};

verus! {

/// A stretch of time with inclusive start and exclusive end.
#[derive(Debug, Clone, Copy, PartialEq, Eq, Hash, Structural)]
pub struct MarketDataRange {
    /// Inclusive start.
    pub from: UnixMs,
    /// Exclusive end.
    pub to: UnixMs,
}

impl Rank for MarketDataRange {
    open spec fn rank(&self) -> int {
        self.from.0 as int
    }
}

impl Ranked for MarketDataRange {
    fn ranks_after(&self, other: &Self) -> (after: bool) {
        self.from.0 > other.from.0
    }
}

impl MarketDataRange {
    /// The range holds at least one millisecond.
    pub open spec fn valid(self) -> bool {
        self.from.0 < self.to.0
    }

    /// The millisecond `t` lies in the range.
    pub open spec fn covers(self, t: int) -> bool {
        self.from.0 <= t < self.to.0
    }

    /// The length in milliseconds.
    pub open spec fn span(self) -> int {
        if self.from.0 <= self.to.0 {
            self.to.0 - self.from.0
        } else {
            0
        }
    }

    /// Each range starts before the other ends.
    pub open spec fn crosses(self, other: Self) -> bool {
        self.from.0 < other.to.0 && other.from.0 < self.to.0
    }

    /// One range ends where the other starts.
    pub open spec fn touches(self, other: Self) -> bool {
        self.to == other.from || other.to == self.from
    }

    /// `other` lies within this range.
    pub open spec fn encloses(self, other: Self) -> bool {
        self.from.0 <= other.from.0 && self.to.0 >= other.to.0
    }

    /// The smallest range around both.
    pub open spec fn hull(self, other: Self) -> Self {
        MarketDataRange { from: earlier(self.from, other.from), to: later(self.to, other.to) }
    }

    /// The common part, if there is one.
    pub open spec fn common(self, other: Self) -> Option<Self> {
        let r = MarketDataRange {
            from: later(self.from, other.from),
            to: earlier(self.to, other.to),
        };
        if r.valid() {
            Some(r)
        } else {
            None
        }
    }

    /// The hull of two ranges that cross or touch.
    pub open spec fn joined(self, other: Self) -> Option<Self> {
        if self.crosses(other) || self.touches(other) {
            Some(self.hull(other))
        } else {
            None
        }
    }

    /// What is left of this range without `other`, in order of time.
    pub open spec fn minus(self, other: Self) -> Seq<Self> {
        if !self.crosses(other) {
            seq![self]
        } else {
            (if self.from.0 < other.from.0 {
                seq![MarketDataRange { from: self.from, to: other.from }]
            } else {
                Seq::empty()
            }) + (if self.to.0 > other.to.0 {
                seq![MarketDataRange { from: other.to, to: self.to }]
            } else {
                Seq::empty()
            })
        }
    }

    /// A range, if it holds at least one millisecond.
    pub fn new(from: UnixMs, to: UnixMs) -> (r: Option<Self>)
        ensures
            r == if from.0 < to.0 {
                Some(MarketDataRange { from, to })
            } else {
                None::<MarketDataRange>
            },
    {
        if from.0 < to.0 {
            Some(MarketDataRange { from, to })
        } else {
            None
        }
    }

    /// A range as given, which may be empty.
    pub fn new_unchecked(from: UnixMs, to: UnixMs) -> (r: Self)
        ensures
            r == (MarketDataRange { from, to }),
    {
        MarketDataRange { from, to }
    }

    /// The length in milliseconds.
    pub fn duration_ms(&self) -> (ms: u64)
        ensures
            ms == self.span(),
    {
        self.to.0.saturating_sub(self.from.0)
    }

    /// True when the range holds no millisecond.
    pub fn is_empty(&self) -> (empty: bool)
        ensures
            empty == !self.valid(),
    {
        self.from.0 >= self.to.0
    }

    /// True when `ts` lies in the range.
    pub fn contains_timestamp(&self, ts: UnixMs) -> (inside: bool)
        ensures
            inside == self.covers(ts.0 as int),
    {
        ts.0 >= self.from.0 && ts.0 < self.to.0
    }

    /// True when `other` lies within this range.
    pub fn contains(&self, other: &Self) -> (inside: bool)
        ensures
            inside == self.encloses(*other),
    {
        self.from.0 <= other.from.0 && self.to.0 >= other.to.0
    }

    /// True when each range starts before the other ends.
    pub fn overlaps(&self, other: &Self) -> (r: bool)
        ensures
            r == self.crosses(*other),
    {
        self.from.0 < other.to.0 && other.from.0 < self.to.0
    }

    /// The common part of two ranges.
    pub fn intersection(&self, other: &Self) -> (r: Option<Self>)
        ensures
            r == self.common(*other),
    {
        let from = self.from.later_of(other.from);
        let to = self.to.earlier_of(other.to);
        Self::new(from, to)
    }

    /// The hull of two ranges that overlap or touch.
    pub fn merge(&self, other: &Self) -> (r: Option<Self>)
        ensures
            r == self.joined(*other),
    {
        if self.overlaps(other) || self.adjacent_to(other) {
            Some(
                MarketDataRange {
                    from: self.from.earlier_of(other.from),
                    to: self.to.later_of(other.to),
                },
            )
        } else {
            None
        }
    }

    /// True when one range ends where the other starts.
    pub fn adjacent_to(&self, other: &Self) -> (r: bool)
        ensures
            r == self.touches(*other),
    {
        self.to == other.from || other.to == self.from
    }

    /// What is left of this range without `other`: nothing, one piece or two.
    pub fn subtract(&self, other: &Self) -> (pieces: Vec<MarketDataRange>)
        ensures
            pieces@ == self.minus(*other),
    {
        let mut pieces: Vec<MarketDataRange> = Vec::new();
        if !self.overlaps(other) {
            pieces.push(*self);
            assert(pieces@ =~= self.minus(*other));
            return pieces;
        }
        if self.from.0 < other.from.0 {
            pieces.push(MarketDataRange { from: self.from, to: other.from });
        }
        if self.to.0 > other.to.0 {
            pieces.push(MarketDataRange { from: other.to, to: self.to });
        }
        assert(pieces@ =~= self.minus(*other));
        pieces
    }

    /// The gap between two ranges that neither overlap nor touch.
    pub fn gap_to(&self, other: &Self) -> (gap: Option<Self>)
        ensures
            gap == self.gap(*other),
    {
        if self.overlaps(other) || self.adjacent_to(other) {
            return None;
        }
        if self.to.0 < other.from.0 {
            Self::new(self.to, other.from)
        } else {
            Self::new(other.to, self.from)
        }
    }

    /// The stretch between two ranges, when it is not empty.
    pub open spec fn gap(self, other: Self) -> Option<Self> {
        let between = if self.to.0 < other.from.0 {
            MarketDataRange { from: self.to, to: other.from }
        } else {
            MarketDataRange { from: other.to, to: self.from }
        };
        if !self.crosses(other) && !self.touches(other) && between.valid() {
            Some(between)
        } else {
            None
        }
    }

    /// The parts before and from `at` on. A part that would be empty is absent.
    pub fn split_at(&self, at: UnixMs) -> (parts: (Option<Self>, Option<Self>))
        ensures
            parts.0 == if at.0 <= self.from.0 {
                None::<MarketDataRange>
            } else if at.0 >= self.to.0 {
                Some(*self)
            } else {
                Some(MarketDataRange { from: self.from, to: at })
            },
            parts.1 == if at.0 <= self.from.0 {
                Some(*self)
            } else if at.0 >= self.to.0 {
                None::<MarketDataRange>
            } else {
                Some(MarketDataRange { from: at, to: self.to })
            },
    {
        if at.0 <= self.from.0 {
            (None, Some(*self))
        } else if at.0 >= self.to.0 {
            (Some(*self), None)
        } else {
            (
                Some(MarketDataRange { from: self.from, to: at }),
                Some(MarketDataRange { from: at, to: self.to }),
            )
        }
    }

    /// The text of the range, such as `15:30:00 → 15:58:00`.
    pub open spec fn display(self) -> Seq<char> {
        clock_text(self.from.0 as nat) + " → "@ + clock_text(self.to.0 as nat)
    }

    /// The times of day at both ends.
    pub fn format_display(&self) -> (s: String)
        ensures
            s@ == self.display(),
    {
        let mut out = format_time_short(self.from);
        out.append(" → ");
        out.append(format_time_short(self.to).as_str());
        out
    }
}

/// Some range of `rs` holds the millisecond `t`.
pub open spec fn any_covers(rs: Seq<MarketDataRange>, t: int) -> bool {
    exists|i: int| 0 <= i < rs.len() && (#[trigger] rs[i]).covers(t)
}

/// Every range of `rs` holds at least one millisecond.
pub open spec fn all_valid(rs: Seq<MarketDataRange>) -> bool {
    forall|i: int| 0 <= i < rs.len() ==> (#[trigger] rs[i]).valid()
}

/// The ranges follow one another in time without sharing a millisecond.
pub open spec fn in_order(rs: Seq<MarketDataRange>) -> bool {
    forall|i: int, j: int| 0 <= i < j < rs.len() ==> (#[trigger] rs[i]).to.0 <= (#[trigger] rs[j]).from.0
}

/// The ranges follow one another in time with a gap between any two.
pub open spec fn separated(rs: Seq<MarketDataRange>) -> bool {
    forall|i: int, j: int| 0 <= i < j < rs.len() ==> (#[trigger] rs[i]).to.0 < (#[trigger] rs[j]).from.0
}

/// Joins each range of a sequence to the one before it where they cross or touch.
pub open spec fn join_neighbours(s: Seq<MarketDataRange>) -> Seq<MarketDataRange>
    decreases s.len(),
{
    if s.len() == 0 {
        s
    } else {
        let front = join_neighbours(s.drop_last());
        if front.len() == 0 {
            seq![s.last()]
        } else {
            match front.last().joined(s.last()) {
                Some(hull) => front.drop_last().push(hull),
                None => front.push(s.last()),
            }
        }
    }
}

/// The ranges of `s` in order of start, neighbours joined.
pub open spec fn merged(s: Seq<MarketDataRange>) -> Seq<MarketDataRange> {
    join_neighbours(sorted_by_rank(s))
}

proof fn lemma_join_neighbours_nonempty(s: Seq<MarketDataRange>)
    ensures
        s.len() > 0 ==> join_neighbours(s).len() > 0,
        join_neighbours(s).len() <= s.len(),
    decreases s.len(),
{
    if s.len() > 0 {
        lemma_join_neighbours_nonempty(s.drop_last());
    }
}

/// Merges ranges that overlap or touch into a list in order of start.
pub fn merge_ranges(ranges: &[MarketDataRange]) -> (r: Vec<MarketDataRange>)
    ensures
        r@ == merged(ranges@),
{
    let mut sorted: Vec<MarketDataRange> = Vec::new();
    let mut i: usize = 0;
    while i < ranges.len()
        invariant
            i <= ranges@.len(),
            sorted@ == ranges@.take(i as int),
        decreases ranges@.len() - i,
    {
        sorted.push(ranges[i]);
        assert(sorted@ =~= ranges@.take(i + 1));
        i = i + 1;
    }
    assert(sorted@ =~= ranges@);
    sort_ranked(&mut sorted);
    let mut out: Vec<MarketDataRange> = Vec::new();
    let mut j: usize = 0;
    while j < sorted.len()
        invariant
            j <= sorted@.len(),
            out@ == join_neighbours(sorted@.take(j as int)),
        decreases sorted@.len() - j,
    {
        let range = sorted[j];
        let n: usize = out.len();
        proof {
            let next = sorted@.take(j + 1);
            assert(next.drop_last() =~= sorted@.take(j as int));
            assert(next.last() == range);
        }
        if n == 0 {
            out.push(range);
            assert(out@ =~= seq![range]);
        } else {
            match out[n - 1].merge(&range) {
                Some(hull) => {
                    let ghost before = out@;
                    out.set(n - 1, hull);
                    assert(out@ =~= before.drop_last().push(hull));
                },
                None => {
                    out.push(range);
                },
            }
        }
        j = j + 1;
    }
    assert(sorted@.take(j as int) =~= sorted@);
    out
}

/// What is left of every range of `rs` without `cover`.
pub open spec fn minus_each(
    rs: Seq<MarketDataRange>,
    cover: MarketDataRange,
) -> Seq<MarketDataRange>
    decreases rs.len(),
{
    if rs.len() == 0 {
        rs
    } else {
        minus_each(rs.drop_last(), cover) + rs.last().minus(cover)
    }
}

/// What is left of `desired` without all of `covered`, taken away one by one.
pub open spec fn missing(
    desired: MarketDataRange,
    covered: Seq<MarketDataRange>,
) -> Seq<MarketDataRange>
    decreases covered.len(),
{
    if covered.len() == 0 {
        seq![desired]
    } else {
        minus_each(missing(desired, covered.drop_last()), covered.last())
    }
}

/// What is left of every range of `rs` without `cover`.
fn subtract_from_each(
    rs: &Vec<MarketDataRange>,
    cover: &MarketDataRange,
) -> (out: Vec<MarketDataRange>)
    ensures
        out@ == minus_each(rs@, *cover),
{
    let mut out: Vec<MarketDataRange> = Vec::new();
    let mut i: usize = 0;
    while i < rs.len()
        invariant
            i <= rs@.len(),
            out@ == minus_each(rs@.take(i as int), *cover),
        decreases rs@.len() - i,
    {
        let mut pieces = rs[i].subtract(cover);
        proof {
            let next = rs@.take(i + 1);
            assert(next.drop_last() =~= rs@.take(i as int));
            assert(next.last() == rs@[i as int]);
        }
        out.append(&mut pieces);
        i = i + 1;
    }
    assert(rs@.take(i as int) =~= rs@);
    out
}

/// Nothing is left once nothing is left.
proof fn lemma_missing_stays_empty(desired: MarketDataRange, covered: Seq<MarketDataRange>, n: int)
    requires
        0 <= n <= covered.len(),
        missing(desired, covered.take(n)).len() == 0,
    ensures
        missing(desired, covered).len() == 0,
    decreases covered.len(),
{
    if n == covered.len() {
        assert(covered.take(n) =~= covered);
    } else {
        assert(covered.drop_last().take(n) =~= covered.take(n));
        lemma_missing_stays_empty(desired, covered.drop_last(), n);
    }
}

/// The parts of `desired` that no range of `covered` holds.
pub fn compute_missing(desired: MarketDataRange, covered: &[MarketDataRange]) -> (r: Vec<
    MarketDataRange,
>)
    ensures
        r@ == missing(desired, covered@),
{
    let mut remaining: Vec<MarketDataRange> = Vec::new();
    remaining.push(desired);
    let mut i: usize = 0;
    assert(remaining@ =~= missing(desired, covered@.take(0)));
    while i < covered.len()
        invariant
            i <= covered@.len(),
            remaining@ == missing(desired, covered@.take(i as int)),
        decreases covered@.len() - i,
    {
        remaining = subtract_from_each(&remaining, &covered[i]);
        proof {
            let next = covered@.take(i + 1);
            assert(next.drop_last() =~= covered@.take(i as int));
            assert(next.last() == covered@[i as int]);
        }
        i = i + 1;
        if remaining.len() == 0 {
            proof {
                lemma_missing_stays_empty(desired, covered@, i as int);
                assert(remaining@ =~= missing(desired, covered@));
            }
            return remaining;
        }
    }
    assert(covered@.take(i as int) =~= covered@);
    remaining
}

/// Walking `rs` from `cursor`, no gap opens before `to` is reached.
pub open spec fn reaches(rs: Seq<MarketDataRange>, cursor: UnixMs, to: UnixMs) -> bool
    decreases rs.len(),
{
    if rs.len() == 0 || rs[0].from.0 > cursor.0 {
        false
    } else {
        let next = later(cursor, rs[0].to);
        next.0 >= to.0 || reaches(rs.skip(1), next, to)
    }
}

/// True when the merged ranges of `covered` hold `range` without a gap.
pub fn is_fully_covered(range: &MarketDataRange, covered: &[MarketDataRange]) -> (r: bool)
    ensures
        r == reaches(merged(covered@), range.from, range.to),
{
    let rs = merge_ranges(covered);
    let mut cursor = range.from;
    let mut i: usize = 0;
    assert(rs@.skip(0) =~= rs@);
    while i < rs.len()
        invariant
            i <= rs@.len(),
            rs@ == merged(covered@),
            reaches(rs@, range.from, range.to) == reaches(rs@.skip(i as int), cursor, range.to),
        decreases rs@.len() - i,
    {
        let cover = rs[i];
        proof {
            assert(rs@.skip(i as int)[0] == cover);
            assert(rs@.skip(i as int).skip(1) =~= rs@.skip(i + 1));
        }
        if cover.from.0 > cursor.0 {
            return false;
        }
        cursor = cursor.later_of(cover.to);
        if cursor.0 >= range.to.0 {
            return true;
        }
        i = i + 1;
    }
    false
}

/// The multiple of `step` at or below `t`.
pub open spec fn floor_to(t: int, step: int) -> int {
    t - t % step
}

/// The multiple of `step` at or above `t`.
pub open spec fn ceil_to(t: int, step: int) -> int {
    if t % step == 0 {
        t
    } else {
        t + (step - t % step)
    }
}

/// The end of a range can be rounded up to a candle boundary.
pub open spec fn alignable(to: UnixMs, timeframe_ms: u64) -> bool {
    timeframe_ms > 0 ==> ceil_to(to.0 as int, timeframe_ms as int) <= u64::MAX
}

/// The range rounded outwards to candle boundaries, if that is not empty.
pub open spec fn aligned(range: MarketDataRange, timeframe_ms: u64) -> Option<MarketDataRange> {
    if timeframe_ms == 0 {
        Some(range)
    } else {
        let r = MarketDataRange {
            from: UnixMs(floor_to(range.from.0 as int, timeframe_ms as int) as u64),
            to: UnixMs(ceil_to(range.to.0 as int, timeframe_ms as int) as u64),
        };
        if r.valid() {
            Some(r)
        } else {
            None
        }
    }
}

/// Rounds a kline range outwards to candle boundaries. A range that stays empty is dropped.
pub fn canonicalize_kline_range(range: MarketDataRange, timeframe_ms: u64) -> (r: Option<
    MarketDataRange,
>)
    requires
        alignable(range.to, timeframe_ms),
    ensures
        r == aligned(range, timeframe_ms),
{
    if timeframe_ms == 0 {
        return Some(range);
    }
    let from_ms: u64 = range.from.0;
    let to_ms: u64 = range.to.0;
    assert(from_ms % timeframe_ms <= from_ms) by (nonlinear_arith)
        requires
            timeframe_ms > 0,
    ;
    let from = UnixMs(from_ms - (from_ms % timeframe_ms));
    let to = if to_ms % timeframe_ms == 0 {
        UnixMs(to_ms)
    } else {
        UnixMs(to_ms + (timeframe_ms - (to_ms % timeframe_ms)))
    };
    MarketDataRange::new(from, to)
}

/// The first index of `s` whose range crosses `segment`, or `s.len()`.
pub open spec fn first_crossing(s: Seq<MarketDataRange>, segment: MarketDataRange) -> int
    decreases s.len(),
{
    if s.len() == 0 || s[0].crosses(segment) {
        0
    } else {
        1 + first_crossing(s.skip(1), segment)
    }
}

/// `s` with `segment` at index `at`, after it has taken in all that it crosses, one by one: what it
/// takes in goes, and the whole stands where the foremost of it stood.
pub open spec fn settled(
    s: Seq<MarketDataRange>,
    segment: MarketDataRange,
    at: int,
) -> Seq<MarketDataRange>
    decreases s.len(),
{
    let i = first_crossing(s, segment);
    if 0 <= i < s.len() {
        settled(
            s.remove(i),
            s[i].hull(segment),
            if i < at {
                i
            } else {
                at
            },
        )
    } else {
        s.insert(at, segment)
    }
}

/// `s` with `segment`, which becomes one with all that it crosses. Where it crosses nothing, it
/// comes last.
pub open spec fn with_segment(
    s: Seq<MarketDataRange>,
    segment: MarketDataRange,
) -> Seq<MarketDataRange> {
    settled(s, segment, s.len() as int)
}

proof fn lemma_first_crossing(s: Seq<MarketDataRange>, segment: MarketDataRange, i: int)
    requires
        0 <= i <= s.len(),
        i < s.len() ==> s[i].crosses(segment),
        forall|j: int| 0 <= j < i ==> !(#[trigger] s[j]).crosses(segment),
    ensures
        first_crossing(s, segment) == i,
    decreases s.len(),
{
    if i > 0 {
        assert(!s[0].crosses(segment));
        let rest = s.skip(1);
        assert forall|j: int| 0 <= j < i - 1 implies !(#[trigger] rest[j]).crosses(segment) by {
            assert(rest[j] == s[j + 1]);
        }
        lemma_first_crossing(rest, segment, i - 1);
    }
}

/// Adds a segment, joining it to all segments it overlaps. Segments that only touch stay apart.
pub fn add_segment_merged(vec: &mut Vec<MarketDataRange>, segment: MarketDataRange)
    ensures
        final(vec)@ == with_segment(old(vec)@, segment),
{
    let mut whole = segment;
    let mut at: usize = vec.len();
    let mut i: usize = 0;
    while i < vec.len()
        invariant
            i <= vec@.len(),
            at <= vec@.len(),
            settled(vec@, whole, at as int) == with_segment(old(vec)@, segment),
            forall|j: int| 0 <= j < i ==> !(#[trigger] vec@[j]).crosses(whole),
        decreases vec@.len(), vec@.len() - i,
    {
        let existing = vec[i];
        if existing.overlaps(&whole) {
            proof {
                lemma_first_crossing(vec@, whole, i as int);
            }
            vec.remove(i);
            whole = MarketDataRange::new_unchecked(
                existing.from.earlier_of(whole.from),
                existing.to.later_of(whole.to),
            );
            if i < at {
                at = i;
            }
            i = 0;
        } else {
            i = i + 1;
        }
    }
    proof {
        lemma_first_crossing(vec@, whole, i as int);
    }
    vec.insert(at, whole);
}

/// `s` with `segment` as one more logical segment: unchanged where it holds all of `segment`
/// already, else without what `segment` holds, plus `segment`, in order of start.
pub open spec fn with_required(s: Seq<MarketDataRange>, segment: MarketDataRange) -> Seq<
    MarketDataRange,
> {
    if missing(segment, s).len() == 0 {
        s
    } else {
        sorted_by_rank(s.filter(|e: MarketDataRange| e.minus(segment).len() > 0).push(segment))
    }
}

/// Adds a required segment without counting anything twice. Segments that only touch stay
/// apart, so that the count of logical segments holds.
pub fn add_required_segment_dedup(required: &mut Vec<MarketDataRange>, segment: MarketDataRange)
    ensures
        final(required)@ == with_required(old(required)@, segment),
{
    let gaps = compute_missing(segment, required.as_slice());
    if gaps.len() == 0 {
        return;
    }
    let ghost keep = |e: MarketDataRange| e.minus(segment).len() > 0;
    let mut kept: Vec<MarketDataRange> = Vec::new();
    let mut i: usize = 0;
    assert(required@.take(0).filter(keep) =~= Seq::empty());
    while i < required.len()
        invariant
            i <= required@.len(),
            required@ == old(required)@,
            keep == (|e: MarketDataRange| e.minus(segment).len() > 0),
            kept@ == required@.take(i as int).filter(keep),
        decreases required@.len() - i,
    {
        let existing = required[i];
        let rest = existing.subtract(&segment);
        proof {
            lemma_filter_take(required@, i as int, keep);
        }
        if rest.len() > 0 {
            kept.push(existing);
        }
        i = i + 1;
    }
    assert(required@.take(i as int) =~= required@);
    kept.push(segment);
    sort_ranked(&mut kept);
    *required = kept;
}

/// Drops the ranges that are shorter than `threshold_ms`.
pub fn filter_tiny_trade_gaps(missing: Vec<MarketDataRange>, threshold_ms: u64) -> (r: Vec<
    MarketDataRange,
>)
    ensures
        r@ == missing@.filter(|range: MarketDataRange| range.span() >= threshold_ms),
{
    let ghost keep = |range: MarketDataRange| range.span() >= threshold_ms;
    let mut out: Vec<MarketDataRange> = Vec::new();
    let mut i: usize = 0;
    assert(missing@.take(0).filter(keep) =~= Seq::empty());
    while i < missing.len()
        invariant
            i <= missing@.len(),
            keep == (|range: MarketDataRange| range.span() >= threshold_ms),
            out@ == missing@.take(i as int).filter(keep),
        decreases missing@.len() - i,
    {
        proof {
            lemma_filter_take(missing@, i as int, keep);
        }
        if missing[i].duration_ms() >= threshold_ms {
            out.push(missing[i]);
        }
        i = i + 1;
    }
    assert(missing@.take(i as int) =~= missing@);
    out
}

} // verus!
