//! Ledger of which time ranges have been fetched for which stream.

use vstd::prelude::*;
use vstd::string::*;
use crate::keyed::KeyedList;
use crate::market_data::key::{key_named, KeyView, MarketDataKey};
use crate::market_data::range::{
    compute_missing, is_fully_covered, merged, missing, reaches, MarketDataRange,
};
use crate::seqs::lemma_filter_take;
use crate::sorting::{lemma_sorted_map, sort_ranked, sorted_by_rank, Rank, Ranked};
use crate::text::{decimal, push_decimal};
use crate::time::{clock_text, format_time_short, later, UnixMs};

verus! {

/// What became of a range.
#[derive(Debug, PartialEq, Eq)]
pub enum CoverageStatus {
    /// Fetched in full.
    Complete,
    /// Fetched up to `until`.
    Partial { until: UnixMs },
    /// The exchange has no data there.
    Empty,
    /// The fetch failed.
    Failed { error: String, retry_at: Option<UnixMs> },
    /// The data has to be fetched anew.
    Stale { reason: String },
}

/// What became of a range, as a value.
#[verifier::ext_equal]
pub enum StatusView {
    Complete,
    Partial { until: UnixMs },
    Empty,
    Failed { error: Seq<char>, retry_at: Option<UnixMs> },
    Stale { reason: Seq<char> },
}

impl View for CoverageStatus {
    type V = StatusView;

    open spec fn view(&self) -> StatusView {
        match *self {
            CoverageStatus::Complete => StatusView::Complete,
            CoverageStatus::Partial { until } => StatusView::Partial { until },
            CoverageStatus::Empty => StatusView::Empty,
            CoverageStatus::Failed { error, retry_at } => StatusView::Failed {
                error: error@,
                retry_at,
            },
            CoverageStatus::Stale { reason } => StatusView::Stale { reason: reason@ },
        }
    }
}

impl Clone for CoverageStatus {
    fn clone(&self) -> (s: Self)
        ensures
            s == *self,
    {
        match self {
            CoverageStatus::Complete => CoverageStatus::Complete,
            CoverageStatus::Partial { until } => CoverageStatus::Partial { until: *until },
            CoverageStatus::Empty => CoverageStatus::Empty,
            CoverageStatus::Failed { error, retry_at } => CoverageStatus::Failed {
                error: error.clone(),
                retry_at: *retry_at,
            },
            CoverageStatus::Stale { reason } => CoverageStatus::Stale { reason: reason.clone() },
        }
    }
}

impl StatusView {
    /// The name of the status.
    pub open spec fn name(self) -> Seq<char> {
        match self {
            StatusView::Complete => "Complete"@,
            StatusView::Partial { until } => "Partial"@,
            StatusView::Empty => "Empty"@,
            StatusView::Failed { error, retry_at } => "Failed"@,
            StatusView::Stale { reason } => "Stale"@,
        }
    }
}

impl CoverageStatus {
    /// True when data can be drawn from the range.
    pub fn is_usable(&self) -> (r: bool)
        ensures
            r == (self@ is Complete || self@ is Partial),
    {
        matches!(self, CoverageStatus::Complete | CoverageStatus::Partial { .. })
    }

    /// True when the range may be fetched again.
    pub fn is_retryable(&self) -> (r: bool)
        ensures
            r == (self@ is Failed || self@ is Stale),
    {
        matches!(self, CoverageStatus::Failed { .. } | CoverageStatus::Stale { .. })
    }

    /// The name of the status.
    pub fn label(&self) -> (s: &'static str)
        ensures
            s@ == self@.name(),
    {
        match self {
            CoverageStatus::Complete => "Complete",
            CoverageStatus::Partial { .. } => "Partial",
            CoverageStatus::Empty => "Empty",
            CoverageStatus::Failed { .. } => "Failed",
            CoverageStatus::Stale { .. } => "Stale",
        }
    }

    fn is_complete(&self) -> (r: bool)
        ensures
            r == (self@ is Complete),
    {
        matches!(self, CoverageStatus::Complete)
    }
}

/// What is known of one range.
#[derive(Debug)]
pub struct CoverageEntry {
    pub range: MarketDataRange,
    pub status: CoverageStatus,
    pub updated_at: UnixMs,
    pub record_count: Option<usize>,
}

/// What is known of one range, as a value, apart from when it became known.
#[verifier::ext_equal]
pub struct EntryView {
    pub range: MarketDataRange,
    pub status: StatusView,
    pub record_count: Option<usize>,
}

/// What is known of one range, as a value, with the time at which it became known.
#[verifier::ext_equal]
pub struct StampedEntry {
    pub entry: EntryView,
    pub updated_at: UnixMs,
}

impl View for CoverageEntry {
    type V = StampedEntry;

    open spec fn view(&self) -> StampedEntry {
        StampedEntry {
            entry: EntryView {
                range: self.range,
                status: self.status@,
                record_count: self.record_count,
            },
            updated_at: self.updated_at,
        }
    }
}

impl Clone for CoverageEntry {
    fn clone(&self) -> (e: Self)
        ensures
            e == *self,
    {
        CoverageEntry {
            range: self.range,
            status: self.status.clone(),
            updated_at: self.updated_at,
            record_count: self.record_count,
        }
    }
}

impl Rank for EntryView {
    open spec fn rank(&self) -> int {
        self.range.from.0 as int
    }
}

impl Rank for StampedEntry {
    open spec fn rank(&self) -> int {
        self.entry.range.from.0 as int
    }
}

impl Rank for CoverageEntry {
    open spec fn rank(&self) -> int {
        self.range.from.0 as int
    }
}

impl Ranked for CoverageEntry {
    fn ranks_after(&self, other: &Self) -> (after: bool) {
        self.range.from.0 > other.range.from.0
    }
}

/// The text of an optional count, `-` when there is none.
pub open spec fn count_text(count: Option<usize>) -> Seq<char> {
    match count {
        Some(c) => decimal(c as nat),
        None => "-"@,
    }
}

impl CoverageEntry {
    /// A range that was fetched in full just now.
    pub fn complete(range: MarketDataRange, count: usize) -> (e: Self)
        ensures
            e@.entry == (EntryView {
                range,
                status: StatusView::Complete,
                record_count: Some(count),
            }),
    {
        CoverageEntry {
            range,
            status: CoverageStatus::Complete,
            updated_at: UnixMs::now(),
            record_count: Some(count),
        }
    }

    /// A range that was found empty just now.
    pub fn empty(range: MarketDataRange) -> (e: Self)
        ensures
            e@.entry == (EntryView { range, status: StatusView::Empty, record_count: Some(0) }),
    {
        CoverageEntry {
            range,
            status: CoverageStatus::Empty,
            updated_at: UnixMs::now(),
            record_count: Some(0),
        }
    }

    /// A range that was fetched up to `until` just now.
    pub fn partial(range: MarketDataRange, until: UnixMs) -> (e: Self)
        ensures
            e@.entry == (EntryView {
                range,
                status: StatusView::Partial { until },
                record_count: None,
            }),
    {
        CoverageEntry {
            range,
            status: CoverageStatus::Partial { until },
            updated_at: UnixMs::now(),
            record_count: None,
        }
    }

    /// The entry in one line of text.
    pub fn log_format(&self) -> (s: String)
        ensures
            s@ == "status="@ + self@.entry.status.name() + " range="@ + self.range.display() + (
            match self@.entry.status {
                StatusView::Partial { until } => " until="@ + clock_text(until.0 as nat),
                _ => Seq::empty(),
            }) + " records="@ + count_text(self.record_count),
    {
        let mut s = String::from_str("status=");
        s.append(self.status.label());
        s.append(" range=");
        s.append(self.range.format_display().as_str());
        let ghost head = s@;
        if let CoverageStatus::Partial { until } = &self.status {
            s.append(" until=");
            s.append(format_time_short(*until).as_str());
        }
        proof {
            match self@.entry.status {
                StatusView::Partial { until } => {
                    assert(s@ =~= head + (" until="@ + clock_text(until.0 as nat)));
                },
                _ => {
                    assert(s@ =~= head + Seq::<char>::empty());
                },
            }
        }
        s.append(" records=");
        match self.record_count {
            Some(c) => push_decimal(&mut s, c as u64),
            None => s.append("-"),
        }
        s
    }
}

/// The largest count.
pub open spec fn clamp_usize(n: nat) -> usize {
    if n > usize::MAX {
        usize::MAX
    } else {
        n as usize
    }
}

/// The counts of two ranges that become one. Where only one is known it stands for both.
pub open spec fn summed_count(a: Option<usize>, b: Option<usize>) -> Option<usize> {
    match (a, b) {
        (Some(x), Some(y)) => Some(clamp_usize((x + y) as nat)),
        (Some(x), None) => Some(x),
        (None, y) => y,
    }
}

/// The count of the entry that two complete entries become: of one within the other, that of the
/// larger, else the counts of both.
pub open spec fn joint_count(a: EntryView, b: EntryView) -> Option<usize> {
    if a.range.touches(b.range) {
        summed_count(a.record_count, b.record_count)
    } else if a.range.encloses(b.range) {
        a.record_count
    } else if b.range.encloses(a.range) {
        b.record_count
    } else {
        summed_count(a.record_count, b.record_count)
    }
}

/// Two entries become one: both are complete, and they overlap or one ends where the other starts.
pub open spec fn fuses(a: EntryView, b: EntryView) -> bool {
    a.status is Complete && b.status is Complete && (a.range.crosses(b.range) || a.range.touches(
        b.range,
    ))
}

/// The entry that two complete entries become.
pub open spec fn fused(a: EntryView, b: EntryView) -> EntryView {
    EntryView {
        range: a.range.hull(b.range),
        status: StatusView::Complete,
        record_count: joint_count(a, b),
    }
}

/// Fuses each entry with the one before it where possible.
pub open spec fn fuse_neighbours(s: Seq<EntryView>) -> Seq<EntryView>
    decreases s.len(),
{
    if s.len() == 0 {
        s
    } else {
        let front = fuse_neighbours(s.drop_last());
        if front.len() > 0 && fuses(front.last(), s.last()) {
            front.drop_last().push(fused(front.last(), s.last()))
        } else {
            front.push(s.last())
        }
    }
}

/// Fuses each entry with the one before it where possible; the later stamp stays.
pub open spec fn fuse_stamped(s: Seq<StampedEntry>) -> Seq<StampedEntry>
    decreases s.len(),
{
    if s.len() == 0 {
        s
    } else {
        let front = fuse_stamped(s.drop_last());
        let last = s.last();
        if front.len() > 0 && fuses(front.last().entry, last.entry) {
            front.drop_last().push(
                StampedEntry {
                    entry: fused(front.last().entry, last.entry),
                    updated_at: later(front.last().updated_at, last.updated_at),
                },
            )
        } else {
            front.push(last)
        }
    }
}

/// The entries without their stamps.
pub open spec fn unstamped(s: Seq<StampedEntry>) -> Seq<EntryView> {
    s.map_values(|e: StampedEntry| e.entry)
}

/// An entry goes when `e` comes: they overlap, unless both are complete and it reaches beyond `e`.
pub open spec fn gives_way(x: EntryView, e: EntryView) -> bool {
    x.range.crosses(e.range) && !(x.status is Complete && e.status is Complete
        && !e.range.encloses(x.range))
}

/// The entries of `s` that stay when `e` comes.
pub open spec fn kept_beside(s: Seq<EntryView>, e: EntryView) -> Seq<EntryView> {
    s.filter(|x: EntryView| !gives_way(x, e))
}

/// `s` with one more entry: what gives way to it goes, the rest stays in order of start, and
/// complete neighbours that overlap or touch are fused.
pub open spec fn with_entry(s: Seq<EntryView>, e: EntryView) -> Seq<EntryView> {
    fuse_neighbours(sorted_by_rank(kept_beside(s, e).push(e)))
}

/// The same with stamps.
pub open spec fn with_stamped(s: Seq<StampedEntry>, e: StampedEntry) -> Seq<StampedEntry> {
    fuse_stamped(
        sorted_by_rank(s.filter(|x: StampedEntry| !gives_way(x.entry, e.entry)).push(e)),
    )
}

proof fn lemma_fuse_unstamped(s: Seq<StampedEntry>)
    ensures
        unstamped(fuse_stamped(s)) == fuse_neighbours(unstamped(s)),
        fuse_stamped(s).len() <= s.len(),
    decreases s.len(),
{
    if s.len() == 0 {
        assert(unstamped(s) =~= Seq::<EntryView>::empty());
        assert(unstamped(fuse_stamped(s)) =~= Seq::<EntryView>::empty());
    } else {
        let front = s.drop_last();
        lemma_fuse_unstamped(front);
        assert(unstamped(s).drop_last() =~= unstamped(front));
        assert(unstamped(s).last() == s.last().entry);
        let g = fuse_stamped(front);
        if g.len() > 0 {
            assert(unstamped(g).last() == g.last().entry);
        }
        assert(unstamped(fuse_stamped(s)) =~= fuse_neighbours(unstamped(s)));
    }
}

proof fn lemma_kept_unstamped(s: Seq<StampedEntry>, e: EntryView)
    ensures
        unstamped(s.filter(|x: StampedEntry| !gives_way(x.entry, e))) == kept_beside(
            unstamped(s),
            e,
        ),
    decreases s.len(),
{
    reveal(Seq::filter);
    let p = |x: StampedEntry| !gives_way(x.entry, e);
    if s.len() == 0 {
        assert(unstamped(s) =~= Seq::<EntryView>::empty());
        assert(unstamped(s.filter(p)) =~= Seq::<EntryView>::empty());
    } else {
        let front = s.drop_last();
        lemma_kept_unstamped(front, e);
        assert(unstamped(s).drop_last() =~= unstamped(front));
        assert(unstamped(s).last() == s.last().entry);
        assert(unstamped(s.filter(p)) =~= kept_beside(unstamped(s), e));
    }
}

proof fn lemma_sorted_unstamped(s: Seq<StampedEntry>)
    ensures
        unstamped(sorted_by_rank(s)) == sorted_by_rank(unstamped(s)),
{
    lemma_sorted_map(s, |e: StampedEntry| e.entry);
}

proof fn lemma_with_unstamped(s: Seq<StampedEntry>, e: StampedEntry)
    ensures
        unstamped(with_stamped(s, e)) == with_entry(unstamped(s), e.entry),
{
    let kept = s.filter(|x: StampedEntry| !gives_way(x.entry, e.entry));
    lemma_kept_unstamped(s, e.entry);
    assert(unstamped(kept.push(e)) =~= unstamped(kept).push(e.entry));
    lemma_sorted_unstamped(kept.push(e));
    lemma_fuse_unstamped(sorted_by_rank(kept.push(e)));
}

/// The ranges of the complete entries.
pub open spec fn complete_of(s: Seq<EntryView>) -> Seq<MarketDataRange> {
    s.filter(|e: EntryView| e.status is Complete).map_values(|e: EntryView| e.range)
}

/// The records of the complete entries.
pub open spec fn records_of(s: Seq<EntryView>) -> nat
    decreases s.len(),
{
    if s.len() == 0 {
        0
    } else {
        records_of(s.drop_last()) + match (s.last().status, s.last().record_count) {
            (StatusView::Complete, Some(c)) => c as nat,
            _ => 0,
        }
    }
}

/// The latest end of the complete entries.
pub open spec fn latest_of(s: Seq<EntryView>) -> Option<UnixMs>
    decreases s.len(),
{
    if s.len() == 0 {
        None
    } else {
        let front = latest_of(s.drop_last());
        if s.last().status is Complete {
            match front {
                Some(t) => Some(later(t, s.last().range.to)),
                None => Some(s.last().range.to),
            }
        } else {
            front
        }
    }
}

proof fn lemma_complete_take(s: Seq<EntryView>, i: int)
    requires
        0 <= i < s.len(),
    ensures
        complete_of(s.take(i + 1)) == if s[i].status is Complete {
            complete_of(s.take(i)).push(s[i].range)
        } else {
            complete_of(s.take(i))
        },
{
    let p = |e: EntryView| e.status is Complete;
    lemma_filter_take(s, i, p);
    assert(complete_of(s.take(i + 1)) =~= if s[i].status is Complete {
        complete_of(s.take(i)).push(s[i].range)
    } else {
        complete_of(s.take(i))
    });
}

/// What is known of one stream.
#[derive(Debug)]
struct PerKeyCoverage {
    entries: Vec<CoverageEntry>,
}

/// The values of a list of entries.
pub open spec fn stamped_views(s: Seq<CoverageEntry>) -> Seq<StampedEntry> {
    s.map_values(|e: CoverageEntry| e@)
}

impl View for PerKeyCoverage {
    type V = Seq<StampedEntry>;

    closed spec fn view(&self) -> Seq<StampedEntry> {
        stamped_views(self.entries@)
    }
}

impl PerKeyCoverage {
    fn new() -> (c: Self)
        ensures
            c@ == Seq::<StampedEntry>::empty(),
    {
        let c = PerKeyCoverage { entries: Vec::new() };
        assert(c@ =~= Seq::<StampedEntry>::empty());
        c
    }

    fn dup(&self) -> (c: Self)
        ensures
            c@ == self@,
    {
        let mut entries: Vec<CoverageEntry> = Vec::new();
        let mut i: usize = 0;
        while i < self.entries.len()
            invariant
                i <= self.entries@.len(),
                entries@ == self.entries@.take(i as int),
            decreases self.entries@.len() - i,
        {
            entries.push(self.entries[i].clone());
            assert(entries@ =~= self.entries@.take(i + 1));
            i = i + 1;
        }
        assert(entries@ =~= self.entries@);
        PerKeyCoverage { entries }
    }

    /// Inserts an entry. What gives way to it goes, and complete entries that overlap or touch are
    /// merged.
    fn insert(&mut self, new_entry: CoverageEntry)
        ensures
            final(self)@ == with_stamped(old(self)@, new_entry@),
            unstamped(final(self)@) == with_entry(unstamped(old(self)@), new_entry@.entry),
    {
        let ghost views = self@;
        let ghost keep = |x: StampedEntry| !gives_way(x.entry, new_entry@.entry);
        let mut kept: Vec<CoverageEntry> = Vec::new();
        let mut i: usize = 0;
        assert(views.take(0).filter(keep) =~= stamped_views(kept@));
        while i < self.entries.len()
            invariant
                i <= self.entries@.len(),
                self@ == views,
                views == old(self)@,
                keep == (|x: StampedEntry| !gives_way(x.entry, new_entry@.entry)),
                stamped_views(kept@) == views.take(i as int).filter(keep),
            decreases self.entries@.len() - i,
        {
            proof {
                lemma_filter_take(views, i as int, keep);
                assert(views[i as int] == self.entries@[i as int]@);
            }
            let existing = &self.entries[i];
            if !existing.range.overlaps(&new_entry.range) || (existing.status.is_complete()
                && new_entry.status.is_complete() && !new_entry.range.contains(&existing.range)) {
                let ghost before = kept@;
                kept.push(self.entries[i].clone());
                assert(stamped_views(kept@) =~= stamped_views(before).push(views[i as int]));
            }
            i = i + 1;
        }
        assert(views.take(i as int) =~= views);
        let ghost before = kept@;
        kept.push(new_entry);
        assert(stamped_views(kept@) =~= stamped_views(before).push(new_entry@));
        proof {
            lemma_sorted_map(kept@, |e: CoverageEntry| e@);
            lemma_with_unstamped(views, new_entry@);
        }
        sort_ranked(&mut kept);
        self.entries = kept;
        self.merge_adjacent();
    }

    /// Fuses complete entries that overlap or touch.
    fn merge_adjacent(&mut self)
        ensures
            final(self)@ == fuse_stamped(old(self)@),
    {
        let ghost views = self@;
        let mut out: Vec<CoverageEntry> = Vec::new();
        let mut i: usize = 0;
        assert(views.take(0) =~= Seq::<StampedEntry>::empty());
        assert(stamped_views(out@) =~= fuse_stamped(views.take(0)));
        while i < self.entries.len()
            invariant
                i <= self.entries@.len(),
                self@ == views,
                views == old(self)@,
                stamped_views(out@) == fuse_stamped(views.take(i as int)),
            decreases self.entries@.len() - i,
        {
            let entry = self.entries[i].clone();
            let n: usize = out.len();
            let ghost before = out@;
            proof {
                let next = views.take(i + 1);
                assert(next.drop_last() =~= views.take(i as int));
                assert(next.last() == entry@);
                if n > 0 {
                    assert(stamped_views(before).last() == before[n - 1]@);
                }
            }
            if n > 0 && out[n - 1].status.is_complete() && entry.status.is_complete()
                && (out[n - 1].range.overlaps(&entry.range) || out[n - 1].range.adjacent_to(
                &entry.range,
            )) {
                let range = MarketDataRange::new_unchecked(
                    out[n - 1].range.from.earlier_of(entry.range.from),
                    out[n - 1].range.to.later_of(entry.range.to),
                );
                let adjoins = out[n - 1].range.adjacent_to(&entry.range);
                let record_count = if !adjoins && out[n - 1].range.contains(&entry.range) {
                    out[n - 1].record_count
                } else if !adjoins && entry.range.contains(&out[n - 1].range) {
                    entry.record_count
                } else {
                    match (out[n - 1].record_count, entry.record_count) {
                        (Some(a), Some(b)) => Some(a.saturating_add(b)),
                        (Some(a), None) => Some(a),
                        (None, b) => b,
                    }
                };
                let updated_at = out[n - 1].updated_at.later_of(entry.updated_at);
                let joined = CoverageEntry {
                    range,
                    status: CoverageStatus::Complete,
                    updated_at,
                    record_count,
                };
                out.set(n - 1, joined);
                proof {
                    assert(stamped_views(out@) =~= stamped_views(before).drop_last().push(joined@));
                }
            } else {
                out.push(entry);
                assert(stamped_views(out@) =~= stamped_views(before).push(entry@));
            }
            i = i + 1;
        }
        assert(views.take(i as int) =~= views);
        self.entries = out;
    }

    /// The ranges of the complete entries.
    fn complete_ranges(&self) -> (r: Vec<MarketDataRange>)
        ensures
            r@ == complete_of(unstamped(self@)),
    {
        let ghost views = unstamped(self@);
        let mut out: Vec<MarketDataRange> = Vec::new();
        let mut i: usize = 0;
        assert(views.take(0).filter(|e: EntryView| e.status is Complete) =~= Seq::<
            EntryView,
        >::empty());
        assert(out@ =~= complete_of(views.take(0)));
        while i < self.entries.len()
            invariant
                i <= self.entries@.len(),
                views == unstamped(self@),
                out@ == complete_of(views.take(i as int)),
            decreases self.entries@.len() - i,
        {
            proof {
                lemma_complete_take(views, i as int);
                assert(views[i as int] == self.entries@[i as int]@.entry);
            }
            if self.entries[i].status.is_complete() {
                out.push(self.entries[i].range);
            }
            i = i + 1;
        }
        assert(views.take(i as int) =~= views);
        out
    }

    fn missing_ranges(&self, desired: MarketDataRange) -> (r: Vec<MarketDataRange>)
        ensures
            r@ == missing(desired, complete_of(unstamped(self@))),
    {
        let complete = self.complete_ranges();
        compute_missing(desired, complete.as_slice())
    }

    fn is_covered(&self, desired: &MarketDataRange) -> (r: bool)
        ensures
            r == reaches(merged(complete_of(unstamped(self@))), desired.from, desired.to),
    {
        let complete = self.complete_ranges();
        is_fully_covered(desired, complete.as_slice())
    }

    fn total_records(&self) -> (n: usize)
        ensures
            n == clamp_usize(records_of(unstamped(self@))),
    {
        let ghost views = unstamped(self@);
        let mut total: usize = 0;
        let mut i: usize = 0;
        while i < self.entries.len()
            invariant
                i <= self.entries@.len(),
                views == unstamped(self@),
                total == clamp_usize(records_of(views.take(i as int))),
            decreases self.entries@.len() - i,
        {
            proof {
                let next = views.take(i + 1);
                assert(next.drop_last() =~= views.take(i as int));
                assert(next.last() == self.entries@[i as int]@.entry);
            }
            if self.entries[i].status.is_complete() {
                if let Some(c) = self.entries[i].record_count {
                    total = total.saturating_add(c);
                }
            }
            i = i + 1;
        }
        assert(views.take(i as int) =~= views);
        total
    }

    fn latest_to(&self) -> (t: Option<UnixMs>)
        ensures
            t == latest_of(unstamped(self@)),
    {
        let ghost views = unstamped(self@);
        let mut latest: Option<UnixMs> = None;
        let mut i: usize = 0;
        while i < self.entries.len()
            invariant
                i <= self.entries@.len(),
                views == unstamped(self@),
                latest == latest_of(views.take(i as int)),
            decreases self.entries@.len() - i,
        {
            proof {
                let next = views.take(i + 1);
                assert(next.drop_last() =~= views.take(i as int));
                assert(next.last() == self.entries@[i as int]@.entry);
            }
            if self.entries[i].status.is_complete() {
                latest = match latest {
                    Some(t) => Some(t.later_of(self.entries[i].range.to)),
                    None => Some(self.entries[i].range.to),
                };
            }
            i = i + 1;
        }
        assert(views.take(i as int) =~= views);
        latest
    }
}

/// What is known of all streams, without stamps.
pub type Facts = Map<KeyView, Seq<EntryView>>;

/// What is known of one stream.
pub open spec fn rows(facts: Facts, key: KeyView) -> Seq<EntryView> {
    if facts.contains_key(key) {
        facts[key]
    } else {
        Seq::empty()
    }
}

/// The complete ranges of one stream.
pub open spec fn complete_at(facts: Facts, key: KeyView) -> Seq<MarketDataRange> {
    complete_of(rows(facts, key))
}

/// The parts of `desired` that are not complete.
pub open spec fn missing_at(facts: Facts, key: KeyView, desired: MarketDataRange) -> Seq<
    MarketDataRange,
> {
    missing(desired, complete_at(facts, key))
}

/// The complete ranges hold `range` without a gap.
pub open spec fn covered_at(facts: Facts, key: KeyView, range: MarketDataRange) -> bool {
    reaches(merged(complete_at(facts, key)), range.from, range.to)
}

/// `facts` with one more entry for `key`.
pub open spec fn marked(facts: Facts, key: KeyView, e: EntryView) -> Facts {
    facts.insert(key, with_entry(rows(facts, key), e))
}

/// A range fetched in full.
pub open spec fn complete_entry(range: MarketDataRange, count: usize) -> EntryView {
    EntryView { range, status: StatusView::Complete, record_count: Some(count) }
}

/// A range without data.
pub open spec fn empty_entry(range: MarketDataRange) -> EntryView {
    EntryView { range, status: StatusView::Empty, record_count: Some(0) }
}

/// A range fetched up to `until`.
pub open spec fn partial_entry(range: MarketDataRange, until: UnixMs) -> EntryView {
    EntryView { range, status: StatusView::Partial { until }, record_count: None }
}

/// A range whose fetch failed.
pub open spec fn failed_entry(
    range: MarketDataRange,
    error: Seq<char>,
    retry_at: Option<UnixMs>,
) -> EntryView {
    EntryView { range, status: StatusView::Failed { error, retry_at }, record_count: None }
}

/// A range that has to be fetched anew.
pub open spec fn stale_entry(range: MarketDataRange, reason: Seq<char>) -> EntryView {
    EntryView { range, status: StatusView::Stale { reason }, record_count: None }
}

/// Which ranges have been fetched, for each stream.
pub struct CoverageLedger {
    per_key: KeyedList<MarketDataKey, PerKeyCoverage>,
}

impl View for CoverageLedger {
    type V = Map<KeyView, Seq<StampedEntry>>;

    closed spec fn view(&self) -> Map<KeyView, Seq<StampedEntry>> {
        self.per_key@.map_values(|c: PerKeyCoverage| c@)
    }
}

/// The entries of a stream with stamps.
pub open spec fn stamped_rows(
    m: Map<KeyView, Seq<StampedEntry>>,
    key: KeyView,
) -> Seq<StampedEntry> {
    if m.contains_key(key) {
        m[key]
    } else {
        Seq::empty()
    }
}

/// The ledger with one more entry, stamped, for `key`.
pub open spec fn restamped(
    m: Map<KeyView, Seq<StampedEntry>>,
    key: KeyView,
    entry: EntryView,
    updated_at: UnixMs,
) -> Map<KeyView, Seq<StampedEntry>> {
    m.insert(key, with_stamped(stamped_rows(m, key), StampedEntry { entry, updated_at }))
}

/// The streams in the order in which they were first recorded, with `key`.
pub open spec fn order_with(order: Seq<KeyView>, key: KeyView) -> Seq<KeyView> {
    if order.contains(key) {
        order
    } else {
        order.push(key)
    }
}

impl Default for CoverageLedger {
    fn default() -> (l: Self)
        ensures
            l@ == Map::<KeyView, Seq<StampedEntry>>::empty(),
            l.facts() == Facts::empty(),
            l.order() == Seq::<KeyView>::empty(),
    {
        CoverageLedger::new()
    }
}

impl CoverageLedger {
    /// What the ledger knows, without stamps.
    pub open spec fn facts(self) -> Facts {
        self@.map_values(|s: Seq<StampedEntry>| unstamped(s))
    }

    /// The streams in the order in which they were first recorded.
    pub closed spec fn order(self) -> Seq<KeyView> {
        self.per_key.order()
    }

    /// An empty ledger.
    pub fn new() -> (l: Self)
        ensures
            l@ == Map::<KeyView, Seq<StampedEntry>>::empty(),
            l.facts() == Facts::empty(),
            l.order() == Seq::<KeyView>::empty(),
    {
        let l = CoverageLedger { per_key: KeyedList::new() };
        assert(l@ =~= Map::<KeyView, Seq<StampedEntry>>::empty());
        assert(l.facts() =~= Facts::empty());
        l
    }

    /// A copy of the entries of `key`.
    fn coverage_of(&self, key: &MarketDataKey) -> (c: PerKeyCoverage)
        ensures
            c@ == stamped_rows(self@, key@),
            unstamped(c@) == rows(self.facts(), key@),
    {
        let c = match self.per_key.get(key) {
            Some(c) => c.dup(),
            None => PerKeyCoverage::new(),
        };
        assert(unstamped(c@) =~= rows(self.facts(), key@));
        c
    }

    fn store(&mut self, key: MarketDataKey, c: PerKeyCoverage)
        ensures
            final(self)@ == old(self)@.insert(key@, c@),
            final(self).facts() == old(self).facts().insert(key@, unstamped(c@)),
            final(self).order() == order_with(old(self).order(), key@),
    {
        let ghost before = *self;
        proof {
            before.per_key.lemma_named(key@);
        }
        self.per_key.insert(key, c);
        assert(self@ =~= before@.insert(key@, c@));
        assert(self.facts() =~= before.facts().insert(key@, unstamped(c@)));
    }

    /// Records an entry. What gives way to it goes, and complete entries that overlap or touch are
    /// merged.
    pub fn record(&mut self, key: MarketDataKey, entry: CoverageEntry)
        ensures
            final(self)@ == restamped(old(self)@, key@, entry@.entry, entry@.updated_at),
            final(self).facts() == marked(old(self).facts(), key@, entry@.entry),
            final(self).order() == order_with(old(self).order(), key@),
    {
        let mut c = self.coverage_of(&key);
        c.insert(entry);
        self.store(key, c);
    }

    /// Marks a range as fetched in full just now.
    pub fn mark_complete(&mut self, key: MarketDataKey, range: MarketDataRange, count: usize)
        ensures
            final(self).facts() == marked(old(self).facts(), key@, complete_entry(range, count)),
            exists|at: UnixMs|
                final(self)@ == #[trigger] restamped(
                    old(self)@,
                    key@,
                    complete_entry(range, count),
                    at,
                ),
            final(self).order() == order_with(old(self).order(), key@),
    {
        self.record(key, CoverageEntry::complete(range, count));
    }

    /// Marks a range as empty just now.
    pub fn mark_empty(&mut self, key: MarketDataKey, range: MarketDataRange)
        ensures
            final(self).facts() == marked(old(self).facts(), key@, empty_entry(range)),
            exists|at: UnixMs|
                final(self)@ == #[trigger] restamped(old(self)@, key@, empty_entry(range), at),
            final(self).order() == order_with(old(self).order(), key@),
    {
        self.record(key, CoverageEntry::empty(range));
    }

    /// Marks a range as fetched up to `until` just now.
    pub fn mark_partial(&mut self, key: MarketDataKey, range: MarketDataRange, until: UnixMs)
        ensures
            final(self).facts() == marked(old(self).facts(), key@, partial_entry(range, until)),
            exists|at: UnixMs|
                final(self)@ == #[trigger] restamped(
                    old(self)@,
                    key@,
                    partial_entry(range, until),
                    at,
                ),
            final(self).order() == order_with(old(self).order(), key@),
    {
        self.record(key, CoverageEntry::partial(range, until));
    }

    /// Marks the fetch of a range as failed just now.
    pub fn mark_failed(
        &mut self,
        key: MarketDataKey,
        range: MarketDataRange,
        error: String,
        retry_at: Option<UnixMs>,
    )
        ensures
            final(self).facts() == marked(
                old(self).facts(),
                key@,
                failed_entry(range, error@, retry_at),
            ),
            exists|at: UnixMs|
                final(self)@ == #[trigger] restamped(
                    old(self)@,
                    key@,
                    failed_entry(range, error@, retry_at),
                    at,
                ),
            final(self).order() == order_with(old(self).order(), key@),
    {
        let entry = CoverageEntry {
            range,
            status: CoverageStatus::Failed { error, retry_at },
            updated_at: UnixMs::now(),
            record_count: None,
        };
        assert(entry@.entry == failed_entry(range, error@, retry_at));
        self.record(key, entry);
    }

    /// Marks a range just now as one that has to be fetched anew.
    pub fn mark_stale(&mut self, key: MarketDataKey, range: MarketDataRange, reason: &str)
        ensures
            final(self).facts() == marked(old(self).facts(), key@, stale_entry(range, reason@)),
            exists|at: UnixMs|
                final(self)@ == #[trigger] restamped(
                    old(self)@,
                    key@,
                    stale_entry(range, reason@),
                    at,
                ),
            final(self).order() == order_with(old(self).order(), key@),
    {
        let entry = CoverageEntry {
            range,
            status: CoverageStatus::Stale { reason: String::from_str(reason) },
            updated_at: UnixMs::now(),
            record_count: None,
        };
        assert(entry@.entry == stale_entry(range, reason@));
        self.record(key, entry);
    }

    /// The parts of `desired` that are not complete.
    pub fn compute_missing(&self, key: &MarketDataKey, desired: MarketDataRange) -> (r: Vec<
        MarketDataRange,
    >)
        ensures
            r@ == missing_at(self.facts(), key@, desired),
    {
        self.coverage_of(key).missing_ranges(desired)
    }

    /// True when the complete ranges hold `range` without a gap.
    pub fn is_covered(&self, key: &MarketDataKey, range: &MarketDataRange) -> (r: bool)
        ensures
            r == covered_at(self.facts(), key@, *range),
    {
        self.coverage_of(key).is_covered(range)
    }

    /// The complete ranges of a stream.
    pub fn complete_ranges(&self, key: &MarketDataKey) -> (r: Vec<MarketDataRange>)
        ensures
            r@ == complete_at(self.facts(), key@),
    {
        self.coverage_of(key).complete_ranges()
    }

    /// The latest end of a stream's complete ranges.
    pub fn latest_covered_to(&self, key: &MarketDataKey) -> (t: Option<UnixMs>)
        ensures
            t == latest_of(rows(self.facts(), key@)),
    {
        self.coverage_of(key).latest_to()
    }

    /// The records of a stream's complete ranges, at most the largest count.
    pub fn total_records(&self, key: &MarketDataKey) -> (n: usize)
        ensures
            n == clamp_usize(records_of(rows(self.facts(), key@))),
    {
        self.coverage_of(key).total_records()
    }

    /// True when anything was recorded for a stream.
    pub fn has_coverage(&self, key: &MarketDataKey) -> (r: bool)
        ensures
            r == self.facts().contains_key(key@),
            r == self@.contains_key(key@),
    {
        self.per_key.contains_key(key)
    }

    /// The streams for which anything was recorded, each once.
    pub fn keys(&self) -> (r: Vec<MarketDataKey>)
        ensures
            r@.map_values(|k: MarketDataKey| k@) == self.order(),
            self.order().no_duplicates(),
            forall|k: KeyView|
                #![trigger self.order().contains(k)]
                #![trigger self.facts().contains_key(k)]
                self.order().contains(k) <==> self.facts().contains_key(k),
    {
        let n: usize = self.per_key.len();
        let mut out: Vec<MarketDataKey> = Vec::new();
        let mut i: usize = 0;
        while i < n
            invariant
                i <= n == self.per_key.order().len(),
                out@.map_values(|k: MarketDataKey| k@) == self.per_key.order().take(i as int),
            decreases n - i,
        {
            let ghost before = out@;
            let k = self.per_key.key_at(i).clone();
            out.push(k);
            assert(out@.map_values(|k: MarketDataKey| k@) =~= before.map_values(
                |k: MarketDataKey| k@,
            ).push(k@));
            assert(self.per_key.order().take(i + 1) =~= self.per_key.order().take(i as int).push(k@));
            i = i + 1;
        }
        assert(self.per_key.order().take(i as int) =~= self.per_key.order());
        assert forall|k: KeyView|
            #![trigger self.order().contains(k)]
            #![trigger self.facts().contains_key(k)]
            self.order().contains(k) <==> self.facts().contains_key(k) by {
            assert(self.facts().contains_key(k) <==> self.per_key@.contains_key(k));
        }
        out
    }

    /// The number of streams for which anything was recorded.
    pub fn len(&self) -> (n: usize)
        ensures
            n == self.facts().len(),
            n == self.order().len(),
    {
        let n: usize = self.per_key.len();
        assert(self.facts().dom() =~= self.per_key@.dom());
        n
    }

    /// True when nothing was recorded.
    pub fn is_empty(&self) -> (r: bool)
        ensures
            r == (self.facts().len() == 0),
    {
        self.len() == 0
    }

    /// Forgets a stream.
    pub fn clear_key(&mut self, key: &MarketDataKey)
        ensures
            final(self)@ == old(self)@.remove(key@),
            final(self).facts() == old(self).facts().remove(key@),
            final(self).order() == old(self).order().filter(|k: KeyView| k != key@),
    {
        let ghost before = *self;
        self.per_key.remove(key);
        assert(self@ =~= before@.remove(key@));
        assert(self.facts() =~= before.facts().remove(key@));
    }

    /// Forgets everything.
    pub fn clear_all(&mut self)
        ensures
            final(self)@ == Map::<KeyView, Seq<StampedEntry>>::empty(),
            final(self).facts() == Facts::empty(),
            final(self).order() == Seq::<KeyView>::empty(),
    {
        self.per_key.clear();
        assert(self@ =~= Map::<KeyView, Seq<StampedEntry>>::empty());
        assert(self.facts() =~= Facts::empty());
    }

    /// The ledger in the form in which it is kept between runs.
    pub fn to_persisted(&self) -> (p: PersistedCoverage)
        ensures
            p.version == 1,
            persisted_views(p.entries@) == persisted(self.order(), self@),
    {
        let n: usize = self.per_key.len();
        let mut out: Vec<PersistedCoverageKey> = Vec::new();
        let mut i: usize = 0;
        let ghost goal = persisted(self.order(), self@);
        while i < n
            invariant
                i <= n == self.per_key.order().len(),
                goal == persisted(self.order(), self@),
                persisted_views(out@) == goal.take(i as int),
            decreases n - i,
        {
            let key = self.per_key.key_at(i);
            let c = self.per_key.value_at(i);
            let row = PersistedCoverageKey {
                venue: String::from_str(key.venue.display_name()),
                symbol: String::from_str(key.symbol.as_str()),
                market_type: String::from_str(key.market_type.display_name()),
                kind: key.kind.display_name(),
                entries: persist_entries(&c.entries),
            };
            let ghost before = out@;
            out.push(row);
            proof {
                assert(row@ == persisted_key(self.order()[i as int], self@[self.order()[i as int]]));
                assert(persisted_views(out@) =~= persisted_views(before).push(row@));
                assert(goal.take(i + 1) =~= goal.take(i as int).push(row@));
            }
            i = i + 1;
        }
        assert(goal.take(i as int) =~= goal);
        PersistedCoverage { version: 1, entries: out }
    }

    /// The ledger that a kept form stands for. Streams with unknown names are left out.
    pub fn from_persisted(p: &PersistedCoverage) -> (l: Self)
        ensures
            l@ == restored(persisted_views(p.entries@)),
            l.order() == restored_order(persisted_views(p.entries@)),
    {
        let mut ledger = CoverageLedger::new();
        let ghost views = persisted_views(p.entries@);
        let mut i: usize = 0;
        assert(views.take(0) =~= Seq::<PersistedKeyView>::empty());
        while i < p.entries.len()
            invariant
                i <= p.entries@.len(),
                views == persisted_views(p.entries@),
                ledger@ == restored(views.take(i as int)),
                ledger.order() == restored_order(views.take(i as int)),
            decreases p.entries@.len() - i,
        {
            let row = &p.entries[i];
            proof {
                let next = views.take(i + 1);
                assert(next.drop_last() =~= views.take(i as int));
                assert(next.last() == row@);
            }
            let key = MarketDataKey::from_display_parts(
                row.venue.as_str(),
                row.symbol.as_str(),
                row.market_type.as_str(),
                row.kind.as_str(),
            );
            if let Some(key) = key {
                let mut c = ledger.coverage_of(&key);
                let ghost before = c@;
                let mut added = restore_entries(&row.entries);
                let ghost old_entries = c.entries@;
                let ghost more = added@;
                c.entries.append(&mut added);
                proof {
                    assert(stamped_views(c.entries@) =~= before + stamped_views(more));
                    lemma_sorted_map(c.entries@, |e: CoverageEntry| e@);
                }
                sort_ranked(&mut c.entries);
                c.merge_adjacent();
                ledger.store(key, c);
            }
            i = i + 1;
        }
        assert(views.take(i as int) =~= views);
        ledger
    }
}

/// The ledger as kept between runs.
#[derive(Debug)]
pub struct PersistedCoverage {
    pub version: u32,
    pub entries: Vec<PersistedCoverageKey>,
}

/// One stream as kept between runs.
#[derive(Debug)]
pub struct PersistedCoverageKey {
    pub venue: String,
    pub symbol: String,
    pub market_type: String,
    pub kind: String,
    pub entries: Vec<PersistedCoverageEntry>,
}

/// One entry as kept between runs.
#[derive(Debug)]
pub struct PersistedCoverageEntry {
    pub from_ms: u64,
    pub to_ms: u64,
    pub status: PersistedStatus,
    pub updated_at_ms: u64,
    pub record_count: Option<usize>,
}

/// One status as kept between runs.
#[derive(Debug, PartialEq, Eq)]
pub enum PersistedStatus {
    Complete,
    Partial { until_ms: u64 },
    Empty,
    Failed { error: String, retry_at_ms: Option<u64> },
    Stale { reason: String },
}

/// One stream as kept between runs, as a value. The entries are those they stand for.
#[verifier::ext_equal]
pub struct PersistedKeyView {
    pub venue: Seq<char>,
    pub symbol: Seq<char>,
    pub market_type: Seq<char>,
    pub kind: Seq<char>,
    pub entries: Seq<StampedEntry>,
}

/// The timestamp of an optional count of milliseconds.
pub open spec fn time_of(ms: Option<u64>) -> Option<UnixMs> {
    match ms {
        Some(t) => Some(UnixMs(t)),
        None => None,
    }
}

impl View for PersistedStatus {
    type V = StatusView;

    /// The status that the kept form stands for.
    open spec fn view(&self) -> StatusView {
        match *self {
            PersistedStatus::Complete => StatusView::Complete,
            PersistedStatus::Partial { until_ms } => StatusView::Partial {
                until: UnixMs(until_ms),
            },
            PersistedStatus::Empty => StatusView::Empty,
            PersistedStatus::Failed { error, retry_at_ms } => StatusView::Failed {
                error: error@,
                retry_at: time_of(retry_at_ms),
            },
            PersistedStatus::Stale { reason } => StatusView::Stale { reason: reason@ },
        }
    }
}

impl View for PersistedCoverageEntry {
    type V = StampedEntry;

    /// The entry that the kept form stands for.
    open spec fn view(&self) -> StampedEntry {
        StampedEntry {
            entry: EntryView {
                range: MarketDataRange { from: UnixMs(self.from_ms), to: UnixMs(self.to_ms) },
                status: self.status@,
                record_count: self.record_count,
            },
            updated_at: UnixMs(self.updated_at_ms),
        }
    }
}

impl View for PersistedCoverageKey {
    type V = PersistedKeyView;

    open spec fn view(&self) -> PersistedKeyView {
        PersistedKeyView {
            venue: self.venue@,
            symbol: self.symbol@,
            market_type: self.market_type@,
            kind: self.kind@,
            entries: self.entries@.map_values(|e: PersistedCoverageEntry| e@),
        }
    }
}

/// The values of a list of kept streams.
pub open spec fn persisted_views(s: Seq<PersistedCoverageKey>) -> Seq<PersistedKeyView> {
    s.map_values(|k: PersistedCoverageKey| k@)
}

/// The kept form of one stream.
pub open spec fn persisted_key(key: KeyView, entries: Seq<StampedEntry>) -> PersistedKeyView {
    PersistedKeyView {
        venue: key.venue.name(),
        symbol: key.symbol,
        market_type: key.market_type.name(),
        kind: key.kind.name(),
        entries,
    }
}

/// The kept form of a ledger.
pub open spec fn persisted(order: Seq<KeyView>, m: Map<KeyView, Seq<StampedEntry>>) -> Seq<
    PersistedKeyView,
> {
    order.map_values(|k: KeyView| persisted_key(k, m[k]))
}

/// The ledger that a kept form stands for. Entries of a stream that occurs twice are put
/// together.
pub open spec fn restored(s: Seq<PersistedKeyView>) -> Map<KeyView, Seq<StampedEntry>>
    decreases s.len(),
{
    if s.len() == 0 {
        Map::empty()
    } else {
        let front = restored(s.drop_last());
        let row = s.last();
        match key_named(row.venue, row.symbol, row.market_type, row.kind) {
            Some(k) => front.insert(
                k,
                fuse_stamped(sorted_by_rank(stamped_rows(front, k) + row.entries)),
            ),
            None => front,
        }
    }
}

/// The streams of a kept form, in the order in which they first occur.
pub open spec fn restored_order(s: Seq<PersistedKeyView>) -> Seq<KeyView>
    decreases s.len(),
{
    if s.len() == 0 {
        Seq::empty()
    } else {
        let front = restored_order(s.drop_last());
        let row = s.last();
        match key_named(row.venue, row.symbol, row.market_type, row.kind) {
            Some(k) => order_with(front, k),
            None => front,
        }
    }
}

fn persist_status(status: &CoverageStatus) -> (p: PersistedStatus)
    ensures
        p@ == status@,
{
    match status {
        CoverageStatus::Complete => PersistedStatus::Complete,
        CoverageStatus::Partial { until } => PersistedStatus::Partial { until_ms: until.0 },
        CoverageStatus::Empty => PersistedStatus::Empty,
        CoverageStatus::Failed { error, retry_at } => PersistedStatus::Failed {
            error: error.clone(),
            retry_at_ms: match retry_at {
                Some(t) => Some(t.0),
                None => None,
            },
        },
        CoverageStatus::Stale { reason } => PersistedStatus::Stale { reason: reason.clone() },
    }
}

fn restore_status(status: &PersistedStatus) -> (s: CoverageStatus)
    ensures
        s@ == status@,
{
    match status {
        PersistedStatus::Complete => CoverageStatus::Complete,
        PersistedStatus::Partial { until_ms } => CoverageStatus::Partial {
            until: UnixMs(*until_ms),
        },
        PersistedStatus::Empty => CoverageStatus::Empty,
        PersistedStatus::Failed { error, retry_at_ms } => CoverageStatus::Failed {
            error: error.clone(),
            retry_at: match retry_at_ms {
                Some(t) => Some(UnixMs(*t)),
                None => None,
            },
        },
        PersistedStatus::Stale { reason } => CoverageStatus::Stale { reason: reason.clone() },
    }
}

fn persist_entries(entries: &Vec<CoverageEntry>) -> (out: Vec<PersistedCoverageEntry>)
    ensures
        out@.map_values(|e: PersistedCoverageEntry| e@) == stamped_views(entries@),
{
    let ghost f = |e: PersistedCoverageEntry| e@;
    let mut out: Vec<PersistedCoverageEntry> = Vec::new();
    let mut i: usize = 0;
    while i < entries.len()
        invariant
            i <= entries@.len(),
            f == (|e: PersistedCoverageEntry| e@),
            out@.map_values(f) == stamped_views(entries@).take(i as int),
        decreases entries@.len() - i,
    {
        let e = &entries[i];
        let p = PersistedCoverageEntry {
            from_ms: e.range.from.0,
            to_ms: e.range.to.0,
            status: persist_status(&e.status),
            updated_at_ms: e.updated_at.0,
            record_count: e.record_count,
        };
        let ghost before = out@;
        out.push(p);
        proof {
            assert(p@ == entries@[i as int]@);
            assert(out@.map_values(f) =~= before.map_values(f).push(p@));
            assert(stamped_views(entries@).take(i + 1) =~= stamped_views(entries@).take(
                i as int,
            ).push(p@));
        }
        i = i + 1;
    }
    assert(stamped_views(entries@).take(i as int) =~= stamped_views(entries@));
    out
}

fn restore_entries(entries: &Vec<PersistedCoverageEntry>) -> (out: Vec<CoverageEntry>)
    ensures
        stamped_views(out@) == entries@.map_values(|e: PersistedCoverageEntry| e@),
{
    let ghost goal = entries@.map_values(|e: PersistedCoverageEntry| e@);
    let mut out: Vec<CoverageEntry> = Vec::new();
    let mut i: usize = 0;
    while i < entries.len()
        invariant
            i <= entries@.len(),
            goal == entries@.map_values(|e: PersistedCoverageEntry| e@),
            stamped_views(out@) == goal.take(i as int),
        decreases entries@.len() - i,
    {
        let p = &entries[i];
        let e = CoverageEntry {
            range: MarketDataRange::new_unchecked(UnixMs(p.from_ms), UnixMs(p.to_ms)),
            status: restore_status(&p.status),
            updated_at: UnixMs(p.updated_at_ms),
            record_count: p.record_count,
        };
        let ghost before = out@;
        out.push(e);
        proof {
            assert(stamped_views(out@) =~= stamped_views(before).push(e@));
            assert(goal.take(i + 1) =~= goal.take(i as int).push(e@));
        }
        i = i + 1;
    }
    assert(goal.take(i as int) =~= goal);
    out
}

} // verus!
