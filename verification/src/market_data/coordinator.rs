//! The one place that decides what is fetched.
//!
//! Needs are collected, planned against what is complete, and turned into jobs that never
//! fetch the same stretch twice at a time.

use std::collections::VecDeque;
use vstd::prelude::*;
use vstd::string::*;
use crate::id_table::{holds, ids_distinct, lemma_mapped, lookup, mapped, put, without, IdTable};
use crate::market::{Kline, OpenInterest, PriceStep, Trade};
use crate::market_data::coverage::{
    complete_entry, empty_entry, failed_entry, latest_of, marked, rows, CoverageLedger, Facts,
};
use crate::market_data::derived::bubbles::{
    compute_bubble_summaries, summarized, summary_views, BubbleVolumeSummary,
};
use crate::market_data::job::{FetchJob, FetchJobId, FetchJobProgress, JobStatusView, JobView};
use crate::market_data::key::{KeyView, MarketDataKey, MarketDataKind};
use crate::market_data::planner::{
    compute_plan, network_views, plan_of, planned, DataLoadPlan, NetworkSegment, NetworkView,
    PlanView,
};
use crate::market_data::progress::{job_views, MarketDataProgressSnapshot, ProgressView};
use crate::market_data::range::{
    alignable, aligned, canonicalize_kline_range, ceil_to, compute_missing, minus_each, missing,
    MarketDataRange,
};
use crate::market_data::requirement::{
    grouped, grouped_by_urgency, group_index, requirement_views, with_requirement, ConsumerId,
    DataRequirement, GroupView, RequirementGroup, RequirementView,
};
use crate::market_data::series::within;
use crate::market_data::store::{rows_at, sums_up_store, MarketDataStore, StoreSummary, StoreView};
use crate::seqs::copy_rows;
use crate::seqs::{lemma_filter_map_take, lemma_filter_take};
use crate::sorting::lemma_sorted;
use crate::text::{decimal, push_decimal};
use crate::time::UnixMs;

verus! {

/// Trade gaps shorter than this are not worth a fetch.
pub const MIN_TRADE_BACKFILL_SEGMENT_MS: u64 = 1_000;

/// The jobs by identifier.
pub type Jobs = Seq<(FetchJobId, JobView)>;

/// The coordinator as a value.
#[verifier::ext_equal]
pub struct CoordinatorView {
    pub store: StoreView,
    pub facts: Facts,
    pub jobs: Jobs,
    pub queue: Seq<FetchJobId>,
    pub plan: Option<PlanView>,
    pub pending: Seq<RequirementView>,
    pub max_concurrent_jobs: usize,
    pub max_pending_requirements: usize,
    pub cached_served: usize,
    pub fetched_received: usize,
}

/// Collects needs, plans fetches and keeps the jobs.
pub struct MarketDataCoordinator {
    pub store: MarketDataStore,
    pub coverage: CoverageLedger,
    jobs: IdTable<FetchJob>,
    job_queue: VecDeque<FetchJobId>,
    plan: Option<DataLoadPlan>,
    pending_requirements: Vec<DataRequirement>,
    max_concurrent_jobs: usize,
    max_pending_requirements: usize,
    total_cached_records_served: usize,
    total_fetched_records_received: usize,
}

/// The values of a table of jobs.
pub open spec fn job_rows(rows: Seq<(FetchJobId, FetchJob)>) -> Jobs {
    mapped(rows, |j: FetchJob| j@)
}

impl View for MarketDataCoordinator {
    type V = CoordinatorView;

    closed spec fn view(&self) -> CoordinatorView {
        CoordinatorView {
            store: self.store@,
            facts: self.coverage.facts(),
            jobs: job_rows(self.jobs@),
            queue: self.job_queue@,
            plan: plan_of(self.plan),
            pending: requirement_views(self.pending_requirements@),
            max_concurrent_jobs: self.max_concurrent_jobs,
            max_pending_requirements: self.max_pending_requirements,
            cached_served: self.total_cached_records_served,
            fetched_received: self.total_fetched_records_received,
        }
    }
}

/// The end of a range can be rounded up to a boundary of the stream's candles.
pub open spec fn roundable(kind: MarketDataKind, to: UnixMs) -> bool {
    match kind.candle() {
        Some(tf) => alignable(to, tf.millis() as u64),
        None => true,
    }
}

/// All ends of planned fetches can be rounded.
pub open spec fn network_roundable(s: Seq<NetworkView>) -> bool {
    forall|i: int| 0 <= i < s.len() ==> roundable((#[trigger] s[i]).key.kind, s[i].range.to)
}

/// All ends of needs can be rounded.
pub open spec fn needs_roundable(s: Seq<RequirementView>) -> bool {
    forall|i: int| 0 <= i < s.len() ==> roundable((#[trigger] s[i]).key.kind, s[i].range.to)
}

impl CoordinatorView {
    /// A coordinator without anything in it.
    pub open spec fn fresh(max_concurrent: usize, max_pending: usize) -> CoordinatorView {
        CoordinatorView {
            store: StoreView::empty(),
            facts: Map::empty(),
            jobs: Seq::empty(),
            queue: Seq::empty(),
            plan: None,
            pending: Seq::empty(),
            max_concurrent_jobs: max_concurrent,
            max_pending_requirements: max_pending,
            cached_served: 0,
            fetched_received: 0,
        }
    }

    /// Every need that waits and every fetch that is planned ends early enough to be rounded to
    /// candles.
    pub open spec fn wf(self) -> bool {
        &&& needs_roundable(self.pending)
        &&& self.plan matches Some(p) ==> network_roundable(p.network)
    }

    /// The coordinator after planning.
    pub open spec fn with_plan(self) -> CoordinatorView {
        CoordinatorView {
            pending: Seq::empty(),
            plan: Some(planned(grouped_by_urgency(self.pending), self.facts)),
            ..self
        }
    }

    /// The coordinator with one more need. More of them than may wait are planned at once.
    pub open spec fn with_need(self, r: RequirementView) -> CoordinatorView {
        let next = CoordinatorView { pending: self.pending.push(r), ..self };
        if next.pending.len() > self.max_pending_requirements {
            next.with_plan()
        } else {
            next
        }
    }

    /// The coordinator with more needs.
    pub open spec fn with_needs(self, rs: Seq<RequirementView>) -> CoordinatorView
        decreases rs.len(),
    {
        if rs.len() == 0 {
            self
        } else {
            self.with_needs(rs.drop_last()).with_need(rs.last())
        }
    }

    /// The coordinator with a job changed.
    pub open spec fn with_job(self, id: FetchJobId, j: JobView) -> CoordinatorView {
        CoordinatorView { jobs: put(self.jobs, id, j), ..self }
    }

    /// What is loading, for display, where `covered_until` is the latest end of anything complete.
    pub open spec fn progress(self, covered_until: Option<UnixMs>) -> ProgressView {
        ProgressView {
            active_jobs: active_of(self.jobs).map_values(|row: (FetchJobId, JobView)| row.1),
            total_fetched_records: self.fetched_received,
            total_cached_records: self.cached_served,
            covered_until,
            message: if active_of(self.jobs).len() > 0 {
                "Loading "@ + decimal(active_of(self.jobs).len()) + " segments"@
            } else {
                "Ready"@
            },
            loading_features: Seq::empty(),
            ready_features: Seq::empty(),
        }
    }

    /// The coordinator with a range marked.
    pub open spec fn with_mark(
        self,
        key: KeyView,
        e: crate::market_data::coverage::EntryView,
    ) -> CoordinatorView {
        CoordinatorView { facts: marked(self.facts, key, e), ..self }
    }

    /// The coordinator after a job is done. A candle or open interest job without records shows
    /// that the exchange has none.
    pub open spec fn with_completed(self, id: FetchJobId, records: usize) -> CoordinatorView {
        match lookup(self.jobs, id) {
            Some(j) => self.with_job(
                id,
                JobView { status: JobStatusView::Completed { records }, ..j },
            ).with_mark(
                j.key,
                if records == 0 && !(j.key.kind is Trades) {
                    empty_entry(j.range)
                } else {
                    complete_entry(j.range, records)
                },
            ),
            None => self,
        }
    }

    /// The coordinator without a job.
    pub open spec fn without_job(self, id: FetchJobId) -> CoordinatorView {
        CoordinatorView {
            jobs: without(self.jobs, id),
            queue: self.queue.filter(not_job(id)),
            ..self
        }
    }

    /// The coordinator after a job's range turned out empty.
    pub open spec fn with_emptied(self, id: FetchJobId) -> CoordinatorView {
        match lookup(self.jobs, id) {
            Some(j) => self.with_mark(j.key, empty_entry(j.range)),
            None => self,
        }
    }

    /// The range of a job, counted as failed.
    pub open spec fn with_failure(self, id: FetchJobId, error: Seq<char>) -> CoordinatorView {
        match lookup(self.jobs, id) {
            Some(j) => self.with_mark(j.key, failed_entry(j.range, error, None)),
            None => self,
        }
    }

    /// `after` is the coordinator once a job failed.
    pub open spec fn failed_job(
        self,
        id: FetchJobId,
        error: Seq<char>,
        after: CoordinatorView,
    ) -> bool {
        match lookup(self.jobs, id) {
            Some(j) => exists|f: JobView|
                j.failed_sometime(error, f) && after == (#[trigger] self.with_job(id, f)).with_mark(
                    j.key,
                    failed_entry(j.range, error, None),
                ),
            None => after == self,
        }
    }
}

/// Tells other jobs than `id`.
pub open spec fn not_job(id: FetchJobId) -> spec_fn(FetchJobId) -> bool {
    |q: FetchJobId| q != id
}

/// Tells active jobs.
pub open spec fn is_active() -> spec_fn((FetchJobId, JobView)) -> bool {
    |row: (FetchJobId, JobView)| row.1.status.active()
}

/// The active jobs.
pub open spec fn active_of(jobs: Jobs) -> Jobs {
    jobs.filter(is_active())
}

/// A stretch of a stream.
pub type Stretch = (KeyView, MarketDataRange);

/// The stretches that active jobs fetch.
pub open spec fn active_stretches(jobs: Jobs) -> Seq<Stretch> {
    active_of(jobs).map_values(|row: (FetchJobId, JobView)| (row.1.key, row.1.range))
}

/// Tells the stretches of one stream.
pub open spec fn on_stream(key: KeyView) -> spec_fn(Stretch) -> bool {
    |x: Stretch| x.0 == key
}

/// The ranges of the stretches of one stream.
pub open spec fn ranges_for(s: Seq<Stretch>, key: KeyView) -> Seq<MarketDataRange> {
    s.filter(on_stream(key)).map_values(|x: Stretch| x.1)
}

/// What becomes of a stretch that is missing.
#[derive(Debug)]
pub enum FetchDecision {
    /// It is fetched.
    Fetch { key: MarketDataKey, range: MarketDataRange, consumers: Vec<ConsumerId> },
    /// It is too short to be worth a fetch and counts as empty.
    Suppress { key: MarketDataKey, range: MarketDataRange },
}

/// What becomes of a stretch that is missing, as a value.
#[verifier::ext_equal]
pub enum DecisionView {
    Fetch { key: KeyView, range: MarketDataRange, consumers: Seq<ConsumerId> },
    Suppress { key: KeyView, range: MarketDataRange },
}

impl View for FetchDecision {
    type V = DecisionView;

    open spec fn view(&self) -> DecisionView {
        match *self {
            FetchDecision::Fetch { key, range, consumers } => DecisionView::Fetch {
                key: key@,
                range,
                consumers: consumers@,
            },
            FetchDecision::Suppress { key, range } => DecisionView::Suppress { key: key@, range },
        }
    }
}

/// The values of a list of decisions.
pub open spec fn decision_views(s: Seq<FetchDecision>) -> Seq<DecisionView> {
    s.map_values(|d: FetchDecision| d@)
}

/// A stretch is too short to be worth a fetch: for candles less than one candle, for trades less
/// than a second, the first seconds of the epoch excepted.
pub open spec fn negligible(kind: MarketDataKind, range: MarketDataRange) -> bool {
    match kind.candle() {
        Some(tf) => range.span() < tf.millis(),
        None => range.span() < MIN_TRADE_BACKFILL_SEGMENT_MS && range.to.0 > 1_000_000,
    }
}

/// The range that is fetched for a planned segment, rounded to candles.
pub open spec fn fetch_target(seg: NetworkView) -> Option<MarketDataRange> {
    match seg.key.kind.candle() {
        Some(tf) => aligned(seg.range, tf.millis() as u64),
        None => Some(seg.range),
    }
}

/// The decision on one part of a segment.
pub open spec fn decision_on(seg: NetworkView, part: MarketDataRange) -> DecisionView {
    if negligible(seg.key.kind, part) {
        DecisionView::Suppress { key: seg.key, range: part }
    } else {
        DecisionView::Fetch { key: seg.key, range: part, consumers: seg.consumers }
    }
}

/// The decisions on one segment, given what is being fetched.
pub open spec fn segment_decisions(
    seg: NetworkView,
    busy: Seq<MarketDataRange>,
) -> Seq<DecisionView> {
    match fetch_target(seg) {
        None => seq![DecisionView::Suppress { key: seg.key, range: seg.range }],
        Some(target) => missing(target, busy).map_values(
            |part: MarketDataRange| decision_on(seg, part),
        ),
    }
}

/// The stretch that a decision fetches.
pub open spec fn fetched_by(d: DecisionView) -> Option<Stretch> {
    match d {
        DecisionView::Fetch { key, range, consumers } => Some((key, range)),
        DecisionView::Suppress { key, range } => None,
    }
}

/// The stretches that decisions fetch.
pub open spec fn fetches_of(ds: Seq<DecisionView>) -> Seq<Stretch> {
    ds.filter_map(|d: DecisionView| fetched_by(d))
}

/// The decisions on all segments. What an earlier decision fetches is busy for the later ones.
pub open spec fn decisions(segs: Seq<NetworkView>, busy: Seq<Stretch>) -> Seq<DecisionView>
    decreases segs.len(),
{
    if segs.len() == 0 {
        Seq::empty()
    } else {
        let front = decisions(segs.drop_last(), busy);
        front + segment_decisions(
            segs.last(),
            ranges_for(busy + fetches_of(front), segs.last().key),
        )
    }
}

/// What is known after the suppressed stretches are marked empty.
pub open spec fn suppressed(facts: Facts, ds: Seq<DecisionView>) -> Facts
    decreases ds.len(),
{
    if ds.len() == 0 {
        facts
    } else {
        let front = suppressed(facts, ds.drop_last());
        match ds.last() {
            DecisionView::Suppress { key, range } => marked(front, key, empty_entry(range)),
            DecisionView::Fetch { key, range, consumers } => front,
        }
    }
}

/// The jobs after one was created for each fetch, under the given identifiers and times.
pub open spec fn created(
    jobs: Jobs,
    ds: Seq<DecisionView>,
    ids: Seq<FetchJobId>,
    times: Seq<u64>,
) -> Jobs
    decreases ds.len(),
{
    if ds.len() == 0 {
        jobs
    } else {
        match ds.last() {
            DecisionView::Suppress { key, range } => created(jobs, ds.drop_last(), ids, times),
            DecisionView::Fetch { key, range, consumers } => put(
                created(jobs, ds.drop_last(), ids.drop_last(), times.drop_last()),
                ids.last(),
                JobView::pending(ids.last(), key, range, consumers, times.last()),
            ),
        }
    }
}

/// The decisions that the plan of a coordinator asks for.
pub open spec fn due_decisions(c: CoordinatorView) -> Seq<DecisionView> {
    match c.plan {
        Some(p) => decisions(p.network, active_stretches(c.jobs)),
        None => Seq::empty(),
    }
}

/// `after` is the coordinator once decisions took effect, with jobs under the given identifiers.
pub open spec fn carried_out(
    before: CoordinatorView,
    ds: Seq<DecisionView>,
    ids: Seq<FetchJobId>,
    after: CoordinatorView,
) -> bool {
    &&& ids.len() == fetches_of(ds).len()
    &&& exists|times: Seq<u64>|
        times.len() == ids.len() && after == (CoordinatorView {
            facts: suppressed(before.facts, ds),
            jobs: #[trigger] created(before.jobs, ds, ids, times),
            queue: before.queue + ids,
            ..before
        })
}

proof fn lemma_ceil_monotone(a: int, b: int, s: int)
    requires
        s > 0,
        0 <= a <= b,
    ensures
        ceil_to(a, s) <= ceil_to(b, s),
{
    vstd::arithmetic::div_mod::lemma_fundamental_div_mod(a, s);
    vstd::arithmetic::div_mod::lemma_fundamental_div_mod(b, s);
    vstd::arithmetic::div_mod::lemma_mod_bound(a, s);
    vstd::arithmetic::div_mod::lemma_mod_bound(b, s);
    vstd::arithmetic::div_mod::lemma_div_is_ordered(a, b, s);
    let qa = a / s;
    let qb = b / s;
    if qa < qb {
        assert(s * qa + s <= s * qb) by (nonlinear_arith)
            requires
                qa + 1 <= qb,
                s > 0,
        ;
    } else {
        assert(qa == qb);
    }
}

proof fn lemma_roundable_monotone(kind: MarketDataKind, a: UnixMs, b: UnixMs)
    requires
        a.0 <= b.0,
        roundable(kind, b),
    ensures
        roundable(kind, a),
{
    if let Some(tf) = kind.candle() {
        lemma_ceil_monotone(a.0 as int, b.0 as int, tf.millis() as int);
    }
}

proof fn lemma_minus_each_ends(rs: Seq<MarketDataRange>, cover: MarketDataRange, bound: u64)
    requires
        forall|i: int| 0 <= i < rs.len() ==> (#[trigger] rs[i]).to.0 <= bound,
    ensures
        forall|i: int|
            0 <= i < minus_each(rs, cover).len() ==> (#[trigger] minus_each(rs, cover)[i]).to.0
                <= bound,
    decreases rs.len(),
{
    if rs.len() > 0 {
        let front = rs.drop_last();
        assert forall|i: int| 0 <= i < front.len() implies (#[trigger] front[i]).to.0 <= bound by {
            assert(rs[i].to.0 <= bound);
        }
        lemma_minus_each_ends(front, cover, bound);
        let a = minus_each(front, cover);
        let b = rs.last().minus(cover);
        assert(rs[rs.len() - 1].to.0 <= bound);
        assert forall|i: int| 0 <= i < (a + b).len() implies (#[trigger] (a + b)[i]).to.0 <= bound by {
            if i < a.len() {
                assert((a + b)[i] == a[i]);
            } else {
                assert((a + b)[i] == b[i - a.len()]);
            }
        }
    }
}

proof fn lemma_missing_ends(desired: MarketDataRange, covered: Seq<MarketDataRange>)
    ensures
        forall|i: int|
            0 <= i < missing(desired, covered).len() ==> (#[trigger] missing(
                desired,
                covered,
            )[i]).to.0 <= desired.to.0,
    decreases covered.len(),
{
    if covered.len() > 0 {
        lemma_missing_ends(desired, covered.drop_last());
        lemma_minus_each_ends(
            missing(desired, covered.drop_last()),
            covered.last(),
            desired.to.0,
        );
    }
}

/// All groups end early enough to be rounded.
spec fn groups_roundable(gs: Seq<GroupView>) -> bool {
    forall|i: int| 0 <= i < gs.len() ==> roundable((#[trigger] gs[i]).key.kind, gs[i].merged_range.to)
}

pub(crate) proof fn lemma_group_place(groups: Seq<GroupView>, key: KeyView)
    ensures
        0 <= group_index(groups, key) <= groups.len(),
        group_index(groups, key) < groups.len() ==> groups[group_index(groups, key)].key == key,
    decreases groups.len(),
{
    if groups.len() > 0 && groups[0].key != key {
        lemma_group_place(groups.skip(1), key);
    }
}

proof fn lemma_grouped_roundable(reqs: Seq<RequirementView>)
    requires
        needs_roundable(reqs),
    ensures
        groups_roundable(grouped(reqs)),
    decreases reqs.len(),
{
    if reqs.len() > 0 {
        let front = reqs.drop_last();
        let r = reqs.last();
        assert(r == reqs[reqs.len() - 1]);
        assert forall|i: int| 0 <= i < front.len() implies roundable(
            (#[trigger] front[i]).key.kind,
            front[i].range.to,
        ) by {
            assert(front[i] == reqs[i]);
        }
        lemma_grouped_roundable(front);
        let gs = grouped(front);
        let at = group_index(gs, r.key);
        lemma_group_place(gs, r.key);
        let out = with_requirement(gs, r);
        assert forall|i: int| 0 <= i < out.len() implies roundable(
            (#[trigger] out[i]).key.kind,
            out[i].merged_range.to,
        ) by {
            if i < gs.len() {
                assert(roundable(gs[i].key.kind, gs[i].merged_range.to));
            }
        }
    }
}

proof fn lemma_gathered_roundable(gs: Seq<GroupView>, facts: Facts)
    requires
        groups_roundable(gs),
    ensures
        network_roundable(crate::market_data::planner::gathered(gs, facts).network),
    decreases gs.len(),
{
    if gs.len() > 0 {
        let front = gs.drop_last();
        let g = gs.last();
        assert(g == gs[gs.len() - 1]);
        assert forall|i: int| 0 <= i < front.len() implies roundable(
            (#[trigger] front[i]).key.kind,
            front[i].merged_range.to,
        ) by {
            assert(front[i] == gs[i]);
        }
        lemma_gathered_roundable(front, facts);
        let a = crate::market_data::planner::gathered(front, facts).network;
        let b = crate::market_data::planner::fetches_for(g, facts);
        let complete = crate::market_data::coverage::complete_at(facts, g.key);
        lemma_missing_ends(g.merged_range, complete);
        assert forall|i: int| 0 <= i < (a + b).len() implies roundable(
            (#[trigger] (a + b)[i]).key.kind,
            (a + b)[i].range.to,
        ) by {
            if i < a.len() {
                assert((a + b)[i] == a[i]);
            } else {
                let m = missing(g.merged_range, complete);
                assert((a + b)[i] == b[i - a.len()]);
                assert(m[i - a.len()].to.0 <= g.merged_range.to.0);
                lemma_roundable_monotone(g.key.kind, m[i - a.len()].to, g.merged_range.to);
            }
        }
    }
}

/// Planning keeps every fetch roundable.
pub proof fn lemma_with_plan_wf(c: CoordinatorView)
    requires
        c.wf(),
    ensures
        c.with_plan().wf(),
{
    lemma_grouped_roundable(c.pending);
    let gs = grouped(c.pending);
    let sorted = grouped_by_urgency(c.pending);
    lemma_sorted(gs);
    assert forall|i: int| 0 <= i < sorted.len() implies roundable(
        (#[trigger] sorted[i]).key.kind,
        sorted[i].merged_range.to,
    ) by {
        assert(sorted.contains(sorted[i]));
        let k = choose|k: int| 0 <= k < gs.len() && gs[k] == sorted[i];
        assert(roundable(gs[k].key.kind, gs[k].merged_range.to));
    }
    lemma_gathered_roundable(sorted, c.facts);
}

/// The value of a stretch.
spec fn stretch_of(x: (MarketDataKey, MarketDataRange)) -> Stretch {
    (x.0@, x.1)
}

spec fn stretches_of(s: Seq<(MarketDataKey, MarketDataRange)>) -> Seq<Stretch> {
    s.map_values(|x: (MarketDataKey, MarketDataRange)| stretch_of(x))
}

fn busy_ranges(busy: &Vec<(MarketDataKey, MarketDataRange)>, key: &MarketDataKey) -> (r: Vec<
    MarketDataRange,
>)
    ensures
        r@ == ranges_for(stretches_of(busy@), key@),
{
    let ghost views = stretches_of(busy@);
    let ghost keep = on_stream(key@);
    let mut out: Vec<MarketDataRange> = Vec::new();
    let mut i: usize = 0;
    assert(views.take(0).filter(keep) =~= Seq::<Stretch>::empty());
    assert(out@ =~= ranges_for(views.take(0), key@));
    while i < busy.len()
        invariant
            i <= busy@.len(),
            views == stretches_of(busy@),
            keep == on_stream(key@),
            out@ == ranges_for(views.take(i as int), key@),
        decreases busy@.len() - i,
    {
        proof {
            lemma_filter_take(views, i as int, keep);
            assert(views[i as int] == stretch_of(busy@[i as int]));
        }
        if busy[i].0.same(key) {
            out.push(busy[i].1);
        }
        assert(out@ =~= ranges_for(views.take(i + 1), key@));
        i = i + 1;
    }
    assert(views.take(i as int) =~= views);
    out
}

/// The decisions on one segment, given what is being fetched.
fn decide_segment(seg: &NetworkSegment, busy: &Vec<MarketDataRange>) -> (r: Vec<FetchDecision>)
    requires
        roundable(seg@.key.kind, seg@.range.to),
    ensures
        decision_views(r@) == segment_decisions(seg@, busy@),
{
    let timeframe = seg.key.kind.timeframe_ms();
    let mut out: Vec<FetchDecision> = Vec::new();
    let target = match timeframe {
        Some(tf_ms) => match canonicalize_kline_range(seg.range, tf_ms) {
            Some(range) => range,
            None => {
                let d = FetchDecision::Suppress { key: seg.key.clone(), range: seg.range };
                out.push(d);
                assert(decision_views(out@) =~= seq![d@]);
                return out;
            },
        },
        None => seg.range,
    };
    assert(fetch_target(seg@) == Some(target));
    let parts = compute_missing(target, busy.as_slice());
    let ghost goal = segment_decisions(seg@, busy@);
    let mut i: usize = 0;
    while i < parts.len()
        invariant
            i <= parts@.len() == goal.len(),
            goal == parts@.map_values(|part: MarketDataRange| decision_on(seg@, part)),
            timeframe == match seg@.key.kind.candle() {
                Some(tf) => Some(tf.millis() as u64),
                None => None::<u64>,
            },
            decision_views(out@) == goal.take(i as int),
        decreases parts@.len() - i,
    {
        let part = parts[i];
        let short = match timeframe {
            Some(tf_ms) => part.duration_ms() < tf_ms,
            None => is_tiny_trade_gap(part),
        };
        let d = if short {
            FetchDecision::Suppress { key: seg.key.clone(), range: part }
        } else {
            FetchDecision::Fetch {
                key: seg.key.clone(),
                range: part,
                consumers: copy_rows(&seg.consumers),
            }
        };
        let ghost before = out@;
        out.push(d);
        proof {
            assert(d@ =~= decision_on(seg@, part));
            assert(decision_views(out@) =~= decision_views(before).push(d@));
            assert(goal.take(i + 1) =~= goal.take(i as int).push(goal[i as int]));
        }
        i = i + 1;
    }
    assert(goal.take(i as int) =~= goal);
    out
}

/// A trade gap that is not worth a fetch.
fn is_tiny_trade_gap(range: MarketDataRange) -> (r: bool)
    ensures
        r == (range.span() < MIN_TRADE_BACKFILL_SEGMENT_MS && range.to.0 > 1_000_000),
{
    range.duration_ms() < MIN_TRADE_BACKFILL_SEGMENT_MS && range.to.0 > 1_000_000
}

/// Appends the fetches of `ds` to the stretches that are busy.
fn extend_busy(busy: &mut Vec<(MarketDataKey, MarketDataRange)>, ds: &Vec<FetchDecision>)
    ensures
        stretches_of(final(busy)@) == stretches_of(old(busy)@) + fetches_of(decision_views(ds@)),
{
    let ghost start = stretches_of(busy@);
    let ghost views = decision_views(ds@);
    let ghost f = |d: DecisionView| fetched_by(d);
    let mut i: usize = 0;
    assert(views.take(0).filter_map(f) =~= Seq::<Stretch>::empty()) by {
        reveal(Seq::filter_map);
    }
    assert(stretches_of(busy@) =~= start + fetches_of(views.take(0)));
    while i < ds.len()
        invariant
            i <= ds@.len(),
            views == decision_views(ds@),
            f == (|d: DecisionView| fetched_by(d)),
            stretches_of(busy@) == start + fetches_of(views.take(i as int)),
        decreases ds@.len() - i,
    {
        proof {
            lemma_filter_map_take(views, i as int, f);
            assert(views[i as int] == ds@[i as int]@);
        }
        let ghost before = busy@;
        match &ds[i] {
            FetchDecision::Fetch { key, range, consumers: _ } => {
                let x = (key.clone(), *range);
                busy.push(x);
                assert(stretches_of(busy@) =~= stretches_of(before).push(stretch_of(x)));
                assert(stretches_of(busy@) =~= start + fetches_of(views.take(i + 1)));
            },
            FetchDecision::Suppress { key: _, range: _ } => {},
        }
        i = i + 1;
    }
    assert(views.take(i as int) =~= views);
}

proof fn lemma_fetches_add(a: Seq<DecisionView>, b: Seq<DecisionView>)
    ensures
        fetches_of(a + b) == fetches_of(a) + fetches_of(b),
    decreases b.len(),
{
    reveal(Seq::filter_map);
    if b.len() == 0 {
        assert(a + b =~= a);
        assert(fetches_of(b) =~= Seq::<Stretch>::empty());
        assert(fetches_of(a) + fetches_of(b) =~= fetches_of(a));
    } else {
        let front = b.drop_last();
        lemma_fetches_add(a, front);
        assert((a + b).drop_last() =~= a + front);
        assert((a + b).last() == b.last());
        assert(fetches_of(a + b) =~= fetches_of(a) + fetches_of(b));
    }
}

/// The decisions on all segments.
fn decide_all(segs: &Vec<NetworkSegment>, active: Vec<(MarketDataKey, MarketDataRange)>) -> (r: Vec<
    FetchDecision,
>)
    requires
        network_roundable(network_views(segs@)),
    ensures
        decision_views(r@) == decisions(network_views(segs@), stretches_of(active@)),
{
    let ghost views = network_views(segs@);
    let ghost start = stretches_of(active@);
    let mut busy = active;
    let mut out: Vec<FetchDecision> = Vec::new();
    let mut i: usize = 0;
    assert(views.take(0) =~= Seq::<NetworkView>::empty());
    assert(decision_views(out@) =~= decisions(views.take(0), start));
    assert(fetches_of(decision_views(out@)) =~= Seq::<Stretch>::empty()) by {
        reveal(Seq::filter_map);
    }
    assert(stretches_of(busy@) =~= start + fetches_of(decision_views(out@)));
    while i < segs.len()
        invariant
            i <= segs@.len(),
            views == network_views(segs@),
            network_roundable(views),
            decision_views(out@) == decisions(views.take(i as int), start),
            stretches_of(busy@) == start + fetches_of(decision_views(out@)),
        decreases segs@.len() - i,
    {
        let seg = &segs[i];
        assert(views[i as int] == seg@);
        let ranges = busy_ranges(&busy, &seg.key);
        let mut ds = decide_segment(seg, &ranges);
        extend_busy(&mut busy, &ds);
        let ghost before = decision_views(out@);
        let ghost more = decision_views(ds@);
        let ghost old_out = out@;
        let ghost old_ds = ds@;
        out.append(&mut ds);
        proof {
            assert(decision_views(out@) =~= before + more);
            lemma_fetches_add(before, more);
            let next = views.take(i + 1);
            assert(next.drop_last() =~= views.take(i as int));
            assert(next.last() == seg@);
            assert(stretches_of(busy@) =~= start + fetches_of(before + more));
        }
        i = i + 1;
    }
    assert(views.take(i as int) =~= views);
    out
}

proof fn lemma_active_map_take(rows: Seq<(FetchJobId, FetchJob)>, i: int)
    requires
        0 <= i < rows.len(),
    ensures
        active_of(job_rows(rows).take(i + 1)) == if rows[i].1@.status.active() {
            active_of(job_rows(rows).take(i)).push((rows[i].0, rows[i].1@))
        } else {
            active_of(job_rows(rows).take(i))
        },
{
    lemma_filter_take(job_rows(rows), i, is_active());
    assert(job_rows(rows)[i] == (rows[i].0, rows[i].1@));
}

/// The latest end of anything complete, over all streams.
pub open spec fn latest_anywhere(facts: Facts, t: Option<UnixMs>) -> bool {
    match t {
        Some(t) => {
            &&& exists|k: KeyView| facts.contains_key(k) && #[trigger] latest_of(facts[k]) == Some(t)
            &&& forall|k: KeyView|
                #![trigger facts[k]]
                facts.contains_key(k) ==> (latest_of(facts[k]) matches Some(u) ==> u.0 <= t.0)
        },
        None => forall|k: KeyView|
            #![trigger facts[k]]
            facts.contains_key(k) ==> latest_of(facts[k]) is None,
    }
}

/// The place of the first job in the queue that waits, or `queue.len()`.
pub open spec fn first_waiting(queue: Seq<FetchJobId>, jobs: Jobs) -> int
    decreases queue.len(),
{
    if queue.len() == 0 || (lookup(jobs, queue[0]) matches Some(j) && j.status is Pending) {
        0
    } else {
        1 + first_waiting(queue.skip(1), jobs)
    }
}

/// The coordinator after the next job was taken from the queue, and that job.
pub open spec fn next_taken(c: CoordinatorView) -> (CoordinatorView, Option<JobView>) {
    if active_of(c.jobs).len() >= c.max_concurrent_jobs {
        (c, None)
    } else {
        let i = first_waiting(c.queue, c.jobs);
        if i < c.queue.len() {
            (
                CoordinatorView { queue: c.queue.skip(i + 1), ..c },
                lookup(c.jobs, c.queue[i]),
            )
        } else {
            (CoordinatorView { queue: Seq::empty(), ..c }, None)
        }
    }
}

/// The jobs that stay when those that ended more than `retention_ms` before `now` go.
pub open spec fn retained(jobs: Jobs, now: u64, retention_ms: u64) -> Jobs {
    jobs.filter(
        |row: (FetchJobId, JobView)|
            row.1.status.active() || now - row.1.created_at <= retention_ms,
    )
}

impl Default for MarketDataCoordinator {
    fn default() -> (c: Self)
        ensures
            c@ == CoordinatorView::fresh(4, 10),
    {
        Self::new()
    }
}

impl MarketDataCoordinator {
    /// A coordinator with the usual limits.
    pub fn new() -> (c: Self)
        ensures
            c@ == CoordinatorView::fresh(4, 10),
            c@.wf(),
    {
        Self::with_limits(4, 10)
    }

    /// A coordinator with limits of its own.
    pub fn with_limits(max_concurrent: usize, max_pending: usize) -> (c: Self)
        ensures
            c@ == CoordinatorView::fresh(max_concurrent, max_pending),
            c@.wf(),
    {
        let c = MarketDataCoordinator {
            store: MarketDataStore::new(),
            coverage: CoverageLedger::new(),
            jobs: IdTable::new(),
            job_queue: VecDeque::new(),
            plan: None,
            pending_requirements: Vec::new(),
            max_concurrent_jobs: max_concurrent,
            max_pending_requirements: max_pending,
            total_cached_records_served: 0,
            total_fetched_records_received: 0,
        };
        assert(c@ =~= CoordinatorView::fresh(max_concurrent, max_pending));
        c
    }

    /// Submits a need. Once more of them wait than may, they are planned.
    pub fn require(&mut self, requirement: DataRequirement)
        requires
            old(self)@.wf(),
            roundable(requirement@.key.kind, requirement@.range.to),
        ensures
            final(self)@ == old(self)@.with_need(requirement@),
            final(self)@.wf(),
    {
        let ghost before = self@;
        let ghost old_pending = self.pending_requirements@;
        self.pending_requirements.push(requirement);
        proof {
            assert(requirement_views(self.pending_requirements@) =~= requirement_views(
                old_pending,
            ).push(requirement@));
            assert(self@ =~= (CoordinatorView { pending: before.pending.push(requirement@), ..before }));
            assert forall|i: int| 0 <= i < self@.pending.len() implies roundable(
                (#[trigger] self@.pending[i]).key.kind,
                self@.pending[i].range.to,
            ) by {
                if i < before.pending.len() {
                    assert(self@.pending[i] == before.pending[i]);
                }
            }
        }
        if self.pending_requirements.len() > self.max_pending_requirements {
            self.plan();
        }
    }

    /// Submits needs one after the other.
    pub fn require_all(&mut self, requirements: Vec<DataRequirement>)
        requires
            old(self)@.wf(),
            needs_roundable(requirement_views(requirements@)),
        ensures
            final(self)@ == old(self)@.with_needs(requirement_views(requirements@)),
            final(self)@.wf(),
    {
        let ghost start = self@;
        let ghost views = requirement_views(requirements@);
        let mut i: usize = 0;
        assert(views.take(0) =~= Seq::<RequirementView>::empty());
        while i < requirements.len()
            invariant
                i <= requirements@.len(),
                views == requirement_views(requirements@),
                needs_roundable(views),
                self@ == start.with_needs(views.take(i as int)),
                self@.wf(),
            decreases requirements@.len() - i,
        {
            proof {
                let next = views.take(i + 1);
                assert(next.drop_last() =~= views.take(i as int));
                assert(next.last() == views[i as int]);
                assert(views[i as int] == requirements@[i as int]@);
            }
            self.require(requirements[i].clone());
            i = i + 1;
        }
        assert(views.take(i as int) =~= views);
    }

    /// Plans the needs that wait.
    pub fn plan(&mut self) -> (p: &DataLoadPlan)
        requires
            old(self)@.wf(),
        ensures
            final(self)@ == old(self)@.with_plan(),
            final(self)@.wf(),
            final(self)@.plan == Some(p@),
    {
        let ghost before = self@;
        let mut requirements: Vec<DataRequirement> = Vec::new();
        std::mem::swap(&mut requirements, &mut self.pending_requirements);
        let groups = RequirementGroup::from_requirements(requirements);
        let plan = compute_plan(groups, &self.coverage);
        self.plan = Some(plan);
        proof {
            assert(requirement_views(self.pending_requirements@) =~= Seq::<
                RequirementView,
            >::empty());
            assert(self@ =~= before.with_plan());
            lemma_with_plan_wf(before);
        }
        match &self.plan {
            Some(p) => p,
            None => vstd::pervasive::unreached(),
        }
    }

    /// The stretches that active jobs fetch.
    fn active_pairs(&self) -> (r: Vec<(MarketDataKey, MarketDataRange)>)
        ensures
            stretches_of(r@) == active_stretches(self@.jobs),
    {
        let n: usize = self.jobs.len();
        let ghost all = self@.jobs;
        let mut out: Vec<(MarketDataKey, MarketDataRange)> = Vec::new();
        let mut i: usize = 0;
        assert(all.take(0).filter(is_active()) =~= Seq::<(FetchJobId, JobView)>::empty());
        assert(stretches_of(out@) =~= active_stretches(all.take(0)));
        while i < n
            invariant
                i <= n == self.jobs@.len(),
                all == job_rows(self.jobs@),
                stretches_of(out@) == active_stretches(all.take(i as int)),
            decreases n - i,
        {
            let job = self.jobs.value_at(i);
            proof {
                lemma_active_map_take(self.jobs@, i as int);
            }
            if job.status.is_active() {
                let ghost before = out@;
                let x = (job.key.clone(), job.range);
                out.push(x);
                assert(stretches_of(out@) =~= stretches_of(before).push(stretch_of(x)));
            }
            assert(stretches_of(out@) =~= active_stretches(all.take(i + 1)));
            i = i + 1;
        }
        assert(all.take(i as int) =~= all);
        out
    }

    /// What the plan asks for: which stretches are fetched and which are too short for that.
    pub fn decide_fetches(&self) -> (r: Vec<FetchDecision>)
        requires
            self@.wf(),
        ensures
            decision_views(r@) == due_decisions(self@),
    {
        match &self.plan {
            Some(plan) => {
                let active = self.active_pairs();
                decide_all(&plan.network_segments, active)
            },
            None => {
                let out: Vec<FetchDecision> = Vec::new();
                assert(decision_views(out@) =~= Seq::<DecisionView>::empty());
                out
            },
        }
    }

    /// Marks what is too short as empty and creates a job for everything else.
    fn carry_out(&mut self, ds: &Vec<FetchDecision>) -> (ids: Vec<FetchJobId>)
        ensures
            carried_out(old(self)@, decision_views(ds@), ids@, final(self)@),
    {
        let ghost start = self@;
        let ghost views = decision_views(ds@);
        let ghost f = |d: DecisionView| fetched_by(d);
        let mut ids: Vec<FetchJobId> = Vec::new();
        let ghost mut times: Seq<u64> = Seq::empty();
        let mut i: usize = 0;
        proof {
            reveal(Seq::filter_map);
            assert(views.take(0) =~= Seq::<DecisionView>::empty());
            assert(start.queue + ids@ =~= start.queue);
            assert(self@ =~= (CoordinatorView {
                facts: suppressed(start.facts, views.take(0)),
                jobs: created(start.jobs, views.take(0), ids@, times),
                queue: start.queue + ids@,
                ..start
            }));
        }
        while i < ds.len()
            invariant
                i <= ds@.len(),
                views == decision_views(ds@),
                f == (|d: DecisionView| fetched_by(d)),
                times.len() == ids@.len(),
                ids@.len() == fetches_of(views.take(i as int)).len(),
                self@ == (CoordinatorView {
                    facts: suppressed(start.facts, views.take(i as int)),
                    jobs: created(start.jobs, views.take(i as int), ids@, times),
                    queue: start.queue + ids@,
                    ..start
                }),
            decreases ds@.len() - i,
        {
            let ghost before = self@;
            let ghost old_ids = ids@;
            proof {
                lemma_filter_map_take(views, i as int, f);
                let next = views.take(i + 1);
                assert(next.drop_last() =~= views.take(i as int));
                assert(next.last() == views[i as int]);
                assert(views[i as int] == ds@[i as int]@);
            }
            match &ds[i] {
                FetchDecision::Suppress { key, range } => {
                    self.coverage.mark_empty(key.clone(), *range);
                    assert(self@ =~= (CoordinatorView {
                        facts: suppressed(start.facts, views.take(i + 1)),
                        jobs: created(start.jobs, views.take(i + 1), ids@, times),
                        queue: start.queue + ids@,
                        ..start
                    }));
                },
                FetchDecision::Fetch { key, range, consumers } => {
                    let job = FetchJob::new(key.clone(), *range, copy_rows(consumers));
                    let id = job.id;
                    let ghost made = job@;
                    let ghost old_rows = self.jobs@;
                    self.jobs.insert(id, job);
                    self.job_queue.push_back(id);
                    ids.push(id);
                    proof {
                        lemma_mapped(old_rows, |j: FetchJob| j@, id, job);
                        let old_times = times;
                        times = times.push(made.created_at);
                        assert(ids@.drop_last() =~= old_ids);
                        assert(times.drop_last() =~= old_times);
                        assert(start.queue + ids@ =~= before.queue.push(id));
                        assert(created(start.jobs, views.take(i + 1), ids@, times) == put(
                            before.jobs,
                            id,
                            made,
                        ));
                        assert(self@ =~= (CoordinatorView {
                            facts: suppressed(start.facts, views.take(i + 1)),
                            jobs: created(start.jobs, views.take(i + 1), ids@, times),
                            queue: start.queue + ids@,
                            ..start
                        }));
                    }
                },
            }
            i = i + 1;
        }
        assert(views.take(i as int) =~= views);
        assert(times.len() == ids@.len() && self@ == (CoordinatorView {
            facts: suppressed(start.facts, views),
            jobs: created(start.jobs, views, ids@, times),
            queue: start.queue + ids@,
            ..start
        }));
        ids
    }

    /// Carries out the plan. Returns the identifiers of the jobs that were created for it.
    pub fn execute_plan(&mut self) -> (ids: Vec<FetchJobId>)
        requires
            old(self)@.wf(),
        ensures
            carried_out(old(self)@, due_decisions(old(self)@), ids@, final(self)@),
            final(self)@.wf(),
    {
        let ds = self.decide_fetches();
        self.carry_out(&ds)
    }

    /// Takes the next job that waits from the queue, unless enough jobs are active.
    pub fn next_job(&mut self) -> (r: Option<&FetchJob>)
        ensures
            final(self)@ == next_taken(old(self)@).0,
            match r {
                Some(j) => next_taken(old(self)@).1 == Some(j@),
                None => next_taken(old(self)@).1 is None,
            },
    {
        if self.active_job_count() >= self.max_concurrent_jobs {
            return None;
        }
        let ghost start = self@;
        let ghost queue = self@.queue;
        let ghost mut taken: int = 0;
        assert(queue.skip(0) =~= queue);
        loop
            invariant
                0 <= taken <= queue.len(),
                queue == start.queue,
                start == old(self)@,
                active_of(start.jobs).len() < start.max_concurrent_jobs,
                self@ == (CoordinatorView { queue: queue.skip(taken), ..start }),
                first_waiting(queue, start.jobs) == taken + first_waiting(
                    queue.skip(taken),
                    start.jobs,
                ),
            decreases queue.len() - taken,
        {
            match self.job_queue.pop_front() {
                Some(id) => {
                    proof {
                        let rest = queue.skip(taken);
                        assert(rest[0] == id);
                        assert(rest.skip(1) =~= queue.skip(taken + 1));
                        assert(self@ =~= (CoordinatorView { queue: queue.skip(taken + 1), ..start }));
                        assert(queue[taken] == id);
                    }
                    let waiting = match self.jobs.get(id) {
                        Some(job) => {
                            proof {
                                lemma_mapped(self.jobs@, |j: FetchJob| j@, id, *job);
                            }
                            job.status.is_pending()
                        },
                        None => {
                            proof {
                                lemma_mapped(
                                    self.jobs@,
                                    |j: FetchJob| j@,
                                    id,
                                    vstd::pervasive::arbitrary(),
                                );
                            }
                            false
                        },
                    };
                    if waiting {
                        return self.jobs.get(id);
                    }
                    proof {
                        taken = taken + 1;
                    }
                },
                None => {
                    proof {
                        assert(taken == queue.len());
                        assert(self@ =~= (CoordinatorView { queue: Seq::empty(), ..start }));
                    }
                    return None;
                },
            }
        }
    }

    /// Access to a job.
    pub fn job_mut(&mut self, job_id: FetchJobId) -> (r: Option<&mut FetchJob>)
        ensures
            match r {
                Some(j) => lookup(old(self)@.jobs, job_id) == Some(j@) && final(self)@
                    == old(self)@.with_job(job_id, final(j)@),
                None => lookup(old(self)@.jobs, job_id) is None && final(self)@ == old(self)@,
            },
    {
        let ghost before = self.jobs@;
        let _n: usize = self.jobs.len();
        proof {
            assert forall|v: FetchJob| #[trigger] put(job_rows(before), job_id, v@) == job_rows(
                put(before, job_id, v),
            ) && lookup(job_rows(before), job_id) == (match lookup(before, job_id) {
                Some(w) => Some(w@),
                None => None::<JobView>,
            }) by {
                lemma_mapped(before, |j: FetchJob| j@, job_id, v);
            }
            lemma_mapped(before, |j: FetchJob| j@, job_id, vstd::pervasive::arbitrary());
        }
        self.jobs.get_mut(job_id)
    }

    /// A job.
    pub fn job(&self, job_id: FetchJobId) -> (r: Option<&FetchJob>)
        ensures
            match r {
                Some(j) => lookup(self@.jobs, job_id) == Some(j@),
                None => lookup(self@.jobs, job_id) is None,
            },
    {
        let r = self.jobs.get(job_id);
        proof {
            lemma_mapped(
                self.jobs@,
                |j: FetchJob| j@,
                job_id,
                vstd::pervasive::arbitrary(),
            );
        }
        r
    }

    /// A job begins to fetch.
    pub fn start_job(&mut self, job_id: FetchJobId)
        ensures
            final(self)@ == match lookup(old(self)@.jobs, job_id) {
                Some(j) => old(self)@.with_job(
                    job_id,
                    JobView { status: JobStatusView::InProgress, ..j },
                ),
                None => old(self)@,
            },
    {
        if let Some(job) = self.job_mut(job_id) {
            job.start();
        }
    }

    /// A job has come this far.
    pub fn update_job_progress(&mut self, job_id: FetchJobId, progress: FetchJobProgress)
        ensures
            final(self)@ == match lookup(old(self)@.jobs, job_id) {
                Some(j) => old(self)@.with_job(job_id, JobView { progress, ..j }),
                None => old(self)@,
            },
    {
        if let Some(job) = self.job_mut(job_id) {
            job.update_progress(progress);
        }
    }

    /// A job is done. Its range counts as complete, or as empty where a candle or open interest
    /// job brought nothing.
    pub fn complete_job(&mut self, job_id: FetchJobId, records: usize)
        ensures
            final(self)@ == old(self)@.with_completed(job_id, records),
    {
        let (key, range) = match self.job(job_id) {
            Some(job) => (job.key.clone(), job.range),
            None => return,
        };
        if let Some(job) = self.job_mut(job_id) {
            job.complete(records);
        }
        if records == 0 && !key.kind.is_trades() {
            self.coverage.mark_empty(key, range);
        } else {
            self.coverage.mark_complete(key, range, records);
        }
        assert(self@ =~= old(self)@.with_completed(job_id, records));
    }

    /// Takes a job out.
    pub fn remove_job(&mut self, job_id: FetchJobId) -> (r: Option<FetchJob>)
        ensures
            final(self)@ == old(self)@.without_job(job_id),
            match r {
                Some(j) => lookup(old(self)@.jobs, job_id) == Some(j@),
                None => lookup(old(self)@.jobs, job_id) is None,
            },
    {
        let ghost before = *self;
        let removed = self.jobs.remove(job_id);
        proof {
            lemma_mapped(
                before.jobs@,
                |j: FetchJob| j@,
                job_id,
                vstd::pervasive::arbitrary(),
            );
        }
        let ghost keep = not_job(job_id);
        let ghost queue = self.job_queue@;
        let mut kept: VecDeque<FetchJobId> = VecDeque::new();
        let n: usize = self.job_queue.len();
        let mut i: usize = 0;
        assert(queue.take(0).filter(keep) =~= Seq::<FetchJobId>::empty());
        while i < n
            invariant
                i <= n == self.job_queue@.len(),
                queue == self.job_queue@,
                keep == not_job(job_id),
                kept@ == queue.take(i as int).filter(keep),
            decreases n - i,
        {
            proof {
                lemma_filter_take(queue, i as int, keep);
            }
            let q = self.job_queue[i];
            if q != job_id {
                kept.push_back(q);
            }
            i = i + 1;
        }
        assert(queue.take(i as int) =~= queue);
        self.job_queue = kept;
        assert(self@ =~= before@.without_job(job_id));
        removed
    }

    /// A job is done and goes.
    pub fn complete_and_remove_job(&mut self, job_id: FetchJobId, records: usize) -> (r: Option<
        FetchJob,
    >)
        ensures
            final(self)@ == old(self)@.with_completed(job_id, records).without_job(job_id),
            match r {
                Some(j) => lookup(old(self)@.with_completed(job_id, records).jobs, job_id) == Some(
                    j@,
                ),
                None => lookup(old(self)@.with_completed(job_id, records).jobs, job_id) is None,
            },
    {
        self.complete_job(job_id, records);
        self.remove_job(job_id)
    }

    /// A job found nothing and goes. Its range counts as empty.
    pub fn mark_empty_and_remove_job(&mut self, job_id: FetchJobId) -> (r: Option<FetchJob>)
        ensures
            final(self)@ == old(self)@.with_emptied(job_id).without_job(job_id),
            match r {
                Some(j) => lookup(old(self)@.jobs, job_id) == Some(j@),
                None => lookup(old(self)@.jobs, job_id) is None,
            },
    {
        let found = match self.job(job_id) {
            Some(job) => Some((job.key.clone(), job.range)),
            None => None,
        };
        if let Some((key, range)) = found {
            self.coverage.mark_empty(key, range);
        }
        assert(self@ =~= old(self)@.with_emptied(job_id));
        self.remove_job(job_id)
    }

    /// A job failed and goes. Its range counts as failed.
    pub fn fail_and_remove_job(
        &mut self,
        job_id: FetchJobId,
        error: String,
    ) -> (r: Option<FetchJob>)
        ensures
            final(self)@ == old(self)@.with_failure(job_id, error@).without_job(job_id),
            match lookup(old(self)@.jobs, job_id) {
                Some(j) => r matches Some(f) && j.failed_sometime(error@, f@),
                None => r is None,
            },
    {
        let ghost before = self@;
        self.fail_job(job_id, error);
        let ghost mid = self@;
        proof {
            if let Some(j) = lookup(before.jobs, job_id) {
                let f = choose|f: JobView|
                    j.failed_sometime(error@, f) && mid == (#[trigger] before.with_job(
                        job_id,
                        f,
                    )).with_mark(j.key, failed_entry(j.range, error@, None));
                lemma_put_lookup(before.jobs, job_id, f);
                crate::id_table::lemma_without_put(before.jobs, job_id, f);
                assert(mid.without_job(job_id) =~= before.with_failure(
                    job_id,
                    error@,
                ).without_job(job_id));
            }
        }
        self.remove_job(job_id)
    }

    /// A job failed. Its range counts as failed.
    pub fn fail_job(&mut self, job_id: FetchJobId, error: String)
        ensures
            old(self)@.failed_job(job_id, error@, final(self)@),
    {
        let ghost before = self@;
        let (key, range) = match self.job(job_id) {
            Some(job) => (job.key.clone(), job.range),
            None => return,
        };
        let ghost mut f: JobView = vstd::pervasive::arbitrary();
        if let Some(job) = self.job_mut(job_id) {
            job.fail(error.clone());
            proof {
                f = job@;
            }
        }
        self.coverage.mark_failed(key, range, error, None);
        proof {
            let j = lookup(before.jobs, job_id)->Some_0;
            assert(j.failed_sometime(error@, f));
            assert(self@ =~= before.with_job(job_id, f).with_mark(
                j.key,
                failed_entry(j.range, error@, None),
            ));
        }
    }

    /// A job is no longer wanted.
    pub fn cancel_job(&mut self, job_id: FetchJobId)
        ensures
            final(self)@ == match lookup(old(self)@.jobs, job_id) {
                Some(j) => old(self)@.with_job(
                    job_id,
                    JobView { status: JobStatusView::Cancelled, ..j },
                ),
                None => old(self)@,
            },
    {
        if let Some(job) = self.job_mut(job_id) {
            job.cancel();
        }
    }

    /// Stores trades.
    pub fn feed_trades(&mut self, key: &MarketDataKey, trades: &[Trade])
        ensures
            final(self)@ == (CoordinatorView {
                store: old(self)@.store.with_trades(key@, trades@),
                ..old(self)@
            }),
    {
        self.store.insert_trades(key, trades);
    }

    /// Stores candles.
    pub fn feed_klines(&mut self, key: &MarketDataKey, klines: &[Kline])
        ensures
            final(self)@ == (CoordinatorView {
                store: old(self)@.store.with_klines(key@, klines@),
                ..old(self)@
            }),
    {
        self.store.insert_klines(key, klines);
    }

    /// Stores open interest.
    pub fn feed_open_interest(&mut self, key: &MarketDataKey, oi: &[OpenInterest])
        ensures
            final(self)@ == (CoordinatorView {
                store: old(self)@.store.with_open_interest(key@, oi@),
                ..old(self)@
            }),
    {
        self.store.insert_open_interest(key, oi);
    }

    /// The latest end of anything complete.
    fn covered_until(&self) -> (t: Option<UnixMs>)
        ensures
            latest_anywhere(self@.facts, t),
    {
        let keys = self.coverage.keys();
        let ghost order = self.coverage.order();
        let ghost facts = self.coverage.facts();
        let mut best: Option<UnixMs> = None;
        let mut i: usize = 0;
        while i < keys.len()
            invariant
                i <= keys@.len(),
                facts == self.coverage.facts(),
                order == keys@.map_values(|k: MarketDataKey| k@),
                forall|k: KeyView|
                    #![trigger order.contains(k)]
                    #![trigger facts.contains_key(k)]
                    order.contains(k) <==> facts.contains_key(k),
                match best {
                    Some(t) => {
                        &&& exists|k: KeyView|
                            facts.contains_key(k) && #[trigger] latest_of(facts[k]) == Some(t)
                        &&& forall|j: int|
                            0 <= j < i ==> (latest_of(facts[#[trigger] order[j]]) matches Some(u)
                                ==> u.0 <= t.0)
                    },
                    None => forall|j: int|
                        0 <= j < i ==> latest_of(facts[#[trigger] order[j]]) is None,
                },
            decreases keys@.len() - i,
        {
            let latest = self.coverage.latest_covered_to(&keys[i]);
            proof {
                assert(order[i as int] == keys@[i as int]@);
                assert(order.contains(order[i as int]));
                assert(rows(facts, order[i as int]) == facts[order[i as int]]);
            }
            if let Some(u) = latest {
                assert(latest_of(facts[order[i as int]]) == Some(u));
                best = match best {
                    Some(t) => Some(t.later_of(u)),
                    None => Some(u),
                };
            }
            i = i + 1;
        }
        proof {
            assert forall|k: KeyView| #[trigger] facts.contains_key(k) implies exists|j: int|
                0 <= j < order.len() && #[trigger] order[j] == k by {
                assert(order.contains(k));
            }
            match best {
                Some(t) => {
                    assert forall|k: KeyView|
                        #![trigger facts[k]]
                        facts.contains_key(k) implies (latest_of(facts[k]) matches Some(u) ==> u.0
                        <= t.0) by {
                        let j = choose|j: int| 0 <= j < order.len() && #[trigger] order[j] == k;
                        assert(order[j] == k);
                    }
                },
                None => {
                    assert forall|k: KeyView|
                        #![trigger facts[k]]
                        facts.contains_key(k) implies latest_of(facts[k]) is None by {
                        let j = choose|j: int| 0 <= j < order.len() && #[trigger] order[j] == k;
                        assert(order[j] == k);
                    }
                },
            }
        }
        best
    }

    /// What is loading, for display.
    pub fn progress_snapshot(&self) -> (s: MarketDataProgressSnapshot)
        ensures
            latest_anywhere(self@.facts, s@.covered_until),
            s@ == self@.progress(s@.covered_until),
    {
        let mut snapshot = MarketDataProgressSnapshot::empty();
        snapshot.active_jobs = self.active_jobs();
        snapshot.total_cached_records = self.total_cached_records_served;
        snapshot.total_fetched_records = self.total_fetched_records_received;
        snapshot.covered_until = self.covered_until();
        if snapshot.is_loading() {
            let mut message = String::from_str("Loading ");
            push_decimal(&mut message, snapshot.active_job_count() as u64);
            message.append(" segments");
            snapshot.message = message;
        }
        snapshot
    }

    /// Records that the exchange has nothing in a range.
    pub fn mark_empty(&mut self, key: &MarketDataKey, range: MarketDataRange)
        ensures
            final(self)@ == old(self)@.with_mark(key@, empty_entry(range)),
    {
        self.coverage.mark_empty(key.clone(), range);
    }

    /// Records that a range was fetched in full.
    pub fn mark_complete(&mut self, key: &MarketDataKey, range: MarketDataRange, count: usize)
        ensures
            final(self)@ == old(self)@.with_mark(key@, complete_entry(range, count)),
    {
        self.coverage.mark_complete(key.clone(), range, count);
    }

    /// Records that a range has to be fetched anew.
    pub fn mark_stale(&mut self, key: &MarketDataKey, range: MarketDataRange, reason: &str)
        ensures
            final(self)@ == old(self)@.with_mark(
                key@,
                crate::market_data::coverage::stale_entry(range, reason@),
            ),
    {
        self.coverage.mark_stale(key.clone(), range, reason);
    }

    /// Takes over what is known to be covered.
    pub fn set_coverage(&mut self, coverage: CoverageLedger)
        ensures
            final(self)@ == (CoordinatorView { facts: coverage.facts(), ..old(self)@ }),
    {
        self.coverage = coverage;
    }

    /// The store.
    pub fn store_ref(&self) -> (store: &MarketDataStore)
        ensures
            store@ == self@.store,
    {
        &self.store
    }

    /// The ledger.
    pub fn coverage_ref(&self) -> (coverage: &CoverageLedger)
        ensures
            coverage.facts() == self@.facts,
    {
        &self.coverage
    }

    /// The store, to be changed.
    pub fn store_mut(&mut self) -> (store: &mut MarketDataStore)
        ensures
            store@ == old(self)@.store,
            final(self)@ == (CoordinatorView { store: final(store)@, ..old(self)@ }),
    {
        &mut self.store
    }

    /// Counts records that came from the cache.
    pub fn record_cache_served(&mut self, records: usize)
        ensures
            final(self)@ == (CoordinatorView {
                cached_served: crate::market_data::coverage::clamp_usize(
                    (old(self)@.cached_served + records) as nat,
                ),
                ..old(self)@
            }),
    {
        self.total_cached_records_served = self.total_cached_records_served.saturating_add(records);
    }

    /// Counts records that came from the network.
    pub fn record_network_fetched(&mut self, records: usize)
        ensures
            final(self)@ == (CoordinatorView {
                fetched_received: crate::market_data::coverage::clamp_usize(
                    (old(self)@.fetched_received + records) as nat,
                ),
                ..old(self)@
            }),
    {
        self.total_fetched_records_received = self.total_fetched_records_received.saturating_add(
            records,
        );
    }

    /// The ranges of one stream that active jobs fetch.
    pub fn active_ranges_for_key(&self, key: &MarketDataKey) -> (r: Vec<MarketDataRange>)
        ensures
            r@ == ranges_for(active_stretches(self@.jobs), key@),
    {
        let pairs = self.active_pairs();
        busy_ranges(&pairs, key)
    }

    /// The parts of a range that no active job fetches.
    pub fn subtract_active_jobs(&self, key: &MarketDataKey, range: MarketDataRange) -> (r: Vec<
        MarketDataRange,
    >)
        ensures
            r@ == missing(range, ranges_for(active_stretches(self@.jobs), key@)),
    {
        let busy = self.active_ranges_for_key(key);
        compute_missing(range, busy.as_slice())
    }

    /// True when one active job fetches all of a range.
    pub fn has_active_job_for(&self, key: &MarketDataKey, range: &MarketDataRange) -> (r: bool)
        ensures
            r == exists|i: int|
                0 <= i < self@.jobs.len() && (#[trigger] self@.jobs[i]).1.status.active()
                    && self@.jobs[i].1.key == key@ && self@.jobs[i].1.range.encloses(*range),
    {
        let n: usize = self.jobs.len();
        let ghost all = self@.jobs;
        let mut i: usize = 0;
        while i < n
            invariant
                i <= n == self.jobs@.len(),
                all == job_rows(self.jobs@),
                forall|j: int|
                    0 <= j < i ==> !((#[trigger] all[j]).1.status.active() && all[j].1.key == key@
                        && all[j].1.range.encloses(*range)),
            decreases n - i,
        {
            let job = self.jobs.value_at(i);
            assert(all[i as int].1 == job@);
            if job.status.is_active() && job.key.same(key) && job.range.contains(range) {
                return true;
            }
            i = i + 1;
        }
        false
    }

    /// Drops jobs that ended and are older than `retention_ms` at `now`.
    pub fn cleanup_jobs_at(&mut self, now: u64, retention_ms: u64)
        ensures
            final(self)@ == (CoordinatorView {
                jobs: retained(old(self)@.jobs, now, retention_ms),
                ..old(self)@
            }),
    {
        let ghost start = self@;
        let n: usize = self.jobs.len();
        let ghost all = self@.jobs;
        let ghost keep = |row: (FetchJobId, JobView)|
            row.1.status.active() || now - row.1.created_at <= retention_ms;
        let mut table: IdTable<FetchJob> = IdTable::new();
        let mut i: usize = 0;
        assert(all.take(0).filter(keep) =~= Seq::<(FetchJobId, JobView)>::empty());
        assert(job_rows(table@) =~= all.take(0).filter(keep));
        while i < n
            invariant
                i <= n == self.jobs@.len(),
                self@ == start,
                all == job_rows(self.jobs@),
                ids_distinct(self.jobs@),
                keep == (|row: (FetchJobId, JobView)|
                    row.1.status.active() || now - row.1.created_at <= retention_ms),
                job_rows(table@) == all.take(i as int).filter(keep),
                forall|k: int|
                    0 <= k < table@.len() ==> exists|j: int|
                        0 <= j < i && (#[trigger] self.jobs@[j]).0 == (#[trigger] table@[k]).0,
            decreases n - i,
        {
            let id = self.jobs.id_at(i);
            let job = self.jobs.value_at(i);
            proof {
                lemma_filter_take(all, i as int, keep);
                assert(all[i as int] == (id, job@));
            }
            if job.status.is_active() || now.saturating_sub(job.created_at) <= retention_ms {
                let copy = job.clone();
                let ghost before = table@;
                table.insert(id, copy);
                proof {
                    assert(!holds(before, id)) by {
                        if holds(before, id) {
                            let k = choose|k: int|
                                0 <= k < before.len() && (#[trigger] before[k]).0 == id;
                            let j = choose|j: int|
                                0 <= j < i && (#[trigger] self.jobs@[j]).0 == before[k].0;
                            assert(self.jobs@[j].0 != self.jobs@[i as int].0);
                        }
                    }
                    assert(table@ == before.push((id, copy)));
                    assert(job_rows(table@) =~= job_rows(before).push((id, copy@)));
                    assert forall|k: int| 0 <= k < table@.len() implies exists|j: int|
                        0 <= j < i + 1 && (#[trigger] self.jobs@[j]).0 == (#[trigger] table@[k]).0 by {
                        if k < before.len() {
                            assert(table@[k] == before[k]);
                            let j = choose|j: int|
                                0 <= j < i && (#[trigger] self.jobs@[j]).0 == before[k].0;
                            assert(self.jobs@[j].0 == table@[k].0);
                        } else {
                            assert(self.jobs@[i as int].0 == table@[k].0);
                        }
                    }
                }
            } else {
                proof {
                    assert forall|k: int| 0 <= k < table@.len() implies exists|j: int|
                        0 <= j < i + 1 && (#[trigger] self.jobs@[j]).0 == (#[trigger] table@[k]).0 by {
                        let j = choose|j: int|
                            0 <= j < i && (#[trigger] self.jobs@[j]).0 == table@[k].0;
                        assert(self.jobs@[j].0 == table@[k].0);
                    }
                }
            }
            i = i + 1;
        }
        assert(all.take(i as int) =~= all);
        self.jobs = table;
    }

    /// Drops jobs that ended and are older than `retention_ms` by now.
    pub fn cleanup_jobs(&mut self, retention_ms: u64)
        ensures
            exists|now: u64|
                final(self)@ == (CoordinatorView {
                    jobs: #[trigger] retained(old(self)@.jobs, now, retention_ms),
                    ..old(self)@
                }),
    {
        let now = UnixMs::now();
        self.cleanup_jobs_at(now.0, retention_ms);
        assert(self@.jobs == retained(old(self)@.jobs, now.0, retention_ms));
    }

    /// Volume bubbles from the stored trades of a range, if there are any.
    pub fn compute_bubble_summaries(
        &self,
        key: &MarketDataKey,
        range: &MarketDataRange,
        timeframe_ms: u64,
        price_step: PriceStep,
        max_candidates_per_candle: usize,
    ) -> (r: Option<Vec<BubbleVolumeSummary>>)
        requires
            timeframe_ms > 0 || within(rows_at(self@.store.trades, key@), *range).len() == 0,
        ensures
            match r {
                Some(s) => within(rows_at(self@.store.trades, key@), *range).len() > 0
                    && summary_views(s@) == summarized(
                    within(rows_at(self@.store.trades, key@), *range),
                    timeframe_ms,
                    price_step,
                    max_candidates_per_candle as nat,
                ),
                None => within(rows_at(self@.store.trades, key@), *range).len() == 0,
            },
    {
        let trades = self.store.query_trades(key, range);
        if trades.len() == 0 {
            return None;
        }
        Some(
            compute_bubble_summaries(
                trades.as_slice(),
                timeframe_ms,
                price_step,
                max_candidates_per_candle,
            ),
        )
    }

    /// The plan.
    pub fn plan_ref(&self) -> (p: Option<&DataLoadPlan>)
        ensures
            match p {
                Some(p) => self@.plan == Some(p@),
                None => self@.plan is None,
            },
    {
        match &self.plan {
            Some(p) => Some(p),
            None => None,
        }
    }

    /// True when needs wait to be planned.
    pub fn has_pending_requirements(&self) -> (r: bool)
        ensures
            r == (self@.pending.len() > 0),
    {
        self.pending_requirements.len() > 0
    }

    /// The number of active jobs.
    pub fn active_job_count(&self) -> (n: usize)
        ensures
            n == active_of(self@.jobs).len(),
    {
        let pairs = self.active_pairs();
        assert(stretches_of(pairs@).len() == pairs@.len());
        pairs.len()
    }

    /// The active jobs.
    pub fn active_jobs(&self) -> (r: Vec<FetchJob>)
        ensures
            job_views(r@) == active_of(self@.jobs).map_values(
                |row: (FetchJobId, JobView)| row.1,
            ),
    {
        let n: usize = self.jobs.len();
        let ghost all = self@.jobs;
        let ghost f = |row: (FetchJobId, JobView)| row.1;
        let mut out: Vec<FetchJob> = Vec::new();
        let mut i: usize = 0;
        assert(all.take(0).filter(is_active()) =~= Seq::<(FetchJobId, JobView)>::empty());
        assert(job_views(out@) =~= active_of(all.take(0)).map_values(f));
        while i < n
            invariant
                i <= n == self.jobs@.len(),
                all == job_rows(self.jobs@),
                f == (|row: (FetchJobId, JobView)| row.1),
                job_views(out@) == active_of(all.take(i as int)).map_values(f),
            decreases n - i,
        {
            let job = self.jobs.value_at(i);
            proof {
                lemma_active_map_take(self.jobs@, i as int);
            }
            if job.status.is_active() {
                let ghost before = out@;
                let copy = job.clone();
                out.push(copy);
                assert(job_views(out@) =~= job_views(before).push(copy@));
            }
            assert(job_views(out@) =~= active_of(all.take(i + 1)).map_values(f));
            i = i + 1;
        }
        assert(all.take(i as int) =~= all);
        out
    }

    /// The state in one line of text.
    pub fn log_state(&self) -> (s: String)
        ensures
            exists|sum: StoreSummary|
                sums_up_store(sum, self@.store) && s@ == "jobs="@ + decimal(self@.jobs.len())
                    + " pending_requirements="@ + decimal(self@.pending.len())
                    + " coverage_keys="@ + decimal(self@.facts.len()) + " store="@
                    + #[trigger] sum.text(),
    {
        let mut s = String::from_str("jobs=");
        push_decimal(&mut s, self.jobs.len() as u64);
        s.append(" pending_requirements=");
        push_decimal(&mut s, self.pending_requirements.len() as u64);
        s.append(" coverage_keys=");
        push_decimal(&mut s, self.coverage.len() as u64);
        s.append(" store=");
        let sum = self.store.summary();
        s.append(sum.format().as_str());
        assert(sums_up_store(sum, self@.store) && s@ == "jobs="@ + decimal(self@.jobs.len())
            + " pending_requirements="@ + decimal(self@.pending.len()) + " coverage_keys="@
            + decimal(self@.facts.len()) + " store="@ + sum.text());
        s
    }
}

/// A row that was set is found.
pub proof fn lemma_put_lookup<T>(jobs: Seq<(FetchJobId, T)>, id: FetchJobId, v: T)
    ensures
        lookup(put(jobs, id, v), id) == Some(v),
{
    let out = put(jobs, id, v);
    if holds(jobs, id) {
        let i = choose|i: int| 0 <= i < jobs.len() && (#[trigger] jobs[i]).0 == id;
        assert(out[i].0 == id);
    } else {
        assert(out[jobs.len() as int].0 == id);
    }
    let k = choose|k: int| 0 <= k < out.len() && (#[trigger] out[k]).0 == id;
    if holds(jobs, id) {
        assert(out[k] == if jobs[k].0 == id {
            (id, v)
        } else {
            jobs[k]
        });
    } else {
        if k < jobs.len() {
            assert(jobs[k].0 == id);
        }
    }
}

} // verus!
