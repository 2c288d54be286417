//! The state of the runtime as a value, and what each step makes of it.

use vstd::prelude::*;
use crate::connector::fetcher::{range_between, FetchRange, FetchedView};
use crate::id_table::{lookup, without};
use crate::ids::Uuid;
use crate::market::{Kline, StreamView, TickerView, Trade};
use crate::market_data::bridge::{key_fetched, key_streamed, range_fetched};
use crate::market_data::consumer::{BubbleConsumerConfig, ConsumerView};
use crate::market_data::coordinator::{active_of, CoordinatorView, Jobs};
use crate::market_data::coverage::{clamp_usize, complete_entry, empty_entry};
use crate::market_data::derived::bubbles::{summarized, SummaryView};
use crate::market_data::effect::{CommandView, DispatchView, EffectView};
use crate::market_data::job::{FetchJobId, FetchJobProgress, JobView};
use crate::market_data::key::{KeyView, MarketDataKind};
use crate::market_data::live::LiveView;
use crate::market_data::range::MarketDataRange;
use crate::market_data::series::{within, Timed};
use crate::market_data::store::{rows_at, StoreView};
use crate::time::{earlier, Timeframe, UnixMs};

verus! {

/// The stretch at the end of a fetch that is known to hold nothing.
pub type Tail = Option<(UnixMs, UnixMs)>;

/// The state of the runtime.
#[verifier::ext_equal]
pub struct RuntimeView {
    pub coordinator: CoordinatorView,
    pub live: LiveView,
    /// When the coverage was last saved, in milliseconds of some clock.
    pub last_coverage_save: u64,
    /// The requests that wait, in the order in which they came.
    pub consumers: Seq<ConsumerView>,
    /// The job behind each request to a worker.
    pub worker_jobs: Seq<(Uuid, FetchJobId)>,
    /// The request to a worker behind each job.
    pub job_workers: Seq<(FetchJobId, Uuid)>,
    /// The waiting requests that each job serves.
    pub job_consumers: Seq<(FetchJobId, Seq<Uuid>)>,
    /// The changes to the cache that are due.
    pub commands: Seq<CommandView>,
}

/// A step of the runtime: the state after it, and the changes to the charts.
#[verifier::ext_equal]
pub struct StepView {
    pub state: RuntimeView,
    pub effects: Seq<EffectView>,
}

/// What an answer of a worker comes to: also whether it was one of the runtime's own.
#[verifier::ext_equal]
pub struct OutcomeView {
    pub state: RuntimeView,
    pub handled: bool,
    pub effects: Seq<EffectView>,
}

/// How the request to a worker ended.
#[derive(Debug, Clone, Copy, PartialEq, Eq, Structural)]
pub enum WorkerCompletionKind {
    /// Its job has data.
    Completed,
    /// Its job has no data.
    Empty,
    /// Its job is gone.
    MissingJob,
}

/// A job that ended.
#[verifier::ext_equal]
pub struct CompletionView {
    pub job_id: FetchJobId,
    pub job: JobView,
    pub consumer_ids: Seq<Uuid>,
    pub records: usize,
}

/// The end of a request to a worker.
#[verifier::ext_equal]
pub struct FinishView {
    pub state: RuntimeView,
    pub kind: WorkerCompletionKind,
    pub completion: Option<CompletionView>,
}

/// Records that went into the store: of which stream and range, and how many.
#[verifier::ext_equal]
pub struct StoredView {
    pub state: RuntimeView,
    pub key: KeyView,
    pub range: MarketDataRange,
    pub record_count: usize,
}

/// The place of the first request with an identifier, or the number of requests.
pub open spec fn place_of(cs: Seq<ConsumerView>, id: Uuid) -> int
    decreases cs.len(),
{
    if cs.len() == 0 || cs[0].req_id == id {
        0
    } else {
        1 + place_of(cs.skip(1), id)
    }
}

/// The first request with an identifier.
pub open spec fn consumer_at(cs: Seq<ConsumerView>, id: Uuid) -> Option<ConsumerView> {
    if place_of(cs, id) < cs.len() {
        Some(cs[place_of(cs, id)])
    } else {
        None
    }
}

/// The requests with `c` in place of the first one that has an identifier.
pub open spec fn replaced(cs: Seq<ConsumerView>, id: Uuid, c: ConsumerView) -> Seq<ConsumerView> {
    if place_of(cs, id) < cs.len() {
        cs.update(place_of(cs, id), c)
    } else {
        cs
    }
}

/// True for a request that asks for a part of a range of a stream.
pub open spec fn wanting(key: KeyView, range: MarketDataRange) -> spec_fn(ConsumerView) -> bool {
    |c: ConsumerView| c.wants(key, range)
}

/// True for a request that is not done with, or of which something is still to come.
pub open spec fn unfinished() -> spec_fn(ConsumerView) -> bool {
    |c: ConsumerView| !c.completed || c.open_gaps().len() > 0
}

/// True for a request that is not both done with and part of a range of a stream.
pub open spec fn unfinished_in(key: KeyView, range: MarketDataRange) -> spec_fn(
    ConsumerView,
) -> bool {
    |c: ConsumerView| !(c.completed && c.open_gaps().len() == 0 && c.wants(key, range))
}

/// The bubbles of a request. There are none where there are no trades.
pub open spec fn bubbles_for(
    store: StoreView,
    c: ConsumerView,
    cfg: BubbleConsumerConfig,
) -> Option<Seq<SummaryView>> {
    let trades = within(rows_at(store.trades, c.key), c.range);
    if trades.len() == 0 {
        None
    } else {
        Some(
            summarized(
                trades,
                cfg.timeframe_ms,
                cfg.price_step,
                cfg.max_candidates_per_candle as nat,
            ),
        )
    }
}

/// The identifiers of the active jobs for which `p` holds.
pub open spec fn active_ids(jobs: Jobs, p: spec_fn(JobView) -> bool) -> Seq<FetchJobId> {
    active_of(jobs).filter_map(
        |row: (FetchJobId, JobView)|
            if p(row.1) {
                Some(row.1.id)
            } else {
                None
            },
    )
}

/// True for a job that fetches a whole range of a stream.
pub open spec fn fetching_all(key: KeyView, range: MarketDataRange) -> spec_fn(JobView) -> bool {
    |j: JobView| j.key == key && j.range.encloses(range)
}

/// True for a job that fetches a part of a range of a stream.
pub open spec fn fetching_some(key: KeyView, range: MarketDataRange) -> spec_fn(JobView) -> bool {
    |j: JobView| j.key == key && j.range.crosses(range)
}

/// True for an active job that is older than a limit and has fetched nothing.
pub open spec fn stuck(now_ms: u64, stale_after_ms: u64) -> spec_fn(JobView) -> bool {
    |j: JobView|
        age_of(j, now_ms) >= stale_after_ms && j.progress.records_fetched == 0
}

/// How long ago a job was created.
pub open spec fn age_of(j: JobView, now_ms: u64) -> int {
    if now_ms >= j.created_at {
        now_ms - j.created_at
    } else {
        0
    }
}

/// The jobs with more records counted for each of some jobs.
pub open spec fn with_records(c: CoordinatorView, ids: Seq<FetchJobId>, n: usize) -> CoordinatorView
    decreases ids.len(),
{
    if ids.len() == 0 {
        c
    } else {
        let front = with_records(c, ids.drop_last(), n);
        match lookup(front.jobs, ids.last()) {
            Some(j) => front.with_job(
                ids.last(),
                JobView {
                    progress: FetchJobProgress {
                        records_fetched: clamp_usize((j.progress.records_fetched + n) as nat),
                        ..j.progress
                    },
                    ..j
                },
            ),
            None => front,
        }
    }
}

/// The coordinator after several jobs ended without records.
pub open spec fn with_each_completed(c: CoordinatorView, ids: Seq<FetchJobId>) -> CoordinatorView
    decreases ids.len(),
{
    if ids.len() == 0 {
        c
    } else {
        with_each_completed(c, ids.drop_last()).with_completed(ids.last(), 0)
    }
}

/// The earliest time of some trades.
pub open spec fn earliest_trade(s: Seq<Trade>) -> Option<UnixMs>
    decreases s.len(),
{
    if s.len() == 0 {
        None
    } else {
        match earliest_trade(s.drop_last()) {
            Some(t) => Some(earlier(t, s.last().time)),
            None => Some(s.last().time),
        }
    }
}

/// A time and the next millisecond, as far as there is one.
pub open spec fn just_after(t: UnixMs) -> UnixMs {
    UnixMs(
        if t.0 < u64::MAX {
            (t.0 + 1) as u64
        } else {
            u64::MAX
        },
    )
}

/// The range that some trades lie in.
pub open spec fn range_of_trades(s: Seq<Trade>) -> Option<MarketDataRange> {
    match (earliest_trade(s), crate::market_data::live::latest_seen(None, s)) {
        (Some(from), Some(last)) => range_between(from, just_after(last)),
        _ => None,
    }
}

/// The range from the first to the last of some records.
pub open spec fn range_of_rows<T: Timed>(s: Seq<T>) -> Option<MarketDataRange> {
    if s.len() == 0 {
        None
    } else {
        range_between(s[0].at(), just_after(s.last().at()))
    }
}

/// The stream that an answer belongs to.
pub open spec fn key_answered(stream: StreamView, data: FetchedView) -> Option<KeyView> {
    match data {
        FetchedView::Trades { .. } => key_streamed(stream),
        FetchedView::Klines { .. } => key_streamed(stream),
        FetchedView::OI { .. } => match stream {
            StreamView::Kline { ticker, timeframe } => KeyView::of_ticker(
                ticker,
                MarketDataKind::OpenInterest { timeframe },
            ),
            _ => None,
        },
        FetchedView::BubbleSummary { .. } => None,
    }
}

/// An answer without what lies outside the range of its job.
pub open spec fn trimmed(data: FetchedView, job: Option<JobView>) -> FetchedView {
    match (job, data) {
        (Some(j), FetchedView::Trades { batch, until_time, req_id }) => FetchedView::Trades {
            batch: within(batch, j.range),
            until_time: j.range.to,
            req_id,
        },
        (Some(j), FetchedView::Klines { data, req_id }) => FetchedView::Klines {
            data: within(data, j.range),
            req_id,
        },
        _ => data,
    }
}

/// How many records an answer holds that a job ends with: candles or readings.
pub open spec fn final_records(data: FetchedView) -> nat {
    match data {
        FetchedView::Klines { data, .. } => data.len(),
        FetchedView::OI { data, .. } => data.len(),
        _ => 0,
    }
}

/// True for an answer that ends its job: candles and readings come in one piece.
pub open spec fn ends_job(data: FetchedView) -> bool {
    data is Klines || data is OI
}

/// The first candle width among some streams.
pub open spec fn first_timeframe(s: Seq<StreamView>) -> Option<Timeframe>
    decreases s.len(),
{
    if s.len() == 0 {
        None
    } else {
        match s[0] {
            StreamView::Kline { timeframe, .. } => Some(timeframe),
            _ => first_timeframe(s.skip(1)),
        }
    }
}

/// The instrument of the first of some streams.
pub open spec fn first_ticker(s: Seq<StreamView>) -> Option<TickerView> {
    if s.len() == 0 {
        None
    } else {
        Some(s[0].ticker())
    }
}

/// The value of the first of two that has one.
pub open spec fn or_else<T>(a: Option<T>, b: Option<T>) -> Option<T> {
    match a {
        Some(x) => Some(x),
        None => b,
    }
}

/// The change to the charts for candles on their way to a request.
pub open spec fn klines_effect(
    c: ConsumerView,
    stream: StreamView,
    rows: Seq<Kline>,
) -> Option<EffectView> {
    match stream {
        StreamView::Kline { ticker, timeframe } if c.feature is ChartKlines => Some(
            EffectView::InsertKlinesPartial {
                consumer: c,
                stream: Some(stream),
                timeframe,
                ticker,
                rows,
            },
        ),
        _ => None,
    }
}

impl RuntimeView {
    /// The state of a runtime around a coordinator.
    pub open spec fn fresh(coordinator: CoordinatorView, now_ms: u64) -> RuntimeView {
        RuntimeView {
            coordinator,
            live: LiveView::fresh(true, 100),
            last_coverage_save: now_ms,
            consumers: Seq::empty(),
            worker_jobs: Seq::empty(),
            job_workers: Seq::empty(),
            job_consumers: Seq::empty(),
            commands: Seq::empty(),
        }
    }

    /// True when each step can be taken: the ranges of the coordinator can be rounded, and
    /// bubbles can be derived for each request.
    pub open spec fn wf(self) -> bool {
        &&& self.coordinator.wf()
        &&& forall|i: int| 0 <= i < self.consumers.len() ==> (#[trigger] self.consumers[i]).sound()
    }

    /// The state without any change.
    pub open spec fn still(self) -> StepView {
        StepView { state: self, effects: Seq::empty() }
    }

    /// The state with a change to the cache that is due.
    pub open spec fn commanding(self, c: CommandView) -> RuntimeView {
        RuntimeView { commands: self.commands.push(c), ..self }
    }

    /// The state with `c` in place of the first request that has an identifier.
    pub open spec fn altered(self, id: Uuid, c: ConsumerView) -> RuntimeView {
        RuntimeView { consumers: replaced(self.consumers, id, c), ..self }
    }

    /// The state after a segment was planned for a request.
    pub open spec fn planning(self, id: Uuid, segment: MarketDataRange) -> RuntimeView {
        match consumer_at(self.consumers, id) {
            Some(c) => self.altered(id, c.with_planned(segment)),
            None => self,
        }
    }

    /// The state after a segment was planned for several requests.
    pub open spec fn planning_each(self, ids: Seq<Uuid>, segment: MarketDataRange) -> RuntimeView
        decreases ids.len(),
    {
        if ids.len() == 0 {
            self
        } else {
            self.planning_each(ids.drop_last(), segment).planning(ids.last(), segment)
        }
    }

    /// The state after a segment of a request arrived.
    pub open spec fn arriving(self, id: Uuid, segment: MarketDataRange) -> RuntimeView {
        match consumer_at(self.consumers, id) {
            Some(c) => self.altered(id, c.with_arrived(segment)),
            None => self,
        }
    }

    /// The state after a segment was handed over to a request.
    pub open spec fn delivering(self, id: Uuid, segment: MarketDataRange) -> RuntimeView {
        match consumer_at(self.consumers, id) {
            Some(c) => self.altered(id, c.with_delivered(segment)),
            None => self,
        }
    }

    /// True when handing a segment over to a request adds anything.
    pub open spec fn delivers(self, id: Uuid, segment: MarketDataRange) -> bool {
        consumer_at(self.consumers, id) matches Some(c) && !c.was_delivered(segment)
    }

    /// The state after a request is done with.
    pub open spec fn finishing(self, id: Uuid) -> RuntimeView {
        match consumer_at(self.consumers, id) {
            Some(c) => self.altered(id, c.done()),
            None => self,
        }
    }

    /// The state after a part of the bubbles of a request was drawn.
    pub open spec fn beginning(self, id: Uuid) -> RuntimeView {
        match consumer_at(self.consumers, id) {
            Some(c) => self.altered(id, c.begun()),
            None => self,
        }
    }

    /// The state after a segment of a request failed.
    pub open spec fn failing(self, id: Uuid, segment: MarketDataRange) -> RuntimeView {
        match consumer_at(self.consumers, id) {
            Some(c) => self.altered(id, c.with_failed(segment)),
            None => self,
        }
    }

    /// The state after a segment of several requests failed.
    pub open spec fn failing_each(self, ids: Seq<Uuid>, segment: MarketDataRange) -> RuntimeView
        decreases ids.len(),
    {
        if ids.len() == 0 {
            self
        } else {
            self.failing_each(ids.drop_last(), segment).failing(ids.last(), segment)
        }
    }

    /// The state without requests that are done with and have nothing to come.
    pub open spec fn tidied(self) -> RuntimeView {
        RuntimeView { consumers: self.consumers.filter(unfinished()), ..self }
    }

    /// The state without requests for a part of a range that are done with and have nothing to
    /// come.
    pub open spec fn tidied_in(self, key: KeyView, range: MarketDataRange) -> RuntimeView {
        RuntimeView { consumers: self.consumers.filter(unfinished_in(key, range)), ..self }
    }

    /// The requests that ask for a part of a range.
    pub open spec fn wanting(self, key: KeyView, range: MarketDataRange) -> Seq<ConsumerView> {
        self.consumers.filter(wanting(key, range))
    }

    /// The identifiers of the requests that a job serves.
    pub open spec fn served_by(self, job_id: FetchJobId) -> Seq<Uuid> {
        match lookup(self.job_consumers, job_id) {
            Some(ids) => ids,
            None => Seq::empty(),
        }
    }

    /// The requests that a job serves and that still wait.
    pub open spec fn waiting_for(self, job_id: FetchJobId) -> Seq<ConsumerView> {
        self.served_by(job_id).filter_map(|id: Uuid| consumer_at(self.consumers, id))
    }

    /// The job behind a request to a worker.
    pub open spec fn job_for(self, worker_req: Uuid) -> Option<(FetchJobId, JobView)> {
        match lookup(self.worker_jobs, worker_req) {
            Some(job_id) => match lookup(self.coordinator.jobs, job_id) {
                Some(j) => Some((job_id, j)),
                None => None,
            },
            None => None,
        }
    }

    /// The state without any trace of a request to a worker and its job.
    pub open spec fn forgetting(self, worker_req: Uuid, job_id: FetchJobId) -> RuntimeView {
        RuntimeView {
            worker_jobs: without(self.worker_jobs, worker_req),
            job_workers: without(self.job_workers, job_id),
            job_consumers: without(self.job_consumers, job_id),
            ..self
        }
    }

    /// What becomes of a request that has all that it needs.
    pub open spec fn completing(self, c: ConsumerView, tail: Tail) -> StepView {
        if c.feature is VolumeBubbles {
            match c.config() {
                Some(cfg) => match bubbles_for(self.coordinator.store, c, cfg) {
                    Some(summaries) => StepView {
                        state: self.finishing(c.req_id),
                        effects: seq![
                            EffectView::InsertBubbleSummaries {
                                consumer: c,
                                summaries,
                                range: c.range,
                                trades_seen: 0,
                                raw_discarded: 0,
                                complete: true,
                            },
                        ],
                    },
                    None => self.still(),
                },
                None => self.still(),
            }
        } else {
            StepView {
                state: self.finishing(c.req_id),
                effects: seq![
                    EffectView::CompleteConsumer { consumer: c, empty_covered_tail: tail },
                ],
            }
        }
    }

    /// What becomes of several requests that have all that they need.
    pub open spec fn completing_each(self, cs: Seq<ConsumerView>, tail: Tail) -> StepView
        decreases cs.len(),
    {
        if cs.len() == 0 {
            self.still()
        } else {
            let front = self.completing_each(cs.drop_last(), tail);
            let next = front.state.completing(cs.last(), tail);
            StepView { state: next.state, effects: front.effects + next.effects }
        }
    }

    /// What becomes of a request when a segment of it arrived.
    pub open spec fn segment_done(
        self,
        id: Uuid,
        segment: MarketDataRange,
        tail: Tail,
    ) -> StepView {
        match consumer_at(self.consumers, id) {
            Some(c) => {
                let arrived = c.with_arrived(segment);
                if arrived.satisfied() {
                    self.arriving(id, segment).completing(arrived, tail)
                } else {
                    self.arriving(id, segment).still()
                }
            },
            None => self.still(),
        }
    }

    /// What becomes of several requests when a segment of them arrived.
    pub open spec fn segment_done_each(
        self,
        ids: Seq<Uuid>,
        segment: MarketDataRange,
        tail: Tail,
    ) -> StepView
        decreases ids.len(),
    {
        if ids.len() == 0 {
            self.still()
        } else {
            let front = self.segment_done_each(ids.drop_last(), segment, tail);
            let next = front.state.segment_done(ids.last(), segment, tail);
            StepView { state: next.state, effects: front.effects + next.effects }
        }
    }

    /// The end of a request to a worker. There is none where the runtime made no such request.
    pub open spec fn finished(self, worker_req: Uuid, tail: Tail) -> Option<FinishView> {
        match lookup(self.worker_jobs, worker_req) {
            None => None,
            Some(job_id) => match lookup(self.coordinator.jobs, job_id) {
                None => Some(
                    FinishView {
                        state: self.forgetting(worker_req, job_id),
                        kind: WorkerCompletionKind::MissingJob,
                        completion: None,
                    },
                ),
                Some(job) => {
                    let records = job.progress.records_fetched;
                    let empty = tail is Some || records == 0;
                    let coordinator = if empty {
                        self.coordinator.with_emptied(job_id).without_job(job_id)
                    } else {
                        self.coordinator.with_completed(job_id, records).without_job(job_id)
                    };
                    Some(
                        FinishView {
                            state: (RuntimeView { coordinator, ..self }).forgetting(
                                worker_req,
                                job_id,
                            ).tidied().commanding(CommandView::SaveCoverage),
                            kind: if empty {
                                WorkerCompletionKind::Empty
                            } else {
                                WorkerCompletionKind::Completed
                            },
                            completion: Some(
                                CompletionView {
                                    job_id,
                                    job,
                                    consumer_ids: self.served_by(job_id),
                                    records,
                                },
                            ),
                        },
                    )
                },
            },
        }
    }

    /// The end of a request to a worker, and what becomes of the requests that its job served.
    pub open spec fn finishing_worker(self, worker_req: Uuid, tail: Tail) -> Option<StepView> {
        match self.finished(worker_req, tail) {
            None => None,
            Some(f) => match f.completion {
                None => Some(
                    StepView { state: f.state, effects: seq![EffectView::ProgressSnapshot] },
                ),
                Some(done) => {
                    let step = f.state.segment_done_each(
                        done.consumer_ids,
                        done.job.range,
                        tail,
                    );
                    Some(
                        StepView {
                            state: step.state.tidied(),
                            effects: step.effects.push(EffectView::ProgressSnapshot),
                        },
                    )
                },
            },
        }
    }

    /// The same, where nothing happens if the runtime made no such request.
    pub open spec fn finishing_worker_if(self, worker_req: Uuid) -> StepView {
        match self.finishing_worker(worker_req, None) {
            Some(step) => step,
            None => self.still(),
        }
    }

    /// The state after a job failed and went, with the request to its worker.
    pub open spec fn failing_job(self, job_id: FetchJobId, reason: Seq<char>) -> RuntimeView {
        RuntimeView {
            coordinator: self.coordinator.with_failure(job_id, reason).without_job(job_id),
            worker_jobs: match lookup(self.job_workers, job_id) {
                Some(worker_req) => without(self.worker_jobs, worker_req),
                None => self.worker_jobs,
            },
            job_workers: without(self.job_workers, job_id),
            job_consumers: without(self.job_consumers, job_id),
            ..self
        }
    }

    /// The state after an answer that made no sense.
    pub open spec fn invalidating(self, worker_req: Uuid) -> RuntimeView {
        match lookup(self.worker_jobs, worker_req) {
            Some(job_id) => (RuntimeView {
                coordinator: self.coordinator.with_failure(
                    job_id,
                    "invalid_out_of_range_response"@,
                ).without_job(job_id),
                ..self
            }).forgetting(worker_req, job_id),
            None => self,
        }
    }

    /// The state after a request to a worker failed.
    pub open spec fn failing_worker(self, worker_req: Uuid, error: Seq<char>) -> RuntimeView {
        match lookup(self.worker_jobs, worker_req) {
            Some(job_id) => match lookup(self.coordinator.jobs, job_id) {
                Some(j) => self.failing_each(self.served_by(job_id), j.range).failing_job(
                    job_id,
                    error,
                ),
                None => self.failing_job(job_id, error),
            },
            None => self,
        }
    }

    /// The state after live trades came. They count as stored, not as covered.
    pub open spec fn hearing_trades(self, key: KeyView, buffer: Seq<Trade>) -> RuntimeView {
        RuntimeView {
            coordinator: CoordinatorView {
                store: self.coordinator.store.with_trades(key, buffer).with_trades(key, buffer),
                ..self.coordinator
            },
            live: self.live.with_trades(key, buffer, true).0,
            commands: match self.live.with_trades(key, buffer, true).1 {
                Some(batch) => self.commands.push(CommandView::StoreTrades { key, rows: batch }),
                None => self.commands,
            },
            ..self
        }
    }

    /// The state after live candles came. They count as stored, not as covered.
    pub open spec fn hearing_klines(self, key: KeyView, klines: Seq<Kline>) -> RuntimeView {
        RuntimeView {
            coordinator: CoordinatorView {
                store: self.coordinator.store.with_klines(key, klines),
                ..self.coordinator
            },
            live: self.live.with_klines(key, klines),
            commands: if klines.len() > 0 && self.live.persist {
                self.commands.push(CommandView::StoreKlines { key, rows: klines })
            } else {
                self.commands
            },
            ..self
        }
    }

    /// The state after a segment of a request failed for want of progress, and the request, if
    /// it has all that it needs all the same.
    pub open spec fn giving_up(self, id: Uuid, range: MarketDataRange) -> (
        RuntimeView,
        Option<ConsumerView>,
    ) {
        match consumer_at(self.consumers, id) {
            Some(c) => {
                let failed = if c.failed_segments.contains(range) {
                    c
                } else {
                    c.with_failed(range)
                };
                if failed.satisfied() {
                    (self.altered(id, failed).finishing(id), Some(failed))
                } else {
                    (self.altered(id, failed), None)
                }
            },
            None => (self, None),
        }
    }

    /// The same for several requests.
    pub open spec fn giving_up_each(self, ids: Seq<Uuid>, range: MarketDataRange) -> (
        RuntimeView,
        Seq<ConsumerView>,
    )
        decreases ids.len(),
    {
        if ids.len() == 0 {
            (self, Seq::empty())
        } else {
            let front = self.giving_up_each(ids.drop_last(), range);
            let next = front.0.giving_up(ids.last(), range);
            (
                next.0,
                match next.1 {
                    Some(c) => front.1.push(c),
                    None => front.1,
                },
            )
        }
    }

    /// The state after a fetch ended that no job of the coordinator stands behind.
    pub open spec fn closing(
        self,
        key: KeyView,
        range: MarketDataRange,
        tail: Tail,
    ) -> RuntimeView {
        let marked = self.coordinator.with_mark(
            key,
            if tail is Some {
                empty_entry(range)
            } else {
                complete_entry(range, 0)
            },
        );
        (RuntimeView {
            coordinator: with_each_completed(
                marked,
                active_ids(marked.jobs, fetching_some(key, range)),
            ),
            ..self
        }).commanding(CommandView::SaveCoverage)
    }

    /// The same, and what becomes of the requests for a part of the range.
    pub open spec fn closing_all(
        self,
        key: KeyView,
        range: MarketDataRange,
        tail: Tail,
    ) -> StepView {
        let closed = self.closing(key, range, tail);
        let step = closed.completing_each(closed.wanting(key, range), tail);
        StepView { state: step.state.tidied_in(key, range), effects: step.effects }
    }

    /// What becomes of trades on their way to a request.
    pub open spec fn trades_step(
        self,
        c: ConsumerView,
        trades: Seq<Trade>,
        range: MarketDataRange,
    ) -> StepView {
        if c.feature is Footprint || c.feature is TradeHydration {
            StepView {
                state: self,
                effects: seq![
                    EffectView::InsertTrades {
                        consumer: c,
                        stream: c.stream,
                        batch: trades,
                        until_time: range.to,
                    },
                ],
            }
        } else if c.feature is VolumeBubbles {
            match c.config() {
                Some(cfg) => match bubbles_for(self.coordinator.store, c, cfg) {
                    Some(summaries) => StepView {
                        state: self.beginning(c.req_id),
                        effects: seq![
                            EffectView::InsertBubbleSummaries {
                                consumer: c,
                                summaries,
                                range: c.range,
                                trades_seen: trades.len() as usize,
                                raw_discarded: 0,
                                complete: false,
                            },
                        ],
                    },
                    None => self.still(),
                },
                None => self.still(),
            }
        } else {
            self.still()
        }
    }

    /// The same for several requests.
    pub open spec fn trades_step_each(
        self,
        cs: Seq<ConsumerView>,
        trades: Seq<Trade>,
        range: MarketDataRange,
    ) -> StepView
        decreases cs.len(),
    {
        if cs.len() == 0 {
            self.still()
        } else {
            let front = self.trades_step_each(cs.drop_last(), trades, range);
            let next = front.state.trades_step(cs.last(), trades, range);
            StepView { state: next.state, effects: front.effects + next.effects }
        }
    }

    /// What becomes of cached records on their way to a request.
    pub open spec fn cached_step(self, c: ConsumerView, d: DispatchView) -> StepView {
        match d {
            DispatchView::Klines { key, range, timeframe, rows } => {
                if !(c.feature is ChartKlines) || !self.delivers(c.req_id, range) {
                    self.still()
                } else {
                    let delivered = self.delivering(c.req_id, range);
                    match c.stream {
                        Some(StreamView::Kline { ticker, .. }) => {
                            let done = delivered.segment_done(c.req_id, range, None);
                            StepView {
                                state: done.state,
                                effects: seq![
                                    EffectView::InsertKlinesPartial {
                                        consumer: c,
                                        stream: c.stream,
                                        timeframe,
                                        ticker,
                                        rows,
                                    },
                                ] + done.effects,
                            }
                        },
                        _ => delivered.still(),
                    }
                }
            },
            DispatchView::Trades { key, range, rows } => {
                if !self.delivers(c.req_id, range) {
                    self.still()
                } else {
                    let drawn = self.delivering(c.req_id, range).trades_step(c, rows, range);
                    let done = drawn.state.segment_done(c.req_id, range, None);
                    StepView { state: done.state, effects: drawn.effects + done.effects }
                }
            },
            DispatchView::OpenInterest { key, range, timeframe, rows } => {
                if !(c.feature is OpenInterest) || !self.delivers(c.req_id, range) {
                    self.still()
                } else {
                    let done = self.delivering(c.req_id, range).segment_done(
                        c.req_id,
                        range,
                        None,
                    );
                    StepView {
                        state: done.state,
                        effects: seq![
                            EffectView::InsertOpenInterestPartial { consumer: c, rows },
                        ] + done.effects,
                    }
                }
            },
        }
    }

    /// The same for several requests.
    pub open spec fn cached_step_each(self, cs: Seq<ConsumerView>, d: DispatchView) -> StepView
        decreases cs.len(),
    {
        if cs.len() == 0 {
            self.still()
        } else {
            let front = self.cached_step_each(cs.drop_last(), d);
            let next = front.state.cached_step(cs.last(), d);
            StepView { state: next.state, effects: front.effects + next.effects }
        }
    }

    /// What becomes of records found in the cache.
    pub open spec fn dispatching(self, d: DispatchView) -> StepView {
        let (key, range) = match d {
            DispatchView::Klines { key, range, .. } => (key, range),
            DispatchView::Trades { key, range, .. } => (key, range),
            DispatchView::OpenInterest { key, range, .. } => (key, range),
        };
        self.cached_step_each(self.wanting(key, range), d)
    }

    /// The records of an answer in the store, and on their way to the cache. Of an answer whose
    /// stream or range is unknown, and of one without candles or readings, nothing is stored.
    pub open spec fn storing(
        self,
        stream: StreamView,
        data: FetchedView,
        job: Option<JobView>,
    ) -> Option<StoredView> {
        let key = match job {
            Some(j) => Some(j.key),
            None => key_answered(stream, data),
        };
        match (key, data) {
            (Some(key), FetchedView::Trades { batch, .. }) => match (match job {
                Some(j) => Some(j.range),
                None => range_of_trades(batch),
            }) {
                Some(range) => Some(
                    StoredView {
                        state: (RuntimeView {
                            coordinator: CoordinatorView {
                                store: self.coordinator.store.with_trades(key, batch),
                                ..self.coordinator
                            },
                            ..self
                        }).commanding(CommandView::StoreTrades { key, rows: batch }),
                        key,
                        range,
                        record_count: batch.len() as usize,
                    },
                ),
                None => None,
            },
            (Some(key), FetchedView::Klines { data, .. }) => match (match job {
                Some(j) => Some(j.range),
                None => range_of_rows(data),
            }) {
                Some(range) if data.len() > 0 => Some(
                    StoredView {
                        state: (RuntimeView {
                            coordinator: CoordinatorView {
                                store: self.coordinator.store.with_klines(key, data),
                                ..self.coordinator
                            },
                            ..self
                        }).commanding(CommandView::StoreKlines { key, rows: data }),
                        key,
                        range,
                        record_count: data.len() as usize,
                    },
                ),
                _ => None,
            },
            (Some(key), FetchedView::OI { data, .. }) => match (match job {
                Some(j) => Some(j.range),
                None => range_of_rows(data),
            }) {
                Some(range) if data.len() > 0 => Some(
                    StoredView {
                        state: (RuntimeView {
                            coordinator: CoordinatorView {
                                store: self.coordinator.store.with_open_interest(key, data),
                                ..self.coordinator
                            },
                            ..self
                        }).commanding(CommandView::StoreOpenInterest { key, rows: data }),
                        key,
                        range,
                        record_count: data.len() as usize,
                    },
                ),
                _ => None,
            },
            _ => None,
        }
    }

    /// The state with the records of an answer counted.
    pub open spec fn counting(
        self,
        job_id: Option<FetchJobId>,
        key: KeyView,
        range: MarketDataRange,
        n: usize,
    ) -> RuntimeView {
        match job_id {
            Some(id) => {
                let c = with_records(self.coordinator, seq![id], n);
                RuntimeView {
                    coordinator: CoordinatorView {
                        fetched_received: clamp_usize((c.fetched_received + n) as nat),
                        ..c
                    },
                    ..self
                }
            },
            None => RuntimeView {
                coordinator: with_records(
                    self.coordinator,
                    active_ids(self.coordinator.jobs, fetching_all(key, range)),
                    n,
                ),
                ..self
            },
        }
    }

    /// What becomes of an answer on its way to the requests it is for.
    pub open spec fn drawing(
        self,
        cs: Seq<ConsumerView>,
        stream: StreamView,
        data: FetchedView,
        range: MarketDataRange,
    ) -> StepView {
        match data {
            FetchedView::Klines { data, .. } => StepView {
                state: self,
                effects: cs.filter_map(
                    |c: ConsumerView|
                        klines_effect(
                            c,
                            match c.stream {
                                Some(s) => s,
                                None => stream,
                            },
                            data,
                        ),
                ),
            },
            FetchedView::Trades { batch, .. } => self.trades_step_each(cs, batch, range),
            FetchedView::OI { data, .. } => StepView {
                state: self,
                effects: cs.filter_map(
                    |c: ConsumerView|
                        if c.feature is OpenInterest {
                            Some(EffectView::InsertOpenInterestPartial { consumer: c, rows: data })
                        } else {
                            None
                        },
                ),
            },
            FetchedView::BubbleSummary { .. } => self.still(),
        }
    }

    /// The requests that an answer is for: those that its job serves, or else those for a part of
    /// its range.
    pub open spec fn recipients(
        self,
        job_id: Option<FetchJobId>,
        key: KeyView,
        range: MarketDataRange,
    ) -> Seq<ConsumerView> {
        match job_id {
            Some(id) => self.waiting_for(id),
            None => self.wanting(key, range),
        }
    }

    /// What becomes of an answer of which nothing was stored. Where it ends a request to a worker,
    /// its job failed if there was anything in the answer, and is done otherwise.
    pub open spec fn receiving_nothing(self, ending: Option<Uuid>, records: nat) -> OutcomeView {
        match ending {
            Some(worker_req) => if records > 0 {
                OutcomeView {
                    state: self.invalidating(worker_req),
                    handled: true,
                    effects: seq![EffectView::ProgressSnapshot],
                }
            } else {
                let step = self.finishing_worker_if(worker_req);
                OutcomeView { state: step.state, handled: true, effects: step.effects }
            },
            None => OutcomeView { state: self, handled: false, effects: Seq::empty() },
        }
    }

    /// What becomes of an answer of a worker.
    pub open spec fn receiving(self, stream: StreamView, raw: FetchedView) -> OutcomeView {
        let job = match raw.req_id() {
            Some(req) => self.job_for(req),
            None => None,
        };
        let job_view = match job {
            Some((id, j)) => Some(j),
            None => None,
        };
        let job_id = match job {
            Some((id, j)) => Some(id),
            None => None,
        };
        let data = trimmed(raw, job_view);
        let ending = if job is Some && ends_job(data) {
            data.req_id()
        } else {
            None
        };
        match self.storing(stream, data, job_view) {
            Some(stored) => stored.received(job_id, stream, data, ending),
            None => self.receiving_nothing(ending, final_records(raw)),
        }
    }

    /// What becomes of the end of a fetch.
    pub open spec fn ending(
        self,
        pane_id: Uuid,
        req_id: Option<Uuid>,
        fetch: Option<FetchRange>,
        tail: Tail,
        ready: Seq<StreamView>,
    ) -> StepView {
        let by_worker = match req_id {
            Some(w) => self.finishing_worker(w, tail),
            None => None,
        };
        match (by_worker, fetch) {
            (Some(step), _) => step,
            (None, None) => StepView {
                state: self,
                effects: seq![EffectView::MarkPaneReady { pane_id }],
            },
            (None, Some(f)) => {
                let pending = match req_id {
                    Some(id) => consumer_at(self.consumers, id),
                    None => None,
                };
                let key = match pending {
                    Some(c) => Some(c.key),
                    None => key_fetched(f, first_ticker(ready), first_timeframe(ready)),
                };
                let (step, handled) = match (key, range_fetched(f)) {
                    (Some(k), Some(r)) => {
                        let s = self.closing_all(k, r, tail);
                        (s, self.wanting(k, r).len() > 0 || s.effects.len() > 0)
                    },
                    _ => (self.still(), false),
                };
                let last = if f is Trades && !handled {
                    seq![
                        EffectView::CompleteLegacyTradeFetch {
                            pane_id,
                            req_id,
                            fetch: f,
                            empty_covered_tail: tail,
                        },
                    ]
                } else {
                    Seq::empty()
                };
                StepView {
                    state: step.state,
                    effects: (step.effects + last).push(EffectView::MarkPaneReady { pane_id }),
                }
            },
        }
    }
}

impl StoredView {
    /// What becomes of an answer that was stored: the requests it is for get it, and where it ends
    /// a request to a worker, its job is done.
    pub open spec fn received(
        self,
        job_id: Option<FetchJobId>,
        stream: StreamView,
        data: FetchedView,
        ending: Option<Uuid>,
    ) -> OutcomeView {
        let cs = self.state.recipients(job_id, self.key, self.range);
        if cs.len() == 0 {
            match ending {
                Some(worker_req) => {
                    let step = self.state.finishing_worker_if(worker_req);
                    OutcomeView { state: step.state, handled: true, effects: step.effects }
                },
                None => OutcomeView {
                    state: self.state,
                    handled: false,
                    effects: Seq::empty(),
                },
            }
        } else {
            let drawn = self.state.drawing(cs, stream, data, self.range);
            let after = drawn.state.counting(job_id, self.key, self.range, self.record_count);
            match ending {
                Some(worker_req) => {
                    let step = after.finishing_worker_if(worker_req);
                    OutcomeView {
                        state: step.state,
                        handled: true,
                        effects: drawn.effects + step.effects,
                    }
                },
                None => OutcomeView { state: after, handled: true, effects: drawn.effects },
            }
        }
    }
}

/// What becomes of an answer that no request waits for: it goes to the pane that asked.
pub open spec fn handed_on(pane_id: Uuid, stream: StreamView, data: FetchedView) -> EffectView {
    match data {
        FetchedView::Trades { batch, until_time, req_id } => {
            let last = if batch.len() == 0 {
                0
            } else {
                batch.last().time.0
            };
            if last < until_time.0 {
                EffectView::InsertLegacyTrades { pane_id, req_id, batch, is_batches_done: false }
            } else {
                EffectView::InsertLegacyTrades {
                    pane_id,
                    req_id,
                    batch: batch.filter(not_after(until_time)),
                    is_batches_done: true,
                }
            }
        },
        FetchedView::BubbleSummary { data, range, trades_seen, raw_discarded, req_id } =>
            EffectView::InsertLegacyBubbleSummaries {
            pane_id,
            req_id,
            summaries: data,
            range,
            trades_seen,
            raw_discarded,
        },
        FetchedView::Klines { data, req_id } => EffectView::InsertLegacyKlines {
            pane_id,
            req_id,
            stream,
            rows: data,
        },
        FetchedView::OI { data, req_id } => EffectView::InsertLegacyOpenInterest {
            pane_id,
            req_id,
            rows: data,
        },
    }
}

/// True for a trade up to a time.
pub open spec fn not_after(until: UnixMs) -> spec_fn(Trade) -> bool {
    |t: Trade| t.time.0 <= until.0
}

} // verus!
