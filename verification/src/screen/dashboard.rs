//! The dashboard: what happens when live data comes, when a fetch has news, and as time passes.

use vstd::prelude::*;
use vstd::string::*;
use crate::connector::fetcher::{FetchRange, FetchTaskStatus, FetchUpdate, FetchedData, InfoKind};
use crate::ids::Uuid;
use crate::market::{Kline, StreamKind, StreamView, Trade};
use crate::market_data::bridge::{key_streamed, stream_kind_to_key};
use crate::market_data::consumer::{consumer_views, ConsumerView, PendingMarketDataConsumer};
use crate::market_data::coordinator::CoordinatorView;
use crate::market_data::effect::{effect_views, MarketDataChartEffect};
use crate::market_data::key::KeyView;
use crate::market_data::runtime::model::{RuntimeView, StepView};
use crate::market_data::runtime::workers::{stale_views, StaleView};
use crate::market_data::runtime::{MarketDataRuntime, COVERAGE_SAVE_INTERVAL_MS};
use crate::screen::backfill::{differing, Backfills, BackfillsView};
use crate::screen::pane_action::{pane_of, PaneFacts, PaneStatus};
use crate::time::UnixMs;

verus! {

/// How long a job may go without a record before it is given up, in milliseconds.
pub const MARKET_DATA_JOB_STALE_MS: u64 = 30_000;

/// What becomes of the news of a fetch.
#[derive(Debug)]
#[allow(inconsistent_fields)]
pub enum Message {
    ChangePaneStatus(Uuid, PaneStatus),
    FetchCompleted {
        pane_id: Uuid,
        req_id: Option<Uuid>,
        fetch: Option<FetchRange>,
        empty_covered_tail: Option<(UnixMs, UnixMs)>,
    },
    FetchFailed {
        pane_id: Uuid,
        error: String,
        req_id: Option<Uuid>,
        fetch: Option<FetchRange>,
    },
    DistributeFetchedData { layout_id: Uuid, pane_id: Uuid, stream: StreamKind, data: FetchedData },
}

/// What becomes of the news of a fetch.
pub open spec fn message_of(update: FetchUpdate) -> Message {
    match update {
        FetchUpdate::Status { pane_id, status: FetchTaskStatus::Loading(info) } =>
            Message::ChangePaneStatus(pane_id, PaneStatus::Loading(info)),
        FetchUpdate::Status {
            pane_id,
            status: FetchTaskStatus::Completed { req_id, fetch, empty_covered_tail },
        } => Message::FetchCompleted { pane_id, req_id, fetch, empty_covered_tail },
        FetchUpdate::Data { layout_id, pane_id, stream, data } => Message::DistributeFetchedData {
            layout_id,
            pane_id,
            stream,
            data,
        },
        FetchUpdate::Error { pane_id, error, req_id, fetch } => Message::FetchFailed {
            pane_id,
            error,
            req_id,
            fetch,
        },
    }
}

impl From<FetchUpdate> for Message {
    fn from(update: FetchUpdate) -> (m: Message) {
        match update {
            FetchUpdate::Status { pane_id, status } => match status {
                FetchTaskStatus::Loading(info) => {
                    Message::ChangePaneStatus(pane_id, PaneStatus::Loading(info))
                },
                FetchTaskStatus::Completed { req_id, fetch, empty_covered_tail } => {
                    Message::FetchCompleted { pane_id, req_id, fetch, empty_covered_tail }
                },
            },
            FetchUpdate::Data { layout_id, pane_id, stream, data } => {
                Message::DistributeFetchedData { layout_id, pane_id, stream, data }
            },
            FetchUpdate::Error { pane_id, error, req_id, fetch } => Message::FetchFailed {
                pane_id,
                error,
                req_id,
                fetch,
            },
        }
    }
}

impl vstd::std_specs::convert::FromSpecImpl<FetchUpdate> for Message {
    open spec fn obeys_from_spec() -> bool {
        true
    }

    open spec fn from_spec(update: FetchUpdate) -> Message {
        message_of(update)
    }
}

/// What the news of a fetch that fills a hole does to the panes which it was made for.
#[derive(Debug)]
#[allow(inconsistent_fields)]
pub enum BackfillStep {
    /// All panes wait.
    SetLoading(InfoKind),
    /// The range counts as filled for the panes that can take it. Without a range, for all.
    MarkFilled { fetch: Option<FetchRange>, empty_covered_tail: Option<(UnixMs, UnixMs)> },
    /// The data goes to the panes that can take it.
    Distribute { data: FetchedData },
    /// All panes are ready, and the pane in whose name the fetch was made shows the error.
    Fail { pane_id: Uuid, error: String },
}

/// What the news of a fetch that fills a hole does to the panes.
pub open spec fn step_of(update: FetchUpdate) -> BackfillStep {
    match update {
        FetchUpdate::Status { status: FetchTaskStatus::Loading(info), .. } =>
            BackfillStep::SetLoading(info),
        FetchUpdate::Status {
            status: FetchTaskStatus::Completed { fetch, empty_covered_tail, .. },
            ..
        } => BackfillStep::MarkFilled { fetch, empty_covered_tail },
        FetchUpdate::Data { data, .. } => BackfillStep::Distribute { data },
        FetchUpdate::Error { pane_id, error, .. } => BackfillStep::Fail { pane_id, error },
    }
}

/// The fetch that the news ends, if they end one.
pub open spec fn ended_by(update: FetchUpdate) -> Option<FetchRange> {
    match update {
        FetchUpdate::Status { status: FetchTaskStatus::Completed { fetch, .. }, .. } => fetch,
        FetchUpdate::Error { fetch, .. } => fetch,
        _ => None,
    }
}

/// The dashboard, without its panes.
pub struct Dashboard {
    pub backfills: Backfills,
    pub market_data_runtime: MarketDataRuntime,
}

/// The dashboard as a value.
#[verifier::ext_equal]
pub struct DashboardView {
    pub backfills: BackfillsView,
    pub runtime: RuntimeView,
}

impl View for Dashboard {
    type V = DashboardView;

    open spec fn view(&self) -> DashboardView {
        DashboardView { backfills: self.backfills@, runtime: self.market_data_runtime@ }
    }
}

impl RuntimeView {
    /// The state after a live candle came, which is stored and kept for the cache.
    pub open spec fn taking_kline(self, key: KeyView, kline: Kline) -> RuntimeView {
        (RuntimeView {
            coordinator: CoordinatorView {
                store: self.coordinator.store.with_klines(key, seq![kline]),
                ..self.coordinator
            },
            ..self
        }).hearing_klines(key, seq![kline])
    }

    /// The state after some jobs were given up, and the panes that have all they need all the
    /// same.
    pub open spec fn abandoning_each(self, jobs: Seq<StaleView>) -> (RuntimeView, Seq<Uuid>)
        decreases jobs.len(),
    {
        if jobs.len() == 0 {
            (self, Seq::empty())
        } else {
            let front = self.abandoning_each(jobs.drop_last());
            let j = jobs.last();
            let given_up = front.0.giving_up_each(front.0.served_by(j.job_id), j.range);
            (
                given_up.0.failing_job(j.job_id, "stale market data worker"@),
                front.1 + pane_ids(given_up.1),
            )
        }
    }

    /// The state after all jobs without progress were given up, and the panes that have all they
    /// need all the same.
    pub open spec fn abandoning(self, now_ms: u64) -> (RuntimeView, Seq<Uuid>) {
        let jobs = self.stale_jobs(now_ms, MARKET_DATA_JOB_STALE_MS);
        let done = self.abandoning_each(jobs);
        if jobs.len() == 0 {
            (self, Seq::empty())
        } else {
            (done.0.tidied(), done.1)
        }
    }

    /// The state after the coverage was saved, if that was due.
    pub open spec fn saving(self, clock: u64) -> RuntimeView {
        if clock - self.last_coverage_save > COVERAGE_SAVE_INTERVAL_MS {
            (RuntimeView { last_coverage_save: clock, ..self }).commanding(
                crate::market_data::effect::CommandView::SaveCoverage,
            )
        } else {
            self
        }
    }
}

/// The panes of some requests.
pub open spec fn pane_ids(cs: Seq<ConsumerView>) -> Seq<Uuid> {
    cs.map_values(|c: ConsumerView| c.pane_id)
}

impl DashboardView {
    /// The dashboard after a live candle came.
    pub open spec fn with_kline(self, stream: StreamView, kline: Kline) -> DashboardView {
        DashboardView {
            backfills: self.backfills.seeing(stream, kline.time),
            runtime: match key_streamed(stream) {
                Some(key) => self.runtime.taking_kline(key, kline),
                None => self.runtime,
            },
        }
    }

    /// The dashboard after live trades came.
    pub open spec fn with_trades(
        self,
        stream: StreamView,
        buffer: Seq<Trade>,
        update_t: UnixMs,
    ) -> DashboardView {
        DashboardView {
            backfills: self.backfills.seeing(
                stream,
                if buffer.len() > 0 {
                    buffer.last().time
                } else {
                    update_t
                },
            ),
            runtime: match key_streamed(stream) {
                Some(key) => self.runtime.hearing_trades(key, buffer),
                None => self.runtime,
            },
        }
    }
}

impl Dashboard {
    /// A dashboard to which nothing has happened.
    pub fn from_runtime(market_data_runtime: MarketDataRuntime) -> (d: Self)
        ensures
            d@ == (DashboardView {
                backfills: BackfillsView::fresh(),
                runtime: market_data_runtime@,
            }),
    {
        Dashboard { backfills: Backfills::new(), market_data_runtime }
    }

    /// A live candle came. Live data is stored, but never counts as covered, as it may have holes.
    pub fn update_latest_klines(&mut self, stream: &StreamKind, kline: &Kline)
        ensures
            final(self)@ == old(self)@.with_kline(stream@, *kline),
            old(self)@.runtime.wf() ==> final(self)@.runtime.wf(),
    {
        self.backfills.note_live(stream, kline.time);
        if let Some(key) = stream_kind_to_key(stream) {
            let mut rows: Vec<Kline> = Vec::new();
            rows.push(*kline);
            assert(rows@ =~= seq![*kline]);
            self.market_data_runtime.feed_klines(&key, rows.as_slice());
            self.market_data_runtime.insert_live_klines(&key, rows.as_slice());
        }
    }

    /// Live trades came, or at least a sign of life at `update_t`. Live data is stored, but never
    /// counts as covered, as it may have holes.
    pub fn ingest_trades(&mut self, stream: &StreamKind, buffer: &[Trade], update_t: UnixMs)
        ensures
            final(self)@ == old(self)@.with_trades(stream@, buffer@, update_t),
            old(self)@.runtime.wf() ==> final(self)@.runtime.wf(),
    {
        let n: usize = buffer.len();
        let last_trade_t = if n > 0 {
            buffer[n - 1].time
        } else {
            update_t
        };
        self.backfills.note_live(stream, last_trade_t);
        if let Some(key) = stream_kind_to_key(stream) {
            self.market_data_runtime.insert_live_trades(&key, buffer);
        }
    }

    /// Gives up the jobs that have gone too long without a record, so that nothing waits for them
    /// for ever. The panes that have all they need all the same are handed out: they are ready.
    pub fn fail_stale_market_jobs(&mut self, now_ms: u64) -> (ready: Vec<Uuid>)
        ensures
            (final(self)@.runtime, ready@) == old(self)@.runtime.abandoning(now_ms),
            final(self)@.backfills == old(self)@.backfills,
            old(self)@.runtime.wf() ==> final(self)@.runtime.wf(),
    {
        let ghost before = self@.runtime;
        let stale = self.market_data_runtime.stale_worker_jobs(now_ms, MARKET_DATA_JOB_STALE_MS);
        let ghost views = stale_views(stale@);
        let mut ready: Vec<Uuid> = Vec::new();
        let mut i: usize = 0;
        assert(views.take(0) =~= Seq::empty());
        while i < stale.len()
            invariant
                i <= stale@.len(),
                views == stale_views(stale@),
                (self@.runtime, ready@) == before.abandoning_each(views.take(i as int)),
                self@.backfills == old(self)@.backfills,
                before.wf() ==> self@.runtime.wf(),
            decreases stale@.len() - i,
        {
            let ghost next = views.take(i as int + 1);
            assert(next.drop_last() =~= views.take(i as int));
            assert(next.last() == stale@[i as int]@);
            let job_id = stale[i].job_id;
            let satisfied = self.market_data_runtime.mark_stale_job_consumers_failed(
                job_id,
                stale[i].range,
            );
            let ghost had = ready@;
            push_panes(&satisfied, &mut ready);
            assert(ready@ =~= had + pane_ids(consumer_views(satisfied@)));
            self.market_data_runtime.fail_and_remove_worker_job(
                job_id,
                String::from_str("stale market data worker"),
            );
            i += 1;
        }
        assert(views.take(i as int) =~= views);
        if stale.len() > 0 {
            self.market_data_runtime.retain_effective_pending_consumers();
        }
        ready
    }

    /// Time passes: jobs without progress are given up, and the coverage is saved now and then.
    /// `now_ms` is the time of day, `clock` that of the clock which spaces the savings. The panes
    /// that became ready are handed out.
    pub fn tick(&mut self, now_ms: u64, clock: u64) -> (ready: Vec<Uuid>)
        ensures
            final(self)@.runtime == old(self)@.runtime.abandoning(now_ms).0.saving(clock),
            ready@ == old(self)@.runtime.abandoning(now_ms).1,
            final(self)@.backfills == old(self)@.backfills,
            old(self)@.runtime.wf() ==> final(self)@.runtime.wf(),
    {
        let ready = self.fail_stale_market_jobs(now_ms);
        if self.market_data_runtime.should_save_coverage(clock) {
            self.market_data_runtime.save_coverage();
        }
        ready
    }

    /// A fetch failed. True when it was made for a job, which is gone then; otherwise the failure
    /// is up to the pane.
    pub fn fetch_failed(&mut self, req_id: Option<Uuid>, error: &str) -> (handled: bool)
        ensures
            handled == (req_id matches Some(id) && old(self)@.runtime.job_for(id) is Some),
            final(self)@ == (DashboardView {
                runtime: match req_id {
                    Some(id) => old(self)@.runtime.failing_worker(id, error@),
                    None => old(self)@.runtime,
                },
                ..old(self)@
            }),
            old(self)@.runtime.wf() ==> final(self)@.runtime.wf(),
    {
        match req_id {
            Some(worker_req) => self.market_data_runtime.fail_worker_request(
                worker_req,
                String::from_str(error),
            ).is_some(),
            None => false,
        }
    }

    /// A fetch for a pane is complete. Nothing happens when the pane is gone.
    pub fn complete_fetch(
        &mut self,
        pane_id: Uuid,
        pane: &Option<PaneFacts>,
        req_id: Option<Uuid>,
        fetch: Option<FetchRange>,
        empty_covered_tail: Option<(UnixMs, UnixMs)>,
    ) -> (effects: Vec<MarketDataChartEffect>)
        requires
            old(self)@.runtime.wf(),
        ensures
            final(self)@.backfills == old(self)@.backfills,
            (StepView { state: final(self)@.runtime, effects: effect_views(effects@) }) == match pane_of(
                *pane,
            ) {
                Some(p) => old(self)@.runtime.ending(
                    pane_id,
                    req_id,
                    fetch,
                    empty_covered_tail,
                    p.ready,
                ),
                None => old(self)@.runtime.still(),
            },
            final(self)@.runtime.wf(),
    {
        match pane {
            Some(p) => self.market_data_runtime.complete_fetch_effects(
                pane_id,
                req_id,
                fetch,
                empty_covered_tail,
                p.ready_streams.as_slice(),
            ),
            None => {
                let effects: Vec<MarketDataChartEffect> = Vec::new();
                assert(effect_views(effects@) =~= Seq::empty());
                effects
            },
        }
    }

    /// There is news of a fetch that fills a hole of a stream. When it has ended, its range may be
    /// fetched again.
    pub fn apply_backfill_update(
        &mut self,
        stream: &StreamKind,
        update: FetchUpdate,
    ) -> (step: BackfillStep)
        ensures
            step == step_of(update),
            final(self)@ == (DashboardView {
                backfills: BackfillsView {
                    pending: match ended_by(update) {
                        Some(fetch) => old(self)@.backfills.pending.filter(
                            differing(stream@, fetch.bounds().0, fetch.bounds().1),
                        ),
                        None => old(self)@.backfills.pending,
                    },
                    ..old(self)@.backfills
                },
                ..old(self)@
            }),
    {
        match update {
            FetchUpdate::Status { status, .. } => match status {
                FetchTaskStatus::Loading(info) => BackfillStep::SetLoading(info),
                FetchTaskStatus::Completed { fetch, empty_covered_tail, .. } => {
                    if let Some(fetch) = fetch {
                        self.backfills.clear_pending_backfill(stream, fetch);
                    }
                    BackfillStep::MarkFilled { fetch, empty_covered_tail }
                },
            },
            FetchUpdate::Data { data, .. } => BackfillStep::Distribute { data },
            FetchUpdate::Error { pane_id, error, fetch, .. } => {
                if let Some(fetch) = fetch {
                    self.backfills.clear_pending_backfill(stream, fetch);
                }
                BackfillStep::Fail { pane_id, error }
            },
        }
    }
}

/// Adds the panes of some requests.
fn push_panes(cs: &Vec<PendingMarketDataConsumer>, out: &mut Vec<Uuid>)
    ensures
        final(out)@ == old(out)@ + pane_ids(consumer_views(cs@)),
{
    let ghost had = out@;
    let ghost all = pane_ids(consumer_views(cs@));
    let mut i: usize = 0;
    while i < cs.len()
        invariant
            i <= cs@.len(),
            all == pane_ids(consumer_views(cs@)),
            out@ == had + all.take(i as int),
        decreases cs@.len() - i,
    {
        out.push(cs[i].pane_id);
        assert(out@ =~= had + all.take(i as int + 1));
        i += 1;
    }
    assert(all.take(i as int) =~= all);
}

} // verus!
