//! The end of jobs and of requests to workers.

use vstd::prelude::*;
use vstd::string::*;
use crate::id_table::lookup;
use crate::ids::Uuid;
use crate::market_data::consumer::{consumer_views, ConsumerView, PendingMarketDataConsumer};
use crate::market_data::coordinator::{active_of, Jobs};
use crate::market_data::effect::{effect_views, EffectView, MarketDataChartEffect};
use crate::market_data::job::{FetchJob, FetchJobId, JobView};
use crate::market_data::key::MarketDataKey;
use crate::market_data::progress::job_views;
use crate::market_data::range::MarketDataRange;
use crate::market_data::requirement::ConsumerFeature;
use crate::market_data::runtime::model::{
    active_ids, age_of, consumer_at, fetching_some, stuck, with_each_completed, CompletionView,
    FinishView, RuntimeView, StepView, WorkerCompletionKind,
};
use crate::market_data::runtime::{lemma_found_sound, lemma_replaced, MarketDataRuntime};
use crate::market_data::series::within;
use crate::market_data::store::{rows_at, StoreView};
use crate::seqs::lemma_filter_map_take;
use crate::time::UnixMs;

verus! {

/// A job that ended.
pub struct WorkerJobCompletion {
    pub job_id: FetchJobId,
    pub job: FetchJob,
    pub consumer_ids: Vec<Uuid>,
    pub records: usize,
}

impl View for WorkerJobCompletion {
    type V = CompletionView;

    open spec fn view(&self) -> CompletionView {
        CompletionView {
            job_id: self.job_id,
            job: self.job@,
            consumer_ids: self.consumer_ids@,
            records: self.records,
        }
    }
}

/// What an optional completion denotes.
pub open spec fn completion_of(c: Option<WorkerJobCompletion>) -> Option<CompletionView> {
    match c {
        Some(completion) => Some(completion@),
        None => None,
    }
}

/// The end of a request to a worker.
pub struct WorkerJobFinish {
    pub kind: WorkerCompletionKind,
    pub completion: Option<WorkerJobCompletion>,
}

/// A job without progress.
pub struct StaleWorkerJob {
    pub job_id: FetchJobId,
    pub worker_req: Option<Uuid>,
    pub range: MarketDataRange,
    pub age_ms: u64,
    pub consumer_ids: Vec<Uuid>,
}

/// A job without progress as a value.
#[verifier::ext_equal]
pub struct StaleView {
    pub job_id: FetchJobId,
    pub worker_req: Option<Uuid>,
    pub range: MarketDataRange,
    pub age_ms: u64,
    pub consumer_ids: Seq<Uuid>,
}

impl View for StaleWorkerJob {
    type V = StaleView;

    open spec fn view(&self) -> StaleView {
        StaleView {
            job_id: self.job_id,
            worker_req: self.worker_req,
            range: self.range,
            age_ms: self.age_ms,
            consumer_ids: self.consumer_ids@,
        }
    }
}

/// What several jobs without progress denote.
pub open spec fn stale_views(s: Seq<StaleWorkerJob>) -> Seq<StaleView> {
    s.map_values(|j: StaleWorkerJob| j@)
}

/// A job whose request to a worker failed.
#[derive(Debug, Clone, Copy, PartialEq, Eq, Structural)]
pub struct WorkerJobFailure {
    pub job_id: FetchJobId,
    pub range: MarketDataRange,
}

/// True when the bubbles of a request can be derived: their candles have a width, or there is
/// nothing to derive them from.
pub open spec fn drawable(store: StoreView, c: ConsumerView) -> bool {
    c.feature is VolumeBubbles ==> (c.config() matches Some(cfg) ==> cfg.timeframe_ms > 0 || within(
        rows_at(store.trades, c.key),
        c.range,
    ).len() == 0)
}

impl RuntimeView {
    /// A job as one without progress.
    pub open spec fn stale_view(self, j: JobView, now_ms: u64) -> StaleView {
        StaleView {
            job_id: j.id,
            worker_req: lookup(self.job_workers, j.id),
            range: j.range,
            age_ms: age_of(j, now_ms) as u64,
            consumer_ids: self.served_by(j.id),
        }
    }

    /// The active jobs that are older than a limit and have fetched nothing.
    pub open spec fn stale_jobs(self, now_ms: u64, stale_after_ms: u64) -> Seq<StaleView> {
        active_jobs_of(self.coordinator.jobs).filter_map(
            |j: JobView|
                if stuck(now_ms, stale_after_ms)(j) {
                    Some(self.stale_view(j, now_ms))
                } else {
                    None
                },
        )
    }
}

/// The active jobs.
pub open spec fn active_jobs_of(jobs: Jobs) -> Seq<JobView> {
    active_of(jobs).map_values(|row: (FetchJobId, JobView)| row.1)
}

/// The identifiers of the jobs for which `p` holds.
pub open spec fn ids_where(js: Seq<JobView>, p: spec_fn(JobView) -> bool) -> Seq<FetchJobId> {
    js.filter_map(
        |j: JobView|
            if p(j) {
                Some(j.id)
            } else {
                None
            },
    )
}

pub(crate) proof fn lemma_active_ids(jobs: Jobs, p: spec_fn(JobView) -> bool)
    ensures
        active_ids(jobs, p) == ids_where(active_jobs_of(jobs), p),
{
    lemma_ids_of_rows(active_of(jobs), p);
}

proof fn lemma_ids_of_rows(rows: Jobs, p: spec_fn(JobView) -> bool)
    ensures
        rows.filter_map(
            |row: (FetchJobId, JobView)|
                if p(row.1) {
                    Some(row.1.id)
                } else {
                    None
                },
        ) == ids_where(rows.map_values(|row: (FetchJobId, JobView)| row.1), p),
    decreases rows.len(),
{
    reveal(Seq::filter_map);
    let js = rows.map_values(|row: (FetchJobId, JobView)| row.1);
    if rows.len() > 0 {
        lemma_ids_of_rows(rows.drop_last(), p);
        assert(js.drop_last() =~= rows.drop_last().map_values(
            |row: (FetchJobId, JobView)| row.1,
        ));
        assert(js.last() == rows.last().1);
    } else {
        assert(js.len() == 0);
    }
}

/// Adds the changes of a further step.
pub(crate) fn extend_effects(
    effects: &mut Vec<MarketDataChartEffect>,
    more: Vec<MarketDataChartEffect>,
)
    ensures
        effect_views(final(effects)@) == effect_views(old(effects)@) + effect_views(more@),
{
    let ghost before = effects@;
    let mut rest = more;
    effects.append(&mut rest);
    assert(effect_views(effects@) =~= effect_views(before) + effect_views(more@));
}

/// A single change.
pub(crate) fn one_effect(e: MarketDataChartEffect) -> (v: Vec<MarketDataChartEffect>)
    ensures
        effect_views(v@) == seq![e@],
{
    let mut v: Vec<MarketDataChartEffect> = Vec::new();
    v.push(e);
    assert(effect_views(v@) =~= seq![e@]);
    v
}

/// No change.
pub(crate) fn no_effects() -> (v: Vec<MarketDataChartEffect>)
    ensures
        effect_views(v@) == Seq::<EffectView>::empty(),
{
    let v: Vec<MarketDataChartEffect> = Vec::new();
    assert(effect_views(v@) =~= Seq::<EffectView>::empty());
    v
}

impl MarketDataRuntime {
    /// What becomes of a request that has all that it needs: it is done with, and the charts are
    /// told. Bubbles for which there are no trades wait on.
    pub fn effects_for_completed_consumer(
        &mut self,
        consumer: PendingMarketDataConsumer,
        empty_covered_tail: Option<(UnixMs, UnixMs)>,
    ) -> (effects: Vec<MarketDataChartEffect>)
        requires
            drawable(old(self)@.coordinator.store, consumer@),
        ensures
            (StepView { state: final(self)@, effects: effect_views(effects@) }) == old(
                self,
            )@.completing(consumer@, empty_covered_tail),
            old(self)@.wf() ==> final(self)@.wf(),
    {
        match consumer.feature {
            ConsumerFeature::VolumeBubbles => {
                let config = match consumer.config() {
                    Some(config) => config,
                    None => return no_effects(),
                };
                match self.coordinator.compute_bubble_summaries(
                    &consumer.key,
                    &consumer.range,
                    config.timeframe_ms,
                    config.price_step,
                    config.max_candidates_per_candle,
                ) {
                    Some(summaries) => {
                        self.mark_bubble_consumer_completed(consumer.req_id);
                        let range = consumer.range;
                        one_effect(
                            MarketDataChartEffect::InsertBubbleSummaries {
                                consumer,
                                summaries,
                                range,
                                trades_seen: 0,
                                raw_discarded: 0,
                                complete: true,
                            },
                        )
                    },
                    None => no_effects(),
                }
            },
            _ => {
                self.mark_consumer_completed(consumer.req_id);
                one_effect(MarketDataChartEffect::CompleteConsumer { consumer, empty_covered_tail })
            },
        }
    }

    /// What becomes of a request when a segment of it arrived.
    pub(crate) fn segment_done_effects(
        &mut self,
        req_id: Uuid,
        segment: MarketDataRange,
        empty_covered_tail: Option<(UnixMs, UnixMs)>,
    ) -> (effects: Vec<MarketDataChartEffect>)
        requires
            old(self)@.wf(),
        ensures
            (StepView { state: final(self)@, effects: effect_views(effects@) }) == old(
                self,
            )@.segment_done(req_id, segment, empty_covered_tail),
            final(self)@.wf(),
    {
        let ghost before = self@;
        proof {
            lemma_found_sound(before, req_id);
        }
        let status = self.mark_consumer_segment_complete(req_id, segment);
        if status.is_none() {
            return no_effects();
        }
        proof {
            let c = consumer_at(before.consumers, req_id)->Some_0;
            lemma_replaced(before.consumers, req_id, c.with_arrived(segment));
        }
        let consumer = match self.pending_consumer_by_req(req_id) {
            Some(consumer) => consumer,
            None => return no_effects(),
        };
        if self.consumer_is_fully_satisfied(req_id) {
            self.effects_for_completed_consumer(consumer, empty_covered_tail)
        } else {
            no_effects()
        }
    }

    /// What becomes of a request when a segment of it came from the cache.
    pub fn complete_cached_segment_effects(
        &mut self,
        req_id: Uuid,
        segment: MarketDataRange,
    ) -> (effects: Vec<MarketDataChartEffect>)
        requires
            old(self)@.wf(),
        ensures
            (StepView { state: final(self)@, effects: effect_views(effects@) }) == old(
                self,
            )@.segment_done(req_id, segment, None),
            final(self)@.wf(),
    {
        self.segment_done_effects(req_id, segment, None)
    }

    /// The end of a request to a worker. Its job goes; what it fetched counts as covered, or as
    /// empty where it fetched nothing or is known to have nothing at its end. `None` when the
    /// runtime made no such request.
    pub fn finish_worker_job(
        &mut self,
        worker_req: Uuid,
        empty_covered_tail: Option<(UnixMs, UnixMs)>,
    ) -> (r: Option<WorkerJobFinish>)
        ensures
            match old(self)@.finished(worker_req, empty_covered_tail) {
                Some(f) => r matches Some(finish) && f == (FinishView {
                    state: final(self)@,
                    kind: finish.kind,
                    completion: completion_of(finish.completion),
                }),
                None => r is None && final(self)@ == old(self)@,
            },
            old(self)@.wf() ==> final(self)@.wf(),
    {
        let ghost before = self@;
        let job_id = match self.job_id_for_worker(worker_req) {
            Some(id) => id,
            None => return None,
        };
        let job = match self.coordinator.job(job_id) {
            Some(job) => job.clone(),
            None => {
                self.forget(worker_req, job_id);
                return Some(
                    WorkerJobFinish { kind: WorkerCompletionKind::MissingJob, completion: None },
                );
            },
        };
        let consumer_ids = self.job_consumer_ids(job_id);
        let records: usize = job.progress.records_fetched;
        let empty = empty_covered_tail.is_some() || records == 0;
        if empty {
            self.coordinator.mark_empty_and_remove_job(job_id);
            assert(self@ =~= (RuntimeView {
                coordinator: before.coordinator.with_emptied(job_id).without_job(job_id),
                ..before
            }));
        } else {
            self.coordinator.complete_and_remove_job(job_id, records);
            assert(self@ =~= (RuntimeView {
                coordinator: before.coordinator.with_completed(job_id, records).without_job(
                    job_id,
                ),
                ..before
            }));
        }
        self.forget(worker_req, job_id);
        self.retain_effective_pending_consumers();
        self.save_coverage();
        Some(
            WorkerJobFinish {
                kind: if empty {
                    WorkerCompletionKind::Empty
                } else {
                    WorkerCompletionKind::Completed
                },
                completion: Some(WorkerJobCompletion { job_id, job, consumer_ids, records }),
            },
        )
    }

    /// The end of a request to a worker, and what becomes of the requests that its job served.
    pub fn finish_worker_job_effects(
        &mut self,
        worker_req: Uuid,
        empty_covered_tail: Option<(UnixMs, UnixMs)>,
    ) -> (r: Option<Vec<MarketDataChartEffect>>)
        requires
            old(self)@.wf(),
        ensures
            match old(self)@.finishing_worker(worker_req, empty_covered_tail) {
                Some(step) => r matches Some(effects) && step == (StepView {
                    state: final(self)@,
                    effects: effect_views(effects@),
                }),
                None => r is None && final(self)@ == old(self)@,
            },
            final(self)@.wf(),
    {
        let finish = match self.finish_worker_job(worker_req, empty_covered_tail) {
            Some(finish) => finish,
            None => return None,
        };
        let completion = match finish.completion {
            Some(completion) => completion,
            None => return Some(one_effect(MarketDataChartEffect::ProgressSnapshot)),
        };
        let ghost mid = self@;
        let ghost range = completion.job.range;
        let mut effects = no_effects();
        let mut i: usize = 0;
        let ghost ids = completion.consumer_ids@;
        assert(ids.take(0) =~= Seq::empty());
        while i < completion.consumer_ids.len()
            invariant
                i <= completion.consumer_ids@.len(),
                ids == completion.consumer_ids@,
                range == completion.job.range,
                self@.wf(),
                (StepView { state: self@, effects: effect_views(effects@) })
                    == mid.segment_done_each(ids.take(i as int), range, empty_covered_tail),
            decreases completion.consumer_ids@.len() - i,
        {
            let more = self.segment_done_effects(
                completion.consumer_ids[i],
                completion.job.range,
                empty_covered_tail,
            );
            extend_effects(&mut effects, more);
            i += 1;
            assert(ids.take(i as int).drop_last() =~= ids.take(i - 1));
            assert(ids.take(i as int).last() == ids[i - 1]);
        }
        assert(ids.take(i as int) =~= ids);
        self.retain_effective_pending_consumers();
        let ghost shown = effects@;
        effects.push(MarketDataChartEffect::ProgressSnapshot);
        assert(effect_views(effects@) =~= effect_views(shown).push(EffectView::ProgressSnapshot));
        Some(effects)
    }

    /// The end of a request to a worker whose answer made no sense. Its job goes, and its range
    /// counts as failed. False when the runtime made no such request.
    pub fn finish_worker_job_invalid(&mut self, worker_req: Uuid) -> (known: bool)
        ensures
            final(self)@ == old(self)@.invalidating(worker_req),
            known == (lookup(old(self)@.worker_jobs, worker_req) is Some),
            old(self)@.wf() ==> final(self)@.wf(),
    {
        let ghost before = self@;
        let job_id = match self.job_id_for_worker(worker_req) {
            Some(id) => id,
            None => return false,
        };
        self.coordinator.fail_and_remove_job(
            job_id,
            String::from_str("invalid_out_of_range_response"),
        );
        assert(self@ =~= (RuntimeView {
            coordinator: before.coordinator.with_failure(
                job_id,
                "invalid_out_of_range_response"@,
            ).without_job(job_id),
            ..before
        }));
        self.forget(worker_req, job_id);
        true
    }

    /// The active jobs that are older than a limit and have fetched nothing.
    pub fn stale_worker_jobs(&self, now_ms: u64, stale_after_ms: u64) -> (r: Vec<StaleWorkerJob>)
        ensures
            stale_views(r@) == self@.stale_jobs(now_ms, stale_after_ms),
    {
        let jobs = self.coordinator.active_jobs();
        let mut out: Vec<StaleWorkerJob> = Vec::new();
        let mut i: usize = 0;
        let ghost views = active_jobs_of(self@.coordinator.jobs);
        let ghost f = |j: JobView|
            if stuck(now_ms, stale_after_ms)(j) {
                Some(self@.stale_view(j, now_ms))
            } else {
                None
            };
        assert(job_views(jobs@) =~= views);
        proof {
            reveal(Seq::filter_map);
            assert(views.take(0).filter_map(f) =~= Seq::empty());
        }
        assert(stale_views(out@) =~= Seq::empty());
        while i < jobs.len()
            invariant
                i <= jobs@.len(),
                job_views(jobs@) == views,
                f == (|j: JobView|
                    if stuck(now_ms, stale_after_ms)(j) {
                        Some(self@.stale_view(j, now_ms))
                    } else {
                        None
                    }),
                stale_views(out@) == views.take(i as int).filter_map(f),
            decreases jobs@.len() - i,
        {
            let job = &jobs[i];
            let ghost shown = out@;
            proof {
                assert(views[i as int] == job@);
                lemma_filter_map_take(views, i as int, f);
            }
            let age_ms: u64 = now_ms.saturating_sub(job.created_at);
            if age_ms >= stale_after_ms && job.progress.records_fetched == 0 {
                let found = StaleWorkerJob {
                    job_id: job.id,
                    worker_req: self.worker_for_job(job.id),
                    range: job.range,
                    age_ms,
                    consumer_ids: self.job_consumer_ids(job.id),
                };
                assert(found@ =~= self@.stale_view(job@, now_ms));
                out.push(found);
                assert(stale_views(out@) =~= stale_views(shown).push(found@));
            }
            i += 1;
        }
        assert(views.take(i as int) =~= views);
        out
    }

    fn give_up(&mut self, req_id: Uuid, range: MarketDataRange) -> (satisfied: Option<
        PendingMarketDataConsumer,
    >)
        ensures
            (final(self)@, crate::market_data::consumer::consumer_of(satisfied)) == old(
                self,
            )@.giving_up(req_id, range),
            old(self)@.wf() ==> final(self)@.wf(),
    {
        let ghost before = self@;
        let c = match self.pending_consumer_by_req(req_id) {
            Some(c) => c,
            None => return None,
        };
        proof {
            crate::market_data::runtime::lemma_place_bounds(before.consumers, req_id);
        }
        let mut known = false;
        let mut i: usize = 0;
        while i < c.failed_segments.len()
            invariant
                i <= c.failed_segments@.len(),
                known == c.failed_segments@.take(i as int).contains(range),
            decreases c.failed_segments@.len() - i,
        {
            let ghost seen = c.failed_segments@.take(i as int);
            if c.failed_segments[i] == range {
                known = true;
            }
            i += 1;
            proof {
                let next = c.failed_segments@.take(i as int);
                assert(next =~= seen.push(c.failed_segments@[i - 1]));
                if seen.contains(range) {
                    let k = choose|k: int| 0 <= k < seen.len() && seen[k] == range;
                    assert(next[k] == range);
                }
                if next.contains(range) && !seen.contains(range) {
                    let k = choose|k: int| 0 <= k < next.len() && next[k] == range;
                    if k < seen.len() {
                        assert(seen[k] == range);
                    }
                }
                assert(next[i - 1] == c.failed_segments@[i - 1]);
            }
        }
        assert(c.failed_segments@.take(i as int) =~= c.failed_segments@);
        let ghost failed = if c@.failed_segments.contains(range) {
            c@
        } else {
            c@.with_failed(range)
        };
        if !known {
            self.mark_consumer_segment_failed(req_id, range);
        }
        proof {
            lemma_replaced(before.consumers, req_id, failed);
            assert(before.altered(req_id, c@) =~= before);
        }
        assert(self@ == before.altered(req_id, failed));
        if self.consumer_is_fully_satisfied(req_id) {
            let satisfied = self.pending_consumer_by_req(req_id);
            self.mark_consumer_completed(req_id);
            satisfied
        } else {
            None
        }
    }

    /// Notes that a range failed for all requests that a job serves. Those that have all that
    /// they need all the same are done with and handed out.
    pub fn mark_stale_job_consumers_failed(
        &mut self,
        job_id: FetchJobId,
        range: MarketDataRange,
    ) -> (satisfied: Vec<PendingMarketDataConsumer>)
        ensures
            (final(self)@, consumer_views(satisfied@)) == old(self)@.giving_up_each(
                old(self)@.served_by(job_id),
                range,
            ),
            old(self)@.wf() ==> final(self)@.wf(),
    {
        let ghost before = self@;
        let ids = self.job_consumer_ids(job_id);
        let mut satisfied: Vec<PendingMarketDataConsumer> = Vec::new();
        let mut i: usize = 0;
        assert(ids@.take(0) =~= Seq::empty());
        assert(consumer_views(satisfied@) =~= Seq::empty());
        while i < ids.len()
            invariant
                i <= ids@.len(),
                (self@, consumer_views(satisfied@)) == before.giving_up_each(
                    ids@.take(i as int),
                    range,
                ),
                before.wf() ==> self@.wf(),
            decreases ids@.len() - i,
        {
            let ghost shown = satisfied@;
            match self.give_up(ids[i], range) {
                Some(c) => {
                    satisfied.push(c);
                    assert(consumer_views(satisfied@) =~= consumer_views(shown).push(c@));
                },
                None => {},
            }
            i += 1;
            assert(ids@.take(i as int).drop_last() =~= ids@.take(i - 1));
            assert(ids@.take(i as int).last() == ids@[i - 1]);
        }
        assert(ids@.take(i as int) =~= ids@);
        satisfied
    }

    /// A job failed and goes, with the request to its worker.
    pub fn fail_and_remove_worker_job(&mut self, job_id: FetchJobId, reason: String)
        ensures
            final(self)@ == old(self)@.failing_job(job_id, reason@),
            old(self)@.wf() ==> final(self)@.wf(),
    {
        let ghost before = self@;
        let worker_req = self.worker_for_job(job_id);
        self.coordinator.fail_and_remove_job(job_id, reason);
        assert(self@ =~= (RuntimeView {
            coordinator: before.coordinator.with_failure(job_id, reason@).without_job(job_id),
            ..before
        }));
        if let Some(worker_req) = worker_req {
            self.drop_worker(worker_req);
        }
        self.forget_job(job_id);
    }

    /// A request to a worker failed. Its job goes, and its range counts as failed for all
    /// requests that the job served. The job is handed out, if it still existed.
    pub fn fail_worker_request(&mut self, worker_req: Uuid, error: String) -> (r: Option<
        WorkerJobFailure,
    >)
        ensures
            final(self)@ == old(self)@.failing_worker(worker_req, error@),
            r == match old(self)@.job_for(worker_req) {
                Some((job_id, j)) => Some(WorkerJobFailure { job_id, range: j.range }),
                None => None::<WorkerJobFailure>,
            },
            old(self)@.wf() ==> final(self)@.wf(),
    {
        let ghost before = self@;
        let job_id = match self.job_id_for_worker(worker_req) {
            Some(id) => id,
            None => return None,
        };
        let range = match self.coordinator.job(job_id) {
            Some(job) => Some(job.range),
            None => None,
        };
        if let Some(range) = range {
            let ids = self.job_consumer_ids(job_id);
            let mut i: usize = 0;
            assert(ids@.take(0) =~= Seq::empty());
            while i < ids.len()
                invariant
                    i <= ids@.len(),
                    self@ == before.failing_each(ids@.take(i as int), range),
                    before.wf() ==> self@.wf(),
                decreases ids@.len() - i,
            {
                self.mark_consumer_segment_failed(ids[i], range);
                i += 1;
                assert(ids@.take(i as int).drop_last() =~= ids@.take(i - 1));
                assert(ids@.take(i as int).last() == ids@[i - 1]);
            }
            assert(ids@.take(i as int) =~= ids@);
        }
        self.fail_and_remove_worker_job(job_id, error);
        match range {
            Some(range) => Some(WorkerJobFailure { job_id, range }),
            None => None,
        }
    }

    fn active_ids_overlapping(&self, key: &MarketDataKey, range: &MarketDataRange) -> (r: Vec<
        FetchJobId,
    >)
        ensures
            r@ == active_ids(self@.coordinator.jobs, fetching_some(key@, *range)),
    {
        let jobs = self.coordinator.active_jobs();
        let mut out: Vec<FetchJobId> = Vec::new();
        let mut i: usize = 0;
        let ghost views = active_jobs_of(self@.coordinator.jobs);
        let ghost p = fetching_some(key@, *range);
        let ghost f = |j: JobView|
            if p(j) {
                Some(j.id)
            } else {
                None
            };
        proof {
            lemma_active_ids(self@.coordinator.jobs, p);
            reveal(Seq::filter_map);
            assert(views.take(0).filter_map(f) =~= Seq::empty());
        }
        assert(job_views(jobs@) =~= views);
        while i < jobs.len()
            invariant
                i <= jobs@.len(),
                job_views(jobs@) == views,
                p == fetching_some(key@, *range),
                f == (|j: JobView|
                    if p(j) {
                        Some(j.id)
                    } else {
                        None
                    }),
                out@ == views.take(i as int).filter_map(f),
            decreases jobs@.len() - i,
        {
            let job = &jobs[i];
            proof {
                assert(views[i as int] == job@);
                lemma_filter_map_take(views, i as int, f);
            }
            if job.key.same(key) && job.range.overlaps(range) {
                out.push(job.id);
            }
            i += 1;
        }
        assert(views.take(i as int) =~= views);
        out
    }

    /// The end of a fetch that no job of the coordinator stands behind. Its range counts as
    /// covered, or as empty; active jobs for a part of it end; the requests for a part of it are
    /// handed out.
    pub fn complete_legacy_fetch(
        &mut self,
        key: &MarketDataKey,
        range: MarketDataRange,
        empty_covered_tail: Option<(UnixMs, UnixMs)>,
    ) -> (consumers: Vec<PendingMarketDataConsumer>)
        ensures
            final(self)@ == old(self)@.closing(key@, range, empty_covered_tail),
            consumer_views(consumers@) == final(self)@.wanting(key@, range),
            old(self)@.wf() ==> final(self)@.wf(),
    {
        let ghost before = self@;
        if empty_covered_tail.is_some() {
            self.coordinator.mark_empty(key, range);
        } else {
            self.coordinator.mark_complete(key, range, 0);
        }
        let ghost marked = self@.coordinator;
        assert(self@ =~= (RuntimeView { coordinator: marked, ..before }));
        let ids = self.active_ids_overlapping(key, &range);
        let mut i: usize = 0;
        assert(ids@.take(0) =~= Seq::empty());
        while i < ids.len()
            invariant
                i <= ids@.len(),
                self@ == (RuntimeView {
                    coordinator: with_each_completed(marked, ids@.take(i as int)),
                    ..before
                }),
                before.wf() ==> self@.wf(),
            decreases ids@.len() - i,
        {
            let ghost shown = self@;
            self.coordinator.complete_job(ids[i], 0);
            i += 1;
            assert(ids@.take(i as int).drop_last() =~= ids@.take(i - 1));
            assert(ids@.take(i as int).last() == ids@[i - 1]);
            assert(self@ =~= (RuntimeView {
                coordinator: with_each_completed(marked, ids@.take(i as int)),
                ..before
            }));
        }
        assert(ids@.take(i as int) =~= ids@);
        self.save_coverage();
        self.matching_pending_consumers(key, &range)
    }

    /// The end of a fetch that no job of the coordinator stands behind, and what becomes of the
    /// requests for a part of its range.
    pub fn complete_legacy_fetch_effects(
        &mut self,
        key: &MarketDataKey,
        range: MarketDataRange,
        empty_covered_tail: Option<(UnixMs, UnixMs)>,
    ) -> (effects: Vec<MarketDataChartEffect>)
        requires
            old(self)@.wf(),
        ensures
            (StepView { state: final(self)@, effects: effect_views(effects@) }) == old(
                self,
            )@.closing_all(key@, range, empty_covered_tail),
            final(self)@.wf(),
    {
        let consumers = self.complete_legacy_fetch(key, range, empty_covered_tail);
        let ghost closed = self@;
        let ghost cs = consumer_views(consumers@);
        proof {
            crate::market_data::runtime::lemma_filter_sound(
                closed,
                crate::market_data::runtime::model::wanting(key@, range),
            );
        }
        let mut effects = no_effects();
        let mut i: usize = 0;
        assert(cs.take(0) =~= Seq::empty());
        while i < consumers.len()
            invariant
                i <= consumers@.len(),
                cs == consumer_views(consumers@),
                forall|k: int| 0 <= k < cs.len() ==> (#[trigger] cs[k]).sound(),
                self@.wf(),
                (StepView { state: self@, effects: effect_views(effects@) })
                    == closed.completing_each(cs.take(i as int), empty_covered_tail),
            decreases consumers@.len() - i,
        {
            assert(cs[i as int].sound());
            let more = self.effects_for_completed_consumer(
                consumers[i].clone(),
                empty_covered_tail,
            );
            extend_effects(&mut effects, more);
            i += 1;
            assert(cs.take(i as int).drop_last() =~= cs.take(i - 1));
            assert(cs.take(i as int).last() == cs[i - 1]);
        }
        assert(cs.take(i as int) =~= cs);
        self.remove_completed_consumers_for(key, &range);
        effects
    }
}

} // verus!
