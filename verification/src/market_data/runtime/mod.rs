//! The runtime of the market data layer.
//!
//! It owns the coordinator, the requests of charts that wait for data, and the link between
//! requests to workers, jobs and waiting requests. Changes to charts and to the cache are handed
//! out to the caller.

use vstd::prelude::*;
use vstd::string::*;
use crate::id_table::{lemma_mapped, lookup, mapped, put, without, IdTable};
use crate::ids::{hyphenated, short_id, Uuid};
use crate::market_data::consumer::{
    consumer_of, consumer_views, ConsumerSegmentStatus, ConsumerView, PendingMarketDataConsumer,
};
use crate::market_data::coordinator::{latest_anywhere, CoordinatorView, MarketDataCoordinator};
use crate::market_data::coverage::CoverageLedger;
use crate::market_data::effect::{command_views, CacheCommand, CommandView};
use crate::market_data::job::{FetchJob, FetchJobId, JobView};
use crate::market_data::key::MarketDataKey;
use crate::market_data::live::LiveDataAdapter;
use crate::market_data::progress::{job_views, MarketDataProgressSnapshot};
use crate::market_data::range::MarketDataRange;
use crate::seqs::{copy_rows, lemma_filter_map_take, lemma_filter_take};
use crate::text::{decimal, push_decimal};

pub mod delivery;
pub mod delivery_laws;
pub mod laws;
pub mod model;
pub mod route_model;
pub mod routing;
pub mod routing_laws;
pub mod worker_laws;
pub mod workers;

use self::model::{consumer_at, place_of, replaced, unfinished, unfinished_in, wanting, RuntimeView};
use self::workers::active_jobs_of;

verus! {

/// Pause between two saves of the coverage, in milliseconds.
pub const COVERAGE_SAVE_INTERVAL_MS: u64 = 30_000;

/// The runtime of the market data layer.
pub struct MarketDataRuntime {
    pub coordinator: MarketDataCoordinator,
    pub live_adapter: LiveDataAdapter,
    last_coverage_save: u64,
    pending_consumers: Vec<PendingMarketDataConsumer>,
    worker_req_to_job: IdTable<FetchJobId>,
    job_to_worker_req: IdTable<Uuid>,
    job_to_consumers: IdTable<Vec<Uuid>>,
    cache_commands: Vec<CacheCommand>,
}

/// What lists of identifiers denote.
pub open spec fn listed_ids() -> spec_fn(Vec<Uuid>) -> Seq<Uuid> {
    |v: Vec<Uuid>| v@
}

impl View for MarketDataRuntime {
    type V = RuntimeView;

    closed spec fn view(&self) -> RuntimeView {
        RuntimeView {
            coordinator: self.coordinator@,
            live: self.live_adapter@,
            last_coverage_save: self.last_coverage_save,
            consumers: consumer_views(self.pending_consumers@),
            worker_jobs: self.worker_req_to_job@,
            job_workers: self.job_to_worker_req@,
            job_consumers: mapped(self.job_to_consumers@, listed_ids()),
            commands: command_views(self.cache_commands@),
        }
    }
}

/// What an optional job denotes.
pub open spec fn named_job(j: Option<(FetchJobId, FetchJob)>) -> Option<(FetchJobId, JobView)> {
    match j {
        Some((id, job)) => Some((id, job@)),
        None => None,
    }
}

pub(crate) proof fn lemma_place(cs: Seq<ConsumerView>, id: Uuid, i: int)
    requires
        0 <= i <= cs.len(),
        i < cs.len() ==> cs[i].req_id == id,
        forall|k: int| 0 <= k < i ==> (#[trigger] cs[k]).req_id != id,
    ensures
        place_of(cs, id) == i,
    decreases i,
{
    if i > 0 {
        let rest = cs.skip(1);
        assert(cs[0].req_id != id);
        assert forall|k: int| 0 <= k < i - 1 implies (#[trigger] rest[k]).req_id != id by {
            assert(rest[k] == cs[k + 1]);
        }
        lemma_place(rest, id, i - 1);
    }
}

pub(crate) proof fn lemma_place_bounds(cs: Seq<ConsumerView>, id: Uuid)
    ensures
        0 <= place_of(cs, id) <= cs.len(),
        place_of(cs, id) < cs.len() ==> cs[place_of(cs, id)].req_id == id,
        forall|k: int| 0 <= k < place_of(cs, id) ==> (#[trigger] cs[k]).req_id != id,
    decreases cs.len(),
{
    if cs.len() > 0 && cs[0].req_id != id {
        let rest = cs.skip(1);
        lemma_place_bounds(rest, id);
        assert forall|k: int| 0 <= k < place_of(cs, id) implies (#[trigger] cs[k]).req_id != id by {
            if k > 0 {
                assert(rest[k - 1] == cs[k]);
            }
        }
    }
}

/// A request that took the place of another one is found under its identifier.
pub(crate) proof fn lemma_replaced(cs: Seq<ConsumerView>, id: Uuid, c: ConsumerView)
    requires
        consumer_at(cs, id) is Some,
        c.req_id == id,
    ensures
        place_of(replaced(cs, id, c), id) == place_of(cs, id),
        consumer_at(replaced(cs, id, c), id) == Some(c),
{
    lemma_place_bounds(cs, id);
    let out = replaced(cs, id, c);
    assert forall|k: int| 0 <= k < place_of(cs, id) implies (#[trigger] out[k]).req_id != id by {
        assert(out[k] == cs[k]);
    }
    lemma_place(out, id, place_of(cs, id));
}

/// A request that was found belongs to the waiting ones.
pub(crate) proof fn lemma_found_sound(s: RuntimeView, id: Uuid)
    requires
        s.wf(),
    ensures
        consumer_at(s.consumers, id) matches Some(c) ==> c.sound() && c.req_id == id,
{
    lemma_place_bounds(s.consumers, id);
}

/// A request in place of another one keeps the state usable.
pub(crate) proof fn lemma_altered_wf(s: RuntimeView, id: Uuid, c: ConsumerView)
    requires
        s.wf(),
        c.sound(),
    ensures
        s.altered(id, c).wf(),
{
    lemma_place_bounds(s.consumers, id);
    let out = replaced(s.consumers, id, c);
    assert forall|i: int| 0 <= i < out.len() implies (#[trigger] out[i]).sound() by {
        if i != place_of(s.consumers, id) {
            assert(out[i] == s.consumers[i]);
        }
    }
}

/// Handing over what was handed over before changes nothing.
pub(crate) proof fn lemma_not_delivered(s: RuntimeView, id: Uuid, segment: MarketDataRange)
    requires
        !s.delivers(id, segment),
    ensures
        s.delivering(id, segment) == s,
{
    lemma_place_bounds(s.consumers, id);
    if let Some(c) = consumer_at(s.consumers, id) {
        assert(s.altered(id, c) =~= s);
    }
}

pub(crate) proof fn lemma_filter_sound(s: RuntimeView, p: spec_fn(ConsumerView) -> bool)
    requires
        s.wf(),
    ensures
        forall|i: int|
            0 <= i < s.consumers.filter(p).len() ==> (#[trigger] s.consumers.filter(p)[i]).sound(),
        (RuntimeView { consumers: s.consumers.filter(p), ..s }).wf(),
{
    let out = s.consumers.filter(p);
    assert forall|i: int| 0 <= i < out.len() implies (#[trigger] out[i]).sound() by {
        assert(out.contains(out[i]));
        s.consumers.lemma_filter_contains_rev(p, out[i]);
        let k = choose|k: int| 0 <= k < s.consumers.len() && s.consumers[k] == out[i];
        assert(s.consumers[k].sound());
    }
}

/// Numbers ranges of time as text.
fn display_all(ranges: &Vec<MarketDataRange>) -> (r: Vec<String>)
    ensures
        r@.map_values(|s: String| s@) == ranges@.map_values(|x: MarketDataRange| x.display()),
{
    let mut out: Vec<String> = Vec::new();
    let mut i: usize = 0;
    while i < ranges.len()
        invariant
            i <= ranges@.len(),
            out@.len() == i,
            forall|k: int| 0 <= k < i ==> (#[trigger] out@[k])@ == ranges@[k].display(),
        decreases ranges@.len() - i,
    {
        out.push(ranges[i].format_display());
        i += 1;
    }
    assert(out@.map_values(|s: String| s@) =~= ranges@.map_values(
        |x: MarketDataRange| x.display(),
    ));
    out
}

/// A job in short: its identifier and its range.
pub open spec fn short_job(j: JobView) -> Seq<char> {
    hyphenated(j.id.0).take(8) + ":"@ + j.range.display()
}

/// Jobs in short, separated by commas.
pub open spec fn short_jobs(jobs: Seq<JobView>) -> Seq<char>
    decreases jobs.len(),
{
    if jobs.len() == 0 {
        Seq::empty()
    } else if jobs.len() == 1 {
        short_job(jobs[0])
    } else {
        short_jobs(jobs.drop_last()) + ","@ + short_job(jobs.last())
    }
}

/// Adds jobs in short, separated by commas.
fn push_short_jobs(out: &mut String, jobs: &Vec<FetchJob>)
    ensures
        final(out)@ == old(out)@ + short_jobs(job_views(jobs@)),
{
    let ghost had = out@;
    let ghost views = job_views(jobs@);
    let mut i: usize = 0;
    assert(views.take(0) =~= Seq::empty());
    assert(had + short_jobs(views.take(0)) =~= had);
    while i < jobs.len()
        invariant
            i <= jobs@.len(),
            views == job_views(jobs@),
            out@ == had + short_jobs(views.take(i as int)),
        decreases jobs@.len() - i,
    {
        let job = &jobs[i];
        let ghost next = views.take(i as int + 1);
        assert(next.drop_last() =~= views.take(i as int));
        assert(next.last() == job@);
        if i > 0 {
            out.append(",");
        }
        out.append(short_id(job.id).as_str());
        out.append(":");
        out.append(job.range.format_display().as_str());
        assert(out@ =~= had + short_jobs(next));
        i += 1;
    }
    assert(views.take(i as int) =~= views);
}

impl MarketDataRuntime {
    /// The coordinator.
    pub fn coordinator_ref(&self) -> (coordinator: &MarketDataCoordinator)
        ensures
            coordinator@ == self@.coordinator,
    {
        &self.coordinator
    }

    /// The live data.
    pub fn live_adapter_ref(&self) -> (live: &LiveDataAdapter)
        ensures
            live@ == self@.live,
    {
        &self.live_adapter
    }

    /// A runtime around a coordinator, made at time `now_ms`.
    pub fn from_parts(coordinator: MarketDataCoordinator, now_ms: u64) -> (r: Self)
        ensures
            r@ == RuntimeView::fresh(coordinator@, now_ms),
            coordinator@.wf() ==> r@.wf(),
    {
        let r = MarketDataRuntime {
            coordinator,
            live_adapter: LiveDataAdapter::new(),
            last_coverage_save: now_ms,
            pending_consumers: Vec::new(),
            worker_req_to_job: IdTable::new(),
            job_to_worker_req: IdTable::new(),
            job_to_consumers: IdTable::new(),
            cache_commands: Vec::new(),
        };
        assert(r@ =~= RuntimeView::fresh(coordinator@, now_ms));
        r
    }

    /// A runtime that knows nothing but what is covered.
    pub fn new(coverage: CoverageLedger, now_ms: u64) -> (r: Self)
        ensures
            r@ == RuntimeView::fresh(
                (CoordinatorView { facts: coverage.facts(), ..CoordinatorView::fresh(4, 10) }),
                now_ms,
            ),
            r@.wf(),
    {
        let mut coordinator = MarketDataCoordinator::new();
        coordinator.set_coverage(coverage);
        MarketDataRuntime::from_parts(coordinator, now_ms)
    }

    /// True when the coverage is due to be saved, which counts as done.
    pub fn should_save_coverage(&mut self, now_ms: u64) -> (due: bool)
        ensures
            due == (now_ms - old(self)@.last_coverage_save > COVERAGE_SAVE_INTERVAL_MS),
            final(self)@ == if due {
                RuntimeView { last_coverage_save: now_ms, ..old(self)@ }
            } else {
                old(self)@
            },
    {
        if now_ms.saturating_sub(self.last_coverage_save) > COVERAGE_SAVE_INTERVAL_MS {
            self.last_coverage_save = now_ms;
            true
        } else {
            false
        }
    }

    pub(crate) fn command(&mut self, c: CacheCommand)
        ensures
            final(self)@ == old(self)@.commanding(c@),
            old(self)@.wf() ==> final(self)@.wf(),
    {
        let ghost before = self@;
        self.cache_commands.push(c);
        assert(self@ =~= before.commanding(c@));
    }

    /// Asks for the coverage to be saved.
    pub fn save_coverage(&mut self)
        ensures
            final(self)@ == old(self)@.commanding(CommandView::SaveCoverage),
            old(self)@.wf() ==> final(self)@.wf(),
    {
        self.command(CacheCommand::SaveCoverage)
    }

    /// Hands out the changes to the cache that are due.
    pub fn take_cache_commands(&mut self) -> (commands: Vec<CacheCommand>)
        ensures
            command_views(commands@) == old(self)@.commands,
            final(self)@ == (RuntimeView { commands: Seq::empty(), ..old(self)@ }),
            old(self)@.wf() ==> final(self)@.wf(),
    {
        let ghost before = self@;
        let mut commands: Vec<CacheCommand> = Vec::new();
        std::mem::swap(&mut commands, &mut self.cache_commands);
        assert(self@ =~= (RuntimeView { commands: Seq::empty(), ..before }));
        commands
    }

    /// How far the jobs have got.
    pub fn progress_snapshot(&self) -> (s: MarketDataProgressSnapshot)
        ensures
            latest_anywhere(self@.coordinator.facts, s@.covered_until),
            s@ == self@.coordinator.progress(s@.covered_until),
    {
        self.coordinator.progress_snapshot()
    }

    /// How far the jobs have got, in one line of text.
    pub fn log_progress_snapshot(&self) -> (line: String)
        ensures
            line@ == "MARKETDATA ProgressSnapshot | active="@ + decimal(
                active_jobs_of(self@.coordinator.jobs).len(),
            ) + " cached_records="@ + decimal(self@.coordinator.cached_served as nat)
                + " fetched_records="@ + decimal(self@.coordinator.fetched_received as nat)
                + " jobs=["@ + short_jobs(active_jobs_of(self@.coordinator.jobs)) + "]"@,
    {
        let progress = self.progress_snapshot();
        let mut line = String::from_str("MARKETDATA ProgressSnapshot | active=");
        push_decimal(&mut line, progress.active_job_count() as u64);
        line.append(" cached_records=");
        push_decimal(&mut line, progress.total_cached_records as u64);
        line.append(" fetched_records=");
        push_decimal(&mut line, progress.total_fetched_records as u64);
        line.append(" jobs=[");
        let ghost views = job_views(progress.active_jobs@);
        assert(views =~= active_jobs_of(self@.coordinator.jobs));
        push_short_jobs(&mut line, &progress.active_jobs);
        line.append("]");
        line
    }

    /// The job behind a request to a worker.
    pub fn coordinator_job_for_worker(
        &self,
        worker_req: Uuid,
    ) -> (r: Option<(FetchJobId, FetchJob)>)
        ensures
            named_job(r) == self@.job_for(worker_req),
    {
        match self.worker_req_to_job.get(worker_req) {
            Some(job_id) => match self.coordinator.job(*job_id) {
                Some(job) => Some((*job_id, job.clone())),
                None => None,
            },
            None => None,
        }
    }

    fn find(&self, req_id: Uuid) -> (i: usize)
        ensures
            i == place_of(self@.consumers, req_id),
            i <= self.pending_consumers@.len(),
            i < self.pending_consumers@.len() ==> self.pending_consumers@[i as int].req_id == req_id,
            i < self.pending_consumers@.len() ==> consumer_at(self@.consumers, req_id) == Some(
                self.pending_consumers@[i as int]@,
            ),
            i == self.pending_consumers@.len() ==> consumer_at(self@.consumers, req_id) is None,
    {
        let mut i: usize = 0;
        while i < self.pending_consumers.len()
            invariant
                i <= self.pending_consumers@.len(),
                forall|k: int| 0 <= k < i ==> (#[trigger] self@.consumers[k]).req_id != req_id,
            decreases self.pending_consumers@.len() - i,
        {
            if self.pending_consumers[i].req_id == req_id {
                proof {
                    lemma_place(self@.consumers, req_id, i as int);
                }
                return i;
            }
            i += 1;
        }
        proof {
            lemma_place(self@.consumers, req_id, i as int);
        }
        i
    }

    fn replace_at(&mut self, i: usize, c: PendingMarketDataConsumer)
        requires
            i < old(self).pending_consumers@.len(),
            i == place_of(old(self)@.consumers, c.req_id),
        ensures
            final(self)@ == old(self)@.altered(c.req_id, c@),
            old(self)@.wf() && c@.sound() ==> final(self)@.wf(),
    {
        let ghost before = self@;
        self.pending_consumers.set(i, c);
        proof {
            assert(self@.consumers =~= replaced(before.consumers, c.req_id, c@));
            assert(self@ =~= before.altered(c.req_id, c@));
            if before.wf() && c@.sound() {
                lemma_altered_wf(before, c.req_id, c@);
            }
        }
    }

    /// The request with an identifier.
    pub fn pending_consumer_by_req(&self, req_id: Uuid) -> (c: Option<PendingMarketDataConsumer>)
        ensures
            consumer_of(c) == consumer_at(self@.consumers, req_id),
    {
        let i = self.find(req_id);
        if i < self.pending_consumers.len() {
            Some(self.pending_consumers[i].clone())
        } else {
            None
        }
    }

    /// How many requests wait.
    pub fn pending_consumer_count(&self) -> (n: usize)
        ensures
            n == self@.consumers.len(),
    {
        self.pending_consumers.len()
    }

    /// True when no request waits.
    pub fn pending_consumers_empty(&self) -> (r: bool)
        ensures
            r == (self@.consumers.len() == 0),
    {
        self.pending_consumers.len() == 0
    }

    /// How many requests to workers are out.
    pub fn worker_mapping_count(&self) -> (n: usize)
        ensures
            n == self@.worker_jobs.len(),
    {
        self.worker_req_to_job.len()
    }

    /// True when no request to a worker is out.
    pub fn worker_maps_empty(&self) -> (r: bool)
        ensures
            r == (self@.worker_jobs.len() == 0 && self@.job_workers.len() == 0
                && self@.job_consumers.len() == 0),
    {
        self.worker_req_to_job.len() == 0 && self.job_to_worker_req.len() == 0
            && self.job_to_consumers.len() == 0
    }

    /// The identifiers of the requests that a job serves.
    pub fn job_consumer_ids(&self, job_id: FetchJobId) -> (ids: Vec<Uuid>)
        ensures
            ids@ == self@.served_by(job_id),
    {
        let found = self.job_to_consumers.get(job_id);
        proof {
            let none: Vec<Uuid> = vstd::pervasive::arbitrary();
            lemma_mapped(self.job_to_consumers@, listed_ids(), job_id, none);
        }
        match found {
            Some(ids) => copy_rows(ids),
            None => Vec::new(),
        }
    }

    /// Adds a request that waits.
    pub fn push_pending_consumer(&mut self, consumer: PendingMarketDataConsumer)
        ensures
            final(self)@ == (RuntimeView {
                consumers: old(self)@.consumers.push(consumer@),
                ..old(self)@
            }),
            old(self)@.wf() && consumer@.sound() ==> final(self)@.wf(),
    {
        let ghost before = self@;
        self.pending_consumers.push(consumer);
        assert(self@ =~= (RuntimeView { consumers: before.consumers.push(consumer@), ..before }));
    }

    /// Links a request to a worker with its job.
    pub fn set_worker_job_mapping(&mut self, worker_req: Uuid, job_id: FetchJobId)
        ensures
            final(self)@ == (RuntimeView {
                worker_jobs: put(old(self)@.worker_jobs, worker_req, job_id),
                job_workers: put(old(self)@.job_workers, job_id, worker_req),
                ..old(self)@
            }),
            old(self)@.wf() ==> final(self)@.wf(),
    {
        self.worker_req_to_job.insert(worker_req, job_id);
        self.job_to_worker_req.insert(job_id, worker_req);
    }

    /// Links a job with the requests that it serves.
    pub fn set_job_consumers(&mut self, job_id: FetchJobId, consumers: Vec<Uuid>)
        ensures
            final(self)@ == (RuntimeView {
                job_consumers: put(old(self)@.job_consumers, job_id, consumers@),
                ..old(self)@
            }),
            old(self)@.wf() ==> final(self)@.wf(),
    {
        let ghost rows = self.job_to_consumers@;
        self.job_to_consumers.insert(job_id, consumers);
        proof {
            lemma_mapped(rows, listed_ids(), job_id, consumers);
        }
    }

    pub(crate) fn forget(&mut self, worker_req: Uuid, job_id: FetchJobId)
        ensures
            final(self)@ == old(self)@.forgetting(worker_req, job_id),
            old(self)@.wf() ==> final(self)@.wf(),
    {
        self.worker_req_to_job.remove(worker_req);
        self.forget_job(job_id);
    }

    pub(crate) fn forget_job(&mut self, job_id: FetchJobId)
        ensures
            final(self)@ == (RuntimeView {
                job_workers: without(old(self)@.job_workers, job_id),
                job_consumers: without(old(self)@.job_consumers, job_id),
                ..old(self)@
            }),
            old(self)@.wf() ==> final(self)@.wf(),
    {
        let ghost rows = self.job_to_consumers@;
        self.job_to_worker_req.remove(job_id);
        self.job_to_consumers.remove(job_id);
        proof {
            let none: Vec<Uuid> = vstd::pervasive::arbitrary();
            lemma_mapped(rows, listed_ids(), job_id, none);
        }
    }

    /// The requests that ask for a part of a range.
    pub fn matching_pending_consumers(
        &self,
        key: &MarketDataKey,
        range: &MarketDataRange,
    ) -> (r: Vec<PendingMarketDataConsumer>)
        ensures
            consumer_views(r@) == self@.wanting(key@, *range),
    {
        let mut out: Vec<PendingMarketDataConsumer> = Vec::new();
        let mut i: usize = 0;
        let ghost p = wanting(key@, *range);
        proof {
            reveal(Seq::filter);
            assert(self@.consumers.take(0).filter(p) =~= Seq::empty());
        }
        assert(consumer_views(out@) =~= Seq::empty());
        while i < self.pending_consumers.len()
            invariant
                i <= self.pending_consumers@.len(),
                p == wanting(key@, *range),
                consumer_views(out@) == self@.consumers.take(i as int).filter(p),
            decreases self.pending_consumers@.len() - i,
        {
            let ghost shown = out@;
            proof {
                lemma_filter_take(self@.consumers, i as int, p);
            }
            if self.pending_consumers[i].wants(key, range) {
                out.push(self.pending_consumers[i].clone());
                assert(consumer_views(out@) =~= consumer_views(shown).push(
                    self@.consumers[i as int],
                ));
            }
            i += 1;
        }
        assert(self@.consumers.take(i as int) =~= self@.consumers);
        out
    }

    /// The requests that a job serves and that still wait.
    pub fn consumers_for_job(&self, job_id: FetchJobId) -> (r: Vec<PendingMarketDataConsumer>)
        ensures
            consumer_views(r@) == self@.waiting_for(job_id),
    {
        let ids = self.job_consumer_ids(job_id);
        let mut out: Vec<PendingMarketDataConsumer> = Vec::new();
        let mut i: usize = 0;
        let ghost f = |id: Uuid| consumer_at(self@.consumers, id);
        proof {
            reveal(Seq::filter_map);
            assert(ids@.take(0).filter_map(f) =~= Seq::empty());
        }
        assert(consumer_views(out@) =~= Seq::empty());
        while i < ids.len()
            invariant
                i <= ids@.len(),
                f == (|id: Uuid| consumer_at(self@.consumers, id)),
                consumer_views(out@) == ids@.take(i as int).filter_map(f),
            decreases ids@.len() - i,
        {
            let ghost shown = out@;
            proof {
                lemma_filter_map_take(ids@, i as int, f);
            }
            if let Some(c) = self.pending_consumer_by_req(ids[i]) {
                out.push(c);
                assert(consumer_views(out@) =~= consumer_views(shown).push(c@));
            }
            i += 1;
        }
        assert(ids@.take(i as int) =~= ids@);
        out
    }

    /// Notes that a segment of a request arrived, and says how far the request has got.
    pub fn mark_consumer_segment_complete(
        &mut self,
        req_id: Uuid,
        segment: MarketDataRange,
    ) -> (s: Option<ConsumerSegmentStatus>)
        ensures
            final(self)@ == old(self)@.arriving(req_id, segment),
            old(self)@.wf() ==> final(self)@.wf(),
            match consumer_at(old(self)@.consumers, req_id) {
                Some(c) => s matches Some(status) && c.with_arrived(segment).has_status(status),
                None => s is None,
            },
    {
        let i = self.find(req_id);
        if i == self.pending_consumers.len() {
            return None;
        }
        proof {
            if self@.wf() {
                lemma_found_sound(self@, req_id);
            }
        }
        let mut c = self.pending_consumers[i].clone();
        c.note_arrived(segment);
        let status = c.status();
        self.replace_at(i, c);
        Some(status)
    }

    /// Notes that a segment is handed over to a request. False when it was before, or when there
    /// is no such request.
    pub fn mark_consumer_segment_delivered(
        &mut self,
        req_id: Uuid,
        segment: MarketDataRange,
    ) -> (added: bool)
        ensures
            final(self)@ == old(self)@.delivering(req_id, segment),
            added == old(self)@.delivers(req_id, segment),
            old(self)@.wf() ==> final(self)@.wf(),
    {
        let i = self.find(req_id);
        if i == self.pending_consumers.len() {
            return false;
        }
        proof {
            if self@.wf() {
                lemma_found_sound(self@, req_id);
            }
        }
        let mut c = self.pending_consumers[i].clone();
        let added = c.note_delivered(segment);
        self.replace_at(i, c);
        added
    }

    /// Notes that a request is done with.
    pub fn mark_consumer_completed(&mut self, req_id: Uuid)
        ensures
            final(self)@ == old(self)@.finishing(req_id),
            old(self)@.wf() ==> final(self)@.wf(),
    {
        let i = self.find(req_id);
        if i < self.pending_consumers.len() {
            proof {
                if self@.wf() {
                    lemma_found_sound(self@, req_id);
                }
            }
            let mut c = self.pending_consumers[i].clone();
            c.completed = true;
            self.replace_at(i, c);
        }
    }

    /// Notes that a part of the bubbles of a request was drawn.
    pub fn mark_bubble_consumer_partial(&mut self, req_id: Uuid)
        ensures
            final(self)@ == old(self)@.beginning(req_id),
            old(self)@.wf() ==> final(self)@.wf(),
    {
        let i = self.find(req_id);
        if i < self.pending_consumers.len() {
            proof {
                if self@.wf() {
                    lemma_found_sound(self@, req_id);
                }
            }
            let mut c = self.pending_consumers[i].clone();
            c.has_partial_updates = true;
            self.replace_at(i, c);
        }
    }

    /// Notes that the bubbles of a request were drawn.
    pub fn mark_bubble_consumer_completed(&mut self, req_id: Uuid)
        ensures
            final(self)@ == old(self)@.finishing(req_id),
            old(self)@.wf() ==> final(self)@.wf(),
    {
        self.mark_consumer_completed(req_id)
    }

    /// Notes that a segment of a request failed.
    pub(crate) fn mark_consumer_segment_failed(&mut self, req_id: Uuid, segment: MarketDataRange)
        ensures
            final(self)@ == old(self)@.failing(req_id, segment),
            old(self)@.wf() ==> final(self)@.wf(),
    {
        let i = self.find(req_id);
        if i < self.pending_consumers.len() {
            proof {
                if self@.wf() {
                    lemma_found_sound(self@, req_id);
                }
            }
            let mut c = self.pending_consumers[i].clone();
            c.failed_segments.push(segment);
            self.replace_at(i, c);
        }
    }

    /// Notes that a segment was planned for a request.
    pub fn add_required_segment_to_consumer(&mut self, req_id: Uuid, segment: MarketDataRange)
        ensures
            final(self)@ == old(self)@.planning(req_id, segment),
            old(self)@.wf() ==> final(self)@.wf(),
    {
        let i = self.find(req_id);
        if i < self.pending_consumers.len() {
            proof {
                if self@.wf() {
                    lemma_found_sound(self@, req_id);
                }
            }
            let mut c = self.pending_consumers[i].clone();
            c.note_planned(segment);
            self.replace_at(i, c);
        }
    }

    /// What is missing of a request and matters.
    pub fn effective_missing_for_consumer(&self, req_id: Uuid) -> (r: Vec<MarketDataRange>)
        ensures
            r@ == match consumer_at(self@.consumers, req_id) {
                Some(c) => c.gaps(),
                None => Seq::empty(),
            },
    {
        let i = self.find(req_id);
        if i < self.pending_consumers.len() {
            self.pending_consumers[i].gaps()
        } else {
            Vec::new()
        }
    }

    /// What matters of a request and neither arrived nor failed, as text.
    pub fn consumer_remaining_segments(&self, req_id: Uuid) -> (r: Vec<String>)
        ensures
            r@.map_values(|s: String| s@) == match consumer_at(self@.consumers, req_id) {
                Some(c) => c.open_gaps().map_values(|x: MarketDataRange| x.display()),
                None => Seq::empty(),
            },
    {
        let i = self.find(req_id);
        if i < self.pending_consumers.len() {
            display_all(&self.pending_consumers[i].open_gaps())
        } else {
            let none: Vec<String> = Vec::new();
            assert(none@.map_values(|s: String| s@) =~= Seq::empty());
            none
        }
    }

    /// True when a request has all that it needs.
    pub fn consumer_is_fully_satisfied(&self, req_id: Uuid) -> (r: bool)
        ensures
            r == (consumer_at(self@.consumers, req_id) matches Some(c) && c.satisfied()),
    {
        let i = self.find(req_id);
        i < self.pending_consumers.len() && self.pending_consumers[i].satisfied()
    }

    /// True when something of a request is still to come.
    pub fn consumer_has_effective_gaps(consumer: &PendingMarketDataConsumer) -> (r: bool)
        ensures
            r == (consumer@.open_gaps().len() > 0),
    {
        consumer.open_gaps().len() > 0
    }

    /// Drops requests for a part of a range that are done with and have nothing to come.
    pub fn remove_completed_consumers_for(&mut self, key: &MarketDataKey, range: &MarketDataRange)
        ensures
            final(self)@ == old(self)@.tidied_in(key@, *range),
            old(self)@.wf() ==> final(self)@.wf(),
    {
        let ghost before = self@;
        let ghost p = unfinished_in(key@, *range);
        let mut kept: Vec<PendingMarketDataConsumer> = Vec::new();
        let mut i: usize = 0;
        proof {
            reveal(Seq::filter);
            assert(before.consumers.take(0).filter(p) =~= Seq::empty());
        }
        assert(consumer_views(kept@) =~= Seq::empty());
        while i < self.pending_consumers.len()
            invariant
                i <= self.pending_consumers@.len(),
                self@ == before,
                p == unfinished_in(key@, *range),
                consumer_views(kept@) == before.consumers.take(i as int).filter(p),
            decreases self.pending_consumers@.len() - i,
        {
            let ghost shown = kept@;
            proof {
                lemma_filter_take(before.consumers, i as int, p);
            }
            let c = &self.pending_consumers[i];
            let goes = c.completed && !MarketDataRuntime::consumer_has_effective_gaps(c) && c.wants(
                key,
                range,
            );
            if !goes {
                kept.push(c.clone());
                assert(consumer_views(kept@) =~= consumer_views(shown).push(
                    before.consumers[i as int],
                ));
            }
            i += 1;
        }
        assert(before.consumers.take(i as int) =~= before.consumers);
        self.pending_consumers = kept;
        assert(self@ =~= before.tidied_in(key@, *range));
        proof {
            if before.wf() {
                lemma_filter_sound(before, p);
            }
        }
    }

    /// Drops requests that are done with and have nothing to come.
    pub fn retain_effective_pending_consumers(&mut self)
        ensures
            final(self)@ == old(self)@.tidied(),
            old(self)@.wf() ==> final(self)@.wf(),
    {
        let ghost before = self@;
        let ghost p = unfinished();
        let mut kept: Vec<PendingMarketDataConsumer> = Vec::new();
        let mut i: usize = 0;
        proof {
            reveal(Seq::filter);
            assert(before.consumers.take(0).filter(p) =~= Seq::empty());
        }
        assert(consumer_views(kept@) =~= Seq::empty());
        while i < self.pending_consumers.len()
            invariant
                i <= self.pending_consumers@.len(),
                self@ == before,
                p == unfinished(),
                consumer_views(kept@) == before.consumers.take(i as int).filter(p),
            decreases self.pending_consumers@.len() - i,
        {
            let ghost shown = kept@;
            proof {
                lemma_filter_take(before.consumers, i as int, p);
            }
            let c = &self.pending_consumers[i];
            if !c.completed || MarketDataRuntime::consumer_has_effective_gaps(c) {
                kept.push(c.clone());
                assert(consumer_views(kept@) =~= consumer_views(shown).push(
                    before.consumers[i as int],
                ));
            }
            i += 1;
        }
        assert(before.consumers.take(i as int) =~= before.consumers);
        self.pending_consumers = kept;
        assert(self@ =~= before.tidied());
        proof {
            if before.wf() {
                lemma_filter_sound(before, p);
            }
        }
    }

    /// The job behind a request to a worker, whether or not it still exists.
    pub(crate) fn job_id_for_worker(&self, worker_req: Uuid) -> (r: Option<FetchJobId>)
        ensures
            r == lookup(self@.worker_jobs, worker_req),
    {
        match self.worker_req_to_job.get(worker_req) {
            Some(id) => Some(*id),
            None => None,
        }
    }

    /// The request to a worker behind a job.
    pub(crate) fn worker_for_job(&self, job_id: FetchJobId) -> (r: Option<Uuid>)
        ensures
            r == lookup(self@.job_workers, job_id),
    {
        match self.job_to_worker_req.get(job_id) {
            Some(id) => Some(*id),
            None => None,
        }
    }

    pub(crate) fn drop_worker(&mut self, worker_req: Uuid)
        ensures
            final(self)@ == (RuntimeView {
                worker_jobs: without(old(self)@.worker_jobs, worker_req),
                ..old(self)@
            }),
            old(self)@.wf() ==> final(self)@.wf(),
    {
        self.worker_req_to_job.remove(worker_req);
    }
}

} // verus!
