//! From the requests and needs of a pane to requests to workers.
//!
//! What a pane asks for is planned: some of it is in the cache, the rest has to be fetched. The
//! cache is read by the caller, between the two halves of the way.

use vstd::prelude::*;
use crate::connector::fetcher::{
    copy_stream, spec_views, stream_of, stream_views, FetchRange, FetchSpec,
};
use crate::id_table::put;
use crate::ids::Uuid;
use crate::market::{Kline, OpenInterest, StreamKind, Trade};
use crate::market_data::bridge::{
    chart_need_to_consumer_fetch, chart_need_to_feature, chart_need_to_key, chart_need_to_range,
    chart_need_to_requirement, fetch_range_to_feature, fetch_range_to_key, fetch_range_to_range,
    fetch_range_to_requirement, stream_kind_to_key,
};
use crate::market_data::chart_need::ChartDataNeed;
use crate::market_data::consumer::{consumer_views, BubbleConsumerConfig, PendingMarketDataConsumer};
use crate::market_data::coordinator::{CoordinatorView, MIN_TRADE_BACKFILL_SEGMENT_MS};
use crate::market_data::effect::{dispatch_views, CachedMarketDataDispatch, DispatchView};
use crate::market_data::job::{FetchJob, FetchJobId};
use crate::market_data::key::{MarketDataKey, MarketDataKind};
use crate::market_data::planner::{cached_views, CachedSegment};
use crate::market_data::progress::job_views;
use crate::market_data::range::MarketDataRange;
use crate::market_data::requirement::ConsumerFeature;
use crate::market_data::runtime::delivery::{context_ticker, context_timeframe};
use crate::market_data::runtime::model::{wanting, RuntimeView};
use crate::market_data::runtime::route_model::{
    carries, fetch_of_key, first_carrying, most_candles, read_at, req_ids, routed, still_wanting,
    stream_of_first, wanting_trades, width_of, with_each_started, AskerView, LaunchedView, ReadView,
    RouteView, ServedView,
};
use crate::market_data::runtime::workers::active_jobs_of;
use crate::market_data::runtime::MarketDataRuntime;
use crate::market_data::series::{select, within};
use crate::seqs::{copy_rows, lemma_filter_take};
use crate::time::Timeframe;

verus! {

/// Requests of a pane.
#[derive(Debug)]
pub struct DashboardFetchRoute {
    pub pane_id: Uuid,
    pub ready_streams: Vec<StreamKind>,
    pub chart_generation: u64,
    pub reqs: Vec<FetchSpec>,
}

impl DashboardFetchRoute {
    /// The pane that asks.
    pub open spec fn asker(self) -> AskerView {
        AskerView {
            pane_id: self.pane_id,
            ready: stream_views(self.ready_streams@),
            chart_generation: self.chart_generation,
        }
    }
}

/// Needs of the chart of a pane.
#[derive(Debug)]
pub struct DashboardChartNeedRoute {
    pub pane_id: Uuid,
    pub ready_streams: Vec<StreamKind>,
    pub chart_generation: u64,
    pub needs: Vec<ChartDataNeed>,
}

impl DashboardChartNeedRoute {
    /// The pane that asks.
    pub open spec fn asker(self) -> AskerView {
        AskerView {
            pane_id: self.pane_id,
            ready: stream_views(self.ready_streams@),
            chart_generation: self.chart_generation,
        }
    }
}

/// What a pane gets for what it asked: requests to workers, records of the cache, and why.
#[derive(Debug)]
pub struct MarketDataRouteOutcome {
    pub pane_id: Uuid,
    pub ready_streams: Vec<StreamKind>,
    pub chart_generation: u64,
    pub fetch_specs: Vec<FetchSpec>,
    pub cached_dispatches: Vec<CachedMarketDataDispatch>,
    pub reason: &'static str,
}

impl View for MarketDataRouteOutcome {
    type V = RouteView;

    open spec fn view(&self) -> RouteView {
        RouteView {
            asker: AskerView {
                pane_id: self.pane_id,
                ready: stream_views(self.ready_streams@),
                chart_generation: self.chart_generation,
            },
            specs: spec_views(self.fetch_specs@),
            dispatches: dispatch_views(self.cached_dispatches@),
            reason: self.reason@,
        }
    }
}

/// What a pane asked for, planned: the segments that the cache should have.
#[derive(Debug)]
pub struct PlannedRoute {
    pub pane_id: Uuid,
    pub ready_streams: Vec<StreamKind>,
    pub chart_generation: u64,
    pub cached: Vec<CachedSegment>,
}

impl PlannedRoute {
    /// The pane that asks.
    pub open spec fn asker(self) -> AskerView {
        AskerView {
            pane_id: self.pane_id,
            ready: stream_views(self.ready_streams@),
            chart_generation: self.chart_generation,
        }
    }
}

/// The first half of the way: it ends here, or the cache has to be read.
#[derive(Debug)]
pub enum RouteStep {
    Done(MarketDataRouteOutcome),
    Read(PlannedRoute),
}

/// The records of the cache for a segment, of whichever kind it is.
#[derive(Debug)]
pub struct CachedRows {
    pub klines: Vec<Kline>,
    pub trades: Vec<Trade>,
    pub open_interest: Vec<OpenInterest>,
}

impl View for CachedRows {
    type V = ReadView;

    open spec fn view(&self) -> ReadView {
        ReadView {
            klines: self.klines@,
            trades: self.trades@,
            open_interest: self.open_interest@,
        }
    }
}

/// What several reads of the cache denote.
pub open spec fn read_views(s: Seq<CachedRows>) -> Seq<ReadView> {
    s.map_values(|r: CachedRows| r@)
}

/// True for a stream that carries the data of a market data stream.
pub fn stream_matches_market_key(stream: &StreamKind, key: &MarketDataKey) -> (r: bool)
    ensures
        r == carries(stream@, key@),
{
    let stream_key = match (&key.kind, stream) {
        (MarketDataKind::Trades, StreamKind::Trades { .. }) => stream_kind_to_key(stream),
        (MarketDataKind::Klines { timeframe }, StreamKind::Kline { timeframe: tf, .. }) => if *timeframe
            == *tf {
            stream_kind_to_key(stream)
        } else {
            None
        },
        (
            MarketDataKind::OpenInterest { timeframe },
            StreamKind::Kline { timeframe: tf, ticker_info },
        ) => if *timeframe == *tf {
            MarketDataKey::from_ticker_info(
                ticker_info,
                MarketDataKind::OpenInterest { timeframe: *timeframe },
            )
        } else {
            None
        },
        _ => None,
    };
    match &stream_key {
        Some(k) => k.same(key),
        None => false,
    }
}

pub fn first_carrying_stream(streams: &[StreamKind], key: &MarketDataKey) -> (r: Option<StreamKind>)
    ensures
        stream_of(r) == first_carrying(stream_views(streams@), key@),
{
    let mut i: usize = 0;
    let ghost views = stream_views(streams@);
    assert(views.skip(0) =~= views);
    while i < streams.len()
        invariant
            i <= streams@.len(),
            views == stream_views(streams@),
            first_carrying(views, key@) == first_carrying(views.skip(i as int), key@),
        decreases streams@.len() - i,
    {
        assert(views.skip(i as int)[0] == streams@[i as int]@);
        assert(views.skip(i as int).skip(1) =~= views.skip(i + 1));
        if stream_matches_market_key(&streams[i], key) {
            return Some(streams[i].clone());
        }
        i += 1;
    }
    None
}

fn fetch_range_for_key(key: &MarketDataKey, range: MarketDataRange) -> (f: FetchRange)
    ensures
        f == fetch_of_key(key@, range),
{
    match key.kind {
        MarketDataKind::Klines { .. } => FetchRange::Kline(range.from, range.to),
        MarketDataKind::Trades => FetchRange::Trades(range.from, range.to),
        MarketDataKind::OpenInterest { .. } => FetchRange::OpenInterest(range.from, range.to),
    }
}

fn resolve_fetch_timeframe(
    spec: &FetchSpec,
    ready_streams: &[StreamKind],
) -> (tf: Option<Timeframe>)
    ensures
        tf == width_of(spec@, stream_views(ready_streams@)),
{
    match &spec.stream {
        Some(StreamKind::Kline { timeframe, .. }) => Some(*timeframe),
        _ => context_timeframe(ready_streams),
    }
}

fn copy_segments(segs: &Vec<CachedSegment>) -> (r: Vec<CachedSegment>)
    ensures
        cached_views(r@) == cached_views(segs@),
{
    let mut out: Vec<CachedSegment> = Vec::new();
    let mut i: usize = 0;
    while i < segs.len()
        invariant
            i <= segs@.len(),
            out@.len() == i,
            forall|k: int| 0 <= k < i ==> (#[trigger] out@[k])@ == segs@[k]@,
        decreases segs@.len() - i,
    {
        out.push(segs[i].clone());
        i += 1;
    }
    assert(cached_views(out@) =~= cached_views(segs@));
    out
}

impl MarketDataRuntime {
    fn ids_still_wanting(&self, key: &MarketDataKey, range: &MarketDataRange) -> (ids: Vec<Uuid>)
        ensures
            ids@ == req_ids(self@.consumers.filter(still_wanting(key@, *range))),
    {
        let mut ids: Vec<Uuid> = Vec::new();
        let mut i: usize = 0;
        let ghost p = still_wanting(key@, *range);
        proof {
            reveal(Seq::filter);
            assert(self@.consumers.take(0).filter(p) =~= Seq::empty());
        }
        assert(ids@ =~= req_ids(self@.consumers.take(0).filter(p)));
        while i < self.pending_consumers.len()
            invariant
                i <= self.pending_consumers@.len(),
                p == still_wanting(key@, *range),
                ids@ == req_ids(self@.consumers.take(i as int).filter(p)),
            decreases self.pending_consumers@.len() - i,
        {
            proof {
                lemma_filter_take(self@.consumers, i as int, p);
            }
            let c = &self.pending_consumers[i];
            assert(c@ == self@.consumers[i as int]);
            if c.wants(key, range) && !c.completed {
                ids.push(c.req_id);
            }
            i += 1;
            assert(ids@ =~= req_ids(self@.consumers.take(i as int).filter(p)));
        }
        assert(self@.consumers.take(i as int) =~= self@.consumers);
        ids
    }

    fn plan_for_each(&mut self, ids: &Vec<Uuid>, range: MarketDataRange)
        ensures
            final(self)@ == old(self)@.planning_each(ids@, range),
            old(self)@.wf() ==> final(self)@.wf(),
    {
        let ghost before = self@;
        let mut i: usize = 0;
        assert(ids@.take(0) =~= Seq::empty());
        while i < ids.len()
            invariant
                i <= ids@.len(),
                self@ == before.planning_each(ids@.take(i as int), range),
                before.wf() ==> self@.wf(),
            decreases ids@.len() - i,
        {
            self.add_required_segment_to_consumer(ids[i], range);
            i += 1;
            assert(ids@.take(i as int).drop_last() =~= ids@.take(i - 1));
            assert(ids@.take(i as int).last() == ids@[i - 1]);
        }
        assert(ids@.take(i as int) =~= ids@);
    }

    fn first_stream_wanting(&self, key: &MarketDataKey, range: &MarketDataRange) -> (r: Option<
        StreamKind,
    >)
        ensures
            stream_of(r) == stream_of_first(self@.consumers, wanting(key@, *range)),
    {
        let mut i: usize = 0;
        let ghost cs = self@.consumers;
        let ghost p = wanting(key@, *range);
        assert(cs.skip(0) =~= cs);
        while i < self.pending_consumers.len()
            invariant
                i <= self.pending_consumers@.len(),
                cs == self@.consumers,
                p == wanting(key@, *range),
                stream_of_first(cs, p) == stream_of_first(cs.skip(i as int), p),
            decreases self.pending_consumers@.len() - i,
        {
            let c = &self.pending_consumers[i];
            assert(cs.skip(i as int)[0] == c@);
            assert(cs.skip(i as int).skip(1) =~= cs.skip(i + 1));
            if c.wants(key, range) {
                return copy_stream(&c.stream);
            }
            i += 1;
        }
        None
    }

    fn source_stream(
        &self,
        key: &MarketDataKey,
        range: &MarketDataRange,
        ready_streams: &[StreamKind],
    ) -> (r: Option<StreamKind>)
        ensures
            stream_of(r) == self@.source_of(key@, *range, stream_views(ready_streams@)),
    {
        match first_carrying_stream(ready_streams, key) {
            Some(stream) => Some(stream),
            None => self.first_stream_wanting(key, range),
        }
    }

    /// Makes a request to a worker for a job, under an identifier, and links the job with all
    /// requests for a part of its range that are not done with.
    pub fn fetch_spec_for_market_job(
        &mut self,
        job_id: FetchJobId,
        key: &MarketDataKey,
        range: MarketDataRange,
        ready_streams: &[StreamKind],
        req_id: Uuid,
    ) -> (spec: FetchSpec)
        ensures
            (final(self)@, spec@) == old(self)@.launching(
                job_id,
                key@,
                range,
                stream_views(ready_streams@),
                req_id,
            ),
            old(self)@.wf() ==> final(self)@.wf(),
    {
        let ghost before = self@;
        let stream = self.source_stream(key, &range, ready_streams);
        let fetch = fetch_range_for_key(key, range);
        let consumers = self.ids_still_wanting(key, &range);
        self.set_worker_job_mapping(req_id, job_id);
        self.set_job_consumers(job_id, copy_rows(&consumers));
        assert(self@ =~= (RuntimeView {
            worker_jobs: put(before.worker_jobs, req_id, job_id),
            job_workers: put(before.job_workers, job_id, req_id),
            job_consumers: put(before.job_consumers, job_id, consumers@),
            ..before
        }));
        self.plan_for_each(&consumers, range);
        FetchSpec { req_id, fetch, stream }
    }

    fn attach_each(&mut self, job: &FetchJob, ids: &Vec<Uuid>) -> (attached: usize)
        ensures
            final(self)@ == old(self)@.attaching_each(job@, ids@).0,
            attached == old(self)@.attaching_each(job@, ids@).1,
            attached <= ids@.len(),
            old(self)@.wf() ==> final(self)@.wf(),
    {
        let ghost before = self@;
        let mut attached: usize = 0;
        let mut i: usize = 0;
        assert(ids@.take(0) =~= Seq::empty());
        while i < ids.len()
            invariant
                i <= ids@.len(),
                attached <= i,
                self@ == before.attaching_each(job@, ids@.take(i as int)).0,
                attached == before.attaching_each(job@, ids@.take(i as int)).1,
                before.wf() ==> self@.wf(),
            decreases ids@.len() - i,
        {
            let req_id = ids[i];
            let ghost front = self@;
            let mut served = self.job_consumer_ids(job.id);
            let mut known = false;
            let mut k: usize = 0;
            while k < served.len()
                invariant
                    k <= served@.len(),
                    known == exists|a: int| 0 <= a < k && #[trigger] served@[a] == req_id,
                decreases served@.len() - k,
            {
                if served[k] == req_id {
                    known = true;
                }
                k += 1;
            }
            assert(known == served@.contains(req_id));
            if !known {
                served.push(req_id);
                self.set_job_consumers(job.id, served);
                self.add_required_segment_to_consumer(req_id, job.range);
                attached += 1;
            }
            i += 1;
            assert(ids@.take(i as int).drop_last() =~= ids@.take(i - 1));
            assert(ids@.take(i as int).last() == ids@[i - 1]);
        }
        assert(ids@.take(i as int) =~= ids@);
        attached
    }

    /// Links all active jobs with the requests for a part of their ranges that are not done with.
    /// How many links are new is returned.
    pub fn attach_pending_consumers_to_active_jobs(&mut self) -> (attached: usize)
        ensures
            final(self)@ == old(self)@.attaching().0,
            attached == crate::market_data::coverage::clamp_usize(old(self)@.attaching().1),
            old(self)@.wf() ==> final(self)@.wf(),
    {
        let ghost before = self@;
        let jobs = self.coordinator.active_jobs();
        let ghost views = active_jobs_of(before.coordinator.jobs);
        assert(job_views(jobs@) =~= views);
        let mut attached: usize = 0;
        let mut i: usize = 0;
        assert(views.take(0) =~= Seq::empty());
        while i < jobs.len()
            invariant
                i <= jobs@.len(),
                job_views(jobs@) == views,
                self@ == before.attaching_jobs(views.take(i as int)).0,
                attached == crate::market_data::coverage::clamp_usize(
                    before.attaching_jobs(views.take(i as int)).1,
                ),
                before.wf() ==> self@.wf(),
            decreases jobs@.len() - i,
        {
            let job = &jobs[i];
            assert(views[i as int] == job@);
            let ids = self.ids_still_wanting(&job.key, &job.range);
            let n: usize = self.attach_each(job, &ids);
            attached = attached.saturating_add(n);
            i += 1;
            assert(views.take(i as int).drop_last() =~= views.take(i - 1));
            assert(views.take(i as int).last() == views[i - 1]);
        }
        assert(views.take(i as int) =~= views);
        attached
    }

    fn any_wanting_trades(&self, key: &MarketDataKey, range: &MarketDataRange) -> (r: bool)
        ensures
            r == (self@.consumers.filter(wanting_trades(key@, *range)).len() > 0),
    {
        let mut found = false;
        let mut i: usize = 0;
        let ghost p = wanting_trades(key@, *range);
        proof {
            reveal(Seq::filter);
            assert(self@.consumers.take(0).filter(p) =~= Seq::empty());
        }
        while i < self.pending_consumers.len()
            invariant
                i <= self.pending_consumers@.len(),
                p == wanting_trades(key@, *range),
                found == (self@.consumers.take(i as int).filter(p).len() > 0),
            decreases self.pending_consumers@.len() - i,
        {
            proof {
                lemma_filter_take(self@.consumers, i as int, p);
            }
            let c = &self.pending_consumers[i];
            assert(c@ == self@.consumers[i as int]);
            let trades = match c.feature {
                ConsumerFeature::TradeHydration | ConsumerFeature::Footprint => true,
                _ => false,
            };
            if trades && c.wants(key, range) {
                found = true;
            }
            i += 1;
        }
        assert(self@.consumers.take(i as int) =~= self@.consumers);
        found
    }

    /// Plans cached segments for the requests for a part of them. Very short ones are left out
    /// where trades are drawn.
    pub fn register_required_segments_from_plan(&mut self, segments: &Vec<CachedSegment>)
        ensures
            final(self)@ == old(self)@.planning_cached_each(cached_views(segments@)),
            old(self)@.wf() ==> final(self)@.wf(),
    {
        let ghost before = self@;
        let ghost views = cached_views(segments@);
        let mut i: usize = 0;
        assert(views.take(0) =~= Seq::empty());
        while i < segments.len()
            invariant
                i <= segments@.len(),
                views == cached_views(segments@),
                self@ == before.planning_cached_each(views.take(i as int)),
                before.wf() ==> self@.wf(),
            decreases segments@.len() - i,
        {
            let seg = &segments[i];
            let ghost front = self@;
            assert(views[i as int] == seg@);
            let skipped = seg.range.duration_ms() < MIN_TRADE_BACKFILL_SEGMENT_MS
                && self.any_wanting_trades(&seg.key, &seg.range);
            if !skipped {
                let wanting = self.matching_pending_consumers(&seg.key, &seg.range);
                let mut ids: Vec<Uuid> = Vec::new();
                let mut k: usize = 0;
                while k < wanting.len()
                    invariant
                        k <= wanting@.len(),
                        ids@.len() == k,
                        forall|a: int| 0 <= a < k ==> #[trigger] ids@[a] == wanting@[a].req_id,
                    decreases wanting@.len() - k,
                {
                    ids.push(wanting[k].req_id);
                    k += 1;
                }
                assert(ids@ =~= req_ids(consumer_views(wanting@)));
                self.plan_for_each(&ids, seg.range);
            }
            i += 1;
            assert(views.take(i as int).drop_last() =~= views.take(i - 1));
            assert(views.take(i as int).last() == views[i - 1]);
        }
        assert(views.take(i as int) =~= views);
    }

    fn mark_wrong_and_refetch(
        &mut self,
        seg: &CachedSegment,
        reason: &str,
        ready_streams: &[StreamKind],
        req_id: Uuid,
    ) -> (spec: Option<FetchSpec>)
        ensures
            (ServedView {
                state: final(self)@,
                dispatches: Seq::empty(),
                refetches: match spec {
                    Some(s) => seq![s@],
                    None => Seq::empty(),
                },
            }) == old(self)@.refetching(seg@, reason@, stream_views(ready_streams@), req_id),
            old(self)@.wf() ==> final(self)@.wf(),
    {
        let ghost before = self@;
        let stream = self.source_stream(&seg.key, &seg.range, ready_streams);
        self.coordinator.mark_stale(&seg.key, seg.range, reason);
        if seg.key.kind.is_trades() && seg.range.duration_ms() < MIN_TRADE_BACKFILL_SEGMENT_MS {
            self.coordinator.mark_empty(&seg.key, seg.range);
            assert(self@ =~= before.refetching(
                seg@,
                reason@,
                stream_views(ready_streams@),
                req_id,
            ).state);
            return None;
        }
        assert(self@ =~= before.refetching(
            seg@,
            reason@,
            stream_views(ready_streams@),
            req_id,
        ).state);
        let fetch = fetch_range_for_key(&seg.key, seg.range);
        Some(FetchSpec { req_id, fetch, stream })
    }

    fn count_served(&mut self, records: usize)
        ensures
            final(self)@ == old(self)@.counting_served(old(self)@.coordinator, records as nat),
            old(self)@.wf() ==> final(self)@.wf(),
    {
        let ghost before = self@;
        self.coordinator.record_cache_served(records);
        assert(self@ =~= before.counting_served(before.coordinator, records as nat));
    }

    fn serve_klines(
        &mut self,
        seg: &CachedSegment,
        timeframe: Timeframe,
        rows: &Vec<Kline>,
    ) -> (r: Result<CachedMarketDataDispatch, &'static str>)
        requires
            seg@.key.kind == (MarketDataKind::Klines { timeframe }),
        ensures
            old(self)@.wf() ==> final(self)@.wf(),
            match r {
                Ok(d) => 0 < within(rows@, seg@.range).len() <= most_candles(seg@.range, timeframe)
                    && d@ == (DispatchView::Klines {
                    key: seg@.key,
                    range: seg@.range,
                    timeframe,
                    rows: within(rows@, seg@.range),
                }) && final(self)@ == old(self)@.counting_served(
                    (CoordinatorView {
                        store: old(self)@.coordinator.store.with_klines(
                            seg@.key,
                            within(rows@, seg@.range),
                        ),
                        ..old(self)@.coordinator
                    }),
                    within(rows@, seg@.range).len(),
                ),
                Err(reason) => final(self)@ == old(self)@ && if within(rows@, seg@.range).len()
                    > most_candles(seg@.range, timeframe) {
                    reason@ == "corrupt_cache"@
                } else {
                    within(rows@, seg@.range).len() == 0 && reason@ == "cache_desync"@
                },
            },
    {
        let ghost before = self@;
        let filtered = select(rows, &seg.range);
        let width: u64 = timeframe.to_milliseconds();
        let span: u64 = seg.range.duration_ms();
        assert(width > 0);
        assert(span / width <= span) by (nonlinear_arith)
            requires
                width > 0,
        ;
        let fitting: u64 = span / width;
        let count: usize = filtered.len();
        if count >= 2 && (count - 2) as u64 > fitting {
            return Err("corrupt_cache");
        }
        if filtered.len() == 0 {
            return Err("cache_desync");
        }
        self.coordinator.feed_klines(&seg.key, &filtered);
        self.count_served(filtered.len());
        assert(self@ =~= before.counting_served(
            CoordinatorView {
                store: before.coordinator.store.with_klines(seg@.key, filtered@),
                ..before.coordinator
            },
            filtered@.len(),
        ));
        Ok(
            CachedMarketDataDispatch::Klines {
                key: seg.key.clone(),
                range: seg.range,
                timeframe,
                rows: filtered,
            },
        )
    }

    /// Serves a cached segment. Candles and readings outside its range are dropped. Where nothing
    /// is left, or more candles than fit, the range is to be fetched anew under an identifier.
    pub fn serve_cached_segment(
        &mut self,
        seg: &CachedSegment,
        rows: &CachedRows,
        ready_streams: &[StreamKind],
        req_id: Uuid,
    ) -> (r: (Option<CachedMarketDataDispatch>, Option<FetchSpec>))
        ensures
            (ServedView {
                state: final(self)@,
                dispatches: match r.0 {
                    Some(d) => seq![d@],
                    None => Seq::empty(),
                },
                refetches: match r.1 {
                    Some(s) => seq![s@],
                    None => Seq::empty(),
                },
            }) == old(self)@.serving_segment(seg@, rows@, stream_views(ready_streams@), req_id),
            old(self)@.wf() ==> final(self)@.wf(),
    {
        let ghost before = self@;
        match seg.key.kind {
            MarketDataKind::Klines { timeframe } => {
                match self.serve_klines(seg, timeframe, &rows.klines) {
                    Ok(dispatch) => (Some(dispatch), None),
                    Err(reason) => (
                        None,
                        self.mark_wrong_and_refetch(seg, reason, ready_streams, req_id),
                    ),
                }
            },
            MarketDataKind::Trades => {
                if rows.trades.len() == 0 {
                    return (
                        None,
                        self.mark_wrong_and_refetch(seg, "cache_desync", ready_streams, req_id),
                    );
                }
                self.coordinator.feed_trades(&seg.key, &rows.trades);
                self.count_served(rows.trades.len());
                assert(self@ =~= before.counting_served(
                    CoordinatorView {
                        store: before.coordinator.store.with_trades(seg@.key, rows.trades@),
                        ..before.coordinator
                    },
                    rows.trades@.len(),
                ));
                (
                    Some(
                        CachedMarketDataDispatch::Trades {
                            key: seg.key.clone(),
                            range: seg.range,
                            rows: copy_rows(&rows.trades),
                        },
                    ),
                    None,
                )
            },
            MarketDataKind::OpenInterest { timeframe } => {
                let filtered = select(&rows.open_interest, &seg.range);
                if filtered.len() == 0 {
                    return (
                        None,
                        self.mark_wrong_and_refetch(seg, "cache_desync", ready_streams, req_id),
                    );
                }
                self.coordinator.feed_open_interest(&seg.key, &filtered);
                self.count_served(filtered.len());
                assert(self@ =~= before.counting_served(
                    CoordinatorView {
                        store: before.coordinator.store.with_open_interest(seg@.key, filtered@),
                        ..before.coordinator
                    },
                    filtered@.len(),
                ));
                (
                    Some(
                        CachedMarketDataDispatch::OpenInterest {
                            key: seg.key.clone(),
                            range: seg.range,
                            timeframe,
                            rows: filtered,
                        },
                    ),
                    None,
                )
            },
        }
    }

    /// Serves cached segments, each with the records that were read for it.
    pub fn serve_cached_market_segments(
        &mut self,
        segments: &Vec<CachedSegment>,
        reads: &Vec<CachedRows>,
        ready_streams: &[StreamKind],
    ) -> (r: (Vec<CachedMarketDataDispatch>, Vec<FetchSpec>))
        ensures
            exists|ids: Seq<Uuid>|
                ids.len() == segments@.len() && (ServedView {
                    state: final(self)@,
                    dispatches: dispatch_views(r.0@),
                    refetches: spec_views(r.1@),
                }) == #[trigger] old(self)@.serving(
                    cached_views(segments@),
                    read_views(reads@),
                    stream_views(ready_streams@),
                    ids,
                ),
            old(self)@.wf() ==> final(self)@.wf(),
    {
        let ghost before = self@;
        let ghost segs = cached_views(segments@);
        let ghost views = read_views(reads@);
        let ghost ready = stream_views(ready_streams@);
        let ghost mut ids: Seq<Uuid> = Seq::empty();
        let mut dispatches: Vec<CachedMarketDataDispatch> = Vec::new();
        let mut refetches: Vec<FetchSpec> = Vec::new();
        let mut i: usize = 0;
        assert(segs.take(0) =~= Seq::empty());
        assert(dispatch_views(dispatches@) =~= Seq::empty());
        assert(spec_views(refetches@) =~= Seq::empty());
        while i < segments.len()
            invariant
                i <= segments@.len(),
                segs == cached_views(segments@),
                views == read_views(reads@),
                ready == stream_views(ready_streams@),
                ids.len() == i,
                (ServedView {
                    state: self@,
                    dispatches: dispatch_views(dispatches@),
                    refetches: spec_views(refetches@),
                }) == before.serving(segs.take(i as int), views, ready, ids),
                before.wf() ==> self@.wf(),
            decreases segments@.len() - i,
        {
            let req_id = Uuid::new_v4();
            let ghost shown = dispatches@;
            let ghost asked = refetches@;
            let ghost front = self@;
            let none = CachedRows {
                klines: Vec::new(),
                trades: Vec::new(),
                open_interest: Vec::new(),
            };
            let rows = if i < reads.len() {
                &reads[i]
            } else {
                &none
            };
            assert(rows@ =~= read_at(views, i as int));
            let (dispatch, refetch) = self.serve_cached_segment(
                &segments[i],
                rows,
                ready_streams,
                req_id,
            );
            let ghost next = front.serving_segment(
                segs[i as int],
                read_at(views, i as int),
                ready,
                req_id,
            );
            if let Some(d) = dispatch {
                dispatches.push(d);
            }
            if let Some(spec) = refetch {
                refetches.push(spec);
            }
            assert(dispatch_views(dispatches@) =~= dispatch_views(shown) + next.dispatches);
            assert(spec_views(refetches@) =~= spec_views(asked) + next.refetches);
            proof {
                let more = ids.push(req_id);
                assert(segs.take(i + 1).drop_last() =~= segs.take(i as int));
                assert(segs.take(i + 1).last() == segs[i as int]);
                assert(more.drop_last() =~= ids);
                ids = more;
            }
            i += 1;
        }
        assert(segs.take(i as int) =~= segs);
        (dispatches, refetches)
    }

    fn start_each(&mut self, jobs: &Vec<FetchJobId>)
        ensures
            final(self)@ == (RuntimeView {
                coordinator: with_each_started(old(self)@.coordinator, jobs@),
                ..old(self)@
            }),
            old(self)@.wf() ==> final(self)@.wf(),
    {
        let ghost before = self@;
        let mut i: usize = 0;
        assert(jobs@.take(0) =~= Seq::empty());
        while i < jobs.len()
            invariant
                i <= jobs@.len(),
                self@ == (RuntimeView {
                    coordinator: with_each_started(before.coordinator, jobs@.take(i as int)),
                    ..before
                }),
                before.wf() ==> self@.wf(),
            decreases jobs@.len() - i,
        {
            self.coordinator.start_job(jobs[i]);
            i += 1;
            assert(jobs@.take(i as int).drop_last() =~= jobs@.take(i - 1));
            assert(jobs@.take(i as int).last() == jobs@[i - 1]);
            assert(self@ =~= (RuntimeView {
                coordinator: with_each_started(before.coordinator, jobs@.take(i as int)),
                ..before
            }));
        }
        assert(jobs@.take(i as int) =~= jobs@);
    }

    fn launch_each(&mut self, jobs: &Vec<FetchJobId>, ready_streams: &[StreamKind]) -> (specs: Vec<
        FetchSpec,
    >)
        ensures
            exists|ids: Seq<Uuid>|
                ids.len() == jobs@.len() && (LaunchedView {
                    state: final(self)@,
                    specs: spec_views(specs@),
                }) == #[trigger] old(self)@.launching_each(
                    jobs@,
                    stream_views(ready_streams@),
                    ids,
                ),
            old(self)@.wf() ==> final(self)@.wf(),
    {
        let ghost before = self@;
        let ghost ready = stream_views(ready_streams@);
        let ghost mut ids: Seq<Uuid> = Seq::empty();
        let mut specs: Vec<FetchSpec> = Vec::new();
        let mut i: usize = 0;
        assert(jobs@.take(0) =~= Seq::empty());
        assert(spec_views(specs@) =~= Seq::empty());
        while i < jobs.len()
            invariant
                i <= jobs@.len(),
                ready == stream_views(ready_streams@),
                ids.len() == i,
                (LaunchedView { state: self@, specs: spec_views(specs@) })
                    == before.launching_each(jobs@.take(i as int), ready, ids),
                before.wf() ==> self@.wf(),
            decreases jobs@.len() - i,
        {
            let req_id = Uuid::new_v4();
            let ghost shown = specs@;
            let found = match self.coordinator.job(jobs[i]) {
                Some(job) => Some((job.key.clone(), job.range)),
                None => None,
            };
            if let Some((key, range)) = found {
                let spec = self.fetch_spec_for_market_job(
                    jobs[i],
                    &key,
                    range,
                    ready_streams,
                    req_id,
                );
                specs.push(spec);
                assert(spec_views(specs@) =~= spec_views(shown).push(spec@));
            }
            proof {
                let more = ids.push(req_id);
                assert(jobs@.take(i + 1).drop_last() =~= jobs@.take(i as int));
                assert(jobs@.take(i + 1).last() == jobs@[i as int]);
                assert(more.drop_last() =~= ids);
                ids = more;
            }
            i += 1;
        }
        assert(jobs@.take(i as int) =~= jobs@);
        specs
    }

    /// The second half of the way: the cached segments are served with what was read for them,
    /// and what is missing is asked of the workers.
    pub fn finish_route(
        &mut self,
        route: PlannedRoute,
        reads: &Vec<CachedRows>,
    ) -> (outcome: MarketDataRouteOutcome)
        requires
            old(self)@.wf(),
        ensures
            exists|
                served: ServedView,
                jobs: Seq<FetchJobId>,
                executed: CoordinatorView,
                launched: LaunchedView,
            | #[trigger]
                routed(
                    old(self)@,
                    route.asker(),
                    cached_views(route.cached@),
                    read_views(reads@),
                    served,
                    jobs,
                    executed,
                    launched,
                    final(self)@,
                    outcome@,
                ),
            final(self)@.wf(),
    {
        let ghost before = self@;
        let (cached_dispatches, mut refetches) = self.serve_cached_market_segments(
            &route.cached,
            reads,
            &route.ready_streams,
        );
        let ghost served = ServedView {
            state: self@,
            dispatches: dispatch_views(cached_dispatches@),
            refetches: spec_views(refetches@),
        };
        let jobs = self.coordinator.execute_plan();
        let ghost executed = self@.coordinator;
        assert(self@ =~= (RuntimeView { coordinator: executed, ..served.state }));
        self.start_each(&jobs);
        let mut fetch_specs = self.launch_each(&jobs, &route.ready_streams);
        let ghost launched = LaunchedView { state: self@, specs: spec_views(fetch_specs@) };
        self.attach_pending_consumers_to_active_jobs();
        let ghost asked = fetch_specs@;
        let ghost again = refetches@;
        fetch_specs.append(&mut refetches);
        assert(spec_views(fetch_specs@) =~= spec_views(asked) + spec_views(again));
        assert(cached_views(route.cached@).len() == route.cached@.len());
        let reason = if fetch_specs.len() > 0 {
            "coordinator_new_network_jobs"
        } else if route.cached.len() > 0 {
            "coordinator_served_cache"
        } else {
            "coordinator_active_job"
        };
        let outcome = MarketDataRouteOutcome {
            pane_id: route.pane_id,
            ready_streams: route.ready_streams,
            chart_generation: route.chart_generation,
            fetch_specs,
            cached_dispatches,
            reason,
        };
        assert(routed(
            before,
            route.asker(),
            cached_views(route.cached@),
            read_views(reads@),
            served,
            jobs@,
            executed,
            launched,
            self@,
            outcome@,
        ));
        outcome
    }

    fn plan_taken(&mut self) -> (cached: Vec<CachedSegment>)
        requires
            old(self)@.wf(),
        ensures
            final(self)@ == old(self)@.planned(),
            cached_views(cached@) == old(self)@.coordinator.with_plan().plan->Some_0.cached,
            final(self)@.wf(),
    {
        let ghost before = self@;
        let cached = copy_segments(&self.coordinator.plan().cached_segments);
        assert(self@ =~= (RuntimeView {
            coordinator: before.coordinator.with_plan(),
            ..before
        }));
        self.register_required_segments_from_plan(&cached);
        cached
    }

    fn take_spec(
        &mut self,
        pane_id: Uuid,
        ready_streams: &Vec<StreamKind>,
        chart_generation: u64,
        spec: &FetchSpec,
    ) -> (taken: bool)
        requires
            old(self)@.wf(),
            (AskerView {
                pane_id,
                ready: stream_views(ready_streams@),
                chart_generation,
            }).fit_spec(spec@),
        ensures
            final(self)@ == old(self)@.with_spec(
                (AskerView { pane_id, ready: stream_views(ready_streams@), chart_generation }),
                spec@,
            ),
            taken == (AskerView {
                pane_id,
                ready: stream_views(ready_streams@),
                chart_generation,
            }).can_take(spec@),
            final(self)@.wf(),
    {
        let ghost before = self@;
        let ghost asker = AskerView {
            pane_id,
            ready: stream_views(ready_streams@),
            chart_generation,
        };
        let ticker_info = context_ticker(ready_streams);
        let feature = fetch_range_to_feature(&spec.fetch);
        let timeframe = resolve_fetch_timeframe(spec, ready_streams);
        let key = match fetch_range_to_key(&spec.fetch, ticker_info, timeframe) {
            Some(key) => key,
            None => return false,
        };
        let range = match fetch_range_to_range(&spec.fetch) {
            Some(range) => range,
            None => return false,
        };
        let requirement = fetch_range_to_requirement(
            &spec.fetch,
            pane_id,
            feature,
            ticker_info,
            timeframe,
        );
        let consumer = PendingMarketDataConsumer {
            pane_id,
            req_id: spec.req_id,
            fetch: spec.fetch,
            stream: copy_stream(&spec.stream),
            key,
            range,
            feature,
            bubble_config: BubbleConsumerConfig::from_fetch(spec.fetch),
            chart_generation,
            has_partial_updates: false,
            completed: false,
            required_segments: Vec::new(),
            completed_segments: Vec::new(),
            failed_segments: Vec::new(),
            delivered_segments: Vec::new(),
        };
        self.push_pending_consumer(consumer);
        if let Some(requirement) = requirement {
            self.coordinator.require(requirement);
        }
        assert(self@ =~= before.with_spec(asker, spec@));
        true
    }

    /// The first half of the way of the requests of a pane: they wait, and are planned. Where
    /// none of them can be met, they go on as they are.
    pub fn route_fetch_specs(&mut self, route: DashboardFetchRoute) -> (step: RouteStep)
        requires
            old(self)@.wf(),
            forall|i: int|
                0 <= i < route.reqs@.len() ==> route.asker().fit_spec((#[trigger] route.reqs@[i])@),
        ensures
            final(self)@.wf(),
            ({
                let taken = old(self)@.with_specs(route.asker(), spec_views(route.reqs@));
                let any = exists|i: int|
                    0 <= i < route.reqs@.len() && route.asker().can_take(
                        (#[trigger] route.reqs@[i])@,
                    );
                if any && taken.coordinator.pending.len() > 0 {
                    step matches RouteStep::Read(planned) && planned.asker() == route.asker()
                        && cached_views(planned.cached@)
                        == taken.coordinator.with_plan().plan->Some_0.cached && final(self)@
                        == taken.planned()
                } else {
                    step matches RouteStep::Done(outcome) && final(self)@ == taken && outcome@ == (
                    RouteView {
                        asker: route.asker(),
                        specs: spec_views(route.reqs@),
                        dispatches: Seq::empty(),
                        reason: "no_coordinator_requirement"@,
                    })
                }
            }),
    {
        let ghost before = self@;
        let ghost asker = route.asker();
        let ghost specs = spec_views(route.reqs@);
        let mut registered_any = false;
        let mut i: usize = 0;
        assert(specs.take(0) =~= Seq::empty());
        while i < route.reqs.len()
            invariant
                i <= route.reqs@.len(),
                asker == route.asker(),
                specs == spec_views(route.reqs@),
                forall|k: int|
                    0 <= k < route.reqs@.len() ==> asker.fit_spec((#[trigger] route.reqs@[k])@),
                self@.wf(),
                self@ == before.with_specs(asker, specs.take(i as int)),
                registered_any == exists|k: int|
                    0 <= k < i && asker.can_take((#[trigger] route.reqs@[k])@),
            decreases route.reqs@.len() - i,
        {
            assert(asker.fit_spec(route.reqs@[i as int]@));
            let taken = self.take_spec(
                route.pane_id,
                &route.ready_streams,
                route.chart_generation,
                &route.reqs[i],
            );
            if taken {
                registered_any = true;
            }
            i += 1;
            assert(specs.take(i as int).drop_last() =~= specs.take(i - 1));
            assert(specs.take(i as int).last() == specs[i - 1]);
        }
        assert(specs.take(i as int) =~= specs);
        if !registered_any || !self.coordinator.has_pending_requirements() {
            let cached_dispatches: Vec<CachedMarketDataDispatch> = Vec::new();
            assert(dispatch_views(cached_dispatches@) =~= Seq::empty());
            return RouteStep::Done(
                MarketDataRouteOutcome {
                    pane_id: route.pane_id,
                    ready_streams: route.ready_streams,
                    chart_generation: route.chart_generation,
                    fetch_specs: route.reqs,
                    cached_dispatches,
                    reason: "no_coordinator_requirement",
                },
            );
        }
        let cached = self.plan_taken();
        RouteStep::Read(
            PlannedRoute {
                pane_id: route.pane_id,
                ready_streams: route.ready_streams,
                chart_generation: route.chart_generation,
                cached,
            },
        )
    }

    fn already_waits(
        &self,
        pane_id: Uuid,
        key: &MarketDataKey,
        range: MarketDataRange,
        feature: ConsumerFeature,
    ) -> (r: bool)
        ensures
            r == exists|i: int|
                0 <= i < self@.consumers.len() && (#[trigger] self@.consumers[i]).pane_id == pane_id
                    && self@.consumers[i].key == key@ && self@.consumers[i].range == range
                    && self@.consumers[i].feature == feature && !self@.consumers[i].completed,
    {
        let mut i: usize = 0;
        while i < self.pending_consumers.len()
            invariant
                i <= self.pending_consumers@.len(),
                forall|k: int|
                    0 <= k < i ==> !((#[trigger] self@.consumers[k]).pane_id == pane_id
                        && self@.consumers[k].key == key@ && self@.consumers[k].range == range
                        && self@.consumers[k].feature == feature && !self@.consumers[k].completed),
            decreases self.pending_consumers@.len() - i,
        {
            let c = &self.pending_consumers[i];
            assert(self@.consumers[i as int] == c@);
            if c.pane_id == pane_id && c.key.same(key) && c.range == range && c.feature == feature
                && !c.completed {
                return true;
            }
            i += 1;
        }
        false
    }

    /// Takes a need of a pane, under an identifier. False when it cannot be met or waits already.
    pub fn take_need(
        &mut self,
        pane_id: Uuid,
        ready_streams: &Vec<StreamKind>,
        chart_generation: u64,
        need: &ChartDataNeed,
        req_id: Uuid,
    ) -> (taken: bool)
        requires
            old(self)@.wf(),
            (AskerView {
                pane_id,
                ready: stream_views(ready_streams@),
                chart_generation,
            }).fit_need(*need),
        ensures
            final(self)@ == old(self)@.with_need(
                (AskerView { pane_id, ready: stream_views(ready_streams@), chart_generation }),
                *need,
                req_id,
            ),
            taken == old(self)@.takes_need(
                (AskerView { pane_id, ready: stream_views(ready_streams@), chart_generation }),
                *need,
            ),
            final(self)@.wf(),
    {
        let ghost before = self@;
        let ghost asker = AskerView {
            pane_id,
            ready: stream_views(ready_streams@),
            chart_generation,
        };
        let ticker_info = context_ticker(ready_streams);
        let timeframe = context_timeframe(ready_streams);
        let feature = chart_need_to_feature(need);
        let key = match chart_need_to_key(need, ticker_info, timeframe) {
            Some(key) => key,
            None => return false,
        };
        let range = match chart_need_to_range(need) {
            Some(range) => range,
            None => return false,
        };
        let waits = self.already_waits(pane_id, &key, range, feature);
        proof {
            assert(waits == before.awaits(asker, key@, *need)) by {
                if waits {
                    let i = choose|i: int|
                        0 <= i < before.consumers.len() && (
                        #[trigger] before.consumers[i]).pane_id == pane_id
                            && before.consumers[i].key == key@ && before.consumers[i].range
                            == range && before.consumers[i].feature == feature
                            && !before.consumers[i].completed;
                    assert(before.consumers[i].pane_id == asker.pane_id);
                }
            }
        }
        if waits {
            return false;
        }
        let requirement = chart_need_to_requirement(need, pane_id, ticker_info, timeframe);
        let consumer = PendingMarketDataConsumer {
            pane_id,
            req_id,
            fetch: chart_need_to_consumer_fetch(need),
            stream: first_carrying_stream(ready_streams, &key),
            key,
            range,
            feature,
            bubble_config: BubbleConsumerConfig::from_need(need),
            chart_generation,
            has_partial_updates: false,
            completed: false,
            required_segments: Vec::new(),
            completed_segments: Vec::new(),
            failed_segments: Vec::new(),
            delivered_segments: Vec::new(),
        };
        self.push_pending_consumer(consumer);
        if let Some(requirement) = requirement {
            self.coordinator.require(requirement);
        }
        assert(self@ =~= before.with_need(asker, *need, req_id));
        true
    }

    /// The first half of the way of the needs of a chart: those that do not wait already do, and
    /// are planned.
    pub fn route_chart_data_needs(&mut self, route: DashboardChartNeedRoute) -> (step: RouteStep)
        requires
            old(self)@.wf(),
            forall|i: int|
                0 <= i < route.needs@.len() ==> route.asker().fit_need(#[trigger] route.needs@[i]),
        ensures
            final(self)@.wf(),
            exists|ids: Seq<Uuid>|
                #![trigger old(self)@.with_needs(route.asker(), route.needs@, ids)]
                {
                    let taken = old(self)@.with_needs(route.asker(), route.needs@, ids);
                    &&& ids.len() == route.needs@.len()
                    &&& if old(self)@.takes_any_need(route.asker(), route.needs@, ids)
                        && taken.coordinator.pending.len() > 0 {
                        step matches RouteStep::Read(planned) && planned.asker() == route.asker()
                            && cached_views(planned.cached@)
                            == taken.coordinator.with_plan().plan->Some_0.cached && final(self)@
                            == taken.planned()
                    } else {
                        step matches RouteStep::Done(outcome) && final(self)@ == taken && outcome@
                            == (RouteView {
                            asker: route.asker(),
                            specs: Seq::empty(),
                            dispatches: Seq::empty(),
                            reason: "no_coordinator_requirement"@,
                        })
                    }
                },
    {
        let ghost before = self@;
        let ghost asker = route.asker();
        let ghost needs = route.needs@;
        let ghost mut ids: Seq<Uuid> = Seq::empty();
        let mut registered_any = false;
        let mut i: usize = 0;
        assert(needs.take(0) =~= Seq::empty());
        while i < route.needs.len()
            invariant
                i <= route.needs@.len(),
                asker == route.asker(),
                needs == route.needs@,
                forall|k: int|
                    0 <= k < route.needs@.len() ==> asker.fit_need(#[trigger] route.needs@[k]),
                ids.len() == i,
                self@.wf(),
                self@ == before.with_needs(asker, needs.take(i as int), ids),
                registered_any == before.takes_any_need(asker, needs.take(i as int), ids),
            decreases route.needs@.len() - i,
        {
            assert(asker.fit_need(route.needs@[i as int]));
            let req_id = Uuid::new_v4();
            let taken = self.take_need(
                route.pane_id,
                &route.ready_streams,
                route.chart_generation,
                &route.needs[i],
                req_id,
            );
            if taken {
                registered_any = true;
            }
            proof {
                let more = ids.push(req_id);
                assert(needs.take(i + 1).drop_last() =~= needs.take(i as int));
                assert(needs.take(i + 1).last() == needs[i as int]);
                assert(more.drop_last() =~= ids);
                ids = more;
            }
            i += 1;
        }
        assert(needs.take(i as int) =~= needs);
        if !registered_any || !self.coordinator.has_pending_requirements() {
            let cached_dispatches: Vec<CachedMarketDataDispatch> = Vec::new();
            let fetch_specs: Vec<FetchSpec> = Vec::new();
            assert(dispatch_views(cached_dispatches@) =~= Seq::empty());
            assert(spec_views(fetch_specs@) =~= Seq::empty());
            let ghost taken = before.with_needs(asker, needs, ids);
            return RouteStep::Done(
                MarketDataRouteOutcome {
                    pane_id: route.pane_id,
                    ready_streams: route.ready_streams,
                    chart_generation: route.chart_generation,
                    fetch_specs,
                    cached_dispatches,
                    reason: "no_coordinator_requirement",
                },
            );
        }
        let ghost taken = before.with_needs(asker, needs, ids);
        let cached = self.plan_taken();
        RouteStep::Read(
            PlannedRoute {
                pane_id: route.pane_id,
                ready_streams: route.ready_streams,
                chart_generation: route.chart_generation,
                cached,
            },
        )
    }
}

} // verus!
