//! What becomes of the requests and needs of a pane, as steps of the state of the runtime.

use vstd::prelude::*;
use crate::connector::fetcher::{FetchRange, SpecView};
use crate::id_table::{lookup, put};
use crate::ids::Uuid;
use crate::market::{Kline, OpenInterest, StreamView, Trade};
use crate::market_data::bridge::{
    feature_of_fetch, feature_of_need, fetch_for_need, key_fetched, key_needed, key_streamed,
    range_fetched, range_needed, required_by_fetch, required_by_need,
};
use crate::market_data::chart_need::ChartDataNeed;
use crate::market_data::consumer::{config_of_fetch, config_of_need, ConsumerView};
use crate::market_data::coordinator::{
    carried_out, due_decisions, roundable, CoordinatorView, MIN_TRADE_BACKFILL_SEGMENT_MS,
};
use crate::market_data::coverage::{clamp_usize, empty_entry, stale_entry};
use crate::market_data::effect::DispatchView;
use crate::market_data::job::{FetchJobId, JobStatusView, JobView};
use crate::market_data::key::{KeyView, MarketDataKind};
use crate::market_data::planner::CachedView;
use crate::market_data::range::MarketDataRange;
use crate::market_data::runtime::model::{first_ticker, first_timeframe, or_else, RuntimeView};
use crate::market_data::runtime::workers::active_jobs_of;
use crate::market_data::series::within;
use crate::time::Timeframe;

verus! {

/// True for a stream that carries the data of a market data stream.
pub open spec fn carries(stream: StreamView, key: KeyView) -> bool {
    match (key.kind, stream) {
        (MarketDataKind::Trades, StreamView::Trades { .. }) => key_streamed(stream) == Some(key),
        (MarketDataKind::Klines { .. }, StreamView::Kline { .. }) => key_streamed(stream) == Some(
            key,
        ),
        (
            MarketDataKind::OpenInterest { timeframe },
            StreamView::Kline { ticker, timeframe: tf },
        ) => timeframe == tf && KeyView::of_ticker(ticker, key.kind) == Some(key),
        _ => false,
    }
}

/// The first stream that carries the data of a market data stream.
pub open spec fn first_carrying(s: Seq<StreamView>, key: KeyView) -> Option<StreamView>
    decreases s.len(),
{
    if s.len() == 0 {
        None
    } else if carries(s[0], key) {
        Some(s[0])
    } else {
        first_carrying(s.skip(1), key)
    }
}

/// The request for a range of a stream.
pub open spec fn fetch_of_key(key: KeyView, range: MarketDataRange) -> FetchRange {
    match key.kind {
        MarketDataKind::Klines { .. } => FetchRange::Kline(range.from, range.to),
        MarketDataKind::Trades => FetchRange::Trades(range.from, range.to),
        MarketDataKind::OpenInterest { .. } => FetchRange::OpenInterest(range.from, range.to),
    }
}

/// The candle width of a request: that of its stream, or else of the pane.
pub open spec fn width_of(spec: SpecView, ready: Seq<StreamView>) -> Option<Timeframe> {
    match spec.stream {
        Some(StreamView::Kline { timeframe, .. }) => Some(timeframe),
        _ => first_timeframe(ready),
    }
}

/// A pane that asks: its streams and the generation of its chart.
#[verifier::ext_equal]
pub struct AskerView {
    pub pane_id: Uuid,
    pub ready: Seq<StreamView>,
    pub chart_generation: u64,
}

impl AskerView {
    /// The stream that a request of the pane asks for.
    pub open spec fn key_of_spec(self, spec: SpecView) -> Option<KeyView> {
        key_fetched(spec.fetch, first_ticker(self.ready), width_of(spec, self.ready))
    }

    /// True when a request of the pane can be met: its stream is known and its range is not empty.
    pub open spec fn can_take(self, spec: SpecView) -> bool {
        self.key_of_spec(spec) is Some && range_fetched(spec.fetch) is Some
    }

    /// True when a request of the pane can be worked on: its range can be rounded to candles, and
    /// its bubbles have a width.
    pub open spec fn fit_spec(self, spec: SpecView) -> bool {
        &&& self.can_take(spec) ==> roundable(
            self.key_of_spec(spec)->Some_0.kind,
            range_fetched(spec.fetch)->Some_0.to,
        )
        &&& config_of_fetch(spec.fetch) matches Some(c) ==> c.timeframe_ms > 0
    }

    /// True when a need of the pane can be worked on.
    pub open spec fn fit_need(self, need: ChartDataNeed) -> bool {
        &&& self.key_of_need(need) matches Some(key) && range_needed(need) matches Some(range)
            ==> roundable(key.kind, range.to)
        &&& config_of_need(need) matches Some(c) ==> c.timeframe_ms > 0
    }

    /// The stream that a chart of the pane needs.
    pub open spec fn key_of_need(self, need: ChartDataNeed) -> Option<KeyView> {
        key_needed(need, first_ticker(self.ready), first_timeframe(self.ready))
    }
}

/// The records of the cache for a segment, of whichever kind it is.
#[verifier::ext_equal]
pub struct ReadView {
    pub klines: Seq<Kline>,
    pub trades: Seq<Trade>,
    pub open_interest: Seq<OpenInterest>,
}

/// The state after a segment was served from the cache: the records on their way to the charts,
/// or a request to fetch them anew.
#[verifier::ext_equal]
pub struct ServedView {
    pub state: RuntimeView,
    pub dispatches: Seq<DispatchView>,
    pub refetches: Seq<SpecView>,
}

/// The state after requests to workers were made.
#[verifier::ext_equal]
pub struct LaunchedView {
    pub state: RuntimeView,
    pub specs: Seq<SpecView>,
}

/// The most candles of a width that fit into a range, with some to spare.
pub open spec fn most_candles(range: MarketDataRange, timeframe: Timeframe) -> int {
    range.span() / (timeframe.millis() as int) + 2
}

/// True for a request that is not done with and asks for a part of a range of a stream.
pub open spec fn still_wanting(key: KeyView, range: MarketDataRange) -> spec_fn(
    ConsumerView,
) -> bool {
    |c: ConsumerView| c.wants(key, range) && !c.completed
}

/// True for a request for a part of a range where short gaps between trades do not matter.
pub open spec fn wanting_trades(key: KeyView, range: MarketDataRange) -> spec_fn(
    ConsumerView,
) -> bool {
    |c: ConsumerView|
        c.wants(key, range) && (c.feature is TradeHydration || c.feature is Footprint)
}

/// The identifiers of some requests.
pub open spec fn req_ids(cs: Seq<ConsumerView>) -> Seq<Uuid> {
    cs.map_values(|c: ConsumerView| c.req_id)
}

/// The stream of the first request that has the property `p`.
pub open spec fn stream_of_first(cs: Seq<ConsumerView>, p: spec_fn(ConsumerView) -> bool) -> Option<
    StreamView,
>
    decreases cs.len(),
{
    if cs.len() == 0 {
        None
    } else if p(cs[0]) {
        cs[0].stream
    } else {
        stream_of_first(cs.skip(1), p)
    }
}

/// The coordinator after several jobs started.
pub open spec fn with_each_started(c: CoordinatorView, ids: Seq<FetchJobId>) -> CoordinatorView
    decreases ids.len(),
{
    if ids.len() == 0 {
        c
    } else {
        let front = with_each_started(c, ids.drop_last());
        match lookup(front.jobs, ids.last()) {
            Some(j) => front.with_job(
                ids.last(),
                JobView { status: JobStatusView::InProgress, ..j },
            ),
            None => front,
        }
    }
}

impl RuntimeView {
    /// True when a need of a pane waits already.
    pub open spec fn awaits(self, asker: AskerView, key: KeyView, need: ChartDataNeed) -> bool {
        exists|i: int|
            0 <= i < self.consumers.len() && (#[trigger] self.consumers[i]).pane_id
                == asker.pane_id && self.consumers[i].key == key && Some(self.consumers[i].range)
                == range_needed(need) && self.consumers[i].feature == feature_of_need(need)
                && !self.consumers[i].completed
    }

    /// The state after a request of a pane was taken.
    pub open spec fn with_spec(self, asker: AskerView, spec: SpecView) -> RuntimeView {
        if !asker.can_take(spec) {
            self
        } else {
            let feature = feature_of_fetch(spec.fetch);
            let key = asker.key_of_spec(spec)->Some_0;
            let range = range_fetched(spec.fetch)->Some_0;
            RuntimeView {
                consumers: self.consumers.push(
                    ConsumerView::waiting(
                        asker.pane_id,
                        spec.req_id,
                        spec.fetch,
                        spec.stream,
                        key,
                        range,
                        feature,
                        config_of_fetch(spec.fetch),
                        asker.chart_generation,
                    ),
                ),
                coordinator: self.coordinator.with_need(
                    required_by_fetch(
                        spec.fetch,
                        asker.pane_id,
                        feature,
                        first_ticker(asker.ready),
                        width_of(spec, asker.ready),
                    )->Some_0,
                ),
                ..self
            }
        }
    }

    /// The state after several requests of a pane were taken.
    pub open spec fn with_specs(self, asker: AskerView, specs: Seq<SpecView>) -> RuntimeView
        decreases specs.len(),
    {
        if specs.len() == 0 {
            self
        } else {
            self.with_specs(asker, specs.drop_last()).with_spec(asker, specs.last())
        }
    }

    /// True when a need of a pane can be met and does not wait already.
    pub open spec fn takes_need(self, asker: AskerView, need: ChartDataNeed) -> bool {
        asker.key_of_need(need) matches Some(key) && range_needed(need) is Some && !self.awaits(
            asker,
            key,
            need,
        )
    }

    /// The state after a need of a pane was taken, under an identifier.
    pub open spec fn with_need(
        self,
        asker: AskerView,
        need: ChartDataNeed,
        req_id: Uuid,
    ) -> RuntimeView {
        if !self.takes_need(asker, need) {
            self
        } else {
            let key = asker.key_of_need(need)->Some_0;
            let range = range_needed(need)->Some_0;
            RuntimeView {
                consumers: self.consumers.push(
                    ConsumerView::waiting(
                        asker.pane_id,
                        req_id,
                        fetch_for_need(need),
                        first_carrying(asker.ready, key),
                        key,
                        range,
                        feature_of_need(need),
                        config_of_need(need),
                        asker.chart_generation,
                    ),
                ),
                coordinator: self.coordinator.with_need(
                    required_by_need(
                        need,
                        asker.pane_id,
                        first_ticker(asker.ready),
                        first_timeframe(asker.ready),
                    )->Some_0,
                ),
                ..self
            }
        }
    }

    /// The state after several needs of a pane were taken, each under its identifier.
    pub open spec fn with_needs(
        self,
        asker: AskerView,
        needs: Seq<ChartDataNeed>,
        ids: Seq<Uuid>,
    ) -> RuntimeView
        decreases needs.len(),
    {
        if needs.len() == 0 {
            self
        } else {
            self.with_needs(asker, needs.drop_last(), ids.drop_last()).with_need(
                asker,
                needs.last(),
                ids.last(),
            )
        }
    }

    /// True when any of several needs of a pane was taken.
    pub open spec fn takes_any_need(
        self,
        asker: AskerView,
        needs: Seq<ChartDataNeed>,
        ids: Seq<Uuid>,
    ) -> bool
        decreases needs.len(),
    {
        needs.len() > 0 && (self.takes_any_need(asker, needs.drop_last(), ids.drop_last())
            || self.with_needs(asker, needs.drop_last(), ids.drop_last()).takes_need(
            asker,
            needs.last(),
        ))
    }

    /// The state after a cached segment was planned for the requests for a part of it. Very short
    /// ones are left out where trades are drawn.
    pub open spec fn planning_cached(self, seg: CachedView) -> RuntimeView {
        if seg.range.span() < MIN_TRADE_BACKFILL_SEGMENT_MS && self.consumers.filter(
            wanting_trades(seg.key, seg.range),
        ).len() > 0 {
            self
        } else {
            self.planning_each(req_ids(self.wanting(seg.key, seg.range)), seg.range)
        }
    }

    /// The same for several segments.
    pub open spec fn planning_cached_each(self, segs: Seq<CachedView>) -> RuntimeView
        decreases segs.len(),
    {
        if segs.len() == 0 {
            self
        } else {
            self.planning_cached_each(segs.drop_last()).planning_cached(segs.last())
        }
    }

    /// The state after what was taken was planned.
    pub open spec fn planned(self) -> RuntimeView {
        let c = self.coordinator.with_plan();
        (RuntimeView { coordinator: c, ..self }).planning_cached_each(c.plan->Some_0.cached)
    }

    /// The stream to fetch a range of a market data stream from.
    pub open spec fn source_of(
        self,
        key: KeyView,
        range: MarketDataRange,
        ready: Seq<StreamView>,
    ) -> Option<StreamView> {
        or_else(
            first_carrying(ready, key),
            stream_of_first(
                self.consumers,
                crate::market_data::runtime::model::wanting(key, range),
            ),
        )
    }

    /// The state after the cache turned out to hold something else than it should: the range is to
    /// be fetched anew, unless it is a very short one of trades.
    pub open spec fn refetching(
        self,
        seg: CachedView,
        reason: Seq<char>,
        ready: Seq<StreamView>,
        req_id: Uuid,
    ) -> ServedView {
        let marked = RuntimeView {
            coordinator: self.coordinator.with_mark(seg.key, stale_entry(seg.range, reason)),
            ..self
        };
        if seg.key.kind is Trades && seg.range.span() < MIN_TRADE_BACKFILL_SEGMENT_MS {
            ServedView {
                state: RuntimeView {
                    coordinator: marked.coordinator.with_mark(seg.key, empty_entry(seg.range)),
                    ..self
                },
                dispatches: Seq::empty(),
                refetches: Seq::empty(),
            }
        } else {
            ServedView {
                state: marked,
                dispatches: Seq::empty(),
                refetches: seq![
                    SpecView {
                        req_id,
                        fetch: fetch_of_key(seg.key, seg.range),
                        stream: self.source_of(seg.key, seg.range, ready),
                    },
                ],
            }
        }
    }

    /// The state with records of the cache counted.
    pub open spec fn counting_served(self, c: CoordinatorView, n: nat) -> RuntimeView {
        RuntimeView {
            coordinator: CoordinatorView {
                cached_served: clamp_usize((c.cached_served + n) as nat),
                ..c
            },
            ..self
        }
    }

    /// What becomes of a cached segment. Candles and readings outside its range are dropped. Where
    /// nothing is left, or more candles than fit, the cache is wrong.
    pub open spec fn serving_segment(
        self,
        seg: CachedView,
        read: ReadView,
        ready: Seq<StreamView>,
        req_id: Uuid,
    ) -> ServedView {
        match seg.key.kind {
            MarketDataKind::Klines { timeframe } => {
                let rows = within(read.klines, seg.range);
                if rows.len() > most_candles(seg.range, timeframe) {
                    self.refetching(seg, "corrupt_cache"@, ready, req_id)
                } else if rows.len() == 0 {
                    self.refetching(seg, "cache_desync"@, ready, req_id)
                } else {
                    ServedView {
                        state: self.counting_served(
                            CoordinatorView {
                                store: self.coordinator.store.with_klines(seg.key, rows),
                                ..self.coordinator
                            },
                            rows.len(),
                        ),
                        dispatches: seq![
                            DispatchView::Klines {
                                key: seg.key,
                                range: seg.range,
                                timeframe,
                                rows,
                            },
                        ],
                        refetches: Seq::empty(),
                    }
                }
            },
            MarketDataKind::Trades => {
                if read.trades.len() == 0 {
                    self.refetching(seg, "cache_desync"@, ready, req_id)
                } else {
                    ServedView {
                        state: self.counting_served(
                            CoordinatorView {
                                store: self.coordinator.store.with_trades(seg.key, read.trades),
                                ..self.coordinator
                            },
                            read.trades.len(),
                        ),
                        dispatches: seq![
                            DispatchView::Trades {
                                key: seg.key,
                                range: seg.range,
                                rows: read.trades,
                            },
                        ],
                        refetches: Seq::empty(),
                    }
                }
            },
            MarketDataKind::OpenInterest { timeframe } => {
                let rows = within(read.open_interest, seg.range);
                if rows.len() == 0 {
                    self.refetching(seg, "cache_desync"@, ready, req_id)
                } else {
                    ServedView {
                        state: self.counting_served(
                            CoordinatorView {
                                store: self.coordinator.store.with_open_interest(seg.key, rows),
                                ..self.coordinator
                            },
                            rows.len(),
                        ),
                        dispatches: seq![
                            DispatchView::OpenInterest {
                                key: seg.key,
                                range: seg.range,
                                timeframe,
                                rows,
                            },
                        ],
                        refetches: Seq::empty(),
                    }
                }
            },
        }
    }

    /// What becomes of several cached segments, each with its records and an identifier for a
    /// request to fetch it anew.
    pub open spec fn serving(
        self,
        segs: Seq<CachedView>,
        reads: Seq<ReadView>,
        ready: Seq<StreamView>,
        ids: Seq<Uuid>,
    ) -> ServedView
        decreases segs.len(),
    {
        if segs.len() == 0 {
            ServedView { state: self, dispatches: Seq::empty(), refetches: Seq::empty() }
        } else {
            let k = segs.len() - 1;
            let front = self.serving(segs.drop_last(), reads, ready, ids.drop_last());
            let next = front.state.serving_segment(
                segs.last(),
                read_at(reads, k),
                ready,
                ids.last(),
            );
            ServedView {
                state: next.state,
                dispatches: front.dispatches + next.dispatches,
                refetches: front.refetches + next.refetches,
            }
        }
    }

    /// The state after a request to a worker was made for a job, and the request.
    pub open spec fn launching(
        self,
        job_id: FetchJobId,
        key: KeyView,
        range: MarketDataRange,
        ready: Seq<StreamView>,
        req_id: Uuid,
    ) -> (RuntimeView, SpecView) {
        let ids = req_ids(self.consumers.filter(still_wanting(key, range)));
        let linked = RuntimeView {
            worker_jobs: put(self.worker_jobs, req_id, job_id),
            job_workers: put(self.job_workers, job_id, req_id),
            job_consumers: put(self.job_consumers, job_id, ids),
            ..self
        };
        (
            linked.planning_each(ids, range),
            SpecView {
                req_id,
                fetch: fetch_of_key(key, range),
                stream: self.source_of(key, range, ready),
            },
        )
    }

    /// The same for several jobs, each with an identifier for the request.
    pub open spec fn launching_each(
        self,
        jobs: Seq<FetchJobId>,
        ready: Seq<StreamView>,
        ids: Seq<Uuid>,
    ) -> LaunchedView
        decreases jobs.len(),
    {
        if jobs.len() == 0 {
            LaunchedView { state: self, specs: Seq::empty() }
        } else {
            let front = self.launching_each(jobs.drop_last(), ready, ids.drop_last());
            match lookup(front.state.coordinator.jobs, jobs.last()) {
                Some(j) => {
                    let next = front.state.launching(
                        jobs.last(),
                        j.key,
                        j.range,
                        ready,
                        ids.last(),
                    );
                    LaunchedView { state: next.0, specs: front.specs.push(next.1) }
                },
                None => front,
            }
        }
    }

    /// The state after a job serves a request too, and whether it did not before.
    pub open spec fn attaching_one(self, j: JobView, req_id: Uuid) -> (RuntimeView, nat) {
        if self.served_by(j.id).contains(req_id) {
            (self, 0)
        } else {
            (
                (RuntimeView {
                    job_consumers: put(
                        self.job_consumers,
                        j.id,
                        self.served_by(j.id).push(req_id),
                    ),
                    ..self
                }).planning(req_id, j.range),
                1,
            )
        }
    }

    /// The same for several requests, and how many it did not serve before.
    pub open spec fn attaching_each(self, j: JobView, ids: Seq<Uuid>) -> (RuntimeView, nat)
        decreases ids.len(),
    {
        if ids.len() == 0 {
            (self, 0)
        } else {
            let front = self.attaching_each(j, ids.drop_last());
            let next = front.0.attaching_one(j, ids.last());
            (next.0, front.1 + next.1)
        }
    }

    /// The state after several jobs serve all requests for a part of their ranges that are not
    /// done with, and how many they did not serve before.
    pub open spec fn attaching_jobs(self, js: Seq<JobView>) -> (RuntimeView, nat)
        decreases js.len(),
    {
        if js.len() == 0 {
            (self, 0)
        } else {
            let front = self.attaching_jobs(js.drop_last());
            let j = js.last();
            let next = front.0.attaching_each(
                j,
                req_ids(front.0.consumers.filter(still_wanting(j.key, j.range))),
            );
            (next.0, front.1 + next.1)
        }
    }

    /// The same for all active jobs.
    pub open spec fn attaching(self) -> (RuntimeView, nat) {
        self.attaching_jobs(active_jobs_of(self.coordinator.jobs))
    }
}

/// The records of the cache for a segment. Nothing was read where there are none.
pub open spec fn read_at(reads: Seq<ReadView>, k: int) -> ReadView {
    if 0 <= k < reads.len() {
        reads[k]
    } else {
        ReadView { klines: Seq::empty(), trades: Seq::empty(), open_interest: Seq::empty() }
    }
}

/// What a pane gets for what it asked: requests to workers, records of the cache, and why.
#[verifier::ext_equal]
pub struct RouteView {
    pub asker: AskerView,
    pub specs: Seq<SpecView>,
    pub dispatches: Seq<DispatchView>,
    pub reason: Seq<char>,
}

/// True when `after` and `outcome` are what the reads of the cache and the identifiers lead to.
pub open spec fn routed(
    before: RuntimeView,
    asker: AskerView,
    cached: Seq<CachedView>,
    reads: Seq<ReadView>,
    served: ServedView,
    jobs: Seq<FetchJobId>,
    executed: CoordinatorView,
    launched: LaunchedView,
    after: RuntimeView,
    outcome: RouteView,
) -> bool {
    &&& exists|ids: Seq<Uuid>|
        ids.len() == cached.len() && served == #[trigger] before.serving(
            cached,
            reads,
            asker.ready,
            ids,
        )
    &&& carried_out(
        served.state.coordinator,
        due_decisions(served.state.coordinator),
        jobs,
        executed,
    )
    &&& exists|ids: Seq<Uuid>|
        ids.len() == jobs.len() && launched == #[trigger] (RuntimeView {
            coordinator: with_each_started(executed, jobs),
            ..served.state
        }).launching_each(jobs, asker.ready, ids)
    &&& after == launched.state.attaching().0
    &&& outcome == (RouteView {
        asker,
        specs: launched.specs + served.refetches,
        dispatches: served.dispatches,
        reason: if launched.specs.len() + served.refetches.len() > 0 {
            "coordinator_new_network_jobs"@
        } else if cached.len() > 0 {
            "coordinator_served_cache"@
        } else {
            "coordinator_active_job"@
        },
    })
}

} // verus!
