//! Answers of workers, records from the cache and live records on their way to the charts.

use vstd::prelude::*;
use vstd::string::*;
use crate::connector::fetcher::{copy_stream, stream_views, FetchRange, FetchedData};
use crate::ids::Uuid;
use crate::market::{Kline, OpenInterest, StreamKind, TickerInfo, Trade};
use crate::market_data::bridge::{
    fetch_range_to_key, fetch_range_to_range, stream_kind_to_key, ticker_of,
};
use crate::market_data::consumer::{consumer_views, ConsumerView, PendingMarketDataConsumer};
use crate::market_data::coordinator::CoordinatorView;
use crate::market_data::effect::{
    effect_views, CacheCommand, CachedMarketDataDispatch, DispatchView, EffectView,
    MarketDataChartEffect,
};
use crate::market_data::job::{FetchJob, FetchJobId, FetchJobProgress, JobView};
use crate::market_data::key::{key_of, MarketDataKey, MarketDataKind};
use crate::market_data::live::latest_seen;
use crate::market_data::progress::job_views;
use crate::market_data::range::MarketDataRange;
use crate::market_data::requirement::ConsumerFeature;
use crate::market_data::runtime::model::{
    active_ids, consumer_at, earliest_trade, fetching_all, first_ticker, first_timeframe, handed_on,
    key_answered, klines_effect, not_after, range_of_rows, range_of_trades, trimmed, wanting,
    with_records, OutcomeView, RuntimeView, StepView, StoredView,
};
use crate::market_data::runtime::workers::{
    active_jobs_of, drawable, extend_effects, lemma_active_ids, no_effects, one_effect,
};
use crate::market_data::runtime::{
    lemma_filter_sound, lemma_found_sound, lemma_not_delivered, MarketDataRuntime,
};
use crate::market_data::series::{select, Timed};
use crate::seqs::{copy_rows, lemma_filter_map_take, lemma_filter_take};
use crate::time::{Timeframe, UnixMs};

verus! {

/// Records that went into the store: of which stream and range, and how many.
pub struct FetchedMarketDataStore {
    pub key: MarketDataKey,
    pub range: MarketDataRange,
    pub record_count: usize,
}

/// What an answer of a worker comes to: whether it was one of the runtime's own, and the changes
/// to the charts.
#[derive(Debug)]
pub struct FetchedDataRuntimeOutcome {
    pub handled: bool,
    pub effects: Vec<MarketDataChartEffect>,
}

/// What an optional job denotes.
pub open spec fn job_of(j: Option<&FetchJob>) -> Option<JobView> {
    match j {
        Some(job) => Some(job@),
        None => None,
    }
}

fn key_for_fetched_data(stream: &StreamKind, data: &FetchedData) -> (k: Option<MarketDataKey>)
    ensures
        key_of(k) == key_answered(stream@, data@),
{
    match data {
        FetchedData::Trades { .. } => stream_kind_to_key(stream),
        FetchedData::Klines { .. } => stream_kind_to_key(stream),
        FetchedData::OI { .. } => match stream {
            StreamKind::Kline { ticker_info, timeframe } => MarketDataKey::from_ticker_info(
                ticker_info,
                MarketDataKind::OpenInterest { timeframe: *timeframe },
            ),
            _ => None,
        },
        FetchedData::BubbleSummary { .. } => None,
    }
}

fn range_from_trades(trades: &[Trade]) -> (r: Option<MarketDataRange>)
    ensures
        r == range_of_trades(trades@),
{
    let mut bounds: Option<(UnixMs, UnixMs)> = None;
    let mut i: usize = 0;
    assert(trades@.take(0) =~= Seq::<Trade>::empty());
    while i < trades.len()
        invariant
            i <= trades@.len(),
            match bounds {
                Some((first, last)) => earliest_trade(trades@.take(i as int)) == Some(first)
                    && latest_seen(None, trades@.take(i as int)) == Some(last),
                None => earliest_trade(trades@.take(i as int)) is None && latest_seen(
                    None,
                    trades@.take(i as int),
                ) is None,
            },
        decreases trades@.len() - i,
    {
        let t = trades[i].time;
        bounds = match bounds {
            Some((first, last)) => Some((first.earlier_of(t), last.later_of(t))),
            None => Some((t, t)),
        };
        i += 1;
        assert(trades@.take(i as int).drop_last() =~= trades@.take(i - 1));
        assert(trades@.take(i as int).last() == trades@[i - 1]);
    }
    assert(trades@.take(i as int) =~= trades@);
    match bounds {
        Some((first, last)) => MarketDataRange::new(first, last.saturating_add(1)),
        None => None,
    }
}

fn range_from_rows<T: Timed>(rows: &[T]) -> (r: Option<MarketDataRange>)
    ensures
        r == range_of_rows(rows@),
{
    let n: usize = rows.len();
    if n == 0 {
        return None;
    }
    MarketDataRange::new(rows[0].time(), rows[n - 1].time().saturating_add(1))
}

/// The first candle width among some streams.
pub(crate) fn context_timeframe(streams: &[StreamKind]) -> (tf: Option<Timeframe>)
    ensures
        tf == first_timeframe(stream_views(streams@)),
{
    let mut i: usize = 0;
    let ghost views = stream_views(streams@);
    assert(views.skip(0) =~= views);
    while i < streams.len()
        invariant
            i <= streams@.len(),
            views == stream_views(streams@),
            first_timeframe(views) == first_timeframe(views.skip(i as int)),
        decreases streams@.len() - i,
    {
        assert(views.skip(i as int)[0] == streams@[i as int]@);
        assert(views.skip(i as int).skip(1) =~= views.skip(i + 1));
        if let StreamKind::Kline { timeframe, .. } = &streams[i] {
            return Some(*timeframe);
        }
        i += 1;
    }
    None
}

/// The instrument of the first of some streams.
pub(crate) fn context_ticker(streams: &[StreamKind]) -> (t: Option<&TickerInfo>)
    ensures
        ticker_of(t) == first_ticker(stream_views(streams@)),
{
    if streams.len() == 0 {
        None
    } else {
        assert(stream_views(streams@)[0] == streams@[0]@);
        Some(streams[0].ticker_info())
    }
}

fn trades_until(batch: &Vec<Trade>, until: UnixMs) -> (r: Vec<Trade>)
    ensures
        r@ == batch@.filter(not_after(until)),
{
    let mut out: Vec<Trade> = Vec::new();
    let mut i: usize = 0;
    let ghost p = not_after(until);
    proof {
        reveal(Seq::filter);
        assert(batch@.take(0).filter(p) =~= Seq::empty());
    }
    while i < batch.len()
        invariant
            i <= batch@.len(),
            p == not_after(until),
            out@ == batch@.take(i as int).filter(p),
        decreases batch@.len() - i,
    {
        proof {
            lemma_filter_take(batch@, i as int, p);
        }
        if batch[i].time.0 <= until.0 {
            out.push(batch[i]);
        }
        i += 1;
    }
    assert(batch@.take(i as int) =~= batch@);
    out
}

impl MarketDataRuntime {
    /// An answer without what lies outside the range of its job.
    pub fn normalize_fetched_data_for_job(
        &self,
        data: &FetchedData,
        coordinator_job: Option<&FetchJob>,
    ) -> (r: FetchedData)
        ensures
            r@ == trimmed(data@, job_of(coordinator_job)),
    {
        let job = match coordinator_job {
            Some(job) => job,
            None => return data.clone(),
        };
        match data {
            FetchedData::Trades { batch, until_time: _, req_id } => FetchedData::Trades {
                batch: select(batch, &job.range),
                until_time: job.range.to,
                req_id: *req_id,
            },
            FetchedData::Klines { data, req_id } => FetchedData::Klines {
                data: select(data, &job.range),
                req_id: *req_id,
            },
            _ => data.clone(),
        }
    }

    /// Puts the records of an answer into the store, and sends them on to the cache. Of an answer
    /// whose stream or range is unknown, and of one without candles or readings, nothing is
    /// stored.
    pub fn store_fetched_market_data(
        &mut self,
        stream_type: &StreamKind,
        data: &FetchedData,
        coordinator_job: Option<&FetchJob>,
    ) -> (r: Option<FetchedMarketDataStore>)
        ensures
            match old(self)@.storing(stream_type@, data@, job_of(coordinator_job)) {
                Some(stored) => r matches Some(s) && stored == (StoredView {
                    state: final(self)@,
                    key: s.key@,
                    range: s.range,
                    record_count: s.record_count,
                }),
                None => r is None && final(self)@ == old(self)@,
            },
            old(self)@.wf() ==> final(self)@.wf(),
    {
        let ghost before = self@;
        let found = match coordinator_job {
            Some(job) => Some(job.key.clone()),
            None => key_for_fetched_data(stream_type, data),
        };
        let key = match found {
            Some(key) => key,
            None => return None,
        };
        match data {
            FetchedData::Trades { batch, .. } => {
                let range = match coordinator_job {
                    Some(job) => job.range,
                    None => match range_from_trades(batch) {
                        Some(range) => range,
                        None => return None,
                    },
                };
                self.coordinator.feed_trades(&key, batch);
                assert(self@ =~= (RuntimeView {
                    coordinator: CoordinatorView {
                        store: before.coordinator.store.with_trades(key@, batch@),
                        ..before.coordinator
                    },
                    ..before
                }));
                self.command(
                    CacheCommand::StoreTrades { key: key.clone(), rows: copy_rows(batch) },
                );
                Some(FetchedMarketDataStore { key, range, record_count: batch.len() })
            },
            FetchedData::Klines { data, .. } => {
                if data.len() == 0 {
                    return None;
                }
                let range = match coordinator_job {
                    Some(job) => job.range,
                    None => match range_from_rows(data) {
                        Some(range) => range,
                        None => return None,
                    },
                };
                self.coordinator.feed_klines(&key, data);
                assert(self@ =~= (RuntimeView {
                    coordinator: CoordinatorView {
                        store: before.coordinator.store.with_klines(key@, data@),
                        ..before.coordinator
                    },
                    ..before
                }));
                self.command(
                    CacheCommand::StoreKlines { key: key.clone(), rows: copy_rows(data) },
                );
                Some(FetchedMarketDataStore { key, range, record_count: data.len() })
            },
            FetchedData::OI { data, .. } => {
                if data.len() == 0 {
                    return None;
                }
                let range = match coordinator_job {
                    Some(job) => job.range,
                    None => match range_from_rows(data) {
                        Some(range) => range,
                        None => return None,
                    },
                };
                self.coordinator.feed_open_interest(&key, data);
                assert(self@ =~= (RuntimeView {
                    coordinator: CoordinatorView {
                        store: before.coordinator.store.with_open_interest(key@, data@),
                        ..before.coordinator
                    },
                    ..before
                }));
                self.command(
                    CacheCommand::StoreOpenInterest { key: key.clone(), rows: copy_rows(data) },
                );
                Some(FetchedMarketDataStore { key, range, record_count: data.len() })
            },
            FetchedData::BubbleSummary { .. } => None,
        }
    }

    fn active_ids_containing(&self, key: &MarketDataKey, range: &MarketDataRange) -> (r: Vec<
        FetchJobId,
    >)
        ensures
            r@ == active_ids(self@.coordinator.jobs, fetching_all(key@, *range)),
    {
        let jobs = self.coordinator.active_jobs();
        let mut out: Vec<FetchJobId> = Vec::new();
        let mut i: usize = 0;
        let ghost views = active_jobs_of(self@.coordinator.jobs);
        let ghost p = fetching_all(key@, *range);
        let ghost f = |j: JobView|
            if p(j) {
                Some(j.id)
            } else {
                None
            };
        proof {
            lemma_active_ids(self@.coordinator.jobs, p);
            reveal(Seq::filter_map);
            assert(views.take(0).filter_map(f) =~= Seq::empty());
        }
        assert(job_views(jobs@) =~= views);
        while i < jobs.len()
            invariant
                i <= jobs@.len(),
                job_views(jobs@) == views,
                p == fetching_all(key@, *range),
                f == (|j: JobView|
                    if p(j) {
                        Some(j.id)
                    } else {
                        None
                    }),
                out@ == views.take(i as int).filter_map(f),
            decreases jobs@.len() - i,
        {
            let job = &jobs[i];
            proof {
                assert(views[i as int] == job@);
                lemma_filter_map_take(views, i as int, f);
            }
            if job.key.same(key) && job.range.contains(range) {
                out.push(job.id);
            }
            i += 1;
        }
        assert(views.take(i as int) =~= views);
        out
    }

    fn count_records(&mut self, job_id: FetchJobId, record_count: usize)
        ensures
            final(self)@ == (RuntimeView {
                coordinator: with_records(
                    old(self)@.coordinator,
                    seq![job_id],
                    record_count,
                ),
                ..old(self)@
            }),
            old(self)@.wf() ==> final(self)@.wf(),
    {
        let ghost before = self@;
        proof {
            let one = seq![job_id];
            assert(one.drop_last() =~= Seq::empty());
            assert(one.last() == job_id);
            assert(with_records(before.coordinator, one.drop_last(), record_count)
                == before.coordinator);
        }
        if let Some(job) = self.coordinator.job_mut(job_id) {
            let total: usize = job.progress.records_fetched.saturating_add(record_count);
            job.progress = FetchJobProgress {
                records_fetched: total,
                until_time: job.progress.until_time,
                bytes_downloaded: job.progress.bytes_downloaded,
            };
        }
        assert(self@ =~= (RuntimeView {
            coordinator: with_records(before.coordinator, seq![job_id], record_count),
            ..before
        }));
    }

    /// Counts the records of an answer: for its job, or else for all active jobs that fetch the
    /// whole of its range.
    pub fn record_network_delivery(
        &mut self,
        coordinator_job_id: Option<FetchJobId>,
        key: &MarketDataKey,
        range: &MarketDataRange,
        record_count: usize,
    )
        ensures
            final(self)@ == old(self)@.counting(coordinator_job_id, key@, *range, record_count),
            old(self)@.wf() ==> final(self)@.wf(),
    {
        let ghost before = self@;
        match coordinator_job_id {
            Some(job_id) => {
                self.count_records(job_id, record_count);
                let ghost mid = self@;
                self.coordinator.record_network_fetched(record_count);
                assert(self@ =~= before.counting(coordinator_job_id, key@, *range, record_count));
            },
            None => {
                let ids = self.active_ids_containing(key, range);
                let mut i: usize = 0;
                assert(ids@.take(0) =~= Seq::empty());
                while i < ids.len()
                    invariant
                        i <= ids@.len(),
                        self@ == (RuntimeView {
                            coordinator: with_records(
                                before.coordinator,
                                ids@.take(i as int),
                                record_count,
                            ),
                            ..before
                        }),
                        before.wf() ==> self@.wf(),
                    decreases ids@.len() - i,
                {
                    let ghost shown = self@;
                    self.count_records(ids[i], record_count);
                    i += 1;
                    proof {
                        let one = seq![ids@[i - 1]];
                        assert(one.drop_last() =~= Seq::empty());
                        assert(one.last() == ids@[i - 1]);
                        assert(with_records(shown.coordinator, one.drop_last(), record_count)
                            == shown.coordinator);
                        assert(ids@.take(i as int).drop_last() =~= ids@.take(i - 1));
                        assert(ids@.take(i as int).last() == ids@[i - 1]);
                    }
                }
                assert(ids@.take(i as int) =~= ids@);
            },
        }
    }

    /// What becomes of trades on their way to a request: they are drawn, or bubbles are derived
    /// from all trades in its range.
    pub fn effects_for_trades_consumer(
        &mut self,
        consumer: &PendingMarketDataConsumer,
        trades: Vec<Trade>,
        range: MarketDataRange,
    ) -> (effects: Vec<MarketDataChartEffect>)
        requires
            drawable(old(self)@.coordinator.store, consumer@),
        ensures
            (StepView { state: final(self)@, effects: effect_views(effects@) }) == old(
                self,
            )@.trades_step(consumer@, trades@, range),
            old(self)@.wf() ==> final(self)@.wf(),
    {
        match consumer.feature {
            ConsumerFeature::Footprint | ConsumerFeature::TradeHydration => one_effect(
                MarketDataChartEffect::InsertTrades {
                    consumer: consumer.clone(),
                    stream: copy_stream(&consumer.stream),
                    batch: trades,
                    until_time: range.to,
                },
            ),
            ConsumerFeature::VolumeBubbles => {
                let config = match consumer.config() {
                    Some(config) => config,
                    None => return no_effects(),
                };
                match self.coordinator.compute_bubble_summaries(
                    &consumer.key,
                    &consumer.range,
                    config.timeframe_ms,
                    config.price_step,
                    config.max_candidates_per_candle,
                ) {
                    Some(summaries) => {
                        let trades_seen: usize = trades.len();
                        self.mark_bubble_consumer_partial(consumer.req_id);
                        one_effect(
                            MarketDataChartEffect::InsertBubbleSummaries {
                                consumer: consumer.clone(),
                                summaries,
                                range: consumer.range,
                                trades_seen,
                                raw_discarded: 0,
                                complete: false,
                            },
                        )
                    },
                    None => no_effects(),
                }
            },
            _ => no_effects(),
        }
    }

    fn cached_klines_step(
        &mut self,
        consumer: &PendingMarketDataConsumer,
        key: &MarketDataKey,
        range: MarketDataRange,
        timeframe: Timeframe,
        rows: &Vec<Kline>,
    ) -> (effects: Vec<MarketDataChartEffect>)
        requires
            old(self)@.wf(),
        ensures
            (StepView { state: final(self)@, effects: effect_views(effects@) }) == old(
                self,
            )@.cached_step(
                consumer@,
                (DispatchView::Klines { key: key@, range, timeframe, rows: rows@ }),
            ),
            final(self)@.wf(),
    {
        if consumer.feature != ConsumerFeature::ChartKlines {
            return no_effects();
        }
        if !self.mark_consumer_segment_delivered(consumer.req_id, range) {
            proof {
                lemma_not_delivered(old(self)@, consumer.req_id, range);
            }
            return no_effects();
        }
        match &consumer.stream {
            Some(StreamKind::Kline { ticker_info, .. }) => {
                let mut effects = one_effect(
                    MarketDataChartEffect::InsertKlinesPartial {
                        consumer: consumer.clone(),
                        stream: copy_stream(&consumer.stream),
                        timeframe,
                        ticker_info: ticker_info.clone(),
                        rows: copy_rows(rows),
                    },
                );
                let more = self.complete_cached_segment_effects(consumer.req_id, range);
                extend_effects(&mut effects, more);
                effects
            },
            _ => no_effects(),
        }
    }

    fn cached_trades_step(
        &mut self,
        consumer: &PendingMarketDataConsumer,
        key: &MarketDataKey,
        range: MarketDataRange,
        rows: &Vec<Trade>,
    ) -> (effects: Vec<MarketDataChartEffect>)
        requires
            old(self)@.wf(),
            consumer@.sound(),
        ensures
            (StepView { state: final(self)@, effects: effect_views(effects@) }) == old(
                self,
            )@.cached_step(consumer@, (DispatchView::Trades { key: key@, range, rows: rows@ })),
            final(self)@.wf(),
    {
        if !self.mark_consumer_segment_delivered(consumer.req_id, range) {
            proof {
                lemma_not_delivered(old(self)@, consumer.req_id, range);
            }
            return no_effects();
        }
        let mut effects = self.effects_for_trades_consumer(consumer, copy_rows(rows), range);
        let more = self.complete_cached_segment_effects(consumer.req_id, range);
        extend_effects(&mut effects, more);
        effects
    }

    fn cached_open_interest_step(
        &mut self,
        consumer: &PendingMarketDataConsumer,
        key: &MarketDataKey,
        range: MarketDataRange,
        timeframe: Timeframe,
        rows: &Vec<OpenInterest>,
    ) -> (effects: Vec<MarketDataChartEffect>)
        requires
            old(self)@.wf(),
        ensures
            (StepView { state: final(self)@, effects: effect_views(effects@) }) == old(
                self,
            )@.cached_step(
                consumer@,
                (DispatchView::OpenInterest { key: key@, range, timeframe, rows: rows@ }),
            ),
            final(self)@.wf(),
    {
        if consumer.feature != ConsumerFeature::OpenInterest {
            return no_effects();
        }
        if !self.mark_consumer_segment_delivered(consumer.req_id, range) {
            proof {
                lemma_not_delivered(old(self)@, consumer.req_id, range);
            }
            return no_effects();
        }
        let mut effects = one_effect(
            MarketDataChartEffect::InsertOpenInterestPartial {
                consumer: consumer.clone(),
                rows: copy_rows(rows),
            },
        );
        let more = self.complete_cached_segment_effects(consumer.req_id, range);
        extend_effects(&mut effects, more);
        effects
    }

    /// What becomes of records found in the cache: each request for a part of their range gets
    /// them, unless it has them already.
    pub fn effects_for_cached_dispatch(
        &mut self,
        dispatch: &CachedMarketDataDispatch,
    ) -> (effects: Vec<MarketDataChartEffect>)
        requires
            old(self)@.wf(),
        ensures
            (StepView { state: final(self)@, effects: effect_views(effects@) }) == old(
                self,
            )@.dispatching(dispatch@),
            final(self)@.wf(),
    {
        let ghost before = self@;
        let (key, range) = match dispatch {
            CachedMarketDataDispatch::Klines { key, range, .. } => (key, *range),
            CachedMarketDataDispatch::Trades { key, range, .. } => (key, *range),
            CachedMarketDataDispatch::OpenInterest { key, range, .. } => (key, *range),
        };
        let consumers = self.matching_pending_consumers(key, &range);
        let ghost cs = consumer_views(consumers@);
        proof {
            lemma_filter_sound(before, wanting(key@, range));
        }
        let mut effects = no_effects();
        let mut i: usize = 0;
        assert(cs.take(0) =~= Seq::empty());
        while i < consumers.len()
            invariant
                i <= consumers@.len(),
                cs == consumer_views(consumers@),
                forall|k: int| 0 <= k < cs.len() ==> (#[trigger] cs[k]).sound(),
                self@.wf(),
                (StepView { state: self@, effects: effect_views(effects@) })
                    == before.cached_step_each(cs.take(i as int), dispatch@),
            decreases consumers@.len() - i,
        {
            assert(cs[i as int].sound());
            let more = match dispatch {
                CachedMarketDataDispatch::Klines { key, range, timeframe, rows } =>
                    self.cached_klines_step(&consumers[i], key, *range, *timeframe, rows),
                CachedMarketDataDispatch::Trades { key, range, rows } => self.cached_trades_step(
                    &consumers[i],
                    key,
                    *range,
                    rows,
                ),
                CachedMarketDataDispatch::OpenInterest { key, range, timeframe, rows } =>
                    self.cached_open_interest_step(&consumers[i], key, *range, *timeframe, rows),
            };
            extend_effects(&mut effects, more);
            i += 1;
            assert(cs.take(i as int).drop_last() =~= cs.take(i - 1));
            assert(cs.take(i as int).last() == cs[i - 1]);
        }
        assert(cs.take(i as int) =~= cs);
        effects
    }

    fn klines_effects(
        consumers: &Vec<PendingMarketDataConsumer>,
        stream_type: &StreamKind,
        rows: &Vec<Kline>,
    ) -> (effects: Vec<MarketDataChartEffect>)
        ensures
            effect_views(effects@) == consumer_views(consumers@).filter_map(
                |c: ConsumerView|
                    klines_effect(
                        c,
                        match c.stream {
                            Some(s) => s,
                            None => stream_type@,
                        },
                        rows@,
                    ),
            ),
    {
        let ghost cs = consumer_views(consumers@);
        let ghost f = |c: ConsumerView|
            klines_effect(
                c,
                match c.stream {
                    Some(s) => s,
                    None => stream_type@,
                },
                rows@,
            );
        let mut effects = no_effects();
        let mut i: usize = 0;
        proof {
            reveal(Seq::filter_map);
            assert(cs.take(0).filter_map(f) =~= Seq::empty());
        }
        while i < consumers.len()
            invariant
                i <= consumers@.len(),
                cs == consumer_views(consumers@),
                f == (|c: ConsumerView|
                    klines_effect(
                        c,
                        match c.stream {
                            Some(s) => s,
                            None => stream_type@,
                        },
                        rows@,
                    )),
                effect_views(effects@) == cs.take(i as int).filter_map(f),
            decreases consumers@.len() - i,
        {
            let consumer = &consumers[i];
            let ghost shown = effects@;
            proof {
                assert(cs[i as int] == consumer@);
                lemma_filter_map_take(cs, i as int, f);
            }
            let stream = match &consumer.stream {
                Some(s) => s.clone(),
                None => stream_type.clone(),
            };
            if consumer.feature == ConsumerFeature::ChartKlines {
                if let StreamKind::Kline { timeframe, ticker_info } = &stream {
                    let e = MarketDataChartEffect::InsertKlinesPartial {
                        consumer: consumer.clone(),
                        stream: Some(stream.clone()),
                        timeframe: *timeframe,
                        ticker_info: ticker_info.clone(),
                        rows: copy_rows(rows),
                    };
                    effects.push(e);
                    assert(effect_views(effects@) =~= effect_views(shown).push(e@));
                }
            }
            i += 1;
        }
        assert(cs.take(i as int) =~= cs);
        effects
    }

    fn open_interest_effects(
        consumers: &Vec<PendingMarketDataConsumer>,
        rows: &Vec<OpenInterest>,
    ) -> (effects: Vec<MarketDataChartEffect>)
        ensures
            effect_views(effects@) == consumer_views(consumers@).filter_map(
                |c: ConsumerView|
                    if c.feature is OpenInterest {
                        Some(EffectView::InsertOpenInterestPartial { consumer: c, rows: rows@ })
                    } else {
                        None
                    },
            ),
    {
        let ghost cs = consumer_views(consumers@);
        let ghost f = |c: ConsumerView|
            if c.feature is OpenInterest {
                Some(EffectView::InsertOpenInterestPartial { consumer: c, rows: rows@ })
            } else {
                None
            };
        let mut effects = no_effects();
        let mut i: usize = 0;
        proof {
            reveal(Seq::filter_map);
            assert(cs.take(0).filter_map(f) =~= Seq::empty());
        }
        while i < consumers.len()
            invariant
                i <= consumers@.len(),
                cs == consumer_views(consumers@),
                f == (|c: ConsumerView|
                    if c.feature is OpenInterest {
                        Some(EffectView::InsertOpenInterestPartial { consumer: c, rows: rows@ })
                    } else {
                        None
                    }),
                effect_views(effects@) == cs.take(i as int).filter_map(f),
            decreases consumers@.len() - i,
        {
            let consumer = &consumers[i];
            let ghost shown = effects@;
            proof {
                assert(cs[i as int] == consumer@);
                lemma_filter_map_take(cs, i as int, f);
            }
            if consumer.feature == ConsumerFeature::OpenInterest {
                let e = MarketDataChartEffect::InsertOpenInterestPartial {
                    consumer: consumer.clone(),
                    rows: copy_rows(rows),
                };
                effects.push(e);
                assert(effect_views(effects@) =~= effect_views(shown).push(e@));
            }
            i += 1;
        }
        assert(cs.take(i as int) =~= cs);
        effects
    }

    fn drawing_effects(
        &mut self,
        consumers: &Vec<PendingMarketDataConsumer>,
        stream_type: &StreamKind,
        data: &FetchedData,
        range: MarketDataRange,
    ) -> (effects: Vec<MarketDataChartEffect>)
        requires
            old(self)@.wf(),
            forall|k: int| 0 <= k < consumers@.len() ==> (#[trigger] consumers@[k])@.sound(),
        ensures
            (StepView { state: final(self)@, effects: effect_views(effects@) }) == old(
                self,
            )@.drawing(consumer_views(consumers@), stream_type@, data@, range),
            final(self)@.wf(),
    {
        let ghost before = self@;
        match data {
            FetchedData::Klines { data, .. } => MarketDataRuntime::klines_effects(
                consumers,
                stream_type,
                data,
            ),
            FetchedData::Trades { batch, .. } => {
                let ghost cs = consumer_views(consumers@);
                let mut effects = no_effects();
                let mut i: usize = 0;
                assert(cs.take(0) =~= Seq::empty());
                while i < consumers.len()
                    invariant
                        i <= consumers@.len(),
                        cs == consumer_views(consumers@),
                        forall|k: int|
                            0 <= k < consumers@.len() ==> (#[trigger] consumers@[k])@.sound(),
                        self@.wf(),
                        (StepView { state: self@, effects: effect_views(effects@) })
                            == before.trades_step_each(cs.take(i as int), batch@, range),
                    decreases consumers@.len() - i,
                {
                    assert(consumers@[i as int]@.sound());
                    let more = self.effects_for_trades_consumer(
                        &consumers[i],
                        copy_rows(batch),
                        range,
                    );
                    extend_effects(&mut effects, more);
                    i += 1;
                    assert(cs.take(i as int).drop_last() =~= cs.take(i - 1));
                    assert(cs.take(i as int).last() == cs[i - 1]);
                }
                assert(cs.take(i as int) =~= cs);
                effects
            },
            FetchedData::OI { data, .. } => MarketDataRuntime::open_interest_effects(
                consumers,
                data,
            ),
            FetchedData::BubbleSummary { .. } => no_effects(),
        }
    }

    fn finish_if_known(&mut self, worker_req: Uuid) -> (effects: Vec<MarketDataChartEffect>)
        requires
            old(self)@.wf(),
        ensures
            (StepView { state: final(self)@, effects: effect_views(effects@) }) == old(
                self,
            )@.finishing_worker_if(worker_req),
            final(self)@.wf(),
    {
        match self.finish_worker_job_effects(worker_req, None) {
            Some(effects) => effects,
            None => no_effects(),
        }
    }

    fn unstored_outcome(
        &mut self,
        ending_worker: Option<Uuid>,
        raw_count: usize,
    ) -> (outcome: FetchedDataRuntimeOutcome)
        requires
            old(self)@.wf(),
        ensures
            (OutcomeView {
                state: final(self)@,
                handled: outcome.handled,
                effects: effect_views(outcome.effects@),
            }) == old(self)@.receiving_nothing(ending_worker, raw_count as nat),
            final(self)@.wf(),
    {
        match ending_worker {
            Some(worker_req) => {
                let effects = if raw_count > 0 {
                    self.finish_worker_job_invalid(worker_req);
                    one_effect(MarketDataChartEffect::ProgressSnapshot)
                } else {
                    self.finish_if_known(worker_req)
                };
                FetchedDataRuntimeOutcome { handled: true, effects }
            },
            None => FetchedDataRuntimeOutcome { handled: false, effects: no_effects() },
        }
    }

    fn recipients(
        &self,
        stored: &FetchedMarketDataStore,
        job_id: Option<FetchJobId>,
    ) -> (consumers: Vec<PendingMarketDataConsumer>)
        requires
            self@.wf(),
        ensures
            consumer_views(consumers@) == self@.recipients(job_id, stored.key@, stored.range),
            forall|k: int| 0 <= k < consumers@.len() ==> (#[trigger] consumers@[k])@.sound(),
    {
        let consumers = match job_id {
            Some(id) => self.consumers_for_job(id),
            None => self.matching_pending_consumers(&stored.key, &stored.range),
        };
        proof {
            let cs = consumer_views(consumers@);
            assert forall|k: int| 0 <= k < consumers@.len() implies (
            #[trigger] consumers@[k])@.sound() by {
                assert(cs[k] == consumers@[k]@);
                match job_id {
                    Some(id) => {
                        lemma_waiting_sound(self@, self@.served_by(id), k);
                    },
                    None => {
                        lemma_filter_sound(self@, wanting(stored.key@, stored.range));
                    },
                }
            }
        }
        consumers
    }

    fn stored_outcome(
        &mut self,
        stored: &FetchedMarketDataStore,
        job_id: Option<FetchJobId>,
        stream_type: &StreamKind,
        data: &FetchedData,
        ending_worker: Option<Uuid>,
    ) -> (outcome: FetchedDataRuntimeOutcome)
        requires
            old(self)@.wf(),
        ensures
            (OutcomeView {
                state: final(self)@,
                handled: outcome.handled,
                effects: effect_views(outcome.effects@),
            }) == (StoredView {
                state: old(self)@,
                key: stored.key@,
                range: stored.range,
                record_count: stored.record_count,
            }).received(job_id, stream_type@, data@, ending_worker),
            final(self)@.wf(),
    {
        let consumers = self.recipients(stored, job_id);
        assert(consumer_views(consumers@).len() == consumers@.len());
        if consumers.len() == 0 {
            return match ending_worker {
                Some(worker_req) => FetchedDataRuntimeOutcome {
                    handled: true,
                    effects: self.finish_if_known(worker_req),
                },
                None => FetchedDataRuntimeOutcome { handled: false, effects: no_effects() },
            };
        }
        let mut effects = self.drawing_effects(&consumers, stream_type, data, stored.range);
        self.record_network_delivery(job_id, &stored.key, &stored.range, stored.record_count);
        if let Some(worker_req) = ending_worker {
            let more = self.finish_if_known(worker_req);
            extend_effects(&mut effects, more);
        }
        FetchedDataRuntimeOutcome { handled: true, effects }
    }

    /// What becomes of an answer of a worker. What lies outside the range of its job is dropped,
    /// the rest is stored, and the requests it is for get it. Candles and readings end their job;
    /// where none of them lies in its range, the job failed.
    pub fn effects_for_fetched_data(
        &mut self,
        stream_type: &StreamKind,
        data: &FetchedData,
    ) -> (outcome: FetchedDataRuntimeOutcome)
        requires
            old(self)@.wf(),
        ensures
            (OutcomeView {
                state: final(self)@,
                handled: outcome.handled,
                effects: effect_views(outcome.effects@),
            }) == old(self)@.receiving(stream_type@, data@),
            final(self)@.wf(),
    {
        let ghost before = self@;
        let ghost raw = data@;
        let coordinator_job = match data.req_id() {
            Some(req_id) => self.coordinator_job_for_worker(req_id),
            None => None,
        };
        let job = match &coordinator_job {
            Some((_, job)) => Some(job),
            None => None,
        };
        let job_id = match &coordinator_job {
            Some((id, _)) => Some(*id),
            None => None,
        };
        let raw_count: usize = match data {
            FetchedData::Klines { data, .. } => data.len(),
            FetchedData::OI { data, .. } => data.len(),
            _ => 0,
        };
        let data = self.normalize_fetched_data_for_job(data, job);
        let ends_its_job = match &data {
            FetchedData::Klines { .. } | FetchedData::OI { .. } => true,
            _ => false,
        };
        let ending_worker = match (job_id, data.req_id()) {
            (Some(_), Some(worker_req)) => if ends_its_job {
                Some(worker_req)
            } else {
                None
            },
            _ => None,
        };
        match self.store_fetched_market_data(stream_type, &data, job) {
            Some(stored) => self.stored_outcome(
                &stored,
                job_id,
                stream_type,
                &data,
                ending_worker,
            ),
            None => self.unstored_outcome(ending_worker, raw_count),
        }
    }

    /// What becomes of an answer that no request waits for: it goes to the pane that asked. Trades
    /// beyond the end of the fetch are dropped.
    pub fn legacy_fetched_data_effects(
        &self,
        pane_id: Uuid,
        stream_type: &StreamKind,
        data: FetchedData,
    ) -> (effects: Vec<MarketDataChartEffect>)
        ensures
            effect_views(effects@) == seq![handed_on(pane_id, stream_type@, data@)],
    {
        match data {
            FetchedData::Trades { batch, until_time, req_id } => {
                let n: usize = batch.len();
                let last: u64 = if n == 0 {
                    0
                } else {
                    batch[n - 1].time.0
                };
                if last < until_time.0 {
                    one_effect(
                        MarketDataChartEffect::InsertLegacyTrades {
                            pane_id,
                            req_id,
                            batch,
                            is_batches_done: false,
                        },
                    )
                } else {
                    one_effect(
                        MarketDataChartEffect::InsertLegacyTrades {
                            pane_id,
                            req_id,
                            batch: trades_until(&batch, until_time),
                            is_batches_done: true,
                        },
                    )
                }
            },
            FetchedData::BubbleSummary { data, range, trades_seen, raw_discarded, req_id } =>
                one_effect(
                MarketDataChartEffect::InsertLegacyBubbleSummaries {
                    pane_id,
                    req_id,
                    summaries: data,
                    range,
                    trades_seen,
                    raw_discarded,
                },
            ),
            FetchedData::Klines { data, req_id } => one_effect(
                MarketDataChartEffect::InsertLegacyKlines {
                    pane_id,
                    req_id,
                    stream: stream_type.clone(),
                    rows: data,
                },
            ),
            FetchedData::OI { data, req_id } => one_effect(
                MarketDataChartEffect::InsertLegacyOpenInterest { pane_id, req_id, rows: data },
            ),
        }
    }

    /// What becomes of the end of a fetch. Where a job stands behind it, the job ends; otherwise
    /// its range counts as covered and the requests for a part of it are served. At last the pane
    /// is ready.
    pub fn complete_fetch_effects(
        &mut self,
        pane_id: Uuid,
        req_id: Option<Uuid>,
        fetch: Option<FetchRange>,
        empty_covered_tail: Option<(UnixMs, UnixMs)>,
        ready_streams: &[StreamKind],
    ) -> (effects: Vec<MarketDataChartEffect>)
        requires
            old(self)@.wf(),
        ensures
            (StepView { state: final(self)@, effects: effect_views(effects@) }) == old(
                self,
            )@.ending(pane_id, req_id, fetch, empty_covered_tail, stream_views(ready_streams@)),
            final(self)@.wf(),
    {
        let ghost before = self@;
        if let Some(worker_req) = req_id {
            if let Some(effects) = self.finish_worker_job_effects(worker_req, empty_covered_tail) {
                return effects;
            }
        }
        let mut effects = no_effects();
        if let Some(fetch_range) = fetch {
            let pending = match req_id {
                Some(id) => self.pending_consumer_by_req(id),
                None => None,
            };
            let key = match pending {
                Some(consumer) => Some(consumer.key),
                None => fetch_range_to_key(
                    &fetch_range,
                    context_ticker(ready_streams),
                    context_timeframe(ready_streams),
                ),
            };
            let mut handled = false;
            let range = fetch_range_to_range(&fetch_range);
            if let Some(key) = &key {
                if let Some(range) = range {
                    let waiting = self.matching_pending_consumers(key, &range);
                    let had_matching = waiting.len() > 0;
                    assert(consumer_views(waiting@).len() == waiting@.len());
                    effects = self.complete_legacy_fetch_effects(key, range, empty_covered_tail);
                    assert(effect_views(effects@).len() == effects@.len());
                    handled = had_matching || effects.len() > 0;
                }
            }
            let ghost step = effects@;
            let is_trades = match fetch_range {
                FetchRange::Trades(_, _) => true,
                _ => false,
            };
            if is_trades && !handled {
                let last = MarketDataChartEffect::CompleteLegacyTradeFetch {
                    pane_id,
                    req_id,
                    fetch: fetch_range,
                    empty_covered_tail,
                };
                effects.push(last);
                assert(effect_views(effects@) =~= effect_views(step) + seq![last@]);
            } else {
                assert(effect_views(effects@) =~= effect_views(step) + Seq::empty());
            }
        }
        let ghost shown = effects@;
        let ready = MarketDataChartEffect::MarkPaneReady { pane_id };
        effects.push(ready);
        assert(effect_views(effects@) =~= effect_views(shown).push(ready@));
        effects
    }

    /// Takes in live trades: they go into the store, and in batches on to the cache. They are no
    /// coverage.
    pub fn insert_live_trades(&mut self, key: &MarketDataKey, buffer: &[Trade])
        ensures
            final(self)@ == old(self)@.hearing_trades(key@, buffer@),
            old(self)@.wf() ==> final(self)@.wf(),
    {
        let ghost before = self@;
        self.coordinator.feed_trades(key, buffer);
        let due = self.live_adapter.ingest_trades(
            key,
            buffer,
            self.coordinator.store_mut(),
            true,
        );
        assert(self@ =~= (RuntimeView {
            coordinator: CoordinatorView {
                store: before.coordinator.store.with_trades(key@, buffer@).with_trades(
                    key@,
                    buffer@,
                ),
                ..before.coordinator
            },
            live: before.live.with_trades(key@, buffer@, true).0,
            ..before
        }));
        if let Some(batch) = due {
            self.command(CacheCommand::StoreTrades { key: key.clone(), rows: batch });
        }
    }

    /// Stores candles, and nothing more.
    pub fn feed_klines(&mut self, key: &MarketDataKey, klines: &[Kline])
        ensures
            final(self)@ == (RuntimeView {
                coordinator: CoordinatorView {
                    store: old(self)@.coordinator.store.with_klines(key@, klines@),
                    ..old(self)@.coordinator
                },
                ..old(self)@
            }),
            old(self)@.wf() ==> final(self)@.wf(),
    {
        let ghost before = self@;
        self.coordinator.feed_klines(key, klines);
        assert(self@ =~= (RuntimeView {
            coordinator: CoordinatorView {
                store: before.coordinator.store.with_klines(key@, klines@),
                ..before.coordinator
            },
            ..before
        }));
    }

    /// Takes in live candles: they go into the store and on to the cache. They are no coverage.
    pub fn insert_live_klines(&mut self, key: &MarketDataKey, klines: &[Kline])
        ensures
            final(self)@ == old(self)@.hearing_klines(key@, klines@),
            old(self)@.wf() ==> final(self)@.wf(),
    {
        let ghost before = self@;
        let due = self.live_adapter.ingest_klines(
            key,
            klines,
            self.coordinator.store_mut(),
            true,
        );
        assert(self@ =~= (RuntimeView {
            coordinator: CoordinatorView {
                store: before.coordinator.store.with_klines(key@, klines@),
                ..before.coordinator
            },
            live: before.live.with_klines(key@, klines@),
            ..before
        }));
        if due {
            self.command(CacheCommand::StoreKlines { key: key.clone(), rows: copy_rows(klines) });
        }
    }
}

proof fn lemma_waiting_sound(s: RuntimeView, ids: Seq<Uuid>, k: int)
    requires
        s.wf(),
        0 <= k < ids.filter_map(|id: Uuid| consumer_at(s.consumers, id)).len(),
    ensures
        ids.filter_map(|id: Uuid| consumer_at(s.consumers, id))[k].sound(),
    decreases ids.len(),
{
    reveal(Seq::filter_map);
    let f = |id: Uuid| consumer_at(s.consumers, id);
    if ids.len() > 0 {
        let front = ids.drop_last().filter_map(f);
        lemma_found_sound(s, ids.last());
        if k < front.len() {
            lemma_waiting_sound(s, ids.drop_last(), k);
        }
    }
}

} // verus!
