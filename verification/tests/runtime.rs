//! The way of requests: from a pane to the workers and the cache, and back.

use flowsurface::connector::fetcher::{FetchRange, FetchSpec, FetchedData};
use flowsurface::ids::Uuid;
use flowsurface::market::{
    Exchange, Kline, OpenInterest, Price, PriceStep, Qty, StreamKind, Ticker, TickerInfo, Trade,
    Volume,
};
use flowsurface::market_data::chart_need::ChartDataNeed;
use flowsurface::market_data::coordinator::MarketDataCoordinator;
use flowsurface::market_data::effect::{
    CacheCommand, CachedMarketDataDispatch, MarketDataChartEffect,
};
use flowsurface::market_data::key::{MarketDataKey, MarketKind, Symbol, Venue};
use flowsurface::market_data::range::MarketDataRange;
use flowsurface::market_data::runtime::routing::{
    CachedRows, DashboardChartNeedRoute, DashboardFetchRoute, MarketDataRouteOutcome, PlannedRoute,
    RouteStep,
};
use flowsurface::market_data::runtime::MarketDataRuntime;
use flowsurface::time::{Timeframe, UnixMs};

const MINUTE: u64 = 60_000;

fn ms(v: u64) -> UnixMs {
    UnixMs::new(v)
}

fn range(from: u64, to: u64) -> MarketDataRange {
    MarketDataRange::new(ms(from), ms(to)).unwrap()
}

fn info() -> TickerInfo {
    TickerInfo::new(Ticker::new("BTCUSDT", Exchange::BinanceLinear))
}

fn candles() -> StreamKind {
    StreamKind::Kline { ticker_info: info(), timeframe: Timeframe::M1 }
}

fn trades() -> StreamKind {
    StreamKind::Trades { ticker_info: info() }
}

fn candle_key() -> MarketDataKey {
    MarketDataKey::klines(
        Venue::BinanceLinear,
        Symbol::new("BTCUSDT"),
        MarketKind::LinearPerps,
        Timeframe::M1,
    )
}

fn trade_key() -> MarketDataKey {
    MarketDataKey::trades(Venue::BinanceLinear, Symbol::new("BTCUSDT"), MarketKind::LinearPerps)
}

fn kline(time: u64) -> Kline {
    let p = Price { units: 100 };
    Kline {
        time: ms(time),
        open: p,
        high: p,
        low: p,
        close: p,
        volume: Volume::TotalOnly(Qty { units: 1 }),
    }
}

fn trade(time: u64) -> Trade {
    Trade { time: ms(time), is_sell: false, price: Price { units: 100 }, qty: Qty { units: 2 } }
}

fn runtime() -> MarketDataRuntime {
    MarketDataRuntime::from_parts(MarketDataCoordinator::new(), 0)
}

fn ask(rt: &mut MarketDataRuntime, req: u128, fetch: FetchRange, stream: StreamKind) -> RouteStep {
    rt.route_fetch_specs(DashboardFetchRoute {
        pane_id: Uuid(1),
        ready_streams: vec![candles(), trades()],
        chart_generation: 4,
        reqs: vec![FetchSpec { req_id: Uuid(req), fetch, stream: Some(stream) }],
    })
}

fn planned(step: RouteStep) -> PlannedRoute {
    match step {
        RouteStep::Read(planned) => planned,
        RouteStep::Done(outcome) => panic!("{:?}", outcome),
    }
}

fn fetch_candles(rt: &mut MarketDataRuntime, req: u128) -> MarketDataRouteOutcome {
    let step = ask(rt, req, FetchRange::Kline(ms(0), ms(5 * MINUTE)), candles());
    let route = planned(step);
    assert!(route.cached.is_empty());
    rt.finish_route(route, &vec![])
}

fn five_candles() -> Vec<Kline> {
    (0..5).map(|i| kline(i * MINUTE)).collect()
}

#[test]
fn a_request_becomes_a_job_and_its_answer_completes_it() {
    let mut rt = runtime();
    let outcome = fetch_candles(&mut rt, 10);
    assert_eq!(outcome.fetch_specs.len(), 1);
    let worker = outcome.fetch_specs[0].req_id;
    assert_eq!(outcome.fetch_specs[0].fetch, FetchRange::Kline(ms(0), ms(5 * MINUTE)));
    assert_eq!(rt.worker_mapping_count(), 1);
    assert_eq!(rt.pending_consumer_count(), 1);

    let data = FetchedData::Klines { data: five_candles(), req_id: Some(worker) };
    let answer = rt.effects_for_fetched_data(&candles(), &data);
    assert!(answer.handled);
    assert!(answer.effects.iter().any(|e| matches!(
        e,
        MarketDataChartEffect::InsertKlinesPartial { rows, .. } if rows.len() == 5
    )));
    assert!(answer.effects.iter().any(|e| matches!(
        e,
        MarketDataChartEffect::CompleteConsumer { consumer, .. } if consumer.req_id == Uuid(10)
    )));
    assert!(rt.worker_maps_empty());
    assert!(rt.pending_consumers_empty());
    assert!(rt.coordinator.coverage.is_covered(&candle_key(), &range(0, 5 * MINUTE)));
    assert_eq!(rt.coordinator.store.kline_count(&candle_key()), 5);
    let commands = rt.take_cache_commands();
    assert!(commands
        .iter()
        .any(|c| matches!(c, CacheCommand::StoreKlines { rows, .. } if rows.len() == 5)));
    assert!(rt.take_cache_commands().is_empty());
}

#[test]
fn what_is_covered_is_read_from_the_cache() {
    let mut rt = runtime();
    rt.coordinator.mark_complete(&candle_key(), range(0, 5 * MINUTE), 5);
    let step = ask(&mut rt, 10, FetchRange::Kline(ms(0), ms(5 * MINUTE)), candles());
    let route = planned(step);
    assert_eq!(route.cached.len(), 1);
    assert_eq!(route.cached[0].range, range(0, 5 * MINUTE));
    let rows = CachedRows { klines: five_candles(), trades: vec![], open_interest: vec![] };
    let outcome = rt.finish_route(route, &vec![rows]);
    assert!(outcome.fetch_specs.is_empty());
    assert_eq!(outcome.cached_dispatches.len(), 1);
    match &outcome.cached_dispatches[0] {
        CachedMarketDataDispatch::Klines { rows, .. } => assert_eq!(rows.len(), 5),
        other => panic!("{:?}", other),
    }
    let effects = rt.effects_for_cached_dispatch(&outcome.cached_dispatches[0]);
    assert!(effects
        .iter()
        .any(|e| matches!(e, MarketDataChartEffect::CompleteConsumer { .. })));
}

#[test]
fn a_cache_that_makes_no_sense_is_fetched_anew() {
    let mut rt = runtime();
    rt.coordinator.mark_complete(&candle_key(), range(0, 5 * MINUTE), 5);
    let step = ask(&mut rt, 10, FetchRange::Kline(ms(0), ms(5 * MINUTE)), candles());
    let route = planned(step);
    let crowd: Vec<Kline> = (0..200).map(|i| kline(i * 1_000)).collect();
    let rows = CachedRows { klines: crowd, trades: vec![], open_interest: vec![] };
    let outcome = rt.finish_route(route, &vec![rows]);
    assert!(outcome.cached_dispatches.is_empty());
    assert_eq!(outcome.fetch_specs.len(), 1);
    assert!(!rt.coordinator.coverage.is_covered(&candle_key(), &range(0, 5 * MINUTE)));
}

#[test]
fn a_second_request_shares_the_job() {
    let mut rt = runtime();
    fetch_candles(&mut rt, 10);
    let again = fetch_candles(&mut rt, 11);
    assert!(again.fetch_specs.is_empty());
    assert_eq!(rt.worker_mapping_count(), 1);
    assert_eq!(rt.pending_consumer_count(), 2);
    let jobs = rt.coordinator.active_jobs();
    assert_eq!(jobs.len(), 1);
    assert_eq!(rt.job_consumer_ids(jobs[0].id), vec![Uuid(10), Uuid(11)]);
}

#[test]
fn a_failed_worker_leaves_nothing_behind() {
    let mut rt = runtime();
    let outcome = fetch_candles(&mut rt, 10);
    let worker = outcome.fetch_specs[0].req_id;
    let failure = rt.fail_worker_request(worker, "no answer".to_string()).unwrap();
    assert_eq!(failure.range, range(0, 5 * MINUTE));
    assert!(rt.worker_maps_empty());
    assert_eq!(rt.coordinator.active_job_count(), 0);
    assert!(rt.fail_worker_request(worker, "no answer".to_string()).is_none());
}

#[test]
fn an_answer_that_makes_no_sense_ends_its_job() {
    let mut rt = runtime();
    let outcome = fetch_candles(&mut rt, 10);
    let worker = outcome.fetch_specs[0].req_id;
    assert!(rt.finish_worker_job_invalid(worker));
    assert!(!rt.finish_worker_job_invalid(worker));
    assert_eq!(rt.coordinator.active_job_count(), 0);
    assert!(!rt.coordinator.coverage.is_covered(&candle_key(), &range(0, 5 * MINUTE)));
}

#[test]
fn a_need_is_taken_once() {
    let mut rt = runtime();
    let need = ChartDataNeed::Klines { from: ms(0), to: ms(5 * MINUTE) };
    let ready = vec![candles(), trades()];
    assert!(rt.take_need(Uuid(1), &ready, 4, &need, Uuid(20)));
    assert!(!rt.take_need(Uuid(1), &ready, 4, &need, Uuid(21)));
    assert_eq!(rt.pending_consumer_count(), 1);
}

#[test]
fn needs_without_a_stream_go_nowhere() {
    let mut rt = runtime();
    let step = rt.route_chart_data_needs(DashboardChartNeedRoute {
        pane_id: Uuid(1),
        ready_streams: vec![],
        chart_generation: 0,
        needs: vec![ChartDataNeed::Klines { from: ms(0), to: ms(5 * MINUTE) }],
    });
    assert!(matches!(step, RouteStep::Done(_)));
    assert!(rt.pending_consumers_empty());
}

#[test]
fn bubbles_are_drawn_from_trades() {
    let mut rt = runtime();
    let step = rt.route_chart_data_needs(DashboardChartNeedRoute {
        pane_id: Uuid(1),
        ready_streams: vec![candles(), trades()],
        chart_generation: 4,
        needs: vec![ChartDataNeed::Bubbles {
            from: ms(0),
            to: ms(5 * MINUTE),
            timeframe_ms: MINUTE,
            price_step: PriceStep { units: 10 },
            max_candidates_per_candle: 5,
        }],
    });
    let outcome = rt.finish_route(planned(step), &vec![]);
    assert_eq!(outcome.fetch_specs.len(), 1);
    let worker = outcome.fetch_specs[0].req_id;
    let data = FetchedData::Trades {
        batch: vec![trade(1_000), trade(61_000)],
        until_time: ms(5 * MINUTE),
        req_id: Some(worker),
    };
    let answer = rt.effects_for_fetched_data(&trades(), &data);
    assert!(answer.handled);
    let done = rt.finish_worker_job_effects(worker, None).unwrap();
    assert!(done.iter().any(|e| matches!(
        e,
        MarketDataChartEffect::InsertBubbleSummaries { complete: true, summaries, .. }
            if summaries.len() == 2
    )));
    assert_eq!(rt.coordinator.store.trade_count(&trade_key()), 2);
}

#[test]
fn open_interest_completes_its_job() {
    let mut rt = runtime();
    let step = ask(&mut rt, 10, FetchRange::OpenInterest(ms(0), ms(5 * MINUTE)), candles());
    let outcome = rt.finish_route(planned(step), &vec![]);
    let worker = outcome.fetch_specs[0].req_id;
    let rows = vec![OpenInterest { time: ms(MINUTE), value_bits: 1.5f64.to_bits() }];
    let data = FetchedData::OI { data: rows, req_id: Some(worker) };
    let answer = rt.effects_for_fetched_data(&candles(), &data);
    assert!(answer.handled);
    assert!(answer.effects.iter().any(|e| matches!(
        e,
        MarketDataChartEffect::InsertOpenInterestPartial { rows, .. } if rows.len() == 1
    )));
}

#[test]
fn data_nobody_waits_for_is_handed_on() {
    let mut rt = runtime();
    let data = FetchedData::Klines { data: five_candles(), req_id: None };
    let effects = rt.legacy_fetched_data_effects(Uuid(1), &candles(), data);
    assert_eq!(effects.len(), 1);
    assert!(matches!(
        &effects[0],
        MarketDataChartEffect::InsertLegacyKlines { rows, .. } if rows.len() == 5
    ));
    let data = FetchedData::Trades { batch: vec![trade(1)], until_time: ms(10), req_id: None };
    let effects = rt.legacy_fetched_data_effects(Uuid(1), &trades(), data);
    assert!(matches!(
        &effects[0],
        MarketDataChartEffect::InsertLegacyTrades { is_batches_done: false, .. }
    ));
}

#[test]
fn live_trades_are_stored_and_cached_in_batches() {
    let mut rt = runtime();
    let batch: Vec<Trade> = (0..150).map(trade).collect();
    rt.insert_live_trades(&trade_key(), &batch);
    assert_eq!(rt.coordinator.store.trade_count(&trade_key()), 150);
    assert_eq!(rt.live_adapter.trade_count(&trade_key()), 150);
    let commands = rt.take_cache_commands();
    assert_eq!(commands.len(), 1);
    assert!(matches!(&commands[0], CacheCommand::StoreTrades { rows, .. } if rows.len() == 150));
    assert!(rt.coordinator.coverage.is_empty());
}

#[test]
fn the_empty_end_of_a_fetch_is_remembered() {
    let mut rt = runtime();
    let outcome = fetch_candles(&mut rt, 10);
    let worker = outcome.fetch_specs[0].req_id;
    let tail = Some((ms(0), ms(5 * MINUTE)));
    assert!(rt.finish_worker_job_effects(worker, tail).is_some());
    assert!(rt.coordinator.coverage.has_coverage(&candle_key()));
    assert!(!rt.coordinator.coverage.is_covered(&candle_key(), &range(0, 5 * MINUTE)));
    assert!(rt.worker_maps_empty());
}
