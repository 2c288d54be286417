//! What holds of needs, plans, jobs and records, on chosen values.

use flowsurface::market::{Kline, Price, PriceStep, Qty, Trade, Volume};
use flowsurface::market_data::cache::{CacheRead, LocalMarketCache, MAX_CACHE_AGE_MS};
use flowsurface::market_data::coordinator::MarketDataCoordinator;
use flowsurface::market_data::derived::bubbles::compute_bubble_summaries;
use flowsurface::market_data::job::{FetchJob, FetchJobStatus};
use flowsurface::market_data::key::{MarketDataKey, MarketKind, Symbol, Venue};
use flowsurface::market_data::progress::MarketDataProgressSnapshot;
use flowsurface::market_data::range::MarketDataRange;
use flowsurface::market_data::requirement::{
    group_requirements, ConsumerFeature, ConsumerId, DataRequirement, Priority,
};
use flowsurface::market_data::store::MarketDataStore;
use flowsurface::market_data::ui::{format_number, MarketDataProgressWidget};
use flowsurface::time::{Timeframe, UnixMs};

fn ms(v: u64) -> UnixMs {
    UnixMs::new(v)
}

fn r(from: u64, to: u64) -> MarketDataRange {
    MarketDataRange::new(ms(from), ms(to)).unwrap()
}

fn trade_key() -> MarketDataKey {
    MarketDataKey::trades(Venue::BinanceLinear, Symbol::new("BTCUSDT"), MarketKind::LinearPerps)
}

fn candle_key() -> MarketDataKey {
    MarketDataKey::klines(
        Venue::BinanceLinear,
        Symbol::new("BTCUSDT"),
        MarketKind::LinearPerps,
        Timeframe::M1,
    )
}

fn need(key: MarketDataKey, range: MarketDataRange, priority: Priority) -> DataRequirement {
    let consumer = ConsumerId::global(ConsumerFeature::Footprint);
    DataRequirement::new(consumer, key, range, priority, "test")
}

fn trade(time: u64, price: i64, qty: i64, is_sell: bool) -> Trade {
    Trade { time: ms(time), is_sell, price: Price { units: price }, qty: Qty { units: qty } }
}

#[test]
fn a_plan_fetches_what_is_missing_and_nothing_twice() {
    let mut c = MarketDataCoordinator::new();
    c.mark_complete(&trade_key(), r(2_000, 4_000), 9);
    c.require(need(trade_key(), r(0, 10_000), Priority::Normal));
    let plan = c.plan();
    assert_eq!(plan.cached_segments.len(), 1);
    assert_eq!(plan.cached_segments[0].range, r(2_000, 4_000));
    let fetched: Vec<MarketDataRange> = plan.network_segments.iter().map(|s| s.range).collect();
    assert_eq!(fetched, vec![r(0, 2_000), r(4_000, 10_000)]);
    let jobs = c.execute_plan();
    assert_eq!(jobs.len(), 2);
    c.require(need(trade_key(), r(0, 12_000), Priority::Normal));
    c.plan();
    let more = c.execute_plan();
    assert_eq!(more.len(), 1);
    assert_eq!(c.job(more[0]).unwrap().range, r(10_000, 12_000));
}

#[test]
fn a_removed_job_is_gone_and_a_completed_one_covers() {
    let mut c = MarketDataCoordinator::new();
    c.require(need(trade_key(), r(0, 5_000), Priority::Normal));
    c.plan();
    let job = c.execute_plan()[0];
    c.start_job(job);
    let done = c.complete_and_remove_job(job, 7).unwrap();
    assert_eq!(done.range, r(0, 5_000));
    assert!(c.job(job).is_none());
    assert!(c.coverage.is_covered(&trade_key(), &r(0, 5_000)));
    assert_eq!(c.coverage.total_records(&trade_key()), 7);
    assert!(c.remove_job(job).is_none());
}

#[test]
fn a_failed_job_does_not_cover() {
    let mut c = MarketDataCoordinator::new();
    c.require(need(trade_key(), r(0, 5_000), Priority::Normal));
    c.plan();
    let job = c.execute_plan()[0];
    c.start_job(job);
    c.fail_job(job, "timeout".to_string());
    assert!(matches!(c.job(job).unwrap().status, FetchJobStatus::Failed { .. }));
    assert!(!c.coverage.is_covered(&trade_key(), &r(0, 5_000)));
    c.cancel_job(job);
    assert_eq!(c.active_job_count(), 0);
}

#[test]
fn failed_jobs_never_wait_less_than_before() {
    let mut job = FetchJob::with_id(
        flowsurface::ids::Uuid(1),
        trade_key(),
        r(0, 1_000),
        vec![],
        0,
    );
    for due in [12_500, 12_500, 15_000, 20_000, 30_000, 50_000, 90_000, 90_000] {
        job.start();
        job.fail_at("timeout".to_string(), 10_000);
        assert_eq!(
            job.status,
            FetchJobStatus::Failed { error: "timeout".to_string(), retry_at: Some(due) }
        );
        assert!(!job.can_retry_at(due - 1));
        assert!(job.can_retry_at(due));
    }
}

#[test]
fn needs_for_one_stream_are_grouped_by_urgency() {
    let groups = group_requirements(vec![
        need(candle_key(), r(0, 100), Priority::Low),
        need(trade_key(), r(0, 100), Priority::Normal),
        need(trade_key(), r(50, 300), Priority::Critical),
    ]);
    assert_eq!(groups.len(), 2);
    assert_eq!(groups[0].max_priority, Priority::Critical);
    assert_eq!(groups[0].merged_range, r(0, 300));
    assert_eq!(groups[1].max_priority, Priority::Low);
}

#[test]
fn stored_records_are_in_order_and_the_last_write_wins() {
    let mut s = MarketDataStore::new();
    s.insert_trades(&trade_key(), &[trade(300, 3, 1, false), trade(100, 1, 1, false)]);
    s.insert_trades(&trade_key(), &[trade(200, 2, 1, false), trade(100, 9, 1, true)]);
    let rows = s.query_trades(&trade_key(), &r(0, 1_000));
    let times: Vec<u64> = rows.iter().map(|t| t.time.as_u64()).collect();
    assert_eq!(times, vec![100, 200, 300]);
    assert_eq!(rows[0].price.units, 9);
    assert_eq!(s.trade_range(&trade_key()).unwrap().from, ms(100));
}

#[test]
fn the_oldest_records_go_first() {
    let mut s = MarketDataStore::new();
    let many: Vec<Kline> = (0..10_050u64)
        .map(|i| {
            let p = Price { units: 1 };
            Kline {
                time: ms(i),
                open: p,
                high: p,
                low: p,
                close: p,
                volume: Volume::TotalOnly(Qty { units: 1 }),
            }
        })
        .collect();
    s.insert_klines(&candle_key(), &many);
    assert_eq!(s.kline_count(&candle_key()), 10_000);
    assert_eq!(s.earliest_kline_time(&candle_key()), Some(ms(50)));
    assert_eq!(s.latest_kline_time(&candle_key()), Some(ms(10_049)));
}

#[test]
fn bubbles_add_up_and_come_in_order() {
    let summaries = compute_bubble_summaries(
        &[
            trade(61_000, 100, 5, false),
            trade(1_000, 100, 2, false),
            trade(2_000, 100, 1, true),
            trade(3_000, 200, 4, false),
        ],
        60_000,
        PriceStep { units: 10 },
        5,
    );
    assert_eq!(summaries.len(), 2);
    assert_eq!(summaries[0].candle_time, ms(0));
    assert_eq!(summaries[1].candle_time, ms(60_000));
    let first = &summaries[0].candidates;
    assert_eq!(first.len(), 2);
    assert_eq!(first[0].price.units, 200);
    assert_eq!(first[0].total_qty.units, 4);
    assert_eq!(first[1].total_qty.units, 3);
    assert_eq!(first[1].buy_qty.units, 2);
    assert_eq!(first[1].sell_qty.units, 1);
    assert_eq!(first[1].delta_qty.units, 1);
    assert_eq!(first[1].trade_count, 2);
}

#[test]
fn cached_records_come_back_in_order() {
    let mut cache = LocalMarketCache::new();
    let file = LocalMarketCache::insert_trades(
        &trade_key(),
        CacheRead::Absent,
        &[trade(300, 3, 1, false), trade(100, 1, 1, false)],
        1_000,
    );
    let file = LocalMarketCache::insert_trades(
        &trade_key(),
        CacheRead::Found(file),
        &[trade(200, 2, 1, false)],
        2_000,
    );
    let rows = cache.query_trades(CacheRead::Found(file), &r(0, 301), 2_000);
    let times: Vec<u64> = rows.iter().map(|t| t.time.as_u64()).collect();
    assert_eq!(times, vec![100, 200, 300]);
    assert_eq!((cache.stats().reads, cache.stats().hits), (1, 1));
}

#[test]
fn old_and_unreadable_files_are_not_used() {
    let mut cache = LocalMarketCache::new();
    let file = LocalMarketCache::insert_trades(
        &trade_key(),
        CacheRead::Absent,
        &[trade(100, 1, 1, false)],
        1_000,
    );
    let late = 1_000 + MAX_CACHE_AGE_MS + 1;
    assert!(cache.query_trades(CacheRead::Found(file), &r(0, 301), late).is_empty());
    assert!(cache.query_trades(CacheRead::Absent, &r(0, 301), 5).is_empty());
    assert!(cache.query_trades(CacheRead::Unreadable, &r(0, 301), 5).is_empty());
    assert_eq!(LocalMarketCache::file_name(trade_key().kind), "trades.json");
    assert_eq!(LocalMarketCache::file_name(candle_key().kind), "klines.json");
    assert!(LocalMarketCache::key_dir(&trade_key()).starts_with("BinanceLinear_BTCUSDT_"));
}

#[test]
fn numbers_only_gain_commas() {
    assert_eq!(format_number(9_876_543_210).replace(',', ""), "9876543210");
    assert_eq!(format_number(1_000), "1,000");
}

#[test]
fn the_widget_says_what_is_loaded() {
    let mut snapshot = MarketDataProgressSnapshot::empty();
    let mut widget = MarketDataProgressWidget::with_settings(1);
    assert!(widget.is_silent());
    assert_eq!(widget.headline(), "Ready");
    for id in 1..=3 {
        let mut job = FetchJob::with_id(
            flowsurface::ids::Uuid(id),
            trade_key(),
            r(0, 3_600_000),
            vec![],
            0,
        );
        job.start();
        job.progress.records_fetched = 12_345;
        snapshot.active_jobs.push(job);
    }
    snapshot.total_cached_records = 1_500;
    assert_eq!(
        snapshot.format_status_line(),
        "Fetching: Trades:BinanceLinear:BTCUSDT,Trades:BinanceLinear:BTCUSDT,\
         Trades:BinanceLinear:BTCUSDT | fetched=0 cached=1500"
    );
    widget.update(snapshot);
    assert_eq!(widget.headline(), "Loading market data (3)");
    assert_eq!(widget.job_lines().len(), 1);
    assert_eq!(widget.job_lines()[0].what, "Trades:BinanceLinear:BTCUSDT: 00:00:00 → 01:00:00");
    assert_eq!(widget.job_lines()[0].status, "12,345 fetched");
    assert_eq!(widget.hidden_line().unwrap(), "  ... and 2 more");
    assert_eq!(widget.cached_line().unwrap(), "Cached: 1,500 records");
    assert_eq!(widget.summary(), "Fetching 3 segments | Fetched: 0 | Cached: 1,500");
}

#[test]
fn a_plan_is_carried_out_once() {
    let mut c = MarketDataCoordinator::new();
    c.mark_complete(&trade_key(), r(2_000_000, 2_004_000), 9);
    c.require(need(trade_key(), r(1_999_500, 2_010_000), Priority::Normal));
    c.require(need(candle_key(), r(60_000, 200_000), Priority::High));
    c.plan();
    let before = c.active_job_count();
    let jobs = c.execute_plan();
    assert_eq!(jobs.len(), 2);
    assert_ne!(jobs[0], jobs[1]);
    assert!(jobs.iter().all(|id| c.job(*id).unwrap().status.is_pending()));
    assert_eq!(c.active_job_count(), before + jobs.len());
    assert!(c.execute_plan().is_empty());
    assert_eq!(c.active_job_count(), before + jobs.len());
}
