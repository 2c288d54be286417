//! Texts, getters and rarer paths.

use flowsurface::connector::fetcher::FetchRange;
use flowsurface::ids::Uuid;
use flowsurface::market::{
    Exchange, Kline, OpenInterest, Price, Qty, StreamKind, Ticker, TickerInfo, Trade, Volume,
};
use flowsurface::market_data::cache::{CacheRead, LocalMarketCache, MAX_CACHED_TRADES};
use flowsurface::market_data::consumer::PendingMarketDataConsumer;
use flowsurface::market_data::coordinator::MarketDataCoordinator;
use flowsurface::market_data::coverage::CoverageStatus;
use flowsurface::market_data::job::{
    merge_job_ranges, FetchJob, FetchJobProgress, FetchJobStatus,
};
use flowsurface::market_data::key::{MarketDataKey, MarketKind, Symbol, Venue};
use flowsurface::market_data::live::{stream_to_live_key, LiveDataAdapter};
use flowsurface::market_data::planner::{plan_to_jobs, DataLoadPlan, NetworkSegment};
use flowsurface::market_data::progress::MarketDataProgressSnapshot;
use flowsurface::market_data::range::MarketDataRange;
use flowsurface::market_data::requirement::{
    ConsumerFeature, ConsumerId, DataRequirement, Priority,
};
use flowsurface::market_data::runtime::MarketDataRuntime;
use flowsurface::market_data::session::{Session, SessionResolver, UtcTime};
use flowsurface::market_data::store::MarketDataStore;
use flowsurface::market_service::{MarketDiagnostics, MarketStore};
use flowsurface::time::{Timeframe, UnixMs};

fn ms(v: u64) -> UnixMs {
    UnixMs::new(v)
}

fn r(from: u64, to: u64) -> MarketDataRange {
    MarketDataRange::new(ms(from), ms(to)).unwrap()
}

fn trade_key() -> MarketDataKey {
    MarketDataKey::trades(Venue::BinanceLinear, Symbol::new("BTCUSDT"), MarketKind::LinearPerps)
}

fn oi_key() -> MarketDataKey {
    MarketDataKey::open_interest(
        Venue::BinanceLinear,
        Symbol::new("BTCUSDT"),
        MarketKind::LinearPerps,
        Timeframe::M5,
    )
}

fn trade(time: u64) -> Trade {
    Trade { time: ms(time), is_sell: false, price: Price { units: 1 }, qty: Qty { units: 1 } }
}

fn need(range: MarketDataRange) -> DataRequirement {
    let consumer = ConsumerId::global(ConsumerFeature::Footprint);
    DataRequirement::visible_range(consumer, trade_key(), range)
}

fn job(id: u128, range: MarketDataRange) -> FetchJob {
    FetchJob::with_id(Uuid(id), trade_key(), range, vec![], 0)
}

#[test]
fn needs_have_a_reason() {
    assert_eq!(need(r(0, 10)).reason, "visible range");
    assert_eq!(need(r(0, 10)).priority, Priority::High);
    let consumer = ConsumerId::global(ConsumerFeature::Footprint);
    let late = DataRequirement::backfill(consumer, trade_key(), r(0, 10));
    assert_eq!((late.reason.as_str(), late.priority), ("backfill", Priority::Low));
}

#[test]
fn jobs_are_taken_in_turn() {
    let mut c = MarketDataCoordinator::with_limits(1, 10);
    c.require_all(vec![need(r(0, 5_000))]);
    assert!(c.has_pending_requirements());
    c.plan();
    assert!(!c.plan_ref().unwrap().is_empty());
    assert_eq!(c.plan_ref().unwrap().fetch_count(), 1);
    let id = c.execute_plan()[0];
    assert!(c.next_job().is_none());
    assert!(c.has_active_job_for(&trade_key(), &r(1_000, 2_000)));
    assert!(!c.has_active_job_for(&trade_key(), &r(4_000, 6_000)));
    assert_eq!(c.active_ranges_for_key(&trade_key()), vec![r(0, 5_000)]);
    let progress =
        FetchJobProgress { records_fetched: 4, until_time: Some(ms(61_000)), bytes_downloaded: 9 };
    c.update_job_progress(id, progress);
    assert_eq!(c.job(id).unwrap().progress.log_format(), "records=4 until=00:01:01 bytes=9");
    assert_eq!(
        c.log_state(),
        "jobs=1 pending_requirements=0 coverage_keys=0 store=keys(trades=0, klines=0, oi=0) \
         records(trades=0, klines=0, oi=0)"
    );
}

#[test]
fn waiting_jobs_are_handed_out_below_the_limit() {
    let mut c = MarketDataCoordinator::with_limits(4, 10);
    c.require(need(r(0, 5_000)));
    c.plan();
    let id = c.execute_plan()[0];
    assert_eq!(c.next_job().unwrap().id, id);
    assert!(c.next_job().is_none());
}

#[test]
fn finished_jobs_are_cleaned_up() {
    let mut c = MarketDataCoordinator::new();
    c.require(need(r(0, 5_000)));
    c.plan();
    let id = c.execute_plan()[0];
    let created = c.job(id).unwrap().created_at;
    c.cleanup_jobs_at(created + 100, 10);
    assert!(c.job(id).is_some());
    c.complete_job(id, 1);
    c.cleanup_jobs_at(created + 10, 10);
    assert!(c.job(id).is_some());
    c.cleanup_jobs_at(created + 11, 10);
    assert!(c.job(id).is_none());
}

#[test]
fn plans_are_written_down() {
    let mut c = MarketDataCoordinator::new();
    c.mark_complete(&trade_key(), r(0, 3_600_000), 7);
    c.require(need(r(0, 7_200_000)));
    let plan = c.plan();
    assert_eq!(plan.log_format(), "cached=1 network=1 derived=0 consumers=1");
    let consumer = ConsumerFeature::Footprint.short_name();
    assert_eq!(
        plan.runtime_summary(3),
        format!(
            "cached=[00:00:00 → 01:00:00] network=[01:00:00 → 02:00:00] active_jobs=3 \
             consumers=[{consumer}]"
        )
    );
    let jobs = plan_to_jobs(plan);
    assert_eq!(jobs.len(), 1);
    assert_eq!(jobs[0].range, r(3_600_000, 7_200_000));
    assert!(jobs[0].status.is_pending());
}

#[test]
fn overlapping_jobs_have_a_common_range() {
    assert_eq!(merge_job_ranges(&job(1, r(0, 10)), &job(2, r(10, 30))), Some(r(0, 30)));
    assert_eq!(merge_job_ranges(&job(1, r(0, 10)), &job(2, r(11, 30))), None);
}

#[test]
fn the_snapshot_is_written_down() {
    let mut snapshot = MarketDataProgressSnapshot::empty();
    assert_eq!(snapshot.format_ui(), "Ready");
    assert_eq!(snapshot.format_status_line(), "Ready | cached=0 covered=-");
    assert_eq!(snapshot.progress_percentage(), None);
    snapshot.total_fetched_records = 5;
    assert_eq!(snapshot.progress_percentage(), Some(50));
    snapshot.active_jobs.push(job(1, r(0, 3_600_000)));
    assert_eq!(
        snapshot.format_ui(),
        "Loading market data:\nTrades:BinanceLinear:BTCUSDT: 00:00:00 → 01:00:00 \
         (records=0 until=- bytes=0)"
    );
}

#[test]
fn the_runtime_tells_its_progress() {
    let mut rt = MarketDataRuntime::from_parts(MarketDataCoordinator::new(), 0);
    assert_eq!(
        rt.log_progress_snapshot(),
        "MARKETDATA ProgressSnapshot | active=0 cached_records=0 fetched_records=0 jobs=[]"
    );
    rt.coordinator.require(need(r(0, 3_600_000)));
    rt.coordinator.plan();
    rt.coordinator.execute_plan();
    rt.coordinator.record_cache_served(12);
    let line = rt.log_progress_snapshot();
    assert!(line.starts_with(
        "MARKETDATA ProgressSnapshot | active=1 cached_records=12 fetched_records=0 jobs=["
    ));
    assert!(line.ends_with(":00:00:00 → 01:00:00]"));
}

#[test]
fn what_a_request_lacks_is_told() {
    let mut rt = MarketDataRuntime::from_parts(MarketDataCoordinator::new(), 0);
    rt.push_pending_consumer(PendingMarketDataConsumer {
        pane_id: Uuid(1),
        req_id: Uuid(2),
        fetch: FetchRange::Trades(ms(0), ms(10_000)),
        stream: None,
        key: trade_key(),
        range: r(0, 10_000),
        feature: ConsumerFeature::Footprint,
        bubble_config: None,
        chart_generation: 0,
        has_partial_updates: false,
        completed: false,
        required_segments: vec![],
        completed_segments: vec![r(500, 7_000)],
        failed_segments: vec![],
        delivered_segments: vec![],
    });
    assert_eq!(rt.effective_missing_for_consumer(Uuid(2)), vec![r(7_000, 10_000)]);
    assert!(rt.effective_missing_for_consumer(Uuid(3)).is_empty());
}

#[test]
fn live_records_are_flushed() {
    let mut store = MarketDataStore::new();
    let mut adapter = LiveDataAdapter::with_persistence(true, 10);
    assert!(adapter.ingest_trades(&trade_key(), &[trade(5)], &mut store, true).is_none());
    assert_eq!(adapter.live_keys(), vec![trade_key()]);
    let batches = adapter.flush_pending(true);
    assert_eq!(batches.len(), 1);
    assert_eq!(batches[0].1.len(), 1);
    assert!(adapter.flush_pending(true).is_empty());
    let stream = StreamKind::Trades {
        ticker_info: TickerInfo::new(Ticker::new("BTCUSDT", Exchange::BinanceLinear)),
    };
    assert_eq!(stream_to_live_key(&stream), Some(trade_key()));
    adapter.clear_all();
    assert!(adapter.live_keys().is_empty());
}

#[test]
fn open_interest_is_stored_and_cached() {
    let rows = [
        OpenInterest { time: ms(600_000), value_bits: 2.5f64.to_bits() },
        OpenInterest { time: ms(300_000), value_bits: 1.5f64.to_bits() },
    ];
    let mut store = MarketDataStore::new();
    store.insert_open_interest(&oi_key(), &rows);
    assert_eq!(store.oi_count(&oi_key()), 2);
    assert_eq!(store.latest_oi_time(&oi_key()), Some(ms(600_000)));
    assert_eq!(store.query_open_interest(&oi_key(), &r(0, 600_000)).len(), 1);
    assert_eq!(store.oi_keys(), vec![oi_key()]);
    let mut cache = LocalMarketCache::new();
    let file = LocalMarketCache::insert_open_interest(&oi_key(), CacheRead::Absent, &rows, 5);
    let found = cache.query_open_interest(CacheRead::Found(file), &r(0, 1_000_000), 5);
    assert_eq!(f64::from_bits(found[0].value_bits), 1.5);
    assert!(oi_key().kind.is_open_interest());
}

#[test]
fn the_cache_keeps_the_newest_records() {
    let many: Vec<Trade> = (0..MAX_CACHED_TRADES as u64 + 100).map(trade).collect();
    let file = LocalMarketCache::insert_trades(&trade_key(), CacheRead::Absent, &many, 5);
    assert_eq!(file.rows.len(), MAX_CACHED_TRADES);
    assert_eq!(file.rows[0].time, ms(100));
    assert_eq!((file.last_updated, file.key_display.as_str()), (5, "Trades:BinanceLinear:BTCUSDT"));
}

#[test]
fn candles_lose_the_sides_of_their_volume_in_the_cache() {
    let p = Price { units: 1 };
    let key = MarketDataKey::klines(
        Venue::BinanceLinear,
        Symbol::new("BTCUSDT"),
        MarketKind::LinearPerps,
        Timeframe::M1,
    );
    let kline = Kline {
        time: ms(0),
        open: p,
        high: p,
        low: p,
        close: p,
        volume: Volume::BuySell(Qty { units: 3 }, Qty { units: 4 }),
    };
    let file = LocalMarketCache::insert_klines(&key, CacheRead::Absent, &[kline], 5);
    assert_eq!(file.rows[0].volume, Volume::TotalOnly(Qty { units: 7 }));
    let mut store = MarketDataStore::new();
    store.insert_klines(&key, &[kline]);
    assert_eq!(store.kline_range(&key).unwrap().from, ms(0));
}

#[test]
fn statuses_say_whether_to_try_again() {
    assert!(CoverageStatus::Failed { error: "x".to_string(), retry_at: None }.is_retryable());
    assert!(CoverageStatus::Stale { reason: "x".to_string() }.is_retryable());
    assert!(!CoverageStatus::Complete.is_retryable());
    assert!(!CoverageStatus::Empty.is_retryable());
}

#[test]
fn the_current_session_may_have_started_yesterday() {
    // 2024-01-15T06:00:00Z
    let t = UtcTime::from_millis(1_705_298_400_000).unwrap();
    assert_eq!(t.hour, 6);
    assert_eq!(Session::Asian.current_session_start_ms(t), ms(1_705_276_800_000));
    assert_eq!(Session::London.current_session_start_ms(t), ms(1_705_276_800_000 - 16 * 3_600_000));
    let next = SessionResolver::current_or_next(Session::London);
    assert_eq!(next.duration_ms(), 8 * 3_600_000);
}

#[test]
fn the_user_interface_may_lag_behind() {
    let mut store = MarketStore::new();
    store.record_ws_event();
    assert!(store.last_ws_event_at() > 0);
    store.enqueue_event();
    let d = MarketDiagnostics::new(0);
    assert_eq!(
        d.log_ui_lag(&store, 20, 10).unwrap(),
        "MARKET UiLag | queued_events=1 store_latest=20 ui_latest=10"
    );
    assert_eq!(d.log_ui_lag(&store, 20, 20), None);
}

#[test]
fn a_job_lists_each_consumer_once() {
    let consumer = ConsumerId::global(ConsumerFeature::VolumeBubbles);
    let other = ConsumerId::global(ConsumerFeature::Footprint);
    let mut plan = DataLoadPlan::empty();
    plan.network_segments.push(NetworkSegment {
        key: trade_key(),
        range: r(100, 200),
        consumers: vec![consumer, other, consumer],
    });
    let jobs = plan_to_jobs(&plan);
    assert_eq!(jobs.len(), 1);
    assert_eq!(jobs[0].key, trade_key());
    assert_eq!(jobs[0].range, r(100, 200));
    assert!(jobs[0].status.is_pending());
    assert_eq!(jobs[0].consumers, vec![consumer, other]);
}

#[test]
fn needs_are_planned_once_more_wait_than_may() {
    let mut c = MarketDataCoordinator::with_limits(4, 2);
    c.require(need(r(0, 5_000)));
    c.require(need(r(0, 5_000)));
    assert!(c.has_pending_requirements());
    assert!(c.plan_ref().is_none());
    c.require(need(r(0, 5_000)));
    assert!(!c.has_pending_requirements());
    assert_eq!(c.plan_ref().unwrap().fetch_count(), 1);
}

#[test]
fn a_failed_job_can_be_retried_once_it_is_due() {
    let mut failed = job(1, r(0, 10));
    assert!(!failed.can_retry());
    failed.status = FetchJobStatus::Failed { error: "timeout".to_string(), retry_at: Some(1) };
    assert!(failed.can_retry());
    failed.status = FetchJobStatus::Failed { error: "timeout".to_string(), retry_at: None };
    assert!(!failed.can_retry());
    failed.status =
        FetchJobStatus::Failed { error: "timeout".to_string(), retry_at: Some(u64::MAX) };
    assert!(!failed.can_retry());
}

#[test]
fn the_parts_can_be_looked_at() {
    let mut c = MarketDataCoordinator::new();
    c.mark_complete(&trade_key(), r(0, 1_000), 1);
    c.feed_trades(&trade_key(), &[trade(5)]);
    assert!(c.coverage_ref().is_covered(&trade_key(), &r(0, 1_000)));
    assert_eq!(c.store_ref().trade_count(&trade_key()), 1);
    let rt = MarketDataRuntime::from_parts(c, 0);
    assert_eq!(rt.coordinator_ref().store_ref().trade_count(&trade_key()), 1);
    assert!(!rt.live_adapter_ref().has_live_data(&trade_key()));
}
