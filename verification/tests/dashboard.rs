//! Requests, jobs and workers as the dashboard sees them.

use flowsurface::connector::fetcher::FetchRange;
use flowsurface::ids::Uuid;
use flowsurface::market::PriceStep;
use flowsurface::market_data::consumer::{ConsumerSegmentStatus, PendingMarketDataConsumer};
use flowsurface::market_data::coordinator::MarketDataCoordinator;
use flowsurface::market_data::job::FetchJobId;
use flowsurface::market_data::key::{MarketDataKey, MarketKind, Symbol, Venue};
use flowsurface::market_data::range::{compute_missing, MarketDataRange};
use flowsurface::market_data::requirement::{ConsumerFeature, ConsumerId, DataRequirement, Priority};
use flowsurface::market_data::runtime::MarketDataRuntime;
use flowsurface::screen::dashboard::Dashboard;
use flowsurface::time::{Timeframe, UnixMs};

const NOW_MS: u64 = 1_720_000_000_000;

fn kline_key() -> MarketDataKey {
    MarketDataKey::klines(
        Venue::BinanceLinear,
        Symbol::new("BTCUSDT"),
        MarketKind::LinearPerps,
        Timeframe::M1,
    )
}

fn range(from: u64, to: u64) -> MarketDataRange {
    MarketDataRange::new(UnixMs::new(from), UnixMs::new(to)).unwrap()
}

fn test_dashboard() -> Dashboard {
    Dashboard::from_runtime(MarketDataRuntime::from_parts(MarketDataCoordinator::new(), 0))
}

fn create_active_job(
    dashboard: &mut Dashboard,
    pane_id: Uuid,
    job_range: MarketDataRange,
    key: MarketDataKey,
    feature: ConsumerFeature,
) -> FetchJobId {
    dashboard
        .market_data_runtime
        .coordinator
        .require(DataRequirement::new(
            ConsumerId::pane(pane_id, feature),
            key,
            job_range,
            Priority::High,
            "test",
        ));
    dashboard.market_data_runtime.coordinator.plan();
    let jobs = dashboard.market_data_runtime.coordinator.execute_plan();
    assert_eq!(jobs.len(), 1);
    dashboard.market_data_runtime.coordinator.start_job(jobs[0]);
    jobs[0]
}

fn add_kline_consumer(
    dashboard: &mut Dashboard,
    pane_id: Uuid,
    req_id: Uuid,
    consumer_range: MarketDataRange,
) {
    dashboard
        .market_data_runtime
        .push_pending_consumer(PendingMarketDataConsumer {
            pane_id,
            req_id,
            fetch: FetchRange::Kline(consumer_range.from, consumer_range.to),
            stream: None,
            key: kline_key(),
            range: consumer_range,
            feature: ConsumerFeature::ChartKlines,
            bubble_config: None,
            chart_generation: 0,
            has_partial_updates: false,
            completed: false,
            required_segments: Vec::new(),
            completed_segments: Vec::new(),
            failed_segments: Vec::new(),
            delivered_segments: Vec::new(),
        });
}

fn add_consumer(
    dashboard: &mut Dashboard,
    pane_id: Uuid,
    req_id: Uuid,
    consumer_range: MarketDataRange,
    key: MarketDataKey,
    feature: ConsumerFeature,
    fetch: FetchRange,
) {
    dashboard
        .market_data_runtime
        .push_pending_consumer(PendingMarketDataConsumer {
            pane_id,
            req_id,
            fetch,
            stream: None,
            key,
            range: consumer_range,
            feature,
            bubble_config: None,
            chart_generation: 0,
            has_partial_updates: false,
            completed: false,
            required_segments: Vec::new(),
            completed_segments: Vec::new(),
            failed_segments: Vec::new(),
            delivered_segments: Vec::new(),
        });
}

fn trade_key() -> MarketDataKey {
    MarketDataKey::trades(
        Venue::BinanceLinear,
        Symbol::new("BTCUSDT"),
        MarketKind::LinearPerps,
    )
}

#[test]
fn deduped_kline_consumer_attaches_to_existing_active_job() {
    let mut dashboard = test_dashboard();
    let pane_id = Uuid::new_v4();
    let job_range = range(100, 200);
    let key = trade_key();
    let job_id = create_active_job(
        &mut dashboard,
        pane_id,
        job_range,
        key.clone(),
        ConsumerFeature::Footprint,
    );
    let first_req = Uuid::new_v4();
    let second_req = Uuid::new_v4();
    add_consumer(
        &mut dashboard,
        pane_id,
        first_req,
        job_range,
        key.clone(),
        ConsumerFeature::Footprint,
        FetchRange::Trades(job_range.from, job_range.to),
    );
    add_consumer(
        &mut dashboard,
        pane_id,
        second_req,
        job_range,
        key,
        ConsumerFeature::Footprint,
        FetchRange::Trades(job_range.from, job_range.to),
    );
    dashboard
        .market_data_runtime
        .set_job_consumers(job_id, vec![first_req]);

    let attached = dashboard.market_data_runtime.attach_pending_consumers_to_active_jobs();

    assert_eq!(attached, 1);
    assert_eq!(
        dashboard.market_data_runtime.job_consumer_ids(job_id),
        vec![first_req, second_req]
    );
    // After add_segment_merged, the required_segments may be merged,
    // so check that the segment is fully covered
    let consumer = dashboard
        .market_data_runtime
        .pending_consumer_by_req(second_req)
        .unwrap();
    assert!(
        compute_missing(job_range, &consumer.required_segments)
            .is_empty()
    );
}

#[test]
fn two_identical_kline_chart_reqs_use_one_worker_and_two_consumers() {
    let mut dashboard = test_dashboard();
    let pane_id = Uuid::new_v4();
    let job_range = range(100, 200);
    let key = trade_key();
    let job_id = create_active_job(
        &mut dashboard,
        pane_id,
        job_range,
        key.clone(),
        ConsumerFeature::Footprint,
    );
    let worker_req = Uuid::new_v4();
    let first_req = Uuid::new_v4();
    let second_req = Uuid::new_v4();
    add_consumer(
        &mut dashboard,
        pane_id,
        first_req,
        job_range,
        key.clone(),
        ConsumerFeature::Footprint,
        FetchRange::Trades(job_range.from, job_range.to),
    );
    add_consumer(
        &mut dashboard,
        pane_id,
        second_req,
        job_range,
        key,
        ConsumerFeature::Footprint,
        FetchRange::Trades(job_range.from, job_range.to),
    );
    dashboard
        .market_data_runtime
        .set_worker_job_mapping(worker_req, job_id);
    dashboard
        .market_data_runtime
        .set_job_consumers(job_id, vec![first_req]);

    dashboard.market_data_runtime.attach_pending_consumers_to_active_jobs();

    assert_eq!(dashboard.market_data_runtime.worker_mapping_count(), 1);
    assert_eq!(
        dashboard.market_data_runtime.job_consumer_ids(job_id).len(),
        2
    );
}

#[test]
fn kline_worker_completion_removes_job_and_pending_consumers() {
    let mut dashboard = test_dashboard();
    let pane_id = Uuid::new_v4();
    let job_range = range(100, 200);
    let key = trade_key();
    let job_id = create_active_job(
        &mut dashboard,
        pane_id,
        job_range,
        key.clone(),
        ConsumerFeature::Footprint,
    );
    let worker_req = Uuid::new_v4();
    let first_req = Uuid::new_v4();
    let second_req = Uuid::new_v4();
    add_consumer(
        &mut dashboard,
        pane_id,
        first_req,
        job_range,
        key.clone(),
        ConsumerFeature::Footprint,
        FetchRange::Trades(job_range.from, job_range.to),
    );
    add_consumer(
        &mut dashboard,
        pane_id,
        second_req,
        job_range,
        key,
        ConsumerFeature::Footprint,
        FetchRange::Trades(job_range.from, job_range.to),
    );
    dashboard
        .market_data_runtime
        .set_worker_job_mapping(worker_req, job_id);
    dashboard
        .market_data_runtime
        .set_job_consumers(job_id, vec![first_req, second_req]);
    dashboard.market_data_runtime.add_required_segment_to_consumer(first_req, job_range);
    dashboard.market_data_runtime.add_required_segment_to_consumer(second_req, job_range);
    dashboard
        .market_data_runtime
        .coordinator
        .job_mut(job_id)
        .unwrap()
        .progress
        .records_fetched = 2;

    assert!(dashboard
        .market_data_runtime
        .finish_worker_job_effects(worker_req, None)
        .is_some());

    assert!(
        dashboard
            .market_data_runtime
            .coordinator
            .job(job_id)
            .is_none()
    );
    assert!(dashboard.market_data_runtime.worker_maps_empty());
    assert!(dashboard.market_data_runtime.pending_consumers_empty());
}

#[test]
fn priority_kline_request_attached_to_active_job_completes_with_job() {
    let mut dashboard = test_dashboard();
    let pane_id = Uuid::new_v4();
    let job_range = range(100, 300);
    let key = trade_key();
    let job_id = create_active_job(
        &mut dashboard,
        pane_id,
        job_range,
        key.clone(),
        ConsumerFeature::Footprint,
    );
    let worker_req = Uuid::new_v4();
    let priority_req = Uuid::new_v4();
    add_consumer(
        &mut dashboard,
        pane_id,
        priority_req,
        range(150, 250),
        key,
        ConsumerFeature::Footprint,
        FetchRange::Trades(UnixMs::new(150), UnixMs::new(250)),
    );
    dashboard
        .market_data_runtime
        .set_worker_job_mapping(worker_req, job_id);

    dashboard.market_data_runtime.attach_pending_consumers_to_active_jobs();
    dashboard
        .market_data_runtime
        .coordinator
        .job_mut(job_id)
        .unwrap()
        .progress
        .records_fetched = 1;
    dashboard.market_data_runtime.finish_worker_job_effects(worker_req, None);

    assert!(dashboard.market_data_runtime.pending_consumers_empty());
    assert_eq!(
        dashboard.market_data_runtime.coordinator.active_job_count(),
        0
    );
}

#[test]
fn kline_progress_active_count_returns_to_zero_after_completion() {
    let mut dashboard = test_dashboard();
    let pane_id = Uuid::new_v4();
    let job_range = range(100, 200);
    let key = trade_key();
    let job_id = create_active_job(
        &mut dashboard,
        pane_id,
        job_range,
        key.clone(),
        ConsumerFeature::Footprint,
    );
    let worker_req = Uuid::new_v4();
    let req_id = Uuid::new_v4();
    add_consumer(
        &mut dashboard,
        pane_id,
        req_id,
        job_range,
        key,
        ConsumerFeature::Footprint,
        FetchRange::Trades(job_range.from, job_range.to),
    );
    dashboard
        .market_data_runtime
        .set_worker_job_mapping(worker_req, job_id);
    dashboard
        .market_data_runtime
        .set_job_consumers(job_id, vec![req_id]);
    dashboard.market_data_runtime.add_required_segment_to_consumer(req_id, job_range);
    dashboard
        .market_data_runtime
        .coordinator
        .job_mut(job_id)
        .unwrap()
        .progress
        .records_fetched = 1;

    assert_eq!(
        dashboard
            .market_data_runtime
            .coordinator
            .progress_snapshot()
            .active_job_count(),
        1
    );
    dashboard.market_data_runtime.finish_worker_job_effects(worker_req, None);

    assert_eq!(
        dashboard
            .market_data_runtime
            .coordinator
            .progress_snapshot()
            .active_job_count(),
        0
    );
}

#[test]
fn kline_split_cache_segment_does_not_satisfy_full_request() {
    let mut dashboard = test_dashboard();
    let pane_id = Uuid::new_v4();
    let req_id = Uuid::new_v4();
    let cached = range(100, 200);
    let network = range(200, 300);
    add_kline_consumer(&mut dashboard, pane_id, req_id, range(100, 300));
    dashboard.market_data_runtime.add_required_segment_to_consumer(req_id, cached);
    dashboard.market_data_runtime.add_required_segment_to_consumer(req_id, network);

    assert_eq!(
        dashboard.market_data_runtime.mark_consumer_segment_complete(req_id, cached),
        Some(ConsumerSegmentStatus {
            completed_logical: 1,
            total_logical: 2,
            missing: vec![range(200, 300)],
            coverage_complete: false,
        })
    );

    assert!(!dashboard.market_data_runtime.consumer_is_fully_satisfied(req_id));
    assert_eq!(
        dashboard.market_data_runtime.consumer_remaining_segments(req_id),
        vec![network.format_display()]
    );
}

#[test]
fn kline_split_request_completes_after_cache_and_network_segments() {
    let mut dashboard = test_dashboard();
    let pane_id = Uuid::new_v4();
    let req_id = Uuid::new_v4();
    let cached = range(100, 200);
    let network = range(200, 300);
    add_kline_consumer(&mut dashboard, pane_id, req_id, range(100, 300));
    dashboard.market_data_runtime.add_required_segment_to_consumer(req_id, cached);
    dashboard.market_data_runtime.add_required_segment_to_consumer(req_id, network);

    dashboard.market_data_runtime.mark_consumer_segment_complete(req_id, cached);
    assert_eq!(
        dashboard.market_data_runtime.mark_consumer_segment_complete(req_id, network),
        Some(ConsumerSegmentStatus {
            completed_logical: 2,
            total_logical: 2,
            missing: vec![],
            coverage_complete: true,
        })
    );

    assert!(dashboard.market_data_runtime.consumer_is_fully_satisfied(req_id));
}

#[test]
fn footprint_split_cache_segment_does_not_satisfy_full_request() {
    let mut dashboard = test_dashboard();
    let pane_id = Uuid::new_v4();
    let req_id = Uuid::new_v4();
    let cached = range(100, 200);
    let network = range(200, 300);
    add_consumer(
        &mut dashboard,
        pane_id,
        req_id,
        range(100, 300),
        trade_key(),
        ConsumerFeature::Footprint,
        FetchRange::Trades(UnixMs::new(100), UnixMs::new(300)),
    );
    dashboard.market_data_runtime.add_required_segment_to_consumer(req_id, cached);
    dashboard.market_data_runtime.add_required_segment_to_consumer(req_id, network);

    dashboard.market_data_runtime.mark_consumer_segment_complete(req_id, cached);

    // With tiny gap suppression, a 100ms gap (200..300) is below
    // MIN_TRADE_BACKFILL_SEGMENT_MS so the Footprint consumer is
    // considered satisfied.
    assert!(dashboard.market_data_runtime.consumer_is_fully_satisfied(req_id));
}

#[test]
fn footprint_split_request_completes_after_network_tail() {
    let mut dashboard = test_dashboard();
    let pane_id = Uuid::new_v4();
    let req_id = Uuid::new_v4();
    let cached = range(100, 200);
    let network = range(200, 300);
    add_consumer(
        &mut dashboard,
        pane_id,
        req_id,
        range(100, 300),
        trade_key(),
        ConsumerFeature::Footprint,
        FetchRange::Trades(UnixMs::new(100), UnixMs::new(300)),
    );
    dashboard.market_data_runtime.add_required_segment_to_consumer(req_id, cached);
    dashboard.market_data_runtime.add_required_segment_to_consumer(req_id, network);

    dashboard.market_data_runtime.mark_consumer_segment_complete(req_id, cached);
    dashboard.market_data_runtime.mark_consumer_segment_complete(req_id, network);

    assert!(dashboard.market_data_runtime.consumer_is_fully_satisfied(req_id));
}

#[test]
fn bubble_split_request_waits_for_all_raw_trade_segments() {
    let mut dashboard = test_dashboard();
    let pane_id = Uuid::new_v4();
    let req_id = Uuid::new_v4();
    let cached = range(100, 200);
    let network = range(200, 300);
    add_consumer(
        &mut dashboard,
        pane_id,
        req_id,
        range(100, 300),
        trade_key(),
        ConsumerFeature::VolumeBubbles,
        FetchRange::BubbleSummary {
            from: UnixMs::new(100),
            to: UnixMs::new(300),
            timeframe_ms: 60_000,
            price_step: PriceStep { units: 1_000_000 },
            max_candidates_per_candle: 10,
        },
    );
    dashboard.market_data_runtime.add_required_segment_to_consumer(req_id, cached);
    dashboard.market_data_runtime.add_required_segment_to_consumer(req_id, network);

    dashboard.market_data_runtime.mark_consumer_segment_complete(req_id, cached);
    assert!(!dashboard.market_data_runtime.consumer_is_fully_satisfied(req_id));
    dashboard.market_data_runtime.mark_consumer_segment_complete(req_id, network);
    assert!(dashboard.market_data_runtime.consumer_is_fully_satisfied(req_id));
}

#[test]
fn cached_segment_is_not_delivered_twice_to_same_consumer() {
    let mut dashboard = test_dashboard();
    let pane_id = Uuid::new_v4();
    let req_id = Uuid::new_v4();
    let segment = range(100, 200);
    add_kline_consumer(&mut dashboard, pane_id, req_id, segment);

    assert!(dashboard.market_data_runtime.mark_consumer_segment_delivered(req_id, segment));
    assert!(!dashboard.market_data_runtime.mark_consumer_segment_delivered(req_id, segment));
}

#[test]
fn completed_chart_request_is_not_attached_to_active_job() {
    let mut dashboard = test_dashboard();
    let pane_id = Uuid::new_v4();
    let job_range = range(100, 200);
    let key = trade_key();
    let job_id = create_active_job(
        &mut dashboard,
        pane_id,
        job_range,
        key.clone(),
        ConsumerFeature::Footprint,
    );
    let req_id = Uuid::new_v4();
    add_consumer(
        &mut dashboard,
        pane_id,
        req_id,
        job_range,
        key,
        ConsumerFeature::Footprint,
        FetchRange::Trades(job_range.from, job_range.to),
    );
    dashboard
        .market_data_runtime
        .mark_consumer_completed(req_id);

    let attached = dashboard.market_data_runtime.attach_pending_consumers_to_active_jobs();

    assert_eq!(attached, 0);
    assert!(
        !dashboard
            .market_data_runtime
            .job_consumer_ids(job_id)
            .contains(&req_id)
    );
}

#[test]
fn stale_worker_without_progress_is_failed_and_removed() {
    let mut dashboard = test_dashboard();
    let pane_id = Uuid::new_v4();
    let job_range = range(100, 200);
    let key = trade_key();
    let job_id = create_active_job(
        &mut dashboard,
        pane_id,
        job_range,
        key.clone(),
        ConsumerFeature::Footprint,
    );
    let worker_req = Uuid::new_v4();
    let req_id = Uuid::new_v4();
    add_consumer(
        &mut dashboard,
        pane_id,
        req_id,
        job_range,
        key,
        ConsumerFeature::Footprint,
        FetchRange::Trades(job_range.from, job_range.to),
    );
    dashboard.market_data_runtime.add_required_segment_to_consumer(req_id, job_range);
    dashboard
        .market_data_runtime
        .set_worker_job_mapping(worker_req, job_id);
    dashboard
        .market_data_runtime
        .set_job_consumers(job_id, vec![req_id]);
    dashboard
        .market_data_runtime
        .coordinator
        .job_mut(job_id)
        .unwrap()
        .created_at = 0;

    dashboard.fail_stale_market_jobs(NOW_MS);

    assert!(
        dashboard
            .market_data_runtime
            .coordinator
            .job(job_id)
            .is_none()
    );
    assert!(dashboard.market_data_runtime.worker_maps_empty());
    assert_eq!(
        dashboard.market_data_runtime.coordinator.active_job_count(),
        0
    );
}

#[test]
fn progress_snapshot_includes_cached_records_after_cache_serve_counter() {
    let mut dashboard = test_dashboard();
    dashboard
        .market_data_runtime
        .coordinator
        .record_cache_served(448);

    let snapshot = dashboard
        .market_data_runtime
        .coordinator
        .progress_snapshot();

    assert_eq!(snapshot.total_cached_records, 448);
}

#[test]
fn progress_snapshot_active_becomes_zero_after_job_terminal() {
    let mut dashboard = test_dashboard();
    let pane_id = Uuid::new_v4();
    let job_range = range(100, 200);
    let job_id = create_active_job(
        &mut dashboard,
        pane_id,
        job_range,
        trade_key(),
        ConsumerFeature::Footprint,
    );

    assert_eq!(
        dashboard
            .market_data_runtime
            .coordinator
            .progress_snapshot()
            .active_job_count(),
        1
    );
    dashboard
        .market_data_runtime
        .coordinator
        .complete_and_remove_job(job_id, 1);

    assert_eq!(
        dashboard
            .market_data_runtime
            .coordinator
            .progress_snapshot()
            .active_job_count(),
        0
    );
}

// --- New tests for logical segment accounting fix ---

#[test]
fn active_job_split_bubble_accounting() {
    // Test 1 — active job split bubble accounting
    // Bubble consumer range: 100 -> 300
    // Concrete job segments: 100 -> 200, 200 -> 300
    let mut dashboard = test_dashboard();
    let pane_id = Uuid::new_v4();
    let req_id = Uuid::new_v4();
    let segment_a = range(100, 200);
    let segment_b = range(200, 300);
    add_consumer(
        &mut dashboard,
        pane_id,
        req_id,
        range(100, 300),
        trade_key(),
        ConsumerFeature::VolumeBubbles,
        FetchRange::BubbleSummary {
            from: UnixMs::new(100),
            to: UnixMs::new(300),
            timeframe_ms: 60_000,
            price_step: PriceStep { units: 1_000_000 },
            max_candidates_per_candle: 10,
        },
    );
    dashboard.market_data_runtime.add_required_segment_to_consumer(req_id, segment_a);
    dashboard.market_data_runtime.add_required_segment_to_consumer(req_id, segment_b);

    // After completing segment_a: 1/2, missing=[200..300], not complete
    let status_a = dashboard.market_data_runtime.mark_consumer_segment_complete(req_id, segment_a)
        .unwrap();
    assert_eq!(status_a.completed_logical, 1);
    assert_eq!(status_a.total_logical, 2);
    assert_eq!(status_a.missing, vec![segment_b]);
    assert!(!status_a.coverage_complete);
    assert!(!dashboard.market_data_runtime.consumer_is_fully_satisfied(req_id));

    // After completing segment_b: 2/2, missing=[], coverage complete
    let status_b = dashboard.market_data_runtime.mark_consumer_segment_complete(req_id, segment_b)
        .unwrap();
    assert_eq!(status_b.completed_logical, 2);
    assert_eq!(status_b.total_logical, 2);
    assert!(status_b.missing.is_empty());
    assert!(status_b.coverage_complete);
    assert!(dashboard.market_data_runtime.consumer_is_fully_satisfied(req_id));
}

#[test]
fn broad_pre_execute_network_segment_does_not_inflate_logical_accounting() {
    // Test 2 — broad pre-execute network segment must not inflate/merge logical accounting
    // After the fix, register_required_segments_from_plan() no longer registers
    // broad network segments. The concrete job ranges are registered later.
    // This test verifies that add_required_segment_dedup correctly handles
    // the case where sub-segments are added (they should be skipped if already covered).
    let mut dashboard = test_dashboard();
    let pane_id = Uuid::new_v4();
    let req_id = Uuid::new_v4();
    add_kline_consumer(&mut dashboard, pane_id, req_id, range(100, 300));

    // Register the broad range first
    dashboard.market_data_runtime.add_required_segment_to_consumer(req_id, range(100, 300));
    // Sub-segments should be skipped because they're already covered
    dashboard.market_data_runtime.add_required_segment_to_consumer(req_id, range(100, 200));
    dashboard.market_data_runtime.add_required_segment_to_consumer(req_id, range(200, 300));

    // Should have 1 logical segment (the broad one), sub-segments skipped
    let consumer = dashboard
        .market_data_runtime
        .pending_consumer_by_req(req_id)
        .unwrap();
    assert_eq!(consumer.required_segments.len(), 1);

    // Complete the broad segment - should show 1/1
    let status = dashboard.market_data_runtime.mark_consumer_segment_complete(req_id, range(100, 300))
        .unwrap();
    assert_eq!(status.completed_logical, 1);
    assert_eq!(status.total_logical, 1);
    assert!(status.coverage_complete);
}

#[test]
fn split_segments_add_dedup_correctly() {
    // Verify that adding split segments (not sub-segments) works correctly
    let mut dashboard = test_dashboard();
    let pane_id = Uuid::new_v4();
    let req_id = Uuid::new_v4();
    add_kline_consumer(&mut dashboard, pane_id, req_id, range(100, 300));

    // Register split segments directly (the normal runtime path)
    dashboard.market_data_runtime.add_required_segment_to_consumer(req_id, range(100, 200));
    dashboard.market_data_runtime.add_required_segment_to_consumer(req_id, range(200, 300));

    let consumer = dashboard
        .market_data_runtime
        .pending_consumer_by_req(req_id)
        .unwrap();
    assert_eq!(consumer.required_segments.len(), 2);

    // Complete first segment
    let status = dashboard.market_data_runtime.mark_consumer_segment_complete(req_id, range(100, 200))
        .unwrap();
    assert_eq!(status.completed_logical, 1);
    assert_eq!(status.total_logical, 2);
    assert!(!status.coverage_complete);
}

#[test]
fn bubble_waiting_uses_exact_missing_range() {
    // Test 3 — BubbleWaiting uses exact missing range
    let mut dashboard = test_dashboard();
    let pane_id = Uuid::new_v4();
    let req_id = Uuid::new_v4();
    let segment_a = range(100, 200);
    let segment_b = range(200, 300);
    add_consumer(
        &mut dashboard,
        pane_id,
        req_id,
        range(100, 300),
        trade_key(),
        ConsumerFeature::VolumeBubbles,
        FetchRange::BubbleSummary {
            from: UnixMs::new(100),
            to: UnixMs::new(300),
            timeframe_ms: 60_000,
            price_step: PriceStep { units: 1_000_000 },
            max_candidates_per_candle: 10,
        },
    );
    dashboard.market_data_runtime.add_required_segment_to_consumer(req_id, segment_a);
    dashboard.market_data_runtime.add_required_segment_to_consumer(req_id, segment_b);

    dashboard.market_data_runtime.mark_consumer_segment_complete(req_id, segment_a);

    // consumer_remaining_segments should return [200 -> 300], not [100 -> 300]
    let remaining = dashboard.market_data_runtime.consumer_remaining_segments(req_id);
    assert_eq!(remaining, vec![segment_b.format_display()]);
}

#[test]
fn kline_split_cache_network_existing_behavior_unchanged() {
    // Test 4 — Kline/Footprint existing split behavior still passes
    let mut dashboard = test_dashboard();
    let pane_id = Uuid::new_v4();
    let req_id = Uuid::new_v4();
    let cached = range(100, 200);
    let network = range(200, 300);

    // Kline cache + network split
    add_kline_consumer(&mut dashboard, pane_id, req_id, range(100, 300));
    dashboard.market_data_runtime.add_required_segment_to_consumer(req_id, cached);
    dashboard.market_data_runtime.add_required_segment_to_consumer(req_id, network);

    assert!(!dashboard.market_data_runtime.consumer_is_fully_satisfied(req_id));
    dashboard.market_data_runtime.mark_consumer_segment_complete(req_id, cached);
    assert!(!dashboard.market_data_runtime.consumer_is_fully_satisfied(req_id));
    dashboard.market_data_runtime.mark_consumer_segment_complete(req_id, network);
    assert!(dashboard.market_data_runtime.consumer_is_fully_satisfied(req_id));
}

#[test]
fn required_segments_count_never_zero_on_active_consumer() {
    // Ensure total_logical is never 0 when there are concrete segments registered
    let mut dashboard = test_dashboard();
    let pane_id = Uuid::new_v4();
    let req_id = Uuid::new_v4();
    add_kline_consumer(&mut dashboard, pane_id, req_id, range(100, 300));
    dashboard.market_data_runtime.add_required_segment_to_consumer(req_id, range(100, 200));
    dashboard.market_data_runtime.add_required_segment_to_consumer(req_id, range(200, 300));

    let status = dashboard.market_data_runtime.mark_consumer_segment_complete(req_id, range(100, 200))
        .unwrap();
    assert!(status.total_logical > 0);
    assert_eq!(status.completed_logical, 1);
}

#[test]
fn tiny_trade_gap_suppressed_on_consumer_completion() {
    // Create a TradeHydration consumer with range 100..3000.
    // Add required segments 100..1000 and 1000..3000.
    // Complete 100..1000 from cache. Complete 1000..2999 from network.
    // Verify that the 1ms gap (2999..3000) is suppressed and consumer is fully satisfied.
    let mut dashboard = test_dashboard();
    let pane_id = Uuid::new_v4();
    let req_id = Uuid::new_v4();
    add_consumer(
        &mut dashboard,
        pane_id,
        req_id,
        range(100, 3000),
        trade_key(),
        ConsumerFeature::TradeHydration,
        FetchRange::TradeHydration(UnixMs::new(100), UnixMs::new(3000)),
    );
    dashboard.market_data_runtime.add_required_segment_to_consumer(req_id, range(100, 1000));
    dashboard.market_data_runtime.add_required_segment_to_consumer(req_id, range(1000, 3000));

    // Complete first segment (cache)
    let status = dashboard.market_data_runtime.mark_consumer_segment_complete(req_id, range(100, 1000))
        .unwrap();
    assert!(!status.coverage_complete);
    assert!(!dashboard.market_data_runtime.consumer_is_fully_satisfied(req_id));

    // Complete second segment minus 1ms (network)
    let status = dashboard.market_data_runtime.mark_consumer_segment_complete(req_id, range(1000, 2999))
        .unwrap();
    // The tiny 1ms gap (2999..3000) should be suppressed
    assert!(status.missing.is_empty());
    assert!(status.coverage_complete);
    assert!(dashboard.market_data_runtime.consumer_is_fully_satisfied(req_id));

    // consumer_remaining_segments should return empty
    let remaining = dashboard.market_data_runtime.consumer_remaining_segments(req_id);
    assert!(remaining.is_empty());
}

#[test]
fn tiny_cached_segment_does_not_block_consumer() {
    // Create a TradeHydration consumer with range 100..200.
    // Add required segment 100..101 (tiny, 1ms).
    // Verify consumer is satisfied (the tiny segment is ignored).
    let mut dashboard = test_dashboard();
    let pane_id = Uuid::new_v4();
    let req_id = Uuid::new_v4();
    add_consumer(
        &mut dashboard,
        pane_id,
        req_id,
        range(100, 200),
        trade_key(),
        ConsumerFeature::TradeHydration,
        FetchRange::TradeHydration(UnixMs::new(100), UnixMs::new(200)),
    );
    // Register a tiny required segment (simulating a tiny cached segment from the plan)
    dashboard.market_data_runtime.add_required_segment_to_consumer(req_id, range(100, 101));

    // Consumer should be satisfied because the tiny segment is suppressed
    assert!(dashboard.market_data_runtime.consumer_is_fully_satisfied(req_id));

    // remaining segments should be empty
    let remaining = dashboard.market_data_runtime.consumer_remaining_segments(req_id);
    assert!(remaining.is_empty());
}

#[test]
fn completed_total_never_contradicts_missing() {
    // Create a consumer, complete one segment,
    // verify that if missing is non-empty, completed < total.
    let mut dashboard = test_dashboard();
    let pane_id = Uuid::new_v4();
    let req_id = Uuid::new_v4();
    add_kline_consumer(&mut dashboard, pane_id, req_id, range(100, 300));
    dashboard.market_data_runtime.add_required_segment_to_consumer(req_id, range(100, 200));
    dashboard.market_data_runtime.add_required_segment_to_consumer(req_id, range(200, 300));

    let status = dashboard.market_data_runtime.mark_consumer_segment_complete(req_id, range(100, 200))
        .unwrap();

    // missing is non-empty (200..300 still needed)
    assert!(!status.missing.is_empty());
    // completed_logical < total_logical
    assert!(
        status.completed_logical < status.total_logical,
        "completed_logical ({}) should be < total_logical ({}) when missing is non-empty",
        status.completed_logical,
        status.total_logical
    );
}
