//! The coordinator: needs, plans and jobs.

use flowsurface::connector::fetcher::FetchRange;
use flowsurface::ids::Uuid;
use flowsurface::market::{Exchange, Price, PriceStep, Qty, Ticker, TickerInfo, Trade};
use flowsurface::market_data::bridge;
use flowsurface::market_data::coordinator::MarketDataCoordinator;
use flowsurface::market_data::job::FetchJobStatus;
use flowsurface::market_data::key::{MarketDataKey, MarketDataKind, MarketKind, Symbol, Venue};
use flowsurface::market_data::range::MarketDataRange;
use flowsurface::market_data::requirement::{ConsumerFeature, ConsumerId, DataRequirement, Priority};
use flowsurface::time::{Timeframe, UnixMs};

const SCALE: f64 = 100_000_000.0;

fn price_of(v: f64) -> Price {
    Price { units: (v * SCALE).round() as i64 }
}

fn qty_of(v: f64) -> Qty {
    Qty { units: (v * SCALE).round() as i64 }
}

fn make_trade_key() -> MarketDataKey {
    MarketDataKey::trades(
        Venue::BinanceLinear,
        Symbol::new("BTCUSDT"),
        MarketKind::LinearPerps,
    )
}

#[test]
fn test_coordinator_new() {
    let coord = MarketDataCoordinator::new();
    assert_eq!(coord.active_job_count(), 0);
    assert!(!coord.has_pending_requirements());
}

#[test]
fn test_require_and_plan() {
    let mut coord = MarketDataCoordinator::new();
    let key = make_trade_key();
    let range = MarketDataRange::new(UnixMs::new(100), UnixMs::new(200)).unwrap();
    let consumer = ConsumerId::global(ConsumerFeature::VolumeBubbles);

    coord.require(DataRequirement::new(
        consumer,
        key,
        range,
        Priority::Normal,
        "test",
    ));
    assert!(coord.has_pending_requirements());

    let plan = coord.plan();
    assert!(plan.needs_network_fetch());
    assert!(!coord.has_pending_requirements());
}

#[test]
fn test_execute_plan_creates_jobs() {
    let mut coord = MarketDataCoordinator::new();
    let key = make_trade_key();
    let range = MarketDataRange::new(UnixMs::new(100), UnixMs::new(200)).unwrap();
    let consumer = ConsumerId::global(ConsumerFeature::VolumeBubbles);

    coord.require(DataRequirement::new(
        consumer,
        key,
        range,
        Priority::Normal,
        "test",
    ));
    coord.plan();

    let jobs = coord.execute_plan();
    assert_eq!(jobs.len(), 1);
    assert_eq!(coord.active_job_count(), 1); // Pending jobs are active work.
}

#[test]
fn coordinator_test_job_lifecycle() {
    let mut coord = MarketDataCoordinator::new();
    let key = make_trade_key();
    let range = MarketDataRange::new(UnixMs::new(100), UnixMs::new(200)).unwrap();
    let consumer = ConsumerId::global(ConsumerFeature::VolumeBubbles);

    coord.require(DataRequirement::new(
        consumer,
        key.clone(),
        range,
        Priority::Normal,
        "test",
    ));
    coord.plan();
    let jobs = coord.execute_plan();
    let job_id = jobs[0];

    // Start
    coord.start_job(job_id);
    assert_eq!(coord.active_job_count(), 1);

    // Complete
    coord.complete_job(job_id, 500);
    assert_eq!(coord.active_job_count(), 0);

    // Coverage should be updated
    assert!(coord.coverage.is_covered(
        &key,
        &MarketDataRange::new(UnixMs::new(100), UnixMs::new(200)).unwrap()
    ));
}

#[test]
fn test_dedup_active_jobs() {
    let mut coord = MarketDataCoordinator::new();
    let key = make_trade_key();
    let range = MarketDataRange::new(UnixMs::new(100), UnixMs::new(200)).unwrap();

    // Submit two overlapping requirements
    coord.require(DataRequirement::new(
        ConsumerId::global(ConsumerFeature::VolumeBubbles),
        key.clone(),
        range,
        Priority::Normal,
        "bubbles",
    ));
    coord.require(DataRequirement::new(
        ConsumerId::global(ConsumerFeature::SessionVolumeProfile),
        key,
        range,
        Priority::Normal,
        "svp",
    ));

    coord.plan();
    let jobs = coord.execute_plan();

    // Should only create one job (deduplication)
    assert_eq!(jobs.len(), 1);
}

#[test]
fn test_duplicate_fetch_guard_overlapping_ranges() {
    let mut coord = MarketDataCoordinator::new();
    let key = make_trade_key();

    // First requirement: 100 → 200
    let range1 = MarketDataRange::new(UnixMs::new(100), UnixMs::new(200)).unwrap();
    coord.require(DataRequirement::new(
        ConsumerId::global(ConsumerFeature::VolumeBubbles),
        key.clone(),
        range1,
        Priority::Normal,
        "bubbles",
    ));
    coord.plan();
    let jobs = coord.execute_plan();
    assert_eq!(jobs.len(), 1);
    coord.start_job(jobs[0]);

    // Second requirement: partially overlapping 150 → 300
    let range2 = MarketDataRange::new(UnixMs::new(150), UnixMs::new(300)).unwrap();
    coord.require(DataRequirement::new(
        ConsumerId::global(ConsumerFeature::SessionVolumeProfile),
        key.clone(),
        range2,
        Priority::Normal,
        "svp",
    ));
    coord.plan();
    let new_jobs = coord.execute_plan();

    assert_eq!(new_jobs.len(), 1);
    let job = coord.job(new_jobs[0]).unwrap();
    assert_eq!(job.range.from.as_u64(), 200);
    assert_eq!(job.range.to.as_u64(), 300);
}

#[test]
fn test_active_full_overlap_dedupes_fully() {
    let mut coord = MarketDataCoordinator::new();
    let key = make_trade_key();
    let active = MarketDataRange::new(UnixMs::new(100), UnixMs::new(300)).unwrap();
    coord.require(DataRequirement::new(
        ConsumerId::global(ConsumerFeature::VolumeBubbles),
        key.clone(),
        active,
        Priority::Normal,
        "active",
    ));
    coord.plan();
    let jobs = coord.execute_plan();
    coord.start_job(jobs[0]);

    let requested = MarketDataRange::new(UnixMs::new(150), UnixMs::new(250)).unwrap();
    assert!(coord.subtract_active_jobs(&key, requested).is_empty());
}

#[test]
fn test_active_left_overlap_creates_right_remainder() {
    let mut coord = MarketDataCoordinator::new();
    let key = make_trade_key();
    let active = MarketDataRange::new(UnixMs::new(100), UnixMs::new(200)).unwrap();
    coord.require(DataRequirement::new(
        ConsumerId::global(ConsumerFeature::VolumeBubbles),
        key.clone(),
        active,
        Priority::Normal,
        "active",
    ));
    coord.plan();
    let jobs = coord.execute_plan();
    coord.start_job(jobs[0]);

    let requested = MarketDataRange::new(UnixMs::new(150), UnixMs::new(300)).unwrap();
    let missing = coord.subtract_active_jobs(&key, requested);
    assert_eq!(
        missing,
        vec![MarketDataRange::new(UnixMs::new(200), UnixMs::new(300)).unwrap()]
    );
}

#[test]
fn test_active_right_overlap_creates_left_remainder() {
    let mut coord = MarketDataCoordinator::new();
    let key = make_trade_key();
    let active = MarketDataRange::new(UnixMs::new(200), UnixMs::new(300)).unwrap();
    coord.require(DataRequirement::new(
        ConsumerId::global(ConsumerFeature::VolumeBubbles),
        key.clone(),
        active,
        Priority::Normal,
        "active",
    ));
    coord.plan();
    let jobs = coord.execute_plan();
    coord.start_job(jobs[0]);

    let requested = MarketDataRange::new(UnixMs::new(100), UnixMs::new(250)).unwrap();
    let missing = coord.subtract_active_jobs(&key, requested);
    assert_eq!(
        missing,
        vec![MarketDataRange::new(UnixMs::new(100), UnixMs::new(200)).unwrap()]
    );
}

#[test]
fn test_active_middle_overlap_splits_remainders() {
    let mut coord = MarketDataCoordinator::new();
    let key = make_trade_key();
    let active = MarketDataRange::new(UnixMs::new(150), UnixMs::new(200)).unwrap();
    coord.require(DataRequirement::new(
        ConsumerId::global(ConsumerFeature::VolumeBubbles),
        key.clone(),
        active,
        Priority::Normal,
        "active",
    ));
    coord.plan();
    let jobs = coord.execute_plan();
    coord.start_job(jobs[0]);

    let requested = MarketDataRange::new(UnixMs::new(100), UnixMs::new(300)).unwrap();
    let missing = coord.subtract_active_jobs(&key, requested);
    assert_eq!(
        missing,
        vec![
            MarketDataRange::new(UnixMs::new(100), UnixMs::new(150)).unwrap(),
            MarketDataRange::new(UnixMs::new(200), UnixMs::new(300)).unwrap(),
        ]
    );
}

#[test]
fn test_multiple_active_ranges_subtract_correctly() {
    let mut coord = MarketDataCoordinator::new();
    let key = make_trade_key();
    for (from, to) in [(120, 150), (200, 240)] {
        coord.require(DataRequirement::new(
            ConsumerId::global(ConsumerFeature::VolumeBubbles),
            key.clone(),
            MarketDataRange::new(UnixMs::new(from), UnixMs::new(to)).unwrap(),
            Priority::Normal,
            "active",
        ));
        coord.plan();
        let jobs = coord.execute_plan();
        coord.start_job(*jobs.last().unwrap());
    }

    let requested = MarketDataRange::new(UnixMs::new(100), UnixMs::new(300)).unwrap();
    let missing = coord.subtract_active_jobs(&key, requested);
    assert_eq!(
        missing,
        vec![
            MarketDataRange::new(UnixMs::new(100), UnixMs::new(120)).unwrap(),
            MarketDataRange::new(UnixMs::new(150), UnixMs::new(200)).unwrap(),
            MarketDataRange::new(UnixMs::new(240), UnixMs::new(300)).unwrap(),
        ]
    );
}

#[test]
fn test_adjacent_active_ranges_subtract_without_artificial_gap() {
    let mut coord = MarketDataCoordinator::new();
    let key = make_trade_key();
    for (from, to) in [(100, 150), (150, 200)] {
        coord.require(DataRequirement::new(
            ConsumerId::global(ConsumerFeature::VolumeBubbles),
            key.clone(),
            MarketDataRange::new(UnixMs::new(from), UnixMs::new(to)).unwrap(),
            Priority::Normal,
            "active",
        ));
        coord.plan();
        let jobs = coord.execute_plan();
        coord.start_job(*jobs.last().unwrap());
    }

    let requested = MarketDataRange::new(UnixMs::new(100), UnixMs::new(250)).unwrap();
    let missing = coord.subtract_active_jobs(&key, requested);
    assert_eq!(
        missing,
        vec![MarketDataRange::new(UnixMs::new(200), UnixMs::new(250)).unwrap()]
    );
}

#[test]
fn test_tiny_trade_gap_is_suppressed_without_active_job() {
    let mut coord = MarketDataCoordinator::new();
    let key = make_trade_key();
    let range = MarketDataRange::new(
        UnixMs::new(1_720_000_000_000),
        UnixMs::new(1_720_000_000_002),
    )
    .unwrap();

    coord.require(DataRequirement::new(
        ConsumerId::global(ConsumerFeature::VolumeBubbles),
        key,
        range,
        Priority::Normal,
        "tiny",
    ));
    coord.plan();
    let jobs = coord.execute_plan();

    assert!(jobs.is_empty());
    assert_eq!(coord.active_job_count(), 0);
    assert_eq!(coord.progress_snapshot().active_job_count(), 0);
}

#[test]
fn test_partial_overlap_creates_extension_only() {
    let mut coord = MarketDataCoordinator::new();
    let key = make_trade_key();

    // First requirement: 100 → 200, completed
    let range1 = MarketDataRange::new(UnixMs::new(100), UnixMs::new(200)).unwrap();
    coord.require(DataRequirement::new(
        ConsumerId::global(ConsumerFeature::VolumeBubbles),
        key.clone(),
        range1,
        Priority::Normal,
        "bubbles",
    ));
    coord.plan();
    let jobs = coord.execute_plan();
    coord.start_job(jobs[0]);
    coord.complete_job(jobs[0], 500);

    // Second requirement: 150 → 300 (partial overlap with completed range)
    let range2 = MarketDataRange::new(UnixMs::new(150), UnixMs::new(300)).unwrap();
    coord.require(DataRequirement::new(
        ConsumerId::global(ConsumerFeature::SessionVolumeProfile),
        key.clone(),
        range2,
        Priority::Normal,
        "svp",
    ));
    coord.plan();
    let new_jobs = coord.execute_plan();

    // Should create one job for 200 → 300 (the missing portion)
    assert_eq!(new_jobs.len(), 1);
    let job = coord.job(new_jobs[0]).unwrap();
    assert_eq!(job.range.from.as_u64(), 200);
    assert_eq!(job.range.to.as_u64(), 300);
}

#[test]
fn test_compute_bubble_summaries_from_raw_trades() {
    let mut coord = MarketDataCoordinator::new();
    let key = make_trade_key();
    let range = MarketDataRange::new(UnixMs::new(60_000), UnixMs::new(120_000)).unwrap();
    let trades = vec![
        Trade {
            time: UnixMs::new(61_000),
            is_sell: false,
            price: price_of(100.0),
            qty: qty_of(2.0),
        },
        Trade {
            time: UnixMs::new(62_000),
            is_sell: true,
            price: price_of(100.0),
            qty: qty_of(1.0),
        },
    ];

    coord.feed_trades(&key, &trades);
    let summaries = coord
        .compute_bubble_summaries(
            &key,
            &range,
            60_000,
            PriceStep {
                units: 100_000_000_000,
            },
            5,
        )
        .expect("raw trades should produce derived bubble summaries");

    assert_eq!(summaries.len(), 1);
    assert_eq!(summaries[0].candidates.len(), 1);
}

/// Integration test proving the bridge → coordinator → job → completion flow.
///
/// This test validates the current accepted architecture:
/// 1. Chart emits FetchRange (compatibility signal)
/// 2. Bridge converts FetchRange → DataRequirement
/// 3. Coordinator plans cached vs network segments
/// 4. Coordinator creates job for network segments
/// 5. Dashboard would create worker FetchSpec from coordinator job
/// 6. Fetched data completes coordinator job
/// 7. Progress active count returns to zero
#[test]
fn test_bridge_to_coordinator_to_completion_flow() {

    let pane_id = Uuid::new_v4();
    let mut coord = MarketDataCoordinator::new();

    // --- Step 1: Chart emits FetchRange (simulating KlineChart::update) ---
    let fetch_range = FetchRange::Kline(UnixMs::new(1000), UnixMs::new(5000));

    // --- Step 2: Bridge converts FetchRange → DataRequirement ---
    let ticker_info = TickerInfo::new(Ticker::new("BTCUSDT", Exchange::BinanceLinear));
    let feature = bridge::fetch_range_to_feature(&fetch_range);
    assert_eq!(feature, ConsumerFeature::ChartKlines);

    let key = bridge::fetch_range_to_key(
        &fetch_range,
        Some(&ticker_info),
        Some(Timeframe::M1),
    )
    .expect("bridge should convert FetchRange to MarketDataKey");
    assert!(matches!(
        key.kind,
        MarketDataKind::Klines { .. }
    ));

    let range = bridge::fetch_range_to_range(&fetch_range)
        .expect("bridge should convert FetchRange to MarketDataRange");
    assert_eq!(range.from.as_u64(), 1000);
    assert_eq!(range.to.as_u64(), 5000);

    let requirement = bridge::fetch_range_to_requirement(
        &fetch_range,
        pane_id,
        feature,
        Some(&ticker_info),
        Some(Timeframe::M1),
    )
    .expect("bridge should produce a DataRequirement");

    // --- Step 3: Coordinator plans (no coverage yet → all network) ---
    coord.require(requirement);
    let plan = coord.plan();
    assert!(
        !plan.network_segments.is_empty(),
        "plan should have network segments (no coverage yet)"
    );
    assert_eq!(plan.cached_segments.len(), 0, "no cached segments yet");

    // --- Step 4: Coordinator creates job ---
    let created_jobs = coord.execute_plan();
    assert_eq!(created_jobs.len(), 1, "should create exactly one job");
    let job_id = created_jobs[0];
    let job = coord.job(job_id).unwrap();
    assert!(matches!(
        job.status,
        FetchJobStatus::Pending | FetchJobStatus::InProgress
    ));

    // --- Step 5: Dashboard would create worker FetchSpec from coordinator job ---
    // (This happens in Dashboard::fetch_spec_for_market_job — verified by dashboard tests)

    // --- Step 6: Fetched data completes coordinator job ---
    coord.start_job(job_id);
    assert!(matches!(
        coord.job(job_id).unwrap().status,
        FetchJobStatus::InProgress
    ));

    // Simulate feeding fetched data into the store (as dashboard does)
    coord.feed_klines(&key, &[]); // empty for this test, just proving the API

    // Complete the job (as dashboard does on FetchCompleted)
    coord.complete_job(job_id, 100);
    assert!(coord.job(job_id).unwrap().status.is_terminal());

    // --- Step 7: Progress active count returns to zero ---
    let progress = coord.progress_snapshot();
    assert_eq!(
        progress.active_job_count(),
        0,
        "progress should show 0 active jobs after completion"
    );
    assert!(
        !progress.is_loading(),
        "should not be loading after job completion"
    );
}
