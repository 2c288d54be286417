//! Plans of what to fetch.

use flowsurface::market_data::coverage::CoverageLedger;
use flowsurface::market_data::key::{MarketDataKey, MarketKind, Symbol, Venue};
use flowsurface::market_data::planner::compute_plan;
use flowsurface::market_data::range::MarketDataRange;
use flowsurface::market_data::requirement::{
    group_requirements, ConsumerFeature, ConsumerId, DataRequirement, Priority,
};
use flowsurface::time::UnixMs;

fn make_trade_key() -> MarketDataKey {
    MarketDataKey::trades(
        Venue::BinanceLinear,
        Symbol::new("BTCUSDT"),
        MarketKind::LinearPerps,
    )
}

#[test]
fn test_empty_coverage_needs_fetch() {
    let key = make_trade_key();
    let range = MarketDataRange::new(UnixMs::new(100), UnixMs::new(200)).unwrap();
    let consumer = ConsumerId::global(ConsumerFeature::VolumeBubbles);

    let req = DataRequirement::new(consumer, key, range, Priority::Normal, "test");
    let groups = group_requirements(vec![req]);

    let coverage = CoverageLedger::new();
    let plan = compute_plan(groups, &coverage);

    assert!(plan.needs_network_fetch());
    assert_eq!(plan.network_segments.len(), 1);
    assert!(!plan.has_cached_data());
}

#[test]
fn test_full_coverage_no_fetch() {
    let key = make_trade_key();
    let range = MarketDataRange::new(UnixMs::new(100), UnixMs::new(200)).unwrap();
    let consumer = ConsumerId::global(ConsumerFeature::VolumeBubbles);

    let mut coverage = CoverageLedger::new();
    coverage.mark_complete(key.clone(), range, 500);

    let req = DataRequirement::new(consumer, key, range, Priority::Normal, "test");
    let groups = group_requirements(vec![req]);

    let plan = compute_plan(groups, &coverage);

    assert!(!plan.needs_network_fetch());
    assert!(plan.has_cached_data());
}
