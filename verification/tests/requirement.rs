//! What charts need.

use flowsurface::ids::Uuid;
use flowsurface::market_data::key::{MarketDataKey, MarketKind, Symbol, Venue};
use flowsurface::market_data::range::MarketDataRange;
use flowsurface::market_data::requirement::{
    group_requirements, ConsumerFeature, ConsumerId, DataRequirement, Priority, RequirementGroup,
};
use flowsurface::time::{Timeframe, UnixMs};

fn make_test_key() -> MarketDataKey {
    MarketDataKey::trades(
        Venue::BinanceLinear,
        Symbol::new("BTCUSDT"),
        MarketKind::LinearPerps,
    )
}

#[test]
fn test_consumer_id_display() {
    let pane_id = Uuid(0x12345678_1234_5678_1234_567812345678);
    let consumer = ConsumerId::pane(pane_id, ConsumerFeature::VolumeBubbles);
    assert!(consumer.display_id().contains("Bubbles"));
    assert!(consumer.display_id().contains("pane="));
}

#[test]
fn test_consumer_feature_properties() {
    assert!(ConsumerFeature::VolumeBubbles.requires_trades());
    assert!(!ConsumerFeature::VolumeBubbles.requires_klines());
    assert!(ConsumerFeature::ChartKlines.requires_klines());
    assert!(!ConsumerFeature::ChartKlines.requires_trades());
    assert!(ConsumerFeature::OpenInterest.requires_open_interest());
    assert!(ConsumerFeature::TradeHydration.requires_trades());
    assert!(!ConsumerFeature::TradeHydration.requires_klines());
}

#[test]
fn test_priority_ordering() {
    assert!(Priority::Critical > Priority::High);
    assert!(Priority::High > Priority::Normal);
    assert!(Priority::Normal > Priority::Low);
}

#[test]
fn test_requirement_group() {
    let key = make_test_key();
    let range1 = MarketDataRange::new(UnixMs::new(100), UnixMs::new(200)).unwrap();
    let range2 = MarketDataRange::new(UnixMs::new(150), UnixMs::new(300)).unwrap();

    let req1 = DataRequirement::new(
        ConsumerId::global(ConsumerFeature::VolumeBubbles),
        key.clone(),
        range1,
        Priority::Normal,
        "test1",
    );

    let req2 = DataRequirement::new(
        ConsumerId::global(ConsumerFeature::SessionVolumeProfile),
        key.clone(),
        range2,
        Priority::High,
        "test2",
    );

    let mut group = RequirementGroup::from_requirement(req1);
    group.add(req2);

    assert_eq!(group.consumers.len(), 2);
    assert_eq!(group.max_priority, Priority::High);
    assert_eq!(group.merged_range.from, UnixMs::new(100));
    assert_eq!(group.merged_range.to, UnixMs::new(300));
}

#[test]
fn test_group_requirements() {
    let key1 = make_test_key();
    let key2 = MarketDataKey::klines(
        Venue::BinanceLinear,
        Symbol::new("BTCUSDT"),
        MarketKind::LinearPerps,
        Timeframe::M5,
    );

    let range = MarketDataRange::new(UnixMs::new(100), UnixMs::new(200)).unwrap();

    let requirements = vec![
        DataRequirement::new(
            ConsumerId::global(ConsumerFeature::VolumeBubbles),
            key1.clone(),
            range,
            Priority::Normal,
            "test",
        ),
        DataRequirement::new(
            ConsumerId::global(ConsumerFeature::SessionVolumeProfile),
            key1.clone(),
            range,
            Priority::High,
            "test",
        ),
        DataRequirement::new(
            ConsumerId::global(ConsumerFeature::ChartKlines),
            key2.clone(),
            range,
            Priority::Normal,
            "test",
        ),
    ];

    let groups = group_requirements(requirements);
    assert_eq!(groups.len(), 2);

    // Higher priority group should be first
    assert_eq!(groups[0].max_priority, Priority::High);
}
