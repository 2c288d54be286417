//! From a session to a need.

use flowsurface::market_data::key::{MarketDataKey, MarketKind, Symbol, Venue};
use flowsurface::market_data::range::MarketDataRange;
use flowsurface::market_data::requirement::{ConsumerFeature, ConsumerId, DataRequirement, Priority};
use flowsurface::market_data::session::{Session, SessionResolver, UtcTime};
use flowsurface::time::UnixMs;

#[test]
fn test_full_requirement_flow() {
    // Create a market data key for BTCUSDT trades on Binance Linear
    let key = MarketDataKey::trades(
        Venue::BinanceLinear,
        Symbol::new("BTCUSDT"),
        MarketKind::LinearPerps,
    );

    // Define the time range needed (NY session)
    let date = UtcTime::now().day;
    let range = SessionResolver::resolve(Session::NewYork, date);

    // Create a consumer
    let consumer = ConsumerId::global(ConsumerFeature::VolumeBubbles);

    // Create the requirement
    let req = DataRequirement::session(consumer, key, range);

    // Verify the requirement
    assert!(req.range.duration_ms() > 0);
    assert_eq!(req.priority, Priority::Normal);
    assert_eq!(req.consumer.feature, ConsumerFeature::VolumeBubbles);
}

#[test]
fn test_multiple_consumers_same_key() {
    let key = MarketDataKey::trades(
        Venue::BinanceLinear,
        Symbol::new("BTCUSDT"),
        MarketKind::LinearPerps,
    );

    let range = MarketDataRange::new(UnixMs::new(1000), UnixMs::new(2000)).unwrap();

    // Multiple consumers need the same data
    let requirements = vec![
        DataRequirement::new(
            ConsumerId::global(ConsumerFeature::VolumeBubbles),
            key.clone(),
            range,
            Priority::Normal,
            "volume bubbles",
        ),
        DataRequirement::new(
            ConsumerId::global(ConsumerFeature::SessionVolumeProfile),
            key.clone(),
            range,
            Priority::High,
            "SVP",
        ),
        DataRequirement::new(
            ConsumerId::global(ConsumerFeature::VWAP),
            key.clone(),
            range,
            Priority::Normal,
            "VWAP",
        ),
    ];

    // All should have the same key
    for req in &requirements {
        assert_eq!(req.key, key);
    }
}
