//! From requests of charts to needs.

use flowsurface::connector::fetcher::FetchRange;
use flowsurface::ids::Uuid;
use flowsurface::market::{Exchange, PriceStep, Ticker, TickerInfo};
use flowsurface::market_data::bridge::{
    chart_need_to_consumer_fetch, chart_need_to_requirement, fetch_range_priority,
    fetch_range_to_feature, fetch_range_to_key, fetch_range_to_range, fetch_range_to_requirement,
};
use flowsurface::market_data::chart_need::ChartDataNeed;
use flowsurface::market_data::key::MarketDataKind;
use flowsurface::market_data::requirement::{ConsumerFeature, Priority};
use flowsurface::time::{Timeframe, UnixMs};

#[test]
fn test_fetch_range_to_range() {
    let from = UnixMs::new(100);
    let to = UnixMs::new(200);

    let fetch_range = FetchRange::Kline(from, to);
    let range = fetch_range_to_range(&fetch_range).unwrap();

    assert_eq!(range.from, from);
    assert_eq!(range.to, to);
}

#[test]
fn test_fetch_range_to_feature() {
    let from = UnixMs::new(100);
    let to = UnixMs::new(200);

    let kline = FetchRange::Kline(from, to);
    assert_eq!(fetch_range_to_feature(&kline), ConsumerFeature::ChartKlines);

    let trades = FetchRange::Trades(from, to);
    assert_eq!(fetch_range_to_feature(&trades), ConsumerFeature::Footprint);

    let oi = FetchRange::OpenInterest(from, to);
    assert_eq!(fetch_range_to_feature(&oi), ConsumerFeature::OpenInterest);
}

#[test]
fn test_bubble_summary_routes_to_raw_trades_key() {
    let ticker_info = TickerInfo::new(Ticker::new("BTCUSDT", Exchange::BinanceLinear));
    let fetch = FetchRange::BubbleSummary {
        from: UnixMs::new(100),
        to: UnixMs::new(200),
        timeframe_ms: 60_000,
        price_step: PriceStep::default(),
        max_candidates_per_candle: 5,
    };

    let key = fetch_range_to_key(&fetch, Some(&ticker_info), Some(Timeframe::M1))
        .expect("bubble summary should route through market data");

    assert!(matches!(key.kind, MarketDataKind::Trades));
    assert_eq!(
        fetch_range_to_feature(&fetch),
        ConsumerFeature::VolumeBubbles
    );
}

#[test]
fn test_kline_key_preserves_context_timeframe_m1() {
    let ticker_info = TickerInfo::new(Ticker::new("BTCUSDT", Exchange::BinanceLinear));
    let fetch =
        FetchRange::Kline(UnixMs::new(100), UnixMs::new(200));

    let key = fetch_range_to_key(&fetch, Some(&ticker_info), Some(Timeframe::M1))
        .expect("kline key should resolve");

    assert!(matches!(
        key.kind,
        MarketDataKind::Klines {
            timeframe: Timeframe::M1
        }
    ));
}

#[test]
fn test_open_interest_fetch_range_routes_to_oi_key() {
    let ticker_info = TickerInfo::new(Ticker::new("BTCUSDT", Exchange::BinanceLinear));
    let fetch =
        FetchRange::OpenInterest(UnixMs::new(100), UnixMs::new(200));

    let key = fetch_range_to_key(&fetch, Some(&ticker_info), Some(Timeframe::M5))
        .expect("OI fetch should resolve to a market-data key");

    assert_eq!(
        fetch_range_to_feature(&fetch),
        ConsumerFeature::OpenInterest
    );
    assert!(matches!(
        key.kind,
        MarketDataKind::OpenInterest {
            timeframe: Timeframe::M5
        }
    ));
}

#[test]
fn test_comparison_kline_requirement_can_override_feature() {
    let ticker_info = TickerInfo::new(Ticker::new("ETHUSDT", Exchange::BinanceLinear));
    let pane_id = Uuid::new_v4();
    let fetch =
        FetchRange::Kline(UnixMs::new(100), UnixMs::new(200));

    let requirement = fetch_range_to_requirement(
        &fetch,
        pane_id,
        ConsumerFeature::ComparisonChart,
        Some(&ticker_info),
        Some(Timeframe::M1),
    )
    .expect("comparison kline fetch should become a requirement");

    assert_eq!(
        requirement.consumer.feature,
        ConsumerFeature::ComparisonChart
    );
    assert_eq!(requirement.consumer.pane_id, Some(pane_id));
    assert!(matches!(
        requirement.key.kind,
        MarketDataKind::Klines {
            timeframe: Timeframe::M1
        }
    ));
}

#[test]
fn test_fetch_range_priority() {
    let from = UnixMs::new(100);
    let to = UnixMs::new(200);

    let kline = FetchRange::Kline(from, to);
    assert_eq!(fetch_range_priority(&kline), Priority::High);

    let trades = FetchRange::Trades(from, to);
    assert_eq!(fetch_range_priority(&trades), Priority::Normal);
}

#[test]
fn test_chart_need_bubbles_routes_to_raw_trades_requirement() {
    let ticker_info = TickerInfo::new(Ticker::new("BTCUSDT", Exchange::BinanceLinear));
    let pane_id = Uuid::new_v4();
    let need = ChartDataNeed::Bubbles {
        from: UnixMs::new(100),
        to: UnixMs::new(200),
        timeframe_ms: 60_000,
        price_step: PriceStep::default(),
        max_candidates_per_candle: 5,
    };

    let requirement = chart_need_to_requirement(
        &need,
        pane_id,
        Some(&ticker_info),
        Some(Timeframe::M1),
    )
    .expect("bubble chart need should become a raw-trades requirement");

    assert_eq!(requirement.consumer.feature, ConsumerFeature::VolumeBubbles);
    assert_eq!(requirement.consumer.pane_id, Some(pane_id));
    assert!(matches!(requirement.key.kind, MarketDataKind::Trades));
    assert_eq!(requirement.reason, "volume_bubbles_from_trades");
}

#[test]
fn test_chart_need_bubbles_consumer_fetch_is_raw_trades_metadata_not_bubble_summary() {
    let need = ChartDataNeed::Bubbles {
        from: UnixMs::new(100),
        to: UnixMs::new(200),
        timeframe_ms: 60_000,
        price_step: PriceStep::default(),
        max_candidates_per_candle: 5,
    };

    assert!(matches!(
        chart_need_to_consumer_fetch(&need),
        FetchRange::Trades(from, to)
            if from == UnixMs::new(100) && to == UnixMs::new(200)
    ));
}
