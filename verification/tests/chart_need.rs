//! What a chart asks for.

use flowsurface::market::PriceStep;
use flowsurface::market_data::chart_need::ChartDataNeed;
use flowsurface::time::UnixMs;

#[test]
fn test_chart_need_label_and_range() {
    let need = ChartDataNeed::Klines {
        from: UnixMs::new(100),
        to: UnixMs::new(200),
    };

    assert_eq!(need.label(), "Klines");
    assert_eq!(need.range(), (UnixMs::new(100), UnixMs::new(200)));
    assert_eq!(need.display(), "Klines(100-200)");
}

#[test]
fn test_bubble_need_is_declarative() {
    let need = ChartDataNeed::Bubbles {
        from: UnixMs::new(100),
        to: UnixMs::new(200),
        timeframe_ms: 60_000,
        price_step: PriceStep::default(),
        max_candidates_per_candle: 5,
    };

    assert_eq!(need.label(), "Bubbles");
    assert_eq!(need.range(), (UnixMs::new(100), UnixMs::new(200)));
}
