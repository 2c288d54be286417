//! What names a stream of data.

use flowsurface::market::Exchange;
use flowsurface::market_data::key::{MarketDataKey, MarketDataKind, MarketKind, Symbol, Venue};
use flowsurface::time::Timeframe;

#[test]
fn test_market_data_key_display() {
    let key = MarketDataKey::trades(
        Venue::BinanceLinear,
        Symbol::new("BTCUSDT"),
        MarketKind::LinearPerps,
    );
    assert_eq!(key.display_key(), "Trades:BinanceLinear:BTCUSDT");

    let key = MarketDataKey::klines(
        Venue::BinanceLinear,
        Symbol::new("BTCUSDT"),
        MarketKind::LinearPerps,
        Timeframe::M5,
    );
    assert_eq!(key.display_key(), "Klines:5m:BinanceLinear:BTCUSDT");
}

#[test]
fn test_market_data_kind_timeframe() {
    let trades = MarketDataKind::Trades;
    assert!(trades.timeframe().is_none());
    assert!(trades.is_trades());
    assert!(!trades.is_klines());

    let klines = MarketDataKind::Klines {
        timeframe: Timeframe::M15,
    };
    assert_eq!(klines.timeframe(), Some(Timeframe::M15));
    assert!(!klines.is_trades());
    assert!(klines.is_klines());
}

#[test]
fn test_venue_from_exchange() {
    assert_eq!(
        Venue::from_exchange(Exchange::BinanceLinear),
        Some(Venue::BinanceLinear)
    );
}
