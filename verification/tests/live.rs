//! Live records.

use flowsurface::market::{Kline, Price, Qty, Trade, Volume};
use flowsurface::market_data::key::{MarketDataKey, MarketKind, Symbol, Venue};
use flowsurface::market_data::live::LiveDataAdapter;
use flowsurface::market_data::store::MarketDataStore;
use flowsurface::time::{Timeframe, UnixMs};

const SCALE: f64 = 100_000_000.0;

fn price_of(v: f64) -> Price {
    Price { units: (v * SCALE).round() as i64 }
}

fn qty_of(v: f64) -> Qty {
    Qty { units: (v * SCALE).round() as i64 }
}

fn make_trade_key() -> MarketDataKey {
    MarketDataKey::trades(
        Venue::BinanceLinear,
        Symbol::new("BTCUSDT"),
        MarketKind::LinearPerps,
    )
}

fn make_trade(time_ms: u64, price: f64) -> Trade {
    Trade {
        time: UnixMs::new(time_ms),
        is_sell: false,
        price: price_of(price),
        qty: qty_of(1.0),
    }
}

#[test]
fn test_ingest_trades() {
    let mut store = MarketDataStore::new();
    let mut adapter = LiveDataAdapter::new();

    let key = make_trade_key();
    let trades = vec![make_trade(100, 100.0), make_trade(200, 101.0)];

    adapter.ingest_trades(&key, &trades, &mut store, false);

    // Check in-memory store
    assert_eq!(store.trade_count(&key), 2);

    // Check live state
    assert!(adapter.has_live_data(&key));
    assert_eq!(adapter.trade_count(&key), 2);
    assert_eq!(adapter.last_trade_time(&key), Some(UnixMs::new(200)));
}

#[test]
fn test_ingest_klines() {
    let mut store = MarketDataStore::new();
    let mut adapter = LiveDataAdapter::new();

    let key = MarketDataKey::klines(
        Venue::BinanceLinear,
        Symbol::new("BTCUSDT"),
        MarketKind::LinearPerps,
        Timeframe::M5,
    );

    let kline = Kline {
        time: UnixMs::new(100),
        open: price_of(100.0),
        high: price_of(110.0),
        low: price_of(90.0),
        close: price_of(105.0),
        volume: Volume::TotalOnly(qty_of(1000.0)),
    };

    adapter.ingest_klines(&key, &[kline], &mut store, false);

    assert_eq!(store.kline_count(&key), 1);
    assert!(adapter.has_live_data(&key));
    assert_eq!(adapter.kline_count(&key), 1);
}

#[test]
fn live_test_clear_key() {
    let mut store = MarketDataStore::new();
    let mut adapter = LiveDataAdapter::new();

    let key = make_trade_key();
    let trades = vec![make_trade(100, 100.0)];

    adapter.ingest_trades(&key, &trades, &mut store, false);
    assert!(adapter.has_live_data(&key));

    adapter.clear_key(&key);
    assert!(!adapter.has_live_data(&key));
}
