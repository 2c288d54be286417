//! Records in memory.

use flowsurface::market::{Kline, Price, Qty, Trade, Volume};
use flowsurface::market_data::key::{MarketDataKey, MarketKind, Symbol, Venue};
use flowsurface::market_data::range::MarketDataRange;
use flowsurface::market_data::store::{MarketDataStore, MAX_TRADES_PER_KEY};
use flowsurface::time::{Timeframe, UnixMs};

const SCALE: f64 = 100_000_000.0;

fn price_of(v: f64) -> Price {
    Price { units: (v * SCALE).round() as i64 }
}

fn qty_of(v: f64) -> Qty {
    Qty { units: (v * SCALE).round() as i64 }
}

fn value(p: Price) -> f64 {
    p.units as f64 / SCALE
}

fn make_trade_key() -> MarketDataKey {
    MarketDataKey::trades(
        Venue::BinanceLinear,
        Symbol::new("BTCUSDT"),
        MarketKind::LinearPerps,
    )
}

fn make_kline_key() -> MarketDataKey {
    MarketDataKey::klines(
        Venue::BinanceLinear,
        Symbol::new("BTCUSDT"),
        MarketKind::LinearPerps,
        Timeframe::M5,
    )
}

fn make_trade(time_ms: u64, price: f64, qty: f64) -> Trade {
    Trade {
        time: UnixMs::new(time_ms),
        is_sell: false,
        price: price_of(price),
        qty: qty_of(qty),
    }
}

fn make_kline(time_ms: u64) -> Kline {
    Kline {
        time: UnixMs::new(time_ms),
        open: price_of(100.0),
        high: price_of(110.0),
        low: price_of(90.0),
        close: price_of(105.0),
        volume: Volume::TotalOnly(qty_of(1000.0)),
    }
}

#[test]
fn test_insert_and_query_trades() {
    let mut store = MarketDataStore::new();
    let key = make_trade_key();

    let trades = vec![
        make_trade(100, 100.0, 1.0),
        make_trade(200, 101.0, 2.0),
        make_trade(300, 102.0, 3.0),
    ];

    store.insert_trades(&key, &trades);

    let range = MarketDataRange::new(UnixMs::new(100), UnixMs::new(300)).unwrap();
    let result = store.query_trades(&key, &range);

    assert_eq!(result.len(), 2);
    assert_eq!(value(result[0].price), 100.0);
    assert_eq!(value(result[1].price), 101.0);
}

#[test]
fn test_deduplication_trades() {
    let mut store = MarketDataStore::new();
    let key = make_trade_key();

    // Insert trade at time 100
    store.insert_trades(&key, &[make_trade(100, 100.0, 1.0)]);
    // Insert another trade at same time (should overwrite)
    store.insert_trades(&key, &[make_trade(100, 200.0, 2.0)]);

    assert_eq!(store.trade_count(&key), 1);
    let trades = store.query_trades(
        &key,
        &MarketDataRange::new(UnixMs::new(0), UnixMs::new(200)).unwrap(),
    );
    assert_eq!(value(trades[0].price), 200.0);
}

#[test]
fn test_pruning_trades() {
    let mut store = MarketDataStore::new();
    let key = make_trade_key();

    // Insert more than MAX_TRADES_PER_KEY
    let trades: Vec<Trade> = (0..MAX_TRADES_PER_KEY + 100)
        .map(|i| make_trade(i as u64, 100.0, 1.0))
        .collect();

    store.insert_trades(&key, &trades);

    assert_eq!(store.trade_count(&key), MAX_TRADES_PER_KEY);
}

#[test]
fn test_insert_and_query_klines() {
    let mut store = MarketDataStore::new();
    let key = make_kline_key();

    let klines = vec![make_kline(100), make_kline(200), make_kline(300)];

    store.insert_klines(&key, &klines);

    let range = MarketDataRange::new(UnixMs::new(100), UnixMs::new(300)).unwrap();
    let result = store.query_klines(&key, &range);

    assert_eq!(result.len(), 2);
}

#[test]
fn test_latest_times() {
    let mut store = MarketDataStore::new();
    let key = make_trade_key();

    store.insert_trades(
        &key,
        &[
            make_trade(100, 100.0, 1.0),
            make_trade(300, 100.0, 1.0),
            make_trade(200, 100.0, 1.0),
        ],
    );

    assert_eq!(store.latest_trade_time(&key), Some(UnixMs::new(300)));
    assert_eq!(store.earliest_trade_time(&key), Some(UnixMs::new(100)));
}

#[test]
fn test_has_data() {
    let mut store = MarketDataStore::new();
    let key = make_trade_key();

    assert!(!store.has_data(&key));

    store.insert_trades(&key, &[make_trade(100, 100.0, 1.0)]);

    assert!(store.has_data(&key));
}

#[test]
fn store_test_clear_key() {
    let mut store = MarketDataStore::new();
    let key = make_trade_key();

    store.insert_trades(&key, &[make_trade(100, 100.0, 1.0)]);
    assert!(store.has_data(&key));

    store.clear_key(&key);
    assert!(!store.has_data(&key));
}

#[test]
fn test_summary() {
    let mut store = MarketDataStore::new();
    let trade_key = make_trade_key();
    let kline_key = make_kline_key();

    store.insert_trades(
        &trade_key,
        &[make_trade(100, 100.0, 1.0), make_trade(200, 100.0, 1.0)],
    );
    store.insert_klines(&kline_key, &[make_kline(100)]);

    let summary = store.summary();
    assert_eq!(summary.trade_keys, 1);
    assert_eq!(summary.kline_keys, 1);
    assert_eq!(summary.oi_keys, 0);
    assert_eq!(summary.total_trades, 2);
    assert_eq!(summary.total_klines, 1);
}

#[test]
fn the_summary_counts_what_is_there() {
    let mut store = MarketDataStore::new();
    let key = make_trade_key();
    store.insert_trades(&key, &[make_trade(100, 100.0, 1.0)]);
    store.insert_trades(&key, &[make_trade(100, 200.0, 2.0)]);
    assert_eq!(store.summary().trade_keys, 1);
    assert_eq!(store.summary().total_trades, 1);
    assert_eq!(store.trade_count(&key), 1);
}
