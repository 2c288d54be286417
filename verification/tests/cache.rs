//! The cache on disk.

use flowsurface::market::{Kline, Price, Qty, Trade, Volume};
use flowsurface::market_data::cache::{CacheRead, LocalMarketCache};
use flowsurface::market_data::coverage::CoverageLedger;
use flowsurface::market_data::key::{MarketDataKey, MarketKind, Symbol, Venue};
use flowsurface::market_data::range::MarketDataRange;
use flowsurface::time::{Timeframe, UnixMs};

const NOW: u64 = 1_000;
const SCALE: f64 = 100_000_000.0;

fn price_of(v: f64) -> Price {
    Price { units: (v * SCALE).round() as i64 }
}

fn qty_of(v: f64) -> Qty {
    Qty { units: (v * SCALE).round() as i64 }
}

fn value(p: Price) -> f64 {
    p.units as f64 / SCALE
}

fn make_trade_key() -> MarketDataKey {
    MarketDataKey::trades(
        Venue::BinanceLinear,
        Symbol::new("BTCUSDT"),
        MarketKind::LinearPerps,
    )
}

fn make_trade(time_ms: u64, price: f64) -> Trade {
    Trade {
        time: UnixMs::new(time_ms),
        is_sell: false,
        price: price_of(price),
        qty: qty_of(1.0),
    }
}

#[test]
fn test_cache_insert_and_query() {
    let mut cache = LocalMarketCache::new();
    let key = make_trade_key();

    let trades = vec![
        make_trade(100, 100.0),
        make_trade(200, 101.0),
        make_trade(300, 102.0),
    ];

    let file = LocalMarketCache::insert_trades(&key, CacheRead::Absent, &trades, NOW);
    cache.note_write(true);

    let range = MarketDataRange::new(UnixMs::new(100), UnixMs::new(300)).unwrap();
    let result = cache.query_trades(CacheRead::Found(file), &range, NOW);

    assert_eq!(result.len(), 2);
    assert_eq!(value(result[0].price), 100.0);
    assert_eq!(value(result[1].price), 101.0);
}

#[test]
fn test_cache_stats() {
    let mut cache = LocalMarketCache::new();
    let key = make_trade_key();

    let trades = vec![make_trade(100, 100.0)];
    let file = LocalMarketCache::insert_trades(&key, CacheRead::Absent, &trades, NOW);
    cache.note_write(true);

    let range = MarketDataRange::new(UnixMs::new(100), UnixMs::new(200)).unwrap();
    let _ = cache.query_trades(CacheRead::Found(file), &range, NOW);

    assert!(cache.stats().writes > 0);
    assert!(cache.stats().reads > 0);
}

// --- Kline cache validation tests ---

fn make_kline_key() -> MarketDataKey {
    MarketDataKey::klines(
        Venue::BinanceLinear,
        Symbol::new("BTCUSDT"),
        MarketKind::LinearPerps,
        Timeframe::M1,
    )
}

fn make_kline(time_ms: u64) -> Kline {
    Kline {
        time: UnixMs::new(time_ms),
        open: price_of(100.0),
        high: price_of(101.0),
        low: price_of(99.0),
        close: price_of(100.5),
        volume: Volume::TotalOnly(qty_of(1.0)),
    }
}

/// Cached Kline rows outside the query range are filtered by the cache layer.
#[test]
fn test_kline_cache_query_filters_by_range() {
    let mut cache = LocalMarketCache::new();
    let key = make_kline_key();

    // Insert klines spanning 00:00 to 03:00 (180 M1 candles)
    // Each candle at i * 60_000ms
    let klines: Vec<Kline> = (0..180).map(|i| make_kline(i * 60_000)).collect();
    let file = LocalMarketCache::insert_klines(&key, CacheRead::Absent, &klines, NOW);
    cache.note_write(true);

    // Query 01:00:00 to 02:00:00 (1 hour = 3_600_000ms span)
    // Candles at 60_000, 120_000, ..., 3_540_000 = 60 candles
    let range = MarketDataRange::new(UnixMs::new(60_000), UnixMs::new(3_660_000)).unwrap();
    let result = cache.query_klines(CacheRead::Found(file), &range, NOW);

    assert_eq!(
        result.len(),
        60,
        "should only return klines within query range"
    );
    assert!(
        result
            .iter()
            .all(|k| k.time.as_u64() >= 60_000 && k.time.as_u64() < 3_660_000),
        "all returned klines must be within the query range"
    );
}

/// Cached Kline query returns empty when there's no overlap.
#[test]
fn test_kline_cache_query_returns_empty_for_no_overlap() {
    let mut cache = LocalMarketCache::new();
    let key = make_kline_key();

    let klines: Vec<Kline> = (0..60).map(|i| make_kline(i * 60_000)).collect();
    let file = LocalMarketCache::insert_klines(&key, CacheRead::Absent, &klines, NOW);
    cache.note_write(true);

    // Query a completely different range
    let range =
        MarketDataRange::new(UnixMs::new(200_000_000), UnixMs::new(300_000_000)).unwrap();
    let result = cache.query_klines(CacheRead::Found(file), &range, NOW);

    assert!(
        result.is_empty(),
        "query for non-overlapping range should return empty"
    );
}

/// Verify the density check formula matches the runtime.
#[test]
fn test_kline_cache_density_expected_max() {
    // expected_max = (duration_ms / tf_ms) + 2
    // For M1 (60s) range 01:00 → 05:38 (4h38m = 16_680_000ms):
    let duration_ms = 16_680_000u64;
    let tf_ms = 60_000u64;
    let expected_max = (duration_ms / tf_ms) + 2;
    assert_eq!(expected_max, 280);

    // 1116 records (the corrupted value from runtime) must be detected
    assert!(
        1116 > expected_max,
        "1116 records must exceed expected_max for M1 4h38m"
    );
}

/// Corrupt cached Kline segment (stale coverage) becomes a network missing range.
#[test]
fn test_kline_cache_stale_coverage_becomes_missing() {
    let mut ledger = CoverageLedger::new();
    let key = make_kline_key();
    let range = MarketDataRange::new(UnixMs::new(3_600_000), UnixMs::new(20_280_000)).unwrap();

    // Initially marked complete (from a previous buggy run)
    ledger.mark_complete(key.clone(), range, 1116);
    assert!(ledger.is_covered(&key, &range));

    // After corrupt cache detection, mark stale
    ledger.mark_stale(key.clone(), range, "corrupt_cache");

    // Stale coverage must NOT be considered "covered"
    assert!(
        !ledger.is_covered(&key, &range),
        "stale range must not be covered"
    );

    // Stale range should appear as a missing segment for refetch
    let missing = ledger.compute_missing(&key, range);
    assert_eq!(
        missing.len(),
        1,
        "stale range should become one missing segment"
    );
    assert_eq!(missing[0], range);
}

/// Corrupt cached Kline segment is not counted as complete coverage.
#[test]
fn test_kline_cache_corrupt_not_served_as_complete() {
    let mut ledger = CoverageLedger::new();
    let key = make_kline_key();
    let range = MarketDataRange::new(UnixMs::new(3_600_000), UnixMs::new(20_280_000)).unwrap();

    // Old poisoned coverage
    ledger.mark_complete(key.clone(), range, 1116);

    // Simulate lazy validation: mark stale
    ledger.mark_stale(key.clone(), range, "corrupt_cache");

    // The range should show as missing, forcing a network refetch
    let missing = ledger.compute_missing(&key, range);
    assert_eq!(missing.len(), 1);
    assert_eq!(missing[0].from.as_u64(), 3_600_000);
    assert_eq!(missing[0].to.as_u64(), 20_280_000);
}

/// After marking stale and refetching, new valid coverage replaces the corrupt one.
#[test]
fn test_kline_cache_refetch_after_corrupt_produces_valid_coverage() {
    let mut ledger = CoverageLedger::new();
    let key = make_kline_key();
    let range = MarketDataRange::new(UnixMs::new(3_600_000), UnixMs::new(20_280_000)).unwrap();

    // Old poisoned coverage
    ledger.mark_complete(key.clone(), range, 1116);
    ledger.mark_stale(key.clone(), range, "corrupt_cache");

    // Network refetch succeeds with correct count (278 for M1 4h38m)
    ledger.mark_complete(key.clone(), range, 278);

    // Now it should be covered again with correct count
    assert!(
        ledger.is_covered(&key, &range),
        "refetched range should be covered"
    );
    assert_eq!(ledger.total_records(&key), 278);
}
