//! Volume bubbles.

use flowsurface::market::{Price, PriceStep, Qty, Trade};
use flowsurface::market_data::derived::bubbles::compute_bubble_summaries;
use flowsurface::time::UnixMs;

const SCALE: f64 = 100_000_000.0;

fn price_of(v: f64) -> Price {
    Price { units: (v * SCALE).round() as i64 }
}

fn qty_of(v: f64) -> Qty {
    Qty { units: (v * SCALE).round() as i64 }
}

fn make_trade(time_ms: u64, price: f64, qty: f64, is_sell: bool) -> Trade {
    Trade {
        time: UnixMs::new(time_ms),
        is_sell,
        price: price_of(price),
        qty: qty_of(qty),
    }
}

// Helper: get a PriceStep of 0.01 (two decimal places) for testing
// PriceStep has a `units` field that represents step size in atomic units
fn small_price_step() -> PriceStep {
    // Create a PriceStep with units=100 (which represents 0.01 in the exchange's internal representation)
    PriceStep { units: 100 }
}

#[test]
fn test_compute_bubble_summaries() {
    let trades = vec![
        make_trade(100, 100.0, 1.0, false),
        make_trade(110, 100.0, 2.0, true),
        make_trade(120, 101.0, 3.0, false),
        make_trade(130, 100.0, 1.0, false),
    ];

    let summaries = compute_bubble_summaries(&trades, 50, small_price_step(), 10);

    // Should have trades in first candle
    assert!(!summaries.is_empty());

    // First candle should have price levels
    let first_candle = &summaries[0];
    assert!(!first_candle.candidates.is_empty());
}

#[test]
fn test_empty_trades() {
    let summaries = compute_bubble_summaries(&[], 50, small_price_step(), 10);
    assert!(summaries.is_empty());
}

#[test]
fn test_max_candidates() {
    // Create trades at many price levels
    let trades: Vec<Trade> = (0..20)
        .map(|i| make_trade(100, 100.0 + i as f64, 1.0, false))
        .collect();

    let summaries = compute_bubble_summaries(&trades, 50, small_price_step(), 5);

    // Should have at most 5 candidates per candle
    for summary in &summaries {
        assert!(summary.candidates.len() <= 5);
    }
}
