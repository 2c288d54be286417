//! What holds of the coverage, on chosen values.

use flowsurface::market_data::coverage::{CoverageEntry, CoverageLedger};
use flowsurface::market_data::key::{MarketDataKey, MarketKind, Symbol, Venue};
use flowsurface::market_data::range::MarketDataRange;
use flowsurface::time::{Timeframe, UnixMs};

fn r(from: u64, to: u64) -> MarketDataRange {
    MarketDataRange::new(UnixMs::new(from), UnixMs::new(to)).unwrap()
}

fn trades() -> MarketDataKey {
    MarketDataKey::trades(Venue::BinanceLinear, Symbol::new("BTCUSDT"), MarketKind::LinearPerps)
}

fn candles() -> MarketDataKey {
    MarketDataKey::klines(
        Venue::MexcSpot,
        Symbol::new("ETHUSDT"),
        MarketKind::Spot,
        Timeframe::M5,
    )
}

#[test]
fn complete_ranges_are_covered() {
    let mut ledger = CoverageLedger::new();
    ledger.mark_complete(trades(), r(100, 200), 5);
    assert!(ledger.is_covered(&trades(), &r(100, 200)));
    assert!(ledger.compute_missing(&trades(), r(100, 200)).is_empty());
}

#[test]
fn whatever_is_not_complete_is_missing() {
    let mut ledger = CoverageLedger::new();
    ledger.mark_failed(trades(), r(100, 200), "timeout".to_string(), Some(UnixMs::new(9)));
    ledger.mark_stale(trades(), r(200, 300), "old");
    ledger.mark_partial(trades(), r(300, 400), UnixMs::new(350));
    assert_eq!(ledger.compute_missing(&trades(), r(100, 400)), vec![r(100, 400)]);
    assert!(!ledger.is_covered(&trades(), &r(100, 200)));
    assert_eq!(ledger.complete_ranges(&trades()), vec![]);
}

#[test]
fn failing_leaves_other_streams_alone() {
    let mut ledger = CoverageLedger::new();
    ledger.mark_complete(candles(), r(0, 600_000), 2);
    ledger.mark_failed(trades(), r(100, 200), "timeout".to_string(), None);
    assert!(ledger.is_covered(&candles(), &r(0, 600_000)));
    assert_eq!(ledger.total_records(&candles()), 2);
    assert_eq!(ledger.len(), 2);
}

#[test]
fn marking_a_part_again_uncovers_it() {
    let mut ledger = CoverageLedger::new();
    ledger.mark_complete(trades(), r(0, 1_000), 10);
    ledger.mark_stale(trades(), r(200, 300), "old");
    assert!(!ledger.is_covered(&trades(), &r(200, 300)));
}

#[test]
fn coverage_survives_a_restart() {
    let mut ledger = CoverageLedger::new();
    ledger.mark_complete(trades(), r(100, 200), 5);
    ledger.mark_empty(trades(), r(200, 300));
    ledger.mark_failed(candles(), r(0, 300_000), "timeout".to_string(), Some(UnixMs::new(77)));
    let again = CoverageLedger::from_persisted(&ledger.to_persisted());
    assert_eq!(again.len(), ledger.len());
    assert_eq!(again.complete_ranges(&trades()), vec![r(100, 200)]);
    assert_eq!(again.total_records(&trades()), 5);
    assert!(again.has_coverage(&candles()));
    assert_eq!(again.to_persisted().entries.len(), 2);
    assert_eq!(again.to_persisted().entries[0].venue, "BinanceLinear");
    assert_eq!(again.to_persisted().entries[0].kind, "Trades");
    assert_eq!(again.to_persisted().entries[1].market_type, "Spot");
}

#[test]
fn streams_can_be_forgotten() {
    let mut ledger = CoverageLedger::new();
    ledger.mark_complete(trades(), r(100, 200), 5);
    ledger.mark_complete(candles(), r(0, 300_000), 1);
    ledger.clear_key(&trades());
    assert!(!ledger.has_coverage(&trades()));
    assert_eq!(ledger.keys(), vec![candles()]);
    ledger.clear_all();
    assert!(ledger.is_empty());
    assert_eq!(ledger.latest_covered_to(&candles()), None);
}

#[test]
fn entries_say_what_they_are() {
    let done = CoverageEntry::complete(r(100, 200), 3);
    assert!(done.status.is_usable());
    assert_eq!(done.status.label(), "Complete");
    let none = CoverageEntry::empty(r(100, 200));
    assert_eq!(none.status.label(), "Empty");
    let part = CoverageEntry::partial(r(100, 200), UnixMs::new(150));
    assert_eq!(part.status.label(), "Partial");
}

#[test]
fn complete_ranges_that_overlap_are_merged() {
    let mut ledger = CoverageLedger::new();
    ledger.mark_complete(trades(), r(100, 300), 10);
    ledger.mark_complete(trades(), r(200, 400), 10);
    assert_eq!(ledger.complete_ranges(&trades()), vec![r(100, 400)]);
    assert!(ledger.is_covered(&trades(), &r(100, 200)));
    assert_eq!(ledger.total_records(&trades()), 20);
    ledger.mark_complete(trades(), r(500, 600), 1);
    ledger.mark_failed(trades(), r(420, 450), "timeout".to_string(), None);
    ledger.mark_complete(trades(), r(350, 550), 4);
    assert_eq!(ledger.complete_ranges(&trades()), vec![r(100, 600)]);
    assert_eq!(ledger.to_persisted().entries[0].entries.len(), 1);
}

#[test]
fn a_range_within_another_is_counted_once() {
    let mut ledger = CoverageLedger::new();
    ledger.mark_complete(trades(), r(100, 400), 30);
    ledger.mark_complete(trades(), r(200, 300), 7);
    assert_eq!(ledger.complete_ranges(&trades()), vec![r(100, 400)]);
    assert_eq!(ledger.total_records(&trades()), 30);
    ledger.mark_complete(trades(), r(0, 500), 45);
    assert_eq!(ledger.complete_ranges(&trades()), vec![r(0, 500)]);
    assert_eq!(ledger.total_records(&trades()), 45);
    ledger.mark_complete(trades(), r(0, 500), 44);
    assert_eq!(ledger.total_records(&trades()), 44);
}

#[test]
fn streams_come_back_in_their_order() {
    let mut ledger = CoverageLedger::new();
    ledger.mark_complete(candles(), r(0, 300_000), 1);
    ledger.mark_complete(trades(), r(100, 200), 5);
    ledger.mark_stale(candles(), r(0, 300_000), "old");
    assert_eq!(ledger.keys(), vec![candles(), trades()]);
    let again = CoverageLedger::from_persisted(&ledger.to_persisted());
    assert_eq!(again.keys(), vec![candles(), trades()]);
    ledger.clear_all();
    assert!(ledger.keys().is_empty());
}
