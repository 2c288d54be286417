//! How far the jobs have got.

use flowsurface::market_data::job::FetchJob;
use flowsurface::market_data::key::{MarketDataKey, MarketKind, Symbol, Venue};
use flowsurface::market_data::progress::MarketDataProgressSnapshot;
use flowsurface::market_data::range::MarketDataRange;
use flowsurface::time::UnixMs;

#[test]
fn test_empty_snapshot() {
    let snapshot = MarketDataProgressSnapshot::empty();
    assert!(!snapshot.is_loading());
    assert_eq!(snapshot.active_job_count(), 0);
    assert_eq!(snapshot.message, "Ready");
}

#[test]
fn test_snapshot_with_jobs() {
    let key = MarketDataKey::trades(
        Venue::BinanceLinear,
        Symbol::new("BTCUSDT"),
        MarketKind::LinearPerps,
    );
    let range =
        MarketDataRange::new(UnixMs::new(100), UnixMs::new(200)).unwrap();

    let mut job = FetchJob::new(key, range, vec![]);
    job.start();

    let mut snapshot = MarketDataProgressSnapshot::empty();
    snapshot.active_jobs.push(job);

    assert!(snapshot.is_loading());
    assert_eq!(snapshot.active_job_count(), 1);
}
