//! Fetch jobs.

use flowsurface::market_data::job::{jobs_overlap, FetchJob, FetchJobStatus};
use flowsurface::market_data::key::{MarketDataKey, MarketKind, Symbol, Venue};
use flowsurface::market_data::range::MarketDataRange;
use flowsurface::market_data::requirement::{ConsumerFeature, ConsumerId};
use flowsurface::time::UnixMs;

fn make_trade_key() -> MarketDataKey {
    MarketDataKey::trades(
        Venue::BinanceLinear,
        Symbol::new("BTCUSDT"),
        MarketKind::LinearPerps,
    )
}

#[test]
fn job_test_job_lifecycle() {
    let key = make_trade_key();
    let range = MarketDataRange::new(UnixMs::new(100), UnixMs::new(200)).unwrap();
    let consumer =
        ConsumerId::global(ConsumerFeature::VolumeBubbles);

    let mut job = FetchJob::new(key, range, vec![consumer]);
    assert_eq!(job.status, FetchJobStatus::Pending);

    job.start();
    assert_eq!(job.status, FetchJobStatus::InProgress);

    job.complete(500);
    assert!(matches!(
        job.status,
        FetchJobStatus::Completed { records: 500 }
    ));
}

#[test]
fn test_job_failure_and_retry() {
    let key = make_trade_key();
    let range = MarketDataRange::new(UnixMs::new(100), UnixMs::new(200)).unwrap();

    let mut job = FetchJob::new(key, range, vec![]);
    job.start();
    job.fail("timeout".to_string());

    assert!(!job.can_retry()); // too early
    assert_eq!(job.attempts, 1);
}

#[test]
fn test_jobs_overlap() {
    let key = make_trade_key();
    let range1 = MarketDataRange::new(UnixMs::new(100), UnixMs::new(200)).unwrap();
    let range2 = MarketDataRange::new(UnixMs::new(150), UnixMs::new(250)).unwrap();
    let range3 = MarketDataRange::new(UnixMs::new(300), UnixMs::new(400)).unwrap();

    let job1 = FetchJob::new(key.clone(), range1, vec![]);
    let job2 = FetchJob::new(key.clone(), range2, vec![]);
    let job3 = FetchJob::new(key, range3, vec![]);

    assert!(jobs_overlap(&job1, &job2));
    assert!(!jobs_overlap(&job1, &job3));
}
