//! What is said of the progress.

use flowsurface::market_data::job::FetchJob;
use flowsurface::market_data::key::{MarketDataKey, MarketKind, Symbol, Venue};
use flowsurface::market_data::progress::MarketDataProgressSnapshot;
use flowsurface::market_data::range::MarketDataRange;
use flowsurface::market_data::requirement::{ConsumerFeature, ConsumerId};
use flowsurface::market_data::ui::{format_number, MarketDataProgressWidget};
use flowsurface::time::UnixMs;

#[test]
fn test_format_number() {
    assert_eq!(format_number(0), "0");
    assert_eq!(format_number(123), "123");
    assert_eq!(format_number(1234), "1,234");
    assert_eq!(format_number(1234567), "1,234,567");
}

#[test]
fn test_widget_empty() {
    let widget = MarketDataProgressWidget::new();
    assert!(!widget.is_loading());
    assert!(!widget.is_expanded());
}

#[test]
fn test_widget_with_snapshot() {
    let key = MarketDataKey::trades(
        Venue::BinanceLinear,
        Symbol::new("BTCUSDT"),
        MarketKind::LinearPerps,
    );
    let range =
        MarketDataRange::new(UnixMs::new(100), UnixMs::new(200)).unwrap();

    let mut job = FetchJob::new(
        key,
        range,
        vec![ConsumerId::global(
            ConsumerFeature::VolumeBubbles,
        )],
    );
    job.start();

    let mut snapshot = MarketDataProgressSnapshot::empty();
    snapshot.active_jobs.push(job);

    let mut widget = MarketDataProgressWidget::new();
    widget.update(snapshot);

    assert!(widget.is_loading());
    assert_eq!(widget.snapshot().active_job_count(), 1);
}

#[test]
fn test_widget_toggle() {
    let mut widget = MarketDataProgressWidget::new();
    assert!(!widget.is_expanded());

    widget.toggle_expanded();
    assert!(widget.is_expanded());

    widget.toggle_expanded();
    assert!(!widget.is_expanded());
}
