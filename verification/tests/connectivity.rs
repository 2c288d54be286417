//! The connection to the exchanges.

use flowsurface::market::{Exchange, StreamKind, Ticker, TickerInfo};
use flowsurface::market_service::{
    ConnectivityTransition, MarketConnectivity, MarketDiagnostics, MarketStore,
};
use flowsurface::time::{Timeframe, UnixMs};

fn info() -> TickerInfo {
    TickerInfo::new(Ticker::new("BTCUSDT", Exchange::BinanceLinear))
}

fn trades() -> StreamKind {
    StreamKind::Trades { ticker_info: info() }
}

fn candles() -> StreamKind {
    StreamKind::Kline { ticker_info: info(), timeframe: Timeframe::M1 }
}

#[test]
fn goes_offline_after_the_grace_period() {
    let mut c = MarketConnectivity::new();
    assert_eq!(c.sync_expected(&[trades(), candles()], 0), ConnectivityTransition::Unchanged);
    assert!(!c.is_online());
    assert_eq!(c.record_connected(&[trades(), candles()], 10), ConnectivityTransition::Unchanged);
    assert!(c.is_online());
    c.record_disconnected(&[trades()], "reset".to_string(), 1_000);
    assert_eq!(c.last_reason(), Some("reset"));
    assert_eq!(c.tick(2_499), ConnectivityTransition::Unchanged);
    assert_eq!(c.tick(2_500), ConnectivityTransition::WentOffline);
    assert_eq!(c.tick(9_000), ConnectivityTransition::Unchanged);
    assert!(c.overlay_visible());
}

#[test]
fn one_stream_hides_nothing_and_all_restore_once() {
    let mut c = MarketConnectivity::new();
    c.sync_expected(&[trades(), candles()], 0);
    c.record_connected(&[trades(), candles()], 0);
    c.record_disconnected(&[trades(), candles()], "reset".to_string(), 0);
    assert_eq!(c.tick(5_000), ConnectivityTransition::WentOffline);
    assert_eq!(c.record_connected(&[trades()], 5_100), ConnectivityTransition::Unchanged);
    assert!(!c.is_online());
    assert_eq!((c.connected_count(), c.expected_count()), (1, 2));
    assert_eq!(c.record_connected(&[candles()], 5_200), ConnectivityTransition::Restored);
    assert_eq!(c.tick(5_300), ConnectivityTransition::Unchanged);
    assert_eq!(c.last_reason(), None);
}

#[test]
fn removed_streams_do_not_matter() {
    let mut c = MarketConnectivity::new();
    c.sync_expected(&[trades(), candles()], 0);
    c.record_connected(&[trades()], 0);
    assert!(!c.is_online());
    c.sync_expected(&[trades()], 10);
    assert!(c.is_online());
}

#[test]
fn the_store_counts_events() {
    let mut s = MarketStore::new();
    s.enqueue_event();
    s.enqueue_event();
    assert_eq!(s.queued_events(), 2);
    assert_eq!(s.drain_events(), 2);
    assert_eq!(s.queued_events(), 0);
    s.record_ws_event_at(UnixMs::new(3_661_000));
    assert_eq!(s.last_ws_event_at(), 3_661_000);
    s.set_streams_connected(true);
    assert!(s.is_streams_connected());
    s.set_ui_focused(false);
    assert!(!s.is_ui_focused());
}

#[test]
fn diagnostics_are_written_now_and_then() {
    let mut s = MarketStore::new();
    s.record_ws_event_at(UnixMs::new(3_661_000));
    s.enqueue_event();
    s.set_ui_focused(false);
    s.set_streams_connected(true);
    let mut d = MarketDiagnostics::new(0);
    assert_eq!(d.maybe_log(&s, 29_999), None);
    assert_eq!(
        d.maybe_log(&s, 30_000).unwrap(),
        "MARKET BackendAlive | last_ws_event=01:01:01 queued_events=1 ui_focused=false \
         streams_connected=true"
    );
    assert_eq!(d.maybe_log(&s, 30_001), None);
}
