//! Holes in live data, and how they are filled.

use flowsurface::connector::fetcher::FetchRange;
use flowsurface::ids::Uuid;
use flowsurface::market::{Exchange, PushFrequency, StreamKind, StreamTicksize, Ticker, TickerInfo};
use flowsurface::screen::backfill::{
    decide_backfill, group_gaps, BackfillDecision, Backfills, PaneGap, StreamGaps,
};
use flowsurface::time::{Timeframe, UnixMs};

fn info() -> TickerInfo {
    TickerInfo::new(Ticker::new("BTCUSDT", Exchange::BinanceLinear))
}

fn trades() -> StreamKind {
    StreamKind::Trades { ticker_info: info() }
}

fn candles() -> StreamKind {
    StreamKind::Kline { ticker_info: info(), timeframe: Timeframe::M1 }
}

fn book() -> StreamKind {
    StreamKind::Depth {
        ticker_info: info(),
        depth_aggr: StreamTicksize::Client,
        push_freq: PushFrequency::ServerDefault,
    }
}

fn ms(v: u64) -> UnixMs {
    UnixMs::new(v)
}

fn gap(pane: u128, from: u64, to: u64) -> PaneGap {
    PaneGap { pane_id: Uuid(pane), from: ms(from), to: ms(to) }
}

#[test]
fn each_stream_gets_one_decision() {
    assert_eq!(
        decide_backfill(&book(), Some(ms(0)), ms(100_000)),
        BackfillDecision::DepthNotSupported
    );
    assert_eq!(decide_backfill(&trades(), None, ms(100_000)), BackfillDecision::NoLastSeen);
    assert_eq!(
        decide_backfill(&trades(), Some(ms(100_000)), ms(101_000)),
        BackfillDecision::GapTooSmall
    );
    assert_eq!(
        decide_backfill(&trades(), Some(ms(100_000)), ms(101_001)),
        BackfillDecision::Fetch { from: ms(100_001), to: ms(101_001), capped: false }
    );
    assert_eq!(
        decide_backfill(&trades(), Some(ms(100_000)), ms(1_000_001)),
        BackfillDecision::Fetch { from: ms(100_001), to: ms(1_000_001), capped: false }
    );
    assert_eq!(
        decide_backfill(&trades(), Some(ms(100_000)), ms(5_000_000)),
        BackfillDecision::Fetch { from: ms(4_100_000), to: ms(5_000_000), capped: true }
    );
    assert_eq!(
        decide_backfill(&trades(), Some(ms(u64::MAX)), ms(5)),
        BackfillDecision::GapTooSmall
    );
}

#[test]
fn panes_that_lack_the_same_share_a_request() {
    let groups = group_gaps(&[gap(1, 10, 20), gap(2, 30, 40), gap(3, 10, 20)]);
    assert_eq!(groups.len(), 2);
    assert_eq!((groups[0].from, groups[0].to), (ms(10), ms(20)));
    assert_eq!(groups[0].pane_ids, vec![Uuid(1), Uuid(3)]);
    assert_eq!(groups[1].pane_ids, vec![Uuid(2)]);
    assert!(group_gaps(&[]).is_empty());
}

#[test]
fn a_range_is_not_fetched_twice() {
    let mut b = Backfills::new();
    let lacks = [StreamGaps { stream: trades(), gaps: vec![gap(1, 10, 20), gap(2, 20, 30)] }];
    let asked = b.backfill_disconnected_streams(&lacks, 0);
    assert_eq!(asked.len(), 1);
    assert_eq!(asked[0].fetch, FetchRange::Trades(ms(10), ms(20)));
    assert_eq!(asked[0].pane_id, Uuid(1));
    assert!(asked[0].stream.same(&trades()));
    assert_eq!(b.pending_count(), 1);
    assert!(b.backfill_disconnected_streams(&lacks, 1).len() == 0);

    let other = [StreamGaps { stream: candles(), gaps: vec![gap(1, 10, 20)] }];
    let asked = b.backfill_disconnected_streams(&other, 1);
    assert_eq!(asked.len(), 1);
    assert_eq!(asked[0].fetch, FetchRange::Kline(ms(10), ms(20)));
}

#[test]
fn an_ended_range_can_be_fetched_again() {
    let mut b = Backfills::new();
    let lacks = [StreamGaps { stream: trades(), gaps: vec![gap(1, 10, 20)] }];
    b.backfill_disconnected_streams(&lacks, 0);
    b.clear_pending_backfill(&trades(), FetchRange::Trades(ms(10), ms(21)));
    assert_eq!(b.pending_count(), 1);
    b.clear_pending_backfill(&trades(), FetchRange::Trades(ms(10), ms(20)));
    assert!(b.is_idle());
    assert_eq!(b.backfill_disconnected_streams(&lacks, 1).len(), 1);
}

#[test]
fn a_forgotten_range_can_be_fetched_again() {
    let mut b = Backfills::new();
    let lacks = [StreamGaps { stream: trades(), gaps: vec![gap(1, 10, 20)] }];
    b.backfill_disconnected_streams(&lacks, 1_000);
    b.prune(60_999);
    assert!(b.is_pending(&trades(), ms(20), ms(25)));
    b.prune(61_000);
    assert!(!b.is_pending(&trades(), ms(20), ms(25)));
}

#[test]
fn order_books_are_not_filled() {
    let mut b = Backfills::new();
    let lacks = [StreamGaps { stream: book(), gaps: vec![gap(1, 10, 20)] }];
    assert!(b.backfill_disconnected_streams(&lacks, 0).is_empty());
    assert!(b.is_idle());
}

#[test]
fn the_last_record_counts_and_no_older_one() {
    let mut b = Backfills::new();
    assert_eq!(b.last_live(&trades()), None);
    b.note_live(&trades(), ms(500));
    b.note_live(&trades(), ms(400));
    assert_eq!(b.last_live(&trades()), Some(ms(500)));
    b.note_live(&trades(), ms(600));
    assert_eq!(b.last_live(&trades()), Some(ms(600)));
    assert_eq!(b.last_live(&candles()), None);
}

#[test]
fn a_loss_is_filled_once_when_the_connection_is_back() {
    let mut b = Backfills::new();
    b.note_live(&trades(), ms(100_000));
    b.note_live(&book(), ms(100_000));
    let lost = [trades(), candles(), book(), trades()];
    b.record_pending_disconnect_gaps(&lost, ms(100_087));
    let windows = b.execute_reconnect_backfill(ms(160_000), 0);
    assert_eq!(windows.len(), 1);
    assert!(windows[0].stream.same(&trades()));
    assert_eq!((windows[0].from, windows[0].to), (ms(100_001), ms(160_000)));
    assert!(b.execute_reconnect_backfill(ms(170_000), 0).is_empty());
}

#[test]
fn a_short_loss_is_not_filled() {
    let mut b = Backfills::new();
    b.note_live(&trades(), ms(100_000));
    assert!(b.open_backfill(&[trades()], ms(100_500), 0).is_empty());
}

#[test]
fn panes_lack_what_they_show_and_have_not() {
    let mut b = Backfills::new();
    b.note_live(&trades(), ms(100_000));
    b.note_live(&candles(), ms(100_000));
    let windows = b.open_backfill(&[trades(), candles()], ms(200_000), 0);
    assert_eq!(windows.len(), 2);
    let missing = Some((ms(150_000), ms(200_000)));
    assert_eq!(
        windows[0].pane_gap(Uuid(1), true, true, missing),
        Some(gap(1, 150_000, 200_000))
    );
    assert_eq!(windows[0].pane_gap(Uuid(1), true, true, None), None);
    assert_eq!(windows[0].pane_gap(Uuid(1), false, true, missing), None);
    assert_eq!(windows[0].pane_gap(Uuid(1), true, false, missing), None);
    assert_eq!(
        windows[1].pane_gap(Uuid(2), true, true, None),
        Some(gap(2, 100_001, 200_000))
    );
}

#[test]
fn gaps_are_taken_up() {
    let mut b = Backfills::new();
    let lacks = [StreamGaps {
        stream: candles(),
        gaps: vec![gap(1, 0, 60_000), gap(2, 120_000, 180_000)],
    }];
    b.backfill_disconnected_streams(&lacks, 0);
    assert!(b.is_pending(&candles(), ms(0), ms(60_000)));
    assert!(b.is_pending(&candles(), ms(120_000), ms(180_000)));
    assert!(!b.is_pending(&candles(), ms(60_001), ms(119_999)));
}
