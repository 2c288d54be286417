//! What changes to the charts do to panes.

use flowsurface::connector::fetcher::{
    FetchRange, FetchTaskStatus, FetchUpdate, FetchedData, InfoKind,
};
use flowsurface::ids::Uuid;
use flowsurface::market::{
    Exchange, Kline, Price, Qty, StreamKind, Ticker, TickerInfo, Trade, Volume,
};
use flowsurface::market_data::consumer::PendingMarketDataConsumer;
use flowsurface::market_data::coordinator::MarketDataCoordinator;
use flowsurface::market_data::effect::MarketDataChartEffect;
use flowsurface::market_data::key::{MarketDataKey, MarketKind, Symbol, Venue};
use flowsurface::market_data::range::MarketDataRange;
use flowsurface::market_data::requirement::ConsumerFeature;
use flowsurface::market_data::runtime::MarketDataRuntime;
use flowsurface::screen::backfill::{PaneGap, StreamGaps};
use flowsurface::screen::content::{
    focuses_only_pane, new_pane_place, popout_step, ConfigKind, ContentKind, NewPanePlace, PopoutStep,
};
use flowsurface::screen::dashboard::{BackfillStep, Dashboard, Message};
use flowsurface::screen::links::{
    history_stream, is_ticked, leaves_group, panes_in_group, switch_target, ticker_of_group,
    LinkGroup, LinkedPane, SwitchTarget,
};
use flowsurface::screen::pane_action::{
    apply_market_data_effect, insert_fetched_trades, DashboardError, PaneAction, PaneFacts,
    PaneStatus,
};
use flowsurface::time::{Timeframe, UnixMs};
use flowsurface::windowing::WindowingMode;

fn ms(v: u64) -> UnixMs {
    UnixMs::new(v)
}

fn info(symbol: &str) -> TickerInfo {
    TickerInfo::new(Ticker::new(symbol, Exchange::BinanceLinear))
}

fn trades() -> StreamKind {
    StreamKind::Trades { ticker_info: info("BTCUSDT") }
}

fn candles() -> StreamKind {
    StreamKind::Kline { ticker_info: info("BTCUSDT"), timeframe: Timeframe::M1 }
}

fn trade(time: u64) -> Trade {
    Trade { time: ms(time), is_sell: false, price: Price { units: 1 }, qty: Qty { units: 1 } }
}

fn kline(time: u64) -> Kline {
    let p = Price { units: 1 };
    Kline {
        time: ms(time),
        open: p,
        high: p,
        low: p,
        close: p,
        volume: Volume::TotalOnly(Qty { units: 1 }),
    }
}

fn consumer(feature: ConsumerFeature, fetch: FetchRange) -> PendingMarketDataConsumer {
    PendingMarketDataConsumer {
        pane_id: Uuid(1),
        req_id: Uuid(2),
        fetch,
        stream: None,
        key: MarketDataKey::klines(
            Venue::BinanceLinear,
            Symbol::new("BTCUSDT"),
            MarketKind::LinearPerps,
            Timeframe::M1,
        ),
        range: MarketDataRange::new(ms(0), ms(60_000)).unwrap(),
        feature,
        bubble_config: None,
        chart_generation: 7,
        has_partial_updates: false,
        completed: false,
        required_segments: Vec::new(),
        completed_segments: Vec::new(),
        failed_segments: Vec::new(),
        delivered_segments: Vec::new(),
    }
}

fn candle_consumer() -> PendingMarketDataConsumer {
    consumer(ConsumerFeature::ChartKlines, FetchRange::Kline(ms(0), ms(60_000)))
}

fn pane(generation: Option<u64>) -> Option<PaneFacts> {
    Some(PaneFacts { generation, ready_streams: vec![trades(), candles()] })
}

fn partial_candles() -> MarketDataChartEffect {
    MarketDataChartEffect::InsertKlinesPartial {
        consumer: candle_consumer(),
        stream: None,
        timeframe: Timeframe::M1,
        ticker_info: info("BTCUSDT"),
        rows: vec![kline(0)],
    }
}

#[test]
fn candles_reach_the_pane_that_asked() {
    match apply_market_data_effect(partial_candles(), &pane(Some(7))) {
        PaneAction::InsertKlinesPartial { pane_id, req_id, rows, .. } => {
            assert_eq!((pane_id, req_id, rows.len()), (Uuid(1), Uuid(2), 1));
        }
        other => panic!("{:?}", other),
    }
}

#[test]
fn outdated_candles_are_dropped() {
    assert!(matches!(
        apply_market_data_effect(partial_candles(), &pane(Some(8))),
        PaneAction::Skip
    ));
    assert!(matches!(apply_market_data_effect(partial_candles(), &None), PaneAction::Skip));
    let complete = MarketDataChartEffect::CompleteConsumer {
        consumer: candle_consumer(),
        empty_covered_tail: None,
    };
    assert!(matches!(apply_market_data_effect(complete, &pane(Some(8))), PaneAction::Skip));
}

#[test]
fn requests_are_completed_by_their_kind() {
    let complete = |consumer| MarketDataChartEffect::CompleteConsumer {
        consumer,
        empty_covered_tail: None,
    };
    assert!(matches!(
        apply_market_data_effect(complete(candle_consumer()), &pane(Some(7))),
        PaneAction::CompleteRequest { req_id: Uuid(2), .. }
    ));
    let footprint =
        consumer(ConsumerFeature::Footprint, FetchRange::Trades(ms(0), ms(60_000)));
    assert!(matches!(
        apply_market_data_effect(complete(footprint), &pane(Some(7))),
        PaneAction::CompleteTradeFetch { ready: true, req_id: Some(Uuid(2)), .. }
    ));
    let bubbles =
        consumer(ConsumerFeature::VolumeBubbles, FetchRange::Trades(ms(0), ms(60_000)));
    assert!(matches!(
        apply_market_data_effect(complete(bubbles), &pane(Some(7))),
        PaneAction::MarkReady { pane_id: Uuid(1) }
    ));
    assert!(matches!(
        apply_market_data_effect(complete(candle_consumer()), &pane(None)),
        PaneAction::MarkReady { pane_id: Uuid(1) }
    ));
}

#[test]
fn trades_are_handed_on_with_their_stream() {
    let mut c = consumer(ConsumerFeature::Footprint, FetchRange::Trades(ms(0), ms(60_000)));
    c.key = MarketDataKey::trades(
        Venue::BinanceLinear,
        Symbol::new("BTCUSDT"),
        MarketKind::LinearPerps,
    );
    let effect = MarketDataChartEffect::InsertTrades {
        consumer: c,
        stream: None,
        batch: vec![trade(5)],
        until_time: ms(60_000),
    };
    match apply_market_data_effect(effect, &pane(Some(7))) {
        PaneAction::DistributeTrades { stream, batch, until_time, .. } => {
            assert!(stream.same(&trades()));
            assert_eq!((batch.len(), until_time), (1, ms(60_000)));
        }
        other => panic!("{:?}", other),
    }
}

#[test]
fn plain_changes_need_their_pane() {
    let effect = || MarketDataChartEffect::MarkPaneReady { pane_id: Uuid(1) };
    assert!(matches!(
        apply_market_data_effect(effect(), &pane(None)),
        PaneAction::MarkReady { pane_id: Uuid(1) }
    ));
    assert!(matches!(apply_market_data_effect(effect(), &None), PaneAction::Skip));
    assert!(matches!(
        apply_market_data_effect(MarketDataChartEffect::ProgressSnapshot, &None),
        PaneAction::TellProgress
    ));
    let klines = MarketDataChartEffect::InsertLegacyKlines {
        pane_id: Uuid(1),
        req_id: None,
        stream: trades(),
        rows: vec![kline(0)],
    };
    assert!(matches!(
        apply_market_data_effect(klines, &pane(None)),
        PaneAction::MarkReady { .. }
    ));
}

#[test]
fn fetched_trades_are_counted() {
    let some = [trade(1), trade(2)];
    let loading = PaneStatus::Loading(InfoKind::FetchingTrades(3));
    assert!(matches!(
        insert_fetched_trades(Some((loading, true)), &some, false),
        Ok(Some(PaneStatus::Loading(InfoKind::FetchingTrades(5))))
    ));
    assert!(matches!(
        insert_fetched_trades(Some((PaneStatus::Ready, true)), &some, false),
        Ok(Some(PaneStatus::Loading(InfoKind::FetchingTrades(2))))
    ));
    assert!(matches!(
        insert_fetched_trades(Some((loading, true)), &some, true),
        Ok(Some(PaneStatus::Ready))
    ));
    assert!(matches!(insert_fetched_trades(Some((loading, false)), &some, false), Ok(None)));
    match insert_fetched_trades(None, &some, false) {
        Err(DashboardError::Unknown(reason)) => {
            assert_eq!(reason, "No matching pane state found for fetched trades");
        }
        other => panic!("{:?}", other),
    }
}

fn linked(id: u128, group: Option<u8>, ticker: Option<&str>) -> LinkedPane {
    LinkedPane {
        pane_id: Uuid(id),
        group: group.map(LinkGroup),
        ticker: ticker.map(|t| info(t)),
    }
}

#[test]
fn a_pane_takes_over_the_ticker_of_its_group() {
    let panes = [
        linked(1, Some(1), Some("BTCUSDT")),
        linked(2, Some(2), Some("ETHUSDT")),
        linked(3, Some(2), Some("SOLUSDT")),
    ];
    let taken = ticker_of_group(&panes, Uuid(1), LinkGroup(2), &Some(info("BTCUSDT"))).unwrap();
    assert_eq!(taken.ticker.symbol, "ETHUSDT");
    assert!(ticker_of_group(&panes, Uuid(1), LinkGroup(2), &Some(info("ETHUSDT"))).is_none());
    assert!(ticker_of_group(&panes, Uuid(1), LinkGroup(1), &None).is_none());
    assert_eq!(panes_in_group(&panes, LinkGroup(2)), vec![Uuid(2), Uuid(3)]);
}

#[test]
fn another_ticker_ends_the_link() {
    assert!(leaves_group(&Some(info("BTCUSDT")), &info("ETHUSDT")));
    assert!(!leaves_group(&Some(info("BTCUSDT")), &info("BTCUSDT")));
    assert!(!leaves_group(&None, &info("BTCUSDT")));
}

#[test]
fn a_new_ticker_has_one_target() {
    assert_eq!(switch_target(Some(Some(Some(LinkGroup(3))))), SwitchTarget::Group(LinkGroup(3)));
    assert_eq!(switch_target(Some(Some(None))), SwitchTarget::FocusedPane);
    assert_eq!(
        switch_target(Some(None)).warning(),
        Some("Couldn't get focused pane's content")
    );
    assert_eq!(switch_target(None).warning(), Some("No link group or focused pane found"));
    assert_eq!(SwitchTarget::FocusedPane.warning(), None);
}

#[test]
fn history_is_fetched_for_the_first_candles() {
    assert!(history_stream(&[trades(), candles()]).unwrap().same(&candles()));
    assert!(history_stream(&[trades()]).is_none());
}

#[test]
fn only_the_maximized_pane_is_kept_up_to_date() {
    assert!(is_ticked(None, Uuid(1)));
    assert!(is_ticked(Some(Uuid(1)), Uuid(1)));
    assert!(!is_ticked(Some(Uuid(2)), Uuid(1)));
}

#[test]
fn news_of_fetches_become_messages() {
    let loading = FetchUpdate::Status {
        pane_id: Uuid(1),
        status: FetchTaskStatus::Loading(InfoKind::FetchingOI),
    };
    assert!(matches!(
        Message::from(loading),
        Message::ChangePaneStatus(Uuid(1), PaneStatus::Loading(InfoKind::FetchingOI))
    ));
    let failed = FetchUpdate::Error {
        pane_id: Uuid(1),
        error: "no".to_string(),
        req_id: Some(Uuid(2)),
        fetch: None,
    };
    assert!(matches!(Message::from(failed), Message::FetchFailed { req_id: Some(Uuid(2)), .. }));
    let data = FetchUpdate::Data {
        layout_id: Uuid(9),
        pane_id: Uuid(1),
        stream: trades(),
        data: FetchedData::Klines { data: vec![], req_id: None },
    };
    assert!(matches!(
        Message::from(data),
        Message::DistributeFetchedData { layout_id: Uuid(9), .. }
    ));
}

fn dashboard() -> Dashboard {
    Dashboard::from_runtime(MarketDataRuntime::from_parts(MarketDataCoordinator::new(), 0))
}

#[test]
fn live_data_is_stored_and_not_covered() {
    let mut d = dashboard();
    d.update_latest_klines(&candles(), &kline(60_000));
    d.ingest_trades(&trades(), &[trade(61_000), trade(62_000)], ms(70_000));
    assert_eq!(d.backfills.last_live(&candles()), Some(ms(60_000)));
    assert_eq!(d.backfills.last_live(&trades()), Some(ms(62_000)));
    let key = candle_consumer().key;
    assert_eq!(d.market_data_runtime.coordinator.store.kline_count(&key), 1);
    assert!(d.market_data_runtime.coordinator.coverage.is_empty());
    d.ingest_trades(&trades(), &[], ms(80_000));
    assert_eq!(d.backfills.last_live(&trades()), Some(ms(80_000)));
}

#[test]
fn a_fetch_that_ended_frees_its_range() {
    let mut d = dashboard();
    let gaps = vec![PaneGap { pane_id: Uuid(1), from: ms(0), to: ms(50) }];
    d.backfills.backfill_disconnected_streams(&[StreamGaps { stream: trades(), gaps }], 0);
    let loading = FetchUpdate::Status {
        pane_id: Uuid(1),
        status: FetchTaskStatus::Loading(InfoKind::FetchingTrades(0)),
    };
    assert!(matches!(
        d.apply_backfill_update(&trades(), loading),
        BackfillStep::SetLoading(InfoKind::FetchingTrades(0))
    ));
    assert!(!d.backfills.is_idle());
    let failed = FetchUpdate::Error {
        pane_id: Uuid(1),
        error: "timed out".to_string(),
        req_id: None,
        fetch: Some(FetchRange::Trades(ms(0), ms(50))),
    };
    assert!(matches!(
        d.apply_backfill_update(&trades(), failed),
        BackfillStep::Fail { pane_id: Uuid(1), .. }
    ));
    assert!(d.backfills.is_idle());
}

#[test]
fn the_coverage_is_saved_now_and_then() {
    let mut d = dashboard();
    assert!(d.tick(0, 30_000).is_empty());
    assert!(d.market_data_runtime.take_cache_commands().is_empty());
    d.tick(0, 30_001);
    assert_eq!(d.market_data_runtime.take_cache_commands().len(), 1);
    d.tick(0, 30_002);
    assert!(d.market_data_runtime.take_cache_commands().is_empty());
}

#[test]
fn failures_of_unknown_fetches_are_up_to_the_pane() {
    let mut d = dashboard();
    assert!(!d.fetch_failed(None, "no"));
    assert!(!d.fetch_failed(Some(Uuid(5)), "no"));
    assert!(d.complete_fetch(Uuid(1), &None, None, None, None).is_empty());
}

#[test]
fn shared_settings_reach_their_kind_of_pane() {
    assert!(ContentKind::ShaderHeatmap.takes_config(None, ConfigKind::Heatmap));
    assert!(!ContentKind::Kline.takes_config(None, ConfigKind::Heatmap));
    assert!(!ContentKind::Ladder.takes_config(None, ConfigKind::Ladder));
    assert!(ContentKind::Ladder.takes_config(Some(ConfigKind::Ladder), ConfigKind::Ladder));
    assert!(!ContentKind::Kline.takes_config(Some(ConfigKind::Heatmap), ConfigKind::Kline));
}

#[test]
fn live_data_is_drawn_where_it_belongs() {
    assert!(ContentKind::Ladder.takes_trades() && ContentKind::Ladder.takes_depth());
    assert!(!ContentKind::Comparison.takes_trades() && ContentKind::Comparison.takes_klines());
    assert!(!ContentKind::Kline.takes_depth() && !ContentKind::Starter.takes_klines());
}

#[test]
fn panes_have_their_place() {
    assert_eq!(new_pane_place(true, 3), NewPanePlace::BesideFocus);
    assert_eq!(new_pane_place(false, 3), NewPanePlace::BesideLast);
    assert_eq!(new_pane_place(false, 0), NewPanePlace::NewGrid);
    assert!(focuses_only_pane(false, 1));
    assert!(!focuses_only_pane(true, 1) && !focuses_only_pane(false, 2));
}

#[test]
fn panes_pop_out_only_into_native_windows() {
    assert_eq!(popout_step(WindowingMode::NativeMultiWindow, true), PopoutStep::OpenWindow);
    assert_eq!(popout_step(WindowingMode::SingleWindowEmbedded, true), PopoutStep::Maximize);
    assert_eq!(popout_step(WindowingMode::NativeMultiWindow, false), PopoutStep::Nothing);
}
