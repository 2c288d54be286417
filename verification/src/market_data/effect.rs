//! What the market data layer asks of the charts and of the cache.

use vstd::prelude::*;
use crate::connector::fetcher::{stream_of, FetchRange};
use crate::ids::Uuid;
use crate::market::{Kline, OpenInterest, StreamKind, StreamView, TickerInfo, TickerView, Trade};
use crate::market_data::consumer::{ConsumerView, PendingMarketDataConsumer};
use crate::market_data::derived::bubbles::{summary_views, BubbleVolumeSummary, SummaryView};
use crate::market_data::key::{KeyView, MarketDataKey};
use crate::market_data::range::MarketDataRange;
use crate::time::{Timeframe, UnixMs};

verus! {

/// A change to be made to the charts.
#[derive(Debug)]
#[allow(inconsistent_fields)]
pub enum MarketDataChartEffect {
    InsertKlinesPartial {
        consumer: PendingMarketDataConsumer,
        stream: Option<StreamKind>,
        timeframe: Timeframe,
        ticker_info: TickerInfo,
        rows: Vec<Kline>,
    },
    InsertTrades {
        consumer: PendingMarketDataConsumer,
        stream: Option<StreamKind>,
        batch: Vec<Trade>,
        until_time: UnixMs,
    },
    InsertOpenInterestPartial { consumer: PendingMarketDataConsumer, rows: Vec<OpenInterest> },
    InsertBubbleSummaries {
        consumer: PendingMarketDataConsumer,
        summaries: Vec<BubbleVolumeSummary>,
        range: MarketDataRange,
        trades_seen: usize,
        raw_discarded: usize,
        complete: bool,
    },
    CompleteConsumer {
        consumer: PendingMarketDataConsumer,
        empty_covered_tail: Option<(UnixMs, UnixMs)>,
    },
    MarkConsumerCompleted { consumer: PendingMarketDataConsumer },
    CompleteLegacyTradeFetch {
        pane_id: Uuid,
        req_id: Option<Uuid>,
        fetch: FetchRange,
        empty_covered_tail: Option<(UnixMs, UnixMs)>,
    },
    MarkPaneReady { pane_id: Uuid },
    InsertLegacyTrades {
        pane_id: Uuid,
        req_id: Option<Uuid>,
        batch: Vec<Trade>,
        is_batches_done: bool,
    },
    InsertLegacyBubbleSummaries {
        pane_id: Uuid,
        req_id: Option<Uuid>,
        summaries: Vec<BubbleVolumeSummary>,
        range: (UnixMs, UnixMs),
        trades_seen: usize,
        raw_discarded: usize,
    },
    InsertLegacyKlines {
        pane_id: Uuid,
        req_id: Option<Uuid>,
        stream: StreamKind,
        rows: Vec<Kline>,
    },
    InsertLegacyOpenInterest { pane_id: Uuid, req_id: Option<Uuid>, rows: Vec<OpenInterest> },
    ProgressSnapshot,
}

/// A change to the charts as a value.
#[verifier::ext_equal]
#[allow(inconsistent_fields)]
pub enum EffectView {
    InsertKlinesPartial {
        consumer: ConsumerView,
        stream: Option<StreamView>,
        timeframe: Timeframe,
        ticker: TickerView,
        rows: Seq<Kline>,
    },
    InsertTrades {
        consumer: ConsumerView,
        stream: Option<StreamView>,
        batch: Seq<Trade>,
        until_time: UnixMs,
    },
    InsertOpenInterestPartial { consumer: ConsumerView, rows: Seq<OpenInterest> },
    InsertBubbleSummaries {
        consumer: ConsumerView,
        summaries: Seq<SummaryView>,
        range: MarketDataRange,
        trades_seen: usize,
        raw_discarded: usize,
        complete: bool,
    },
    CompleteConsumer { consumer: ConsumerView, empty_covered_tail: Option<(UnixMs, UnixMs)> },
    MarkConsumerCompleted { consumer: ConsumerView },
    CompleteLegacyTradeFetch {
        pane_id: Uuid,
        req_id: Option<Uuid>,
        fetch: FetchRange,
        empty_covered_tail: Option<(UnixMs, UnixMs)>,
    },
    MarkPaneReady { pane_id: Uuid },
    InsertLegacyTrades {
        pane_id: Uuid,
        req_id: Option<Uuid>,
        batch: Seq<Trade>,
        is_batches_done: bool,
    },
    InsertLegacyBubbleSummaries {
        pane_id: Uuid,
        req_id: Option<Uuid>,
        summaries: Seq<SummaryView>,
        range: (UnixMs, UnixMs),
        trades_seen: usize,
        raw_discarded: usize,
    },
    InsertLegacyKlines {
        pane_id: Uuid,
        req_id: Option<Uuid>,
        stream: StreamView,
        rows: Seq<Kline>,
    },
    InsertLegacyOpenInterest { pane_id: Uuid, req_id: Option<Uuid>, rows: Seq<OpenInterest> },
    ProgressSnapshot,
}

impl View for MarketDataChartEffect {
    type V = EffectView;

    open spec fn view(&self) -> EffectView {
        match *self {
            MarketDataChartEffect::InsertKlinesPartial {
                consumer,
                stream,
                timeframe,
                ticker_info,
                rows,
            } => EffectView::InsertKlinesPartial {
                consumer: consumer@,
                stream: stream_of(stream),
                timeframe,
                ticker: ticker_info@,
                rows: rows@,
            },
            MarketDataChartEffect::InsertTrades { consumer, stream, batch, until_time } =>
                EffectView::InsertTrades {
                consumer: consumer@,
                stream: stream_of(stream),
                batch: batch@,
                until_time,
            },
            MarketDataChartEffect::InsertOpenInterestPartial { consumer, rows } =>
                EffectView::InsertOpenInterestPartial { consumer: consumer@, rows: rows@ },
            MarketDataChartEffect::InsertBubbleSummaries {
                consumer,
                summaries,
                range,
                trades_seen,
                raw_discarded,
                complete,
            } => EffectView::InsertBubbleSummaries {
                consumer: consumer@,
                summaries: summary_views(summaries@),
                range,
                trades_seen,
                raw_discarded,
                complete,
            },
            MarketDataChartEffect::CompleteConsumer { consumer, empty_covered_tail } =>
                EffectView::CompleteConsumer { consumer: consumer@, empty_covered_tail },
            MarketDataChartEffect::MarkConsumerCompleted { consumer } =>
                EffectView::MarkConsumerCompleted { consumer: consumer@ },
            MarketDataChartEffect::CompleteLegacyTradeFetch {
                pane_id,
                req_id,
                fetch,
                empty_covered_tail,
            } => EffectView::CompleteLegacyTradeFetch {
                pane_id,
                req_id,
                fetch,
                empty_covered_tail,
            },
            MarketDataChartEffect::MarkPaneReady { pane_id } => EffectView::MarkPaneReady {
                pane_id,
            },
            MarketDataChartEffect::InsertLegacyTrades {
                pane_id,
                req_id,
                batch,
                is_batches_done,
            } => EffectView::InsertLegacyTrades {
                pane_id,
                req_id,
                batch: batch@,
                is_batches_done,
            },
            MarketDataChartEffect::InsertLegacyBubbleSummaries {
                pane_id,
                req_id,
                summaries,
                range,
                trades_seen,
                raw_discarded,
            } => EffectView::InsertLegacyBubbleSummaries {
                pane_id,
                req_id,
                summaries: summary_views(summaries@),
                range,
                trades_seen,
                raw_discarded,
            },
            MarketDataChartEffect::InsertLegacyKlines { pane_id, req_id, stream, rows } =>
                EffectView::InsertLegacyKlines { pane_id, req_id, stream: stream@, rows: rows@ },
            MarketDataChartEffect::InsertLegacyOpenInterest { pane_id, req_id, rows } =>
                EffectView::InsertLegacyOpenInterest { pane_id, req_id, rows: rows@ },
            MarketDataChartEffect::ProgressSnapshot => EffectView::ProgressSnapshot,
        }
    }
}

/// What several changes denote.
pub open spec fn effect_views(s: Seq<MarketDataChartEffect>) -> Seq<EffectView> {
    s.map_values(|e: MarketDataChartEffect| e@)
}

/// Records found in the cache, on their way to the charts.
#[derive(Debug)]
#[allow(inconsistent_fields)]
pub enum CachedMarketDataDispatch {
    Klines { key: MarketDataKey, range: MarketDataRange, timeframe: Timeframe, rows: Vec<Kline> },
    Trades { key: MarketDataKey, range: MarketDataRange, rows: Vec<Trade> },
    OpenInterest {
        key: MarketDataKey,
        range: MarketDataRange,
        timeframe: Timeframe,
        rows: Vec<OpenInterest>,
    },
}

/// Records found in the cache as a value.
#[verifier::ext_equal]
#[allow(inconsistent_fields)]
pub enum DispatchView {
    Klines { key: KeyView, range: MarketDataRange, timeframe: Timeframe, rows: Seq<Kline> },
    Trades { key: KeyView, range: MarketDataRange, rows: Seq<Trade> },
    OpenInterest {
        key: KeyView,
        range: MarketDataRange,
        timeframe: Timeframe,
        rows: Seq<OpenInterest>,
    },
}

impl View for CachedMarketDataDispatch {
    type V = DispatchView;

    open spec fn view(&self) -> DispatchView {
        match *self {
            CachedMarketDataDispatch::Klines { key, range, timeframe, rows } =>
                DispatchView::Klines { key: key@, range, timeframe, rows: rows@ },
            CachedMarketDataDispatch::Trades { key, range, rows } => DispatchView::Trades {
                key: key@,
                range,
                rows: rows@,
            },
            CachedMarketDataDispatch::OpenInterest { key, range, timeframe, rows } =>
                DispatchView::OpenInterest { key: key@, range, timeframe, rows: rows@ },
        }
    }
}

/// What several dispatches denote.
pub open spec fn dispatch_views(s: Seq<CachedMarketDataDispatch>) -> Seq<DispatchView> {
    s.map_values(|d: CachedMarketDataDispatch| d@)
}

/// A change to be made to the cache.
#[derive(Debug)]
#[allow(inconsistent_fields)]
pub enum CacheCommand {
    /// Add trades to the file of a stream.
    StoreTrades { key: MarketDataKey, rows: Vec<Trade> },
    /// Add candles to the file of a stream.
    StoreKlines { key: MarketDataKey, rows: Vec<Kline> },
    /// Add open interest readings to the file of a stream.
    StoreOpenInterest { key: MarketDataKey, rows: Vec<OpenInterest> },
    /// Save what is known to be covered.
    SaveCoverage,
}

/// A change to the cache as a value.
#[verifier::ext_equal]
#[allow(inconsistent_fields)]
pub enum CommandView {
    StoreTrades { key: KeyView, rows: Seq<Trade> },
    StoreKlines { key: KeyView, rows: Seq<Kline> },
    StoreOpenInterest { key: KeyView, rows: Seq<OpenInterest> },
    SaveCoverage,
}

impl View for CacheCommand {
    type V = CommandView;

    open spec fn view(&self) -> CommandView {
        match *self {
            CacheCommand::StoreTrades { key, rows } => CommandView::StoreTrades {
                key: key@,
                rows: rows@,
            },
            CacheCommand::StoreKlines { key, rows } => CommandView::StoreKlines {
                key: key@,
                rows: rows@,
            },
            CacheCommand::StoreOpenInterest { key, rows } => CommandView::StoreOpenInterest {
                key: key@,
                rows: rows@,
            },
            CacheCommand::SaveCoverage => CommandView::SaveCoverage,
        }
    }
}

/// What several changes denote.
pub open spec fn command_views(s: Seq<CacheCommand>) -> Seq<CommandView> {
    s.map_values(|c: CacheCommand| c@)
}

} // verus!
