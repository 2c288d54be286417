//! What a change to the charts does to the pane that it is meant for.

use vstd::prelude::*;
use vstd::string::*;
use crate::connector::fetcher::{stream_of, stream_views, FetchRange, InfoKind};
use crate::ids::Uuid;
use crate::market::{Kline, OpenInterest, StreamKind, StreamView, TickerInfo, TickerView, Trade};
use crate::market_data::consumer::{ConsumerView, PendingMarketDataConsumer};
use crate::market_data::derived::bubbles::{summary_views, BubbleVolumeSummary, SummaryView};
use crate::market_data::effect::{EffectView, MarketDataChartEffect};
use crate::market_data::key::{KeyView, MarketDataKey};
use crate::market_data::runtime::model::or_else;
use crate::market_data::runtime::route_model::first_carrying;
use crate::market_data::runtime::routing::first_carrying_stream;
use crate::market_data::requirement::ConsumerFeature;
use crate::time::{Timeframe, UnixMs};

verus! {

/// What is known of a pane.
#[derive(Debug)]
pub struct PaneFacts {
    /// The generation of its candle chart, if it shows one.
    pub generation: Option<u64>,
    /// Its streams.
    pub ready_streams: Vec<StreamKind>,
}

/// What is known of a pane, as a value.
#[verifier::ext_equal]
pub struct PaneView {
    pub generation: Option<u64>,
    pub ready: Seq<StreamView>,
}

impl View for PaneFacts {
    type V = PaneView;

    open spec fn view(&self) -> PaneView {
        PaneView { generation: self.generation, ready: stream_views(self.ready_streams@) }
    }
}

/// What an optional pane denotes.
pub open spec fn pane_of(pane: Option<PaneFacts>) -> Option<PaneView> {
    match pane {
        Some(p) => Some(p@),
        None => None,
    }
}

/// What a pane does.
#[derive(Debug)]
#[allow(inconsistent_fields)]
pub enum PaneAction {
    /// Nothing.
    Skip,
    /// The pane is ready.
    MarkReady { pane_id: Uuid },
    /// The pane is ready, and gets part of the candles of a request.
    InsertKlinesPartial {
        pane_id: Uuid,
        req_id: Uuid,
        timeframe: Timeframe,
        ticker_info: TickerInfo,
        rows: Vec<Kline>,
    },
    /// Trades of a request are handed on as if they had just been fetched.
    DistributeTrades {
        pane_id: Uuid,
        req_id: Uuid,
        stream: StreamKind,
        batch: Vec<Trade>,
        until_time: UnixMs,
    },
    /// The pane is ready, and gets part of the open interest of a request.
    InsertOpenInterestPartial { pane_id: Uuid, req_id: Uuid, rows: Vec<OpenInterest> },
    /// The pane is ready, and its candle chart, if it has one, gets summaries of trades. They
    /// complete a request or update it.
    InsertBubbleSummaries {
        pane_id: Uuid,
        req_id: Option<Uuid>,
        summaries: Vec<BubbleVolumeSummary>,
        from: UnixMs,
        to: UnixMs,
        trades_seen: usize,
        raw_discarded: usize,
        complete: bool,
    },
    /// A request for trades of the candle chart is complete.
    CompleteTradeFetch {
        pane_id: Uuid,
        req_id: Option<Uuid>,
        fetch: FetchRange,
        empty_covered_tail: Option<(UnixMs, UnixMs)>,
        /// True when the pane is ready then.
        ready: bool,
    },
    /// A request of the candle chart is complete. If the chart still knows it, its range counts
    /// as filled and the pane is ready.
    CompleteRequest {
        pane_id: Uuid,
        req_id: Uuid,
        fetch: FetchRange,
        empty_covered_tail: Option<(UnixMs, UnixMs)>,
    },
    /// The pane gets trades. See `insert_fetched_trades` for its status.
    InsertTrades { pane_id: Uuid, batch: Vec<Trade>, is_batches_done: bool },
    /// The pane is ready, and gets candles.
    InsertKlines {
        pane_id: Uuid,
        req_id: Option<Uuid>,
        timeframe: Timeframe,
        ticker_info: TickerInfo,
        rows: Vec<Kline>,
    },
    /// The pane is ready, and gets open interest.
    InsertOpenInterest { pane_id: Uuid, req_id: Option<Uuid>, rows: Vec<OpenInterest> },
    /// The state of all jobs is to be told.
    TellProgress,
}

/// What a pane does, as a value.
#[verifier::ext_equal]
#[allow(inconsistent_fields)]
pub enum ActionView {
    Skip,
    MarkReady { pane_id: Uuid },
    InsertKlinesPartial {
        pane_id: Uuid,
        req_id: Uuid,
        timeframe: Timeframe,
        ticker: TickerView,
        rows: Seq<Kline>,
    },
    DistributeTrades {
        pane_id: Uuid,
        req_id: Uuid,
        stream: StreamView,
        batch: Seq<Trade>,
        until_time: UnixMs,
    },
    InsertOpenInterestPartial { pane_id: Uuid, req_id: Uuid, rows: Seq<OpenInterest> },
    InsertBubbleSummaries {
        pane_id: Uuid,
        req_id: Option<Uuid>,
        summaries: Seq<SummaryView>,
        from: UnixMs,
        to: UnixMs,
        trades_seen: usize,
        raw_discarded: usize,
        complete: bool,
    },
    CompleteTradeFetch {
        pane_id: Uuid,
        req_id: Option<Uuid>,
        fetch: FetchRange,
        empty_covered_tail: Option<(UnixMs, UnixMs)>,
        ready: bool,
    },
    CompleteRequest {
        pane_id: Uuid,
        req_id: Uuid,
        fetch: FetchRange,
        empty_covered_tail: Option<(UnixMs, UnixMs)>,
    },
    InsertTrades { pane_id: Uuid, batch: Seq<Trade>, is_batches_done: bool },
    InsertKlines {
        pane_id: Uuid,
        req_id: Option<Uuid>,
        timeframe: Timeframe,
        ticker: TickerView,
        rows: Seq<Kline>,
    },
    InsertOpenInterest { pane_id: Uuid, req_id: Option<Uuid>, rows: Seq<OpenInterest> },
    TellProgress,
}

impl View for PaneAction {
    type V = ActionView;

    open spec fn view(&self) -> ActionView {
        match *self {
            PaneAction::Skip => ActionView::Skip,
            PaneAction::MarkReady { pane_id } => ActionView::MarkReady { pane_id },
            PaneAction::InsertKlinesPartial { pane_id, req_id, timeframe, ticker_info, rows } =>
                ActionView::InsertKlinesPartial {
                pane_id,
                req_id,
                timeframe,
                ticker: ticker_info@,
                rows: rows@,
            },
            PaneAction::DistributeTrades { pane_id, req_id, stream, batch, until_time } =>
                ActionView::DistributeTrades {
                pane_id,
                req_id,
                stream: stream@,
                batch: batch@,
                until_time,
            },
            PaneAction::InsertOpenInterestPartial { pane_id, req_id, rows } =>
                ActionView::InsertOpenInterestPartial { pane_id, req_id, rows: rows@ },
            PaneAction::InsertBubbleSummaries {
                pane_id,
                req_id,
                summaries,
                from,
                to,
                trades_seen,
                raw_discarded,
                complete,
            } => ActionView::InsertBubbleSummaries {
                pane_id,
                req_id,
                summaries: summary_views(summaries@),
                from,
                to,
                trades_seen,
                raw_discarded,
                complete,
            },
            PaneAction::CompleteTradeFetch {
                pane_id,
                req_id,
                fetch,
                empty_covered_tail,
                ready,
            } => ActionView::CompleteTradeFetch {
                pane_id,
                req_id,
                fetch,
                empty_covered_tail,
                ready,
            },
            PaneAction::CompleteRequest { pane_id, req_id, fetch, empty_covered_tail } =>
                ActionView::CompleteRequest { pane_id, req_id, fetch, empty_covered_tail },
            PaneAction::InsertTrades { pane_id, batch, is_batches_done } =>
                ActionView::InsertTrades { pane_id, batch: batch@, is_batches_done },
            PaneAction::InsertKlines { pane_id, req_id, timeframe, ticker_info, rows } =>
                ActionView::InsertKlines {
                pane_id,
                req_id,
                timeframe,
                ticker: ticker_info@,
                rows: rows@,
            },
            PaneAction::InsertOpenInterest { pane_id, req_id, rows } =>
                ActionView::InsertOpenInterest { pane_id, req_id, rows: rows@ },
            PaneAction::TellProgress => ActionView::TellProgress,
        }
    }
}

/// True when the chart of the pane has moved on since the request was made.
pub open spec fn outdated(c: ConsumerView, pane: Option<PaneView>) -> bool {
    pane matches Some(p) && p.generation matches Some(current) && current != c.chart_generation
}

/// The stream of a request: the one that is named, or else the first of the pane that carries the
/// data.
pub open spec fn stream_for(
    named: Option<StreamView>,
    key: KeyView,
    pane: Option<PaneView>,
) -> Option<StreamView> {
    or_else(
        named,
        match pane {
            Some(p) => first_carrying(p.ready, key),
            None => None,
        },
    )
}

/// What completes a request of a pane. Summaries of trades are completed by the last summaries
/// themselves, so that those which only update the chart cannot end the request.
pub open spec fn completion(
    c: ConsumerView,
    empty_covered_tail: Option<(UnixMs, UnixMs)>,
    pane: Option<PaneView>,
) -> ActionView {
    match pane {
        None => ActionView::Skip,
        Some(p) => if p.generation is None || c.feature is VolumeBubbles {
            ActionView::MarkReady { pane_id: c.pane_id }
        } else if c.fetch is Trades || c.fetch is TradeHydration {
            ActionView::CompleteTradeFetch {
                pane_id: c.pane_id,
                req_id: Some(c.req_id),
                fetch: c.fetch,
                empty_covered_tail,
                ready: true,
            }
        } else {
            ActionView::CompleteRequest {
                pane_id: c.pane_id,
                req_id: c.req_id,
                fetch: c.fetch,
                empty_covered_tail,
            }
        },
    }
}

/// An action on a pane that may be gone.
pub open spec fn on_pane(pane: Option<PaneView>, action: ActionView) -> ActionView {
    if pane is Some {
        action
    } else {
        ActionView::Skip
    }
}

/// The request that a change to the charts serves, if it serves one.
pub open spec fn served(e: EffectView) -> Option<ConsumerView> {
    match e {
        EffectView::InsertKlinesPartial { consumer, .. } => Some(consumer),
        EffectView::InsertTrades { consumer, .. } => Some(consumer),
        EffectView::InsertOpenInterestPartial { consumer, .. } => Some(consumer),
        EffectView::InsertBubbleSummaries { consumer, .. } => Some(consumer),
        EffectView::CompleteConsumer { consumer, .. } => Some(consumer),
        _ => None,
    }
}

/// What a change to the charts does to the pane of its request, which is not outdated.
pub open spec fn current_action(e: EffectView, pane: Option<PaneView>) -> ActionView {
    match e {
        EffectView::InsertKlinesPartial { consumer, stream, timeframe, ticker, rows } => {
            if stream_for(stream, consumer.key, pane) matches Some(StreamView::Kline { .. }) {
                on_pane(
                    pane,
                    ActionView::InsertKlinesPartial {
                        pane_id: consumer.pane_id,
                        req_id: consumer.req_id,
                        timeframe,
                        ticker,
                        rows,
                    },
                )
            } else {
                ActionView::Skip
            }
        },
        EffectView::InsertTrades { consumer, stream, batch, until_time } => match stream_for(
            stream,
            consumer.key,
            pane,
        ) {
            Some(s) => ActionView::DistributeTrades {
                pane_id: consumer.pane_id,
                req_id: consumer.req_id,
                stream: s,
                batch,
                until_time,
            },
            None => ActionView::Skip,
        },
        EffectView::InsertOpenInterestPartial { consumer, rows } => on_pane(
            pane,
            ActionView::InsertOpenInterestPartial {
                pane_id: consumer.pane_id,
                req_id: consumer.req_id,
                rows,
            },
        ),
        EffectView::InsertBubbleSummaries {
            consumer,
            summaries,
            range,
            trades_seen,
            raw_discarded,
            complete,
        } => {
            if stream_for(consumer.stream, consumer.key, pane) is Some {
                on_pane(
                    pane,
                    ActionView::InsertBubbleSummaries {
                        pane_id: consumer.pane_id,
                        req_id: Some(consumer.req_id),
                        summaries,
                        from: range.from,
                        to: range.to,
                        trades_seen,
                        raw_discarded,
                        complete,
                    },
                )
            } else {
                ActionView::Skip
            }
        },
        EffectView::CompleteConsumer { consumer, empty_covered_tail } => completion(
            consumer,
            empty_covered_tail,
            pane,
        ),
        EffectView::MarkConsumerCompleted { .. } => ActionView::Skip,
        EffectView::CompleteLegacyTradeFetch { pane_id, req_id, fetch, empty_covered_tail } => {
            if pane matches Some(p) && p.generation is Some {
                ActionView::CompleteTradeFetch {
                    pane_id,
                    req_id,
                    fetch,
                    empty_covered_tail,
                    ready: false,
                }
            } else {
                ActionView::Skip
            }
        },
        EffectView::MarkPaneReady { pane_id } => on_pane(pane, ActionView::MarkReady { pane_id }),
        EffectView::InsertLegacyTrades { pane_id, batch, is_batches_done, .. } => on_pane(
            pane,
            ActionView::InsertTrades { pane_id, batch, is_batches_done },
        ),
        EffectView::InsertLegacyBubbleSummaries {
            pane_id,
            req_id,
            summaries,
            range,
            trades_seen,
            raw_discarded,
        } => on_pane(
            pane,
            ActionView::InsertBubbleSummaries {
                pane_id,
                req_id,
                summaries,
                from: range.0,
                to: range.1,
                trades_seen,
                raw_discarded,
                complete: true,
            },
        ),
        EffectView::InsertLegacyKlines { pane_id, req_id, stream, rows } => on_pane(
            pane,
            match stream {
                StreamView::Kline { ticker, timeframe } => ActionView::InsertKlines {
                    pane_id,
                    req_id,
                    timeframe,
                    ticker,
                    rows,
                },
                _ => ActionView::MarkReady { pane_id },
            },
        ),
        EffectView::InsertLegacyOpenInterest { pane_id, req_id, rows } => on_pane(
            pane,
            ActionView::InsertOpenInterest { pane_id, req_id, rows },
        ),
        EffectView::ProgressSnapshot => ActionView::TellProgress,
    }
}

/// What a change to the charts does to its pane. Nothing is done for a request that is outdated.
pub open spec fn action_for(e: EffectView, pane: Option<PaneView>) -> ActionView {
    if served(e) matches Some(c) && outdated(c, pane) {
        ActionView::Skip
    } else {
        current_action(e, pane)
    }
}

/// True when the chart of the pane has moved on since the request was made.
pub fn pending_consumer_is_stale(
    consumer: &PendingMarketDataConsumer,
    pane: &Option<PaneFacts>,
) -> (stale: bool)
    ensures
        stale == outdated(consumer@, pane_of(*pane)),
{
    match pane {
        Some(p) => match p.generation {
            Some(current) => current != consumer.chart_generation,
            None => false,
        },
        None => false,
    }
}

/// The first stream of the pane that carries the data of a key.
pub fn stream_for_consumer_key(
    key: &MarketDataKey,
    pane: &Option<PaneFacts>,
) -> (s: Option<StreamKind>)
    ensures
        stream_of(s) == stream_for(None, key@, pane_of(*pane)),
{
    match pane {
        Some(p) => first_carrying_stream(p.ready_streams.as_slice(), key),
        None => None,
    }
}

/// The stream that is named, or else the first of the pane that carries the data of a key.
fn named_or_carrying(
    named: Option<StreamKind>,
    key: &MarketDataKey,
    pane: &Option<PaneFacts>,
) -> (s: Option<StreamKind>)
    ensures
        stream_of(s) == stream_for(stream_of(named), key@, pane_of(*pane)),
{
    match named {
        Some(s) => Some(s),
        None => stream_for_consumer_key(key, pane),
    }
}

/// What completes a request of a pane.
pub fn complete_pending_consumer(
    consumer: &PendingMarketDataConsumer,
    empty_covered_tail: Option<(UnixMs, UnixMs)>,
    pane: &Option<PaneFacts>,
) -> (action: PaneAction)
    ensures
        action@ == completion(consumer@, empty_covered_tail, pane_of(*pane)),
{
    let p = match pane {
        Some(p) => p,
        None => return PaneAction::Skip,
    };
    if p.generation.is_none() || consumer.feature == ConsumerFeature::VolumeBubbles {
        return PaneAction::MarkReady { pane_id: consumer.pane_id };
    }
    match consumer.fetch {
        FetchRange::Trades(..) | FetchRange::TradeHydration(..) => PaneAction::CompleteTradeFetch {
            pane_id: consumer.pane_id,
            req_id: Some(consumer.req_id),
            fetch: consumer.fetch,
            empty_covered_tail,
            ready: true,
        },
        _ => PaneAction::CompleteRequest {
            pane_id: consumer.pane_id,
            req_id: consumer.req_id,
            fetch: consumer.fetch,
            empty_covered_tail,
        },
    }
}

/// What a change to the charts does to `pane`, which is the pane that it is meant for, if that
/// still exists.
pub fn apply_market_data_effect(
    effect: MarketDataChartEffect,
    pane: &Option<PaneFacts>,
) -> (action: PaneAction)
    ensures
        action@ == action_for(effect@, pane_of(*pane)),
{
    let here = pane.is_some();
    match effect {
        MarketDataChartEffect::InsertKlinesPartial {
            consumer,
            stream,
            timeframe,
            ticker_info,
            rows,
        } => {
            if pending_consumer_is_stale(&consumer, pane) {
                return PaneAction::Skip;
            }
            match named_or_carrying(stream, &consumer.key, pane) {
                Some(StreamKind::Kline { .. }) if here => PaneAction::InsertKlinesPartial {
                    pane_id: consumer.pane_id,
                    req_id: consumer.req_id,
                    timeframe,
                    ticker_info,
                    rows,
                },
                _ => PaneAction::Skip,
            }
        },
        MarketDataChartEffect::InsertTrades { consumer, stream, batch, until_time } => {
            if pending_consumer_is_stale(&consumer, pane) {
                return PaneAction::Skip;
            }
            match named_or_carrying(stream, &consumer.key, pane) {
                Some(stream) => PaneAction::DistributeTrades {
                    pane_id: consumer.pane_id,
                    req_id: consumer.req_id,
                    stream,
                    batch,
                    until_time,
                },
                None => PaneAction::Skip,
            }
        },
        MarketDataChartEffect::InsertOpenInterestPartial { consumer, rows } => {
            if pending_consumer_is_stale(&consumer, pane) || !here {
                return PaneAction::Skip;
            }
            PaneAction::InsertOpenInterestPartial {
                pane_id: consumer.pane_id,
                req_id: consumer.req_id,
                rows,
            }
        },
        MarketDataChartEffect::InsertBubbleSummaries {
            consumer,
            summaries,
            range,
            trades_seen,
            raw_discarded,
            complete,
        } => {
            if pending_consumer_is_stale(&consumer, pane) || !here {
                return PaneAction::Skip;
            }
            let pane_id = consumer.pane_id;
            let req_id = consumer.req_id;
            match named_or_carrying(consumer.stream, &consumer.key, pane) {
                Some(_) => PaneAction::InsertBubbleSummaries {
                    pane_id,
                    req_id: Some(req_id),
                    summaries,
                    from: range.from,
                    to: range.to,
                    trades_seen,
                    raw_discarded,
                    complete,
                },
                None => PaneAction::Skip,
            }
        },
        MarketDataChartEffect::CompleteConsumer { consumer, empty_covered_tail } => {
            if pending_consumer_is_stale(&consumer, pane) {
                return PaneAction::Skip;
            }
            complete_pending_consumer(&consumer, empty_covered_tail, pane)
        },
        MarketDataChartEffect::MarkConsumerCompleted { .. } => PaneAction::Skip,
        MarketDataChartEffect::CompleteLegacyTradeFetch {
            pane_id,
            req_id,
            fetch,
            empty_covered_tail,
        } => match pane {
            Some(p) if p.generation.is_some() => PaneAction::CompleteTradeFetch {
                pane_id,
                req_id,
                fetch,
                empty_covered_tail,
                ready: false,
            },
            _ => PaneAction::Skip,
        },
        MarketDataChartEffect::ProgressSnapshot => PaneAction::TellProgress,
        other => {
            if here {
                hand_to_pane(other)
            } else {
                PaneAction::Skip
            }
        },
    }
}

/// True for the changes that only need their pane.
pub open spec fn plain(e: EffectView) -> bool {
    e is MarkPaneReady || e is InsertLegacyTrades || e is InsertLegacyBubbleSummaries
        || e is InsertLegacyKlines || e is InsertLegacyOpenInterest
}

/// What a change that only needs its pane does to it.
fn hand_to_pane(effect: MarketDataChartEffect) -> (action: PaneAction)
    requires
        plain(effect@),
    ensures
        forall|p: PaneView| action@ == #[trigger] current_action(effect@, Some(p)),
{
    match effect {
        MarketDataChartEffect::InsertLegacyTrades { pane_id, batch, is_batches_done, .. } => {
            PaneAction::InsertTrades { pane_id, batch, is_batches_done }
        },
        MarketDataChartEffect::InsertLegacyBubbleSummaries {
            pane_id,
            req_id,
            summaries,
            range,
            trades_seen,
            raw_discarded,
        } => PaneAction::InsertBubbleSummaries {
            pane_id,
            req_id,
            summaries,
            from: range.0,
            to: range.1,
            trades_seen,
            raw_discarded,
            complete: true,
        },
        MarketDataChartEffect::InsertLegacyKlines { pane_id, req_id, stream, rows } => match stream {
            StreamKind::Kline { ticker_info, timeframe } => PaneAction::InsertKlines {
                pane_id,
                req_id,
                timeframe,
                ticker_info,
                rows,
            },
            _ => PaneAction::MarkReady { pane_id },
        },
        MarketDataChartEffect::InsertLegacyOpenInterest { pane_id, req_id, rows } => {
            PaneAction::InsertOpenInterest { pane_id, req_id, rows }
        },
        MarketDataChartEffect::MarkPaneReady { pane_id } => PaneAction::MarkReady { pane_id },
        _ => PaneAction::Skip,
    }
}

/// The status of a pane.
#[derive(Debug, Clone, Copy, PartialEq, Eq, Structural)]
pub enum PaneStatus {
    Ready,
    Loading(InfoKind),
}

/// The status of a pane after some trades came, of which these may be the last.
pub open spec fn loading_trades(status: PaneStatus, count: nat, done: bool) -> PaneStatus {
    if done {
        PaneStatus::Ready
    } else {
        let so_far: nat = match status {
            PaneStatus::Loading(InfoKind::FetchingTrades(n)) => n as nat,
            _ => 0,
        };
        PaneStatus::Loading(InfoKind::FetchingTrades(clamp_count(so_far + count)))
    }
}

/// The count that is nearest to `n`.
pub open spec fn clamp_count(n: nat) -> usize {
    if n <= usize::MAX {
        n as usize
    } else {
        usize::MAX
    }
}

/// Why an action on a pane failed.
#[derive(Debug)]
pub enum DashboardError {
    Unknown(String),
}

/// The status of a pane after trades were fetched for it, if that changes. Given is the status of
/// the pane and whether it shows a candle chart, if the pane exists. Panes without such a chart
/// cannot use the trades, which is no error.
pub fn insert_fetched_trades(
    pane: Option<(PaneStatus, bool)>,
    trades: &[Trade],
    is_batches_done: bool,
) -> (r: Result<Option<PaneStatus>, DashboardError>)
    ensures
        match pane {
            Some((status, true)) => r matches Ok(Some(next)) && next == loading_trades(
                status,
                trades@.len(),
                is_batches_done,
            ),
            Some((_, false)) => r matches Ok(None),
            None => r matches Err(DashboardError::Unknown(reason)) && reason@
                == "No matching pane state found for fetched trades"@,
        },
{
    match pane {
        None => Err(
            DashboardError::Unknown(
                String::from_str("No matching pane state found for fetched trades"),
            ),
        ),
        Some((_, false)) => Ok(None),
        Some((status, true)) => {
            if is_batches_done {
                return Ok(Some(PaneStatus::Ready));
            }
            let so_far: usize = match status {
                PaneStatus::Loading(InfoKind::FetchingTrades(n)) => n,
                _ => 0,
            };
            let count: usize = so_far.saturating_add(trades.len());
            Ok(Some(PaneStatus::Loading(InfoKind::FetchingTrades(count))))
        },
    }
}

/// What was fetched for a chart that has moved on never reaches the pane.
pub proof fn law_outdated_changes_nothing(e: EffectView, pane: Option<PaneView>)
    requires
        served(e) matches Some(c) && outdated(c, pane),
    ensures
        action_for(e, pane) is Skip,
{
}

/// Nothing is done to a pane that is gone. Its trades are at most handed on as freshly fetched
/// data.
pub proof fn law_gone_panes_get_nothing(e: EffectView)
    ensures
        action_for(e, None) is Skip || action_for(e, None) is DistributeTrades || action_for(
            e,
            None,
        ) is TellProgress,
{
}

/// Summaries that only update a chart do not end its request: completing the request of a pane
/// that shows volume bubbles only makes the pane ready.
pub proof fn law_bubbles_end_with_their_summaries(
    c: ConsumerView,
    tail: Option<(UnixMs, UnixMs)>,
    pane: Option<PaneView>,
)
    requires
        c.feature is VolumeBubbles,
    ensures
        completion(c, tail, pane) is Skip || completion(c, tail, pane) == (ActionView::MarkReady {
            pane_id: c.pane_id,
        }),
{
}

/// The chart of a pane is still the one that a request was made for.
pub open spec fn is_current(c: ConsumerView, p: PaneView) -> bool {
    p.generation is None || p.generation == Some(c.chart_generation)
}

/// Data for a request reaches its pane as long as its chart is the one that it was asked for: all
/// candles, all trades, all readings and all summaries, under the name of the request.
pub proof fn law_data_reaches_its_pane(e: EffectView, c: ConsumerView, p: PaneView)
    requires
        is_current(c, p),
        c.stream is Some,
    ensures
        e matches EffectView::InsertTrades { consumer, stream, batch, until_time } ==> (consumer == c
            && stream == c.stream ==> action_for(e, Some(p)) == (ActionView::DistributeTrades {
            pane_id: c.pane_id,
            req_id: c.req_id,
            stream: c.stream->Some_0,
            batch,
            until_time,
        })),
        e matches EffectView::InsertKlinesPartial { consumer, stream, timeframe, ticker, rows } ==> (
        consumer == c && stream == c.stream && c.stream->Some_0 is Kline ==> action_for(e, Some(p))
            == (ActionView::InsertKlinesPartial {
            pane_id: c.pane_id,
            req_id: c.req_id,
            timeframe,
            ticker,
            rows,
        })),
        e matches EffectView::InsertOpenInterestPartial { consumer, rows } ==> (consumer == c
            ==> action_for(e, Some(p)) == (ActionView::InsertOpenInterestPartial {
            pane_id: c.pane_id,
            req_id: c.req_id,
            rows,
        })),
        e matches EffectView::InsertBubbleSummaries {
            consumer,
            summaries,
            range,
            trades_seen,
            raw_discarded,
            complete,
        } ==> (consumer == c ==> action_for(e, Some(p)) == (ActionView::InsertBubbleSummaries {
            pane_id: c.pane_id,
            req_id: Some(c.req_id),
            summaries,
            from: range.from,
            to: range.to,
            trades_seen,
            raw_discarded,
            complete,
        })),
{
}

/// A request that is complete ends at its pane: one for trades with its fetch of trades, one for
/// anything else but bubbles as a request. A pane without a chart only gets ready.
pub proof fn law_requests_end_at_their_pane(
    c: ConsumerView,
    tail: Option<(UnixMs, UnixMs)>,
    p: PaneView,
)
    requires
        is_current(c, p),
    ensures
        ({
            let a = action_for(
                EffectView::CompleteConsumer { consumer: c, empty_covered_tail: tail },
                Some(p),
            );
            &&& p.generation is None ==> a == (ActionView::MarkReady { pane_id: c.pane_id })
            &&& p.generation is Some && c.feature !is VolumeBubbles && (c.fetch is Trades
                || c.fetch is TradeHydration) ==> a == (ActionView::CompleteTradeFetch {
                pane_id: c.pane_id,
                req_id: Some(c.req_id),
                fetch: c.fetch,
                empty_covered_tail: tail,
                ready: true,
            })
            &&& p.generation is Some && c.feature !is VolumeBubbles && !(c.fetch is Trades
                || c.fetch is TradeHydration) ==> a == (ActionView::CompleteRequest {
                pane_id: c.pane_id,
                req_id: c.req_id,
                fetch: c.fetch,
                empty_covered_tail: tail,
            })
        }),
{
}

/// A request is outdated exactly when its pane shows another generation of the chart.
pub proof fn law_outdated_iff_moved_on(c: ConsumerView, p: PaneView)
    ensures
        outdated(c, Some(p)) <==> !is_current(c, p),
        !outdated(c, None),
{
}

/// A pane that waits for trades counts those that have come, and is ready after the last.
pub proof fn law_loading_panes_count(status: PaneStatus, n: usize, count: nat)
    requires
        n + count <= usize::MAX,
    ensures
        loading_trades(status, count, true) is Ready,
        loading_trades(PaneStatus::Loading(InfoKind::FetchingTrades(n)), count, false)
            == PaneStatus::Loading(InfoKind::FetchingTrades((n + count) as usize)),
        loading_trades(PaneStatus::Ready, count, false) == PaneStatus::Loading(
            InfoKind::FetchingTrades(count as usize),
        ),
{
}

/// Data that a pane fetched by itself reaches that pane: all candles, all trades, all readings and
/// all summaries. A pane that is to be ready gets ready.
pub proof fn law_own_data_reaches_its_pane(e: EffectView, p: PaneView)
    ensures
        e matches EffectView::InsertLegacyTrades { pane_id, req_id, batch, is_batches_done }
            ==> action_for(e, Some(p)) == (ActionView::InsertTrades {
            pane_id,
            batch,
            is_batches_done,
        }),
        e matches EffectView::InsertLegacyKlines { pane_id, req_id, stream, rows } ==> (
        stream matches StreamView::Kline { ticker, timeframe } ==> action_for(e, Some(p)) == (
        ActionView::InsertKlines { pane_id, req_id, timeframe, ticker, rows })),
        e matches EffectView::InsertLegacyOpenInterest { pane_id, req_id, rows } ==> action_for(
            e,
            Some(p),
        ) == (ActionView::InsertOpenInterest { pane_id, req_id, rows }),
        e matches EffectView::InsertLegacyBubbleSummaries {
            pane_id,
            req_id,
            summaries,
            range,
            trades_seen,
            raw_discarded,
        } ==> action_for(e, Some(p)) == (ActionView::InsertBubbleSummaries {
            pane_id,
            req_id,
            summaries,
            from: range.0,
            to: range.1,
            trades_seen,
            raw_discarded,
            complete: true,
        }),
        e matches EffectView::MarkPaneReady { pane_id } ==> action_for(e, Some(p)) == (
        ActionView::MarkReady { pane_id }),
        e is ProgressSnapshot ==> action_for(e, Some(p)) is TellProgress,
        e matches EffectView::CompleteLegacyTradeFetch { pane_id, req_id, fetch, empty_covered_tail }
            ==> (p.generation is Some ==> action_for(e, Some(p)) == (
        ActionView::CompleteTradeFetch {
            pane_id,
            req_id,
            fetch,
            empty_covered_tail,
            ready: false,
        })),
{
}

} // verus!
