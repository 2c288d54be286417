//! From requests and chart needs to requirements of the coordinator.

use vstd::prelude::*;
use crate::connector::fetcher::{range_between, FetchRange};
use crate::ids::Uuid;
use crate::market::{StreamKind, StreamView, TickerInfo, TickerView};
use crate::market_data::chart_need::ChartDataNeed;
use crate::market_data::key::{key_of, KeyView, MarketDataKey, MarketDataKind, Venue};
use crate::market_data::range::MarketDataRange;
use crate::market_data::requirement::{
    ConsumerFeature, ConsumerId, DataRequirement, Priority, RequirementView,
};
use crate::time::{Timeframe, UnixMs};

verus! {

/// The candle width where none is known.
pub open spec fn width_or_default(tf: Option<Timeframe>) -> Timeframe {
    match tf {
        Some(t) => t,
        None => Timeframe::M5,
    }
}

fn timeframe_or_default(tf: Option<Timeframe>) -> (t: Timeframe)
    ensures
        t == width_or_default(tf),
{
    match tf {
        Some(t) => t,
        None => Timeframe::M5,
    }
}

/// What an optional instrument denotes.
pub open spec fn ticker_of(t: Option<&TickerInfo>) -> Option<TickerView> {
    match t {
        Some(info) => Some(info@),
        None => None,
    }
}

/// What an optional requirement denotes.
pub open spec fn requirement_of(r: Option<DataRequirement>) -> Option<RequirementView> {
    match r {
        Some(req) => Some(req@),
        None => None,
    }
}

/// The kind of data that a request asks for.
pub open spec fn kind_fetched(fetch: FetchRange, tf: Option<Timeframe>) -> MarketDataKind {
    match fetch {
        FetchRange::Kline(_, _) => MarketDataKind::Klines { timeframe: width_or_default(tf) },
        FetchRange::OpenInterest(_, _) => MarketDataKind::OpenInterest {
            timeframe: width_or_default(tf),
        },
        FetchRange::Trades(_, _) => MarketDataKind::Trades,
        FetchRange::TradeHydration(_, _) => MarketDataKind::Trades,
        FetchRange::BubbleSummary { .. } => MarketDataKind::Trades,
    }
}

/// The stream that a request asks for.
pub open spec fn key_fetched(
    fetch: FetchRange,
    ticker: Option<TickerView>,
    tf: Option<Timeframe>,
) -> Option<KeyView> {
    match ticker {
        Some(t) => KeyView::of_ticker(t, kind_fetched(fetch, tf)),
        None => None,
    }
}

/// The range that a request asks for.
pub open spec fn range_fetched(fetch: FetchRange) -> Option<MarketDataRange> {
    range_between(fetch.bounds().0, fetch.bounds().1)
}

/// How urgent a request is.
pub open spec fn urgency_of_fetch(fetch: FetchRange) -> Priority {
    match fetch {
        FetchRange::Kline(_, _) => Priority::High,
        FetchRange::Trades(_, _) => Priority::Normal,
        FetchRange::TradeHydration(_, _) => Priority::Normal,
        FetchRange::OpenInterest(_, _) => Priority::Normal,
        FetchRange::BubbleSummary { .. } => Priority::Low,
    }
}

/// What a request is for, in words.
pub open spec fn reason_of_fetch(fetch: FetchRange) -> Seq<char> {
    match fetch {
        FetchRange::Kline(_, _) => "kline_history"@,
        FetchRange::Trades(_, _) => "trade_history"@,
        FetchRange::TradeHydration(_, _) => "trade_hydration"@,
        FetchRange::OpenInterest(_, _) => "oi_history"@,
        FetchRange::BubbleSummary { .. } => "bubble_summary"@,
    }
}

/// The feature that a request serves.
pub open spec fn feature_of_fetch(fetch: FetchRange) -> ConsumerFeature {
    match fetch {
        FetchRange::Kline(_, _) => ConsumerFeature::ChartKlines,
        FetchRange::Trades(_, _) => ConsumerFeature::Footprint,
        FetchRange::TradeHydration(_, _) => ConsumerFeature::TradeHydration,
        FetchRange::OpenInterest(_, _) => ConsumerFeature::OpenInterest,
        FetchRange::BubbleSummary { .. } => ConsumerFeature::VolumeBubbles,
    }
}

/// The requirement that a request of a pane stands for.
pub open spec fn required_by_fetch(
    fetch: FetchRange,
    pane_id: Uuid,
    feature: ConsumerFeature,
    ticker: Option<TickerView>,
    tf: Option<Timeframe>,
) -> Option<RequirementView> {
    match (key_fetched(fetch, ticker, tf), range_fetched(fetch)) {
        (Some(key), Some(range)) => Some(
            RequirementView {
                consumer: ConsumerId { pane_id: Some(pane_id), feature },
                key,
                range,
                priority: urgency_of_fetch(fetch),
                reason: reason_of_fetch(fetch),
            },
        ),
        _ => None,
    }
}

/// The requirement that a request of a pane stands for. There is none where the instrument is
/// unknown, its exchange is not supported or the range is empty.
pub fn fetch_range_to_requirement(
    fetch_range: &FetchRange,
    pane_id: Uuid,
    feature: ConsumerFeature,
    ticker_info: Option<&TickerInfo>,
    timeframe: Option<Timeframe>,
) -> (r: Option<DataRequirement>)
    ensures
        requirement_of(r) == required_by_fetch(
            *fetch_range,
            pane_id,
            feature,
            ticker_of(ticker_info),
            timeframe,
        ),
{
    let key = match fetch_range_to_key(fetch_range, ticker_info, timeframe) {
        Some(key) => key,
        None => return None,
    };
    let range = match fetch_range_to_range(fetch_range) {
        Some(range) => range,
        None => return None,
    };
    let consumer = ConsumerId::pane(pane_id, feature);
    Some(
        DataRequirement::new(
            consumer,
            key,
            range,
            fetch_range_priority(fetch_range),
            fetch_range_reason(fetch_range),
        ),
    )
}

/// The stream that a request asks for.
pub fn fetch_range_to_key(
    fetch_range: &FetchRange,
    ticker_info: Option<&TickerInfo>,
    context_timeframe: Option<Timeframe>,
) -> (k: Option<MarketDataKey>)
    ensures
        key_of(k) == key_fetched(*fetch_range, ticker_of(ticker_info), context_timeframe),
{
    match ticker_info {
        Some(info) => {
            let kind = match fetch_range {
                FetchRange::Kline(_, _) => MarketDataKind::Klines {
                    timeframe: timeframe_or_default(context_timeframe),
                },
                FetchRange::OpenInterest(_, _) => MarketDataKind::OpenInterest {
                    timeframe: timeframe_or_default(context_timeframe),
                },
                FetchRange::Trades(_, _) => MarketDataKind::Trades,
                FetchRange::TradeHydration(_, _) => MarketDataKind::Trades,
                FetchRange::BubbleSummary { .. } => MarketDataKind::Trades,
            };
            MarketDataKey::from_ticker_info(info, kind)
        },
        None => None,
    }
}

/// The range that a request asks for, where it is not empty.
pub fn fetch_range_to_range(fetch_range: &FetchRange) -> (r: Option<MarketDataRange>)
    ensures
        r == range_fetched(*fetch_range),
{
    let (from, to) = match fetch_range {
        FetchRange::Kline(from, to) => (*from, *to),
        FetchRange::OpenInterest(from, to) => (*from, *to),
        FetchRange::Trades(from, to) => (*from, *to),
        FetchRange::TradeHydration(from, to) => (*from, *to),
        FetchRange::BubbleSummary { from, to, .. } => (*from, *to),
    };
    MarketDataRange::new(from, to)
}

/// How urgent a request is.
pub fn fetch_range_priority(fetch_range: &FetchRange) -> (p: Priority)
    ensures
        p == urgency_of_fetch(*fetch_range),
{
    match fetch_range {
        FetchRange::Kline(_, _) => Priority::High,
        FetchRange::Trades(_, _) => Priority::Normal,
        FetchRange::TradeHydration(_, _) => Priority::Normal,
        FetchRange::OpenInterest(_, _) => Priority::Normal,
        FetchRange::BubbleSummary { .. } => Priority::Low,
    }
}

/// What a request is for, in words.
pub fn fetch_range_reason(fetch_range: &FetchRange) -> (s: &'static str)
    ensures
        s@ == reason_of_fetch(*fetch_range),
{
    match fetch_range {
        FetchRange::Kline(_, _) => "kline_history",
        FetchRange::Trades(_, _) => "trade_history",
        FetchRange::TradeHydration(_, _) => "trade_hydration",
        FetchRange::OpenInterest(_, _) => "oi_history",
        FetchRange::BubbleSummary { .. } => "bubble_summary",
    }
}

/// The feature that a request serves.
pub fn fetch_range_to_feature(fetch_range: &FetchRange) -> (f: ConsumerFeature)
    ensures
        f == feature_of_fetch(*fetch_range),
{
    match fetch_range {
        FetchRange::Kline(_, _) => ConsumerFeature::ChartKlines,
        FetchRange::Trades(_, _) => ConsumerFeature::Footprint,
        FetchRange::TradeHydration(_, _) => ConsumerFeature::TradeHydration,
        FetchRange::OpenInterest(_, _) => ConsumerFeature::OpenInterest,
        FetchRange::BubbleSummary { .. } => ConsumerFeature::VolumeBubbles,
    }
}

/// The market data stream behind a subscription. The order book has none.
pub open spec fn key_streamed(stream: StreamView) -> Option<KeyView> {
    match stream {
        StreamView::Kline { ticker, timeframe } => KeyView::of_ticker(
            ticker,
            MarketDataKind::Klines { timeframe },
        ),
        StreamView::Trades { ticker } => KeyView::of_ticker(ticker, MarketDataKind::Trades),
        StreamView::Depth { .. } => None,
    }
}

/// The market data stream behind a subscription. The order book has none.
pub fn stream_kind_to_key(stream: &StreamKind) -> (k: Option<MarketDataKey>)
    ensures
        key_of(k) == key_streamed(stream@),
{
    match stream {
        StreamKind::Kline { ticker_info, timeframe } => MarketDataKey::from_ticker_info(
            ticker_info,
            MarketDataKind::Klines { timeframe: *timeframe },
        ),
        StreamKind::Trades { ticker_info } => MarketDataKey::from_ticker_info(
            ticker_info,
            MarketDataKind::Trades,
        ),
        StreamKind::Depth { .. } => None,
    }
}

/// The request that a chart need stands for. Bubbles ask for the trades they are derived from.
pub open spec fn fetch_for_need(need: ChartDataNeed) -> FetchRange {
    match need {
        ChartDataNeed::Klines { from, to } => FetchRange::Kline(from, to),
        ChartDataNeed::Trades { from, to } => FetchRange::Trades(from, to),
        ChartDataNeed::TradeHydration { from, to } => FetchRange::TradeHydration(from, to),
        ChartDataNeed::OpenInterest { from, to } => FetchRange::OpenInterest(from, to),
        ChartDataNeed::Bubbles { from, to, .. } => FetchRange::Trades(from, to),
    }
}

/// The feature that a chart need serves.
pub open spec fn feature_of_need(need: ChartDataNeed) -> ConsumerFeature {
    match need {
        ChartDataNeed::Klines { .. } => ConsumerFeature::ChartKlines,
        ChartDataNeed::Trades { .. } => ConsumerFeature::Footprint,
        ChartDataNeed::TradeHydration { .. } => ConsumerFeature::TradeHydration,
        ChartDataNeed::OpenInterest { .. } => ConsumerFeature::OpenInterest,
        ChartDataNeed::Bubbles { .. } => ConsumerFeature::VolumeBubbles,
    }
}

/// The kind of data that a chart needs.
pub open spec fn kind_needed(need: ChartDataNeed, tf: Option<Timeframe>) -> MarketDataKind {
    match need {
        ChartDataNeed::Klines { .. } => MarketDataKind::Klines { timeframe: width_or_default(tf) },
        ChartDataNeed::OpenInterest { .. } => MarketDataKind::OpenInterest {
            timeframe: width_or_default(tf),
        },
        _ => MarketDataKind::Trades,
    }
}

/// The stream that a chart needs.
pub open spec fn key_needed(
    need: ChartDataNeed,
    ticker: Option<TickerView>,
    tf: Option<Timeframe>,
) -> Option<KeyView> {
    match ticker {
        Some(t) => KeyView::of_ticker(t, kind_needed(need, tf)),
        None => None,
    }
}

/// The range that a chart needs.
pub open spec fn range_needed(need: ChartDataNeed) -> Option<MarketDataRange> {
    range_between(need.bounds().0, need.bounds().1)
}

/// How urgent a chart need is.
pub open spec fn urgency_of_need(need: ChartDataNeed) -> Priority {
    match need {
        ChartDataNeed::Klines { .. } => Priority::High,
        ChartDataNeed::Bubbles { .. } => Priority::Low,
        _ => Priority::Normal,
    }
}

/// What a chart need is for, in words.
pub open spec fn reason_of_need(need: ChartDataNeed) -> Seq<char> {
    match need {
        ChartDataNeed::Klines { .. } => "kline_history"@,
        ChartDataNeed::Trades { .. } => "trade_history"@,
        ChartDataNeed::TradeHydration { .. } => "trade_hydration"@,
        ChartDataNeed::OpenInterest { .. } => "oi_history"@,
        ChartDataNeed::Bubbles { .. } => "volume_bubbles_from_trades"@,
    }
}

/// The requirement that a chart need of a pane stands for.
pub open spec fn required_by_need(
    need: ChartDataNeed,
    pane_id: Uuid,
    ticker: Option<TickerView>,
    tf: Option<Timeframe>,
) -> Option<RequirementView> {
    match (key_needed(need, ticker, tf), range_needed(need)) {
        (Some(key), Some(range)) => Some(
            RequirementView {
                consumer: ConsumerId { pane_id: Some(pane_id), feature: feature_of_need(need) },
                key,
                range,
                priority: urgency_of_need(need),
                reason: reason_of_need(need),
            },
        ),
        _ => None,
    }
}

/// The requirement that a chart need of a pane stands for. There is none where the instrument is
/// unknown, its exchange is not supported or the range is empty.
pub fn chart_need_to_requirement(
    need: &ChartDataNeed,
    pane_id: Uuid,
    ticker_info: Option<&TickerInfo>,
    timeframe: Option<Timeframe>,
) -> (r: Option<DataRequirement>)
    ensures
        requirement_of(r) == required_by_need(*need, pane_id, ticker_of(ticker_info), timeframe),
{
    let key = match chart_need_to_key(need, ticker_info, timeframe) {
        Some(key) => key,
        None => return None,
    };
    let range = match chart_need_to_range(need) {
        Some(range) => range,
        None => return None,
    };
    let consumer = ConsumerId::pane(pane_id, chart_need_to_feature(need));
    Some(
        DataRequirement::new(
            consumer,
            key,
            range,
            chart_need_priority(need),
            chart_need_reason(need),
        ),
    )
}

/// The feature that a chart need serves.
pub fn chart_need_to_feature(need: &ChartDataNeed) -> (f: ConsumerFeature)
    ensures
        f == feature_of_need(*need),
{
    match need {
        ChartDataNeed::Klines { .. } => ConsumerFeature::ChartKlines,
        ChartDataNeed::Trades { .. } => ConsumerFeature::Footprint,
        ChartDataNeed::TradeHydration { .. } => ConsumerFeature::TradeHydration,
        ChartDataNeed::OpenInterest { .. } => ConsumerFeature::OpenInterest,
        ChartDataNeed::Bubbles { .. } => ConsumerFeature::VolumeBubbles,
    }
}

/// The stream that a chart needs.
pub fn chart_need_to_key(
    need: &ChartDataNeed,
    ticker_info: Option<&TickerInfo>,
    context_timeframe: Option<Timeframe>,
) -> (k: Option<MarketDataKey>)
    ensures
        key_of(k) == key_needed(*need, ticker_of(ticker_info), context_timeframe),
{
    match ticker_info {
        Some(info) => {
            let kind = match need {
                ChartDataNeed::Klines { .. } => MarketDataKind::Klines {
                    timeframe: timeframe_or_default(context_timeframe),
                },
                ChartDataNeed::OpenInterest { .. } => MarketDataKind::OpenInterest {
                    timeframe: timeframe_or_default(context_timeframe),
                },
                _ => MarketDataKind::Trades,
            };
            MarketDataKey::from_ticker_info(info, kind)
        },
        None => None,
    }
}

/// The range that a chart needs, where it is not empty.
pub fn chart_need_to_range(need: &ChartDataNeed) -> (r: Option<MarketDataRange>)
    ensures
        r == range_needed(*need),
{
    let (from, to) = need.range();
    MarketDataRange::new(from, to)
}

/// The request that a chart need stands for. Bubbles ask for the trades they are derived from.
pub fn chart_need_to_consumer_fetch(need: &ChartDataNeed) -> (f: FetchRange)
    ensures
        f == fetch_for_need(*need),
{
    match need {
        ChartDataNeed::Klines { from, to } => FetchRange::Kline(*from, *to),
        ChartDataNeed::Trades { from, to } => FetchRange::Trades(*from, *to),
        ChartDataNeed::TradeHydration { from, to } => FetchRange::TradeHydration(*from, *to),
        ChartDataNeed::OpenInterest { from, to } => FetchRange::OpenInterest(*from, *to),
        ChartDataNeed::Bubbles { from, to, .. } => FetchRange::Trades(*from, *to),
    }
}

fn chart_need_priority(need: &ChartDataNeed) -> (p: Priority)
    ensures
        p == urgency_of_need(*need),
{
    match need {
        ChartDataNeed::Klines { .. } => Priority::High,
        ChartDataNeed::Bubbles { .. } => Priority::Low,
        _ => Priority::Normal,
    }
}

fn chart_need_reason(need: &ChartDataNeed) -> (s: &'static str)
    ensures
        s@ == reason_of_need(*need),
{
    match need {
        ChartDataNeed::Klines { .. } => "kline_history",
        ChartDataNeed::Trades { .. } => "trade_history",
        ChartDataNeed::TradeHydration { .. } => "trade_hydration",
        ChartDataNeed::OpenInterest { .. } => "oi_history",
        ChartDataNeed::Bubbles { .. } => "volume_bubbles_from_trades",
    }
}

/// A chart need and the request it stands for ask for the same stream and the same range.
pub proof fn law_need_and_fetch_agree(
    need: ChartDataNeed,
    ticker: Option<TickerView>,
    tf: Option<Timeframe>,
)
    ensures
        key_needed(need, ticker, tf) == key_fetched(fetch_for_need(need), ticker, tf),
        range_needed(need) == range_fetched(fetch_for_need(need)),
        !(need is Bubbles) ==> feature_of_need(need) == feature_of_fetch(fetch_for_need(need))
            && urgency_of_need(need) == urgency_of_fetch(fetch_for_need(need)) && reason_of_need(need)
            == reason_of_fetch(fetch_for_need(need)),
{
}

/// A request or need with a start before its end asks for exactly what lies between them, and one
/// without asks for nothing.
pub proof fn law_bounds_are_asked_for(fetch: FetchRange, need: ChartDataNeed, a: UnixMs, b: UnixMs)
    requires
        match fetch {
            FetchRange::Kline(x, y) => x == a && y == b,
            FetchRange::OpenInterest(x, y) => x == a && y == b,
            FetchRange::Trades(x, y) => x == a && y == b,
            FetchRange::TradeHydration(x, y) => x == a && y == b,
            FetchRange::BubbleSummary { from, to, .. } => from == a && to == b,
        },
        match need {
            ChartDataNeed::Klines { from, to } => from == a && to == b,
            ChartDataNeed::Trades { from, to } => from == a && to == b,
            ChartDataNeed::TradeHydration { from, to } => from == a && to == b,
            ChartDataNeed::OpenInterest { from, to } => from == a && to == b,
            ChartDataNeed::Bubbles { from, to, .. } => from == a && to == b,
        },
    ensures
        a.0 < b.0 ==> range_fetched(fetch) == Some(MarketDataRange { from: a, to: b })
            && range_needed(need) == Some(MarketDataRange { from: a, to: b }),
        a.0 >= b.0 ==> range_fetched(fetch) is None && range_needed(need) is None,
        fetch_for_need(need) matches FetchRange::Kline(x, y) ==> need is Klines && x == a && y == b,
        fetch_for_need(need) matches FetchRange::Trades(x, y) ==> (need is Trades || need is Bubbles)
            && x == a && y == b,
        fetch_for_need(need) matches FetchRange::TradeHydration(x, y) ==> need is TradeHydration
            && x == a && y == b,
        fetch_for_need(need) matches FetchRange::OpenInterest(x, y) ==> need is OpenInterest && x
            == a && y == b,
        fetch_for_need(need) !is BubbleSummary,
{
}

/// Requests are for the instrument they name: the stream of a request lies on the venue of its
/// exchange and has the name and the market of its instrument, and there is none only where no
/// venue belongs to the exchange. Candles and open interest come in the width that is asked for,
/// five minutes where none is; everything else is trades.
pub proof fn law_streams_are_those_asked_for(
    fetch: FetchRange,
    need: ChartDataNeed,
    t: TickerView,
    tf: Option<Timeframe>,
)
    ensures
        key_fetched(fetch, None, tf) is None,
        key_needed(need, None, tf) is None,
        key_fetched(fetch, Some(t), tf) is None <==> forall|v: Venue| #[trigger]
            v.adapter() != t.exchange,
        key_fetched(fetch, Some(t), tf) matches Some(key) ==> {
            &&& key.venue.adapter() == t.exchange
            &&& key.symbol == if t.display_symbol is Some {
                t.display_symbol->Some_0
            } else {
                t.symbol
            }
            &&& key.market_type.adapter() == t.exchange.market()
            &&& fetch is Kline ==> key.kind == (MarketDataKind::Klines {
                timeframe: if tf is Some {
                    tf->Some_0
                } else {
                    Timeframe::M5
                },
            })
            &&& fetch is OpenInterest ==> key.kind == (MarketDataKind::OpenInterest {
                timeframe: if tf is Some {
                    tf->Some_0
                } else {
                    Timeframe::M5
                },
            })
            &&& !(fetch is Kline || fetch is OpenInterest) ==> key.kind is Trades
        },
        key_needed(need, Some(t), tf) is None <==> forall|v: Venue| #[trigger]
            v.adapter() != t.exchange,
        key_needed(need, Some(t), tf) matches Some(key) ==> {
            &&& key.venue.adapter() == t.exchange
            &&& key.market_type.adapter() == t.exchange.market()
            &&& key.kind is Klines <==> need is Klines
            &&& key.kind is OpenInterest <==> need is OpenInterest
        },
{
    match Venue::of_exchange(t.exchange) {
        Some(v) => {
            assert(v.adapter() == t.exchange);
        },
        None => {},
    }
}

/// A subscription carries what a request for its instrument and width asks for. The order book
/// carries neither candles nor trades.
pub proof fn law_subscriptions_carry_requests(
    t: TickerView,
    tf: Timeframe,
    from: UnixMs,
    to: UnixMs,
    book: StreamView,
)
    requires
        book is Depth,
    ensures
        key_streamed(StreamView::Kline { ticker: t, timeframe: tf }) == key_fetched(
            FetchRange::Kline(from, to),
            Some(t),
            Some(tf),
        ),
        key_streamed(StreamView::Trades { ticker: t }) == key_fetched(
            FetchRange::Trades(from, to),
            Some(t),
            Some(tf),
        ),
        key_streamed(book) is None,
{
}

/// What a request or a need serves follows from what it asks for. Candles are the most urgent,
/// bubbles the least.
pub proof fn law_requests_serve_their_features(fetch: FetchRange, need: ChartDataNeed)
    ensures
        feature_of_fetch(fetch) is ChartKlines <==> fetch is Kline,
        feature_of_fetch(fetch) is Footprint <==> fetch is Trades,
        feature_of_fetch(fetch) is TradeHydration <==> fetch is TradeHydration,
        feature_of_fetch(fetch) is OpenInterest <==> fetch is OpenInterest,
        feature_of_fetch(fetch) is VolumeBubbles <==> fetch is BubbleSummary,
        feature_of_need(need) is ChartKlines <==> need is Klines,
        feature_of_need(need) is Footprint <==> need is Trades,
        feature_of_need(need) is TradeHydration <==> need is TradeHydration,
        feature_of_need(need) is OpenInterest <==> need is OpenInterest,
        feature_of_need(need) is VolumeBubbles <==> need is Bubbles,
        urgency_of_fetch(fetch) is High <==> fetch is Kline,
        urgency_of_fetch(fetch) is Low <==> fetch is BubbleSummary,
        urgency_of_fetch(fetch) is Normal <==> !(fetch is Kline || fetch is BubbleSummary),
        urgency_of_need(need) is High <==> need is Klines,
        urgency_of_need(need) is Low <==> need is Bubbles,
        urgency_of_need(need) is Normal <==> !(need is Klines || need is Bubbles),
{
}

/// What is required for a request of a pane is its stream and its range, for that pane, and it is
/// required exactly where both are known.
pub proof fn law_requests_are_required(
    fetch: FetchRange,
    need: ChartDataNeed,
    pane: Uuid,
    feature: ConsumerFeature,
    ticker: Option<TickerView>,
    tf: Option<Timeframe>,
)
    ensures
        required_by_fetch(fetch, pane, feature, ticker, tf) is Some <==> key_fetched(
            fetch,
            ticker,
            tf,
        ) is Some && range_fetched(fetch) is Some,
        required_by_fetch(fetch, pane, feature, ticker, tf) matches Some(r) ==> {
            &&& r.consumer.pane_id == Some(pane)
            &&& r.consumer.feature == feature
            &&& Some(r.key) == key_fetched(fetch, ticker, tf)
            &&& Some(r.range) == range_fetched(fetch)
            &&& r.priority == urgency_of_fetch(fetch)
        },
        required_by_need(need, pane, ticker, tf) is Some <==> key_needed(need, ticker, tf) is Some
            && range_needed(need) is Some,
        required_by_need(need, pane, ticker, tf) matches Some(r) ==> {
            &&& r.consumer.pane_id == Some(pane)
            &&& r.consumer.feature == feature_of_need(need)
            &&& Some(r.key) == key_needed(need, ticker, tf)
            &&& Some(r.range) == range_needed(need)
            &&& r.priority == urgency_of_need(need)
        },
{
}

} // verus!
