//! Exchanges, instruments and the records they deliver.
//!
//! Prices and quantities are counts of an atomic unit.

use vstd::prelude::*;
use vstd::string::*;
use crate::time::{Timeframe, UnixMs};

verus! {

/// An exchange adapter.
#[derive(Debug, Clone, Copy, PartialEq, Eq, Hash, Structural)]
pub enum Exchange {
    BinanceSpot,
    BinanceLinear,
    BinanceInverse,
    BybitSpot,
    BybitLinear,
    BybitInverse,
    HyperliquidSpot,
    HyperliquidLinear,
    MexcSpot,
    MexcLinear,
    MexcInverse,
    OkexSpot,
    OkexLinear,
    OkexInverse,
}

/// The kind of market an adapter trades on.
#[derive(Debug, Clone, Copy, PartialEq, Eq, Hash, Structural)]
pub enum AdapterMarketKind {
    Spot,
    LinearPerps,
    InversePerps,
}

impl Exchange {
    /// The kind of market the exchange trades on.
    pub open spec fn market(self) -> AdapterMarketKind {
        match self {
            Exchange::BinanceSpot | Exchange::BybitSpot | Exchange::HyperliquidSpot
            | Exchange::MexcSpot | Exchange::OkexSpot => AdapterMarketKind::Spot,
            Exchange::BinanceLinear | Exchange::BybitLinear | Exchange::HyperliquidLinear
            | Exchange::MexcLinear | Exchange::OkexLinear => AdapterMarketKind::LinearPerps,
            Exchange::BinanceInverse | Exchange::BybitInverse | Exchange::MexcInverse
            | Exchange::OkexInverse => AdapterMarketKind::InversePerps,
        }
    }

    /// The kind of market the exchange trades on.
    pub fn market_type(self) -> (kind: AdapterMarketKind)
        ensures
            kind == self.market(),
    {
        match self {
            Exchange::BinanceSpot | Exchange::BybitSpot | Exchange::HyperliquidSpot
            | Exchange::MexcSpot | Exchange::OkexSpot => AdapterMarketKind::Spot,
            Exchange::BinanceLinear | Exchange::BybitLinear | Exchange::HyperliquidLinear
            | Exchange::MexcLinear | Exchange::OkexLinear => AdapterMarketKind::LinearPerps,
            Exchange::BinanceInverse | Exchange::BybitInverse | Exchange::MexcInverse
            | Exchange::OkexInverse => AdapterMarketKind::InversePerps,
        }
    }
}

/// An instrument of an exchange. Some exchanges name it differently on screen.
#[derive(Debug, PartialEq, Eq, Hash)]
pub struct Ticker {
    pub symbol: String,
    pub display_symbol: Option<String>,
    pub exchange: Exchange,
}

/// What an instrument is, as a value.
#[verifier::ext_equal]
pub struct TickerView {
    pub symbol: Seq<char>,
    pub display_symbol: Option<Seq<char>>,
    pub exchange: Exchange,
}

/// The text of an optional string.
pub open spec fn text_of(s: Option<String>) -> Option<Seq<char>> {
    match s {
        Some(t) => Some(t@),
        None => None,
    }
}

/// Compares two optional strings by their text.
pub fn same_optional_text(a: &Option<String>, b: &Option<String>) -> (same: bool)
    ensures
        same == (text_of(*a) == text_of(*b)),
{
    match (a, b) {
        (Some(x), Some(y)) => *x == *y,
        (None, None) => true,
        _ => false,
    }
}

impl View for Ticker {
    type V = TickerView;

    open spec fn view(&self) -> TickerView {
        TickerView {
            symbol: self.symbol@,
            display_symbol: text_of(self.display_symbol),
            exchange: self.exchange,
        }
    }
}

impl TickerView {
    /// The name on screen, or else the exchange's own symbol.
    pub open spec fn name(self) -> Seq<char> {
        match self.display_symbol {
            Some(d) => d,
            None => self.symbol,
        }
    }
}

impl Clone for Ticker {
    fn clone(&self) -> (t: Self)
        ensures
            t == *self,
    {
        Ticker {
            symbol: self.symbol.clone(),
            display_symbol: match &self.display_symbol {
                Some(d) => Some(d.clone()),
                None => None,
            },
            exchange: self.exchange,
        }
    }
}

impl Ticker {
    /// An instrument that is shown under the exchange's own symbol.
    pub fn new(symbol: &str, exchange: Exchange) -> (t: Self)
        ensures
            t@ == (TickerView { symbol: symbol@, display_symbol: None, exchange }),
    {
        Ticker { symbol: String::from_str(symbol), display_symbol: None, exchange }
    }

    /// The name on screen, where it differs.
    pub fn display_symbol(&self) -> (d: Option<&str>)
        ensures
            d is Some <==> self@.display_symbol is Some,
            d matches Some(s) ==> self@.display_symbol == Some(s@),
    {
        match &self.display_symbol {
            Some(d) => Some(d.as_str()),
            None => None,
        }
    }

    /// The name on screen, or else the exchange's own symbol.
    pub fn shown_name(&self) -> (s: &str)
        ensures
            s@ == self@.name(),
    {
        match &self.display_symbol {
            Some(d) => d.as_str(),
            None => self.symbol.as_str(),
        }
    }

    /// The kind of market the instrument is traded on.
    pub fn market_type(&self) -> (kind: AdapterMarketKind)
        ensures
            kind == self@.exchange.market(),
    {
        self.exchange.market_type()
    }

    /// True when both name the same instrument.
    pub fn same(&self, other: &Self) -> (r: bool)
        ensures
            r == (self@ == other@),
    {
        self.symbol == other.symbol && same_optional_text(
            &self.display_symbol,
            &other.display_symbol,
        ) && self.exchange == other.exchange
    }
}

/// An instrument together with its trading rules. The rules play no part in routing.
#[derive(Debug, PartialEq, Eq, Hash)]
pub struct TickerInfo {
    pub ticker: Ticker,
}

impl View for TickerInfo {
    type V = TickerView;

    open spec fn view(&self) -> TickerView {
        self.ticker@
    }
}

impl Clone for TickerInfo {
    fn clone(&self) -> (t: Self)
        ensures
            t == *self,
    {
        TickerInfo { ticker: self.ticker.clone() }
    }
}

impl TickerInfo {
    /// Wraps an instrument.
    pub fn new(ticker: Ticker) -> (t: Self)
        ensures
            t.ticker == ticker,
    {
        TickerInfo { ticker }
    }

    /// The exchange of the instrument.
    pub fn exchange(&self) -> (e: Exchange)
        ensures
            e == self@.exchange,
    {
        self.ticker.exchange
    }
}

/// Who groups the order book into price steps.
#[derive(Debug, Clone, Copy, PartialEq, Eq, Hash, Structural)]
pub enum StreamTicksize {
    Client,
    ServerSide(u16),
}

/// How often an order book is pushed.
#[derive(Debug, Clone, Copy, PartialEq, Eq, Hash, Structural)]
pub enum PushFrequency {
    ServerDefault,
    Custom(Timeframe),
}

/// A live stream of an exchange.
#[derive(Debug, PartialEq, Eq, Hash)]
pub enum StreamKind {
    Kline { ticker_info: TickerInfo, timeframe: Timeframe },
    Depth { ticker_info: TickerInfo, depth_aggr: StreamTicksize, push_freq: PushFrequency },
    Trades { ticker_info: TickerInfo },
}

/// What a stream is, as a value.
#[verifier::ext_equal]
pub enum StreamView {
    Kline { ticker: TickerView, timeframe: Timeframe },
    Depth { ticker: TickerView, depth_aggr: StreamTicksize, push_freq: PushFrequency },
    Trades { ticker: TickerView },
}

impl View for StreamKind {
    type V = StreamView;

    open spec fn view(&self) -> StreamView {
        match *self {
            StreamKind::Kline { ticker_info, timeframe } => StreamView::Kline {
                ticker: ticker_info@,
                timeframe,
            },
            StreamKind::Depth { ticker_info, depth_aggr, push_freq } => StreamView::Depth {
                ticker: ticker_info@,
                depth_aggr,
                push_freq,
            },
            StreamKind::Trades { ticker_info } => StreamView::Trades { ticker: ticker_info@ },
        }
    }
}

impl Clone for StreamKind {
    fn clone(&self) -> (s: Self)
        ensures
            s == *self,
    {
        match self {
            StreamKind::Kline { ticker_info, timeframe } => StreamKind::Kline {
                ticker_info: ticker_info.clone(),
                timeframe: *timeframe,
            },
            StreamKind::Depth { ticker_info, depth_aggr, push_freq } => StreamKind::Depth {
                ticker_info: ticker_info.clone(),
                depth_aggr: *depth_aggr,
                push_freq: *push_freq,
            },
            StreamKind::Trades { ticker_info } => StreamKind::Trades {
                ticker_info: ticker_info.clone(),
            },
        }
    }
}

impl StreamView {
    /// The instrument of the stream.
    pub open spec fn ticker(self) -> TickerView {
        match self {
            StreamView::Kline { ticker, timeframe } => ticker,
            StreamView::Depth { ticker, depth_aggr, push_freq } => ticker,
            StreamView::Trades { ticker } => ticker,
        }
    }
}

impl StreamKind {
    /// The instrument of the stream.
    pub fn ticker_info(&self) -> (t: &TickerInfo)
        ensures
            t@ == self@.ticker(),
    {
        match self {
            StreamKind::Kline { ticker_info, timeframe: _ } => ticker_info,
            StreamKind::Depth { ticker_info, depth_aggr: _, push_freq: _ } => ticker_info,
            StreamKind::Trades { ticker_info } => ticker_info,
        }
    }

    /// True when both are the same stream.
    pub fn same(&self, other: &Self) -> (r: bool)
        ensures
            r == (self@ == other@),
    {
        match (self, other) {
            (
                StreamKind::Kline { ticker_info: a, timeframe: s },
                StreamKind::Kline { ticker_info: b, timeframe: t },
            ) => a.ticker.same(&b.ticker) && *s == *t,
            (
                StreamKind::Depth { ticker_info: a, depth_aggr: s, push_freq: f },
                StreamKind::Depth { ticker_info: b, depth_aggr: t, push_freq: g },
            ) => a.ticker.same(&b.ticker) && *s == *t && *f == *g,
            (StreamKind::Trades { ticker_info: a }, StreamKind::Trades { ticker_info: b }) => {
                a.ticker.same(&b.ticker)
            },
            _ => false,
        }
    }
}

/// The nearest number an `i64` can hold.
pub open spec fn clamp_i64(x: int) -> i64 {
    if x > i64::MAX {
        i64::MAX
    } else if x < i64::MIN {
        i64::MIN
    } else {
        x as i64
    }
}

/// The nearest number an `i64` can hold.
pub fn to_i64_saturating(x: i128) -> (r: i64)
    ensures
        r == clamp_i64(x as int),
{
    if x > i64::MAX as i128 {
        i64::MAX
    } else if x < i64::MIN as i128 {
        i64::MIN
    } else {
        x as i64
    }
}

proof fn lemma_euclid(s: int, v: int)
    requires
        v > 0,
    ensures
        s - s % v == s / v * v,
        0 <= s % v < v,
        s < 0 ==> s % v == if (-s) % v == 0 {
            0
        } else {
            v - (-s) % v
        },
{
    vstd::arithmetic::div_mod::lemma_fundamental_div_mod(s, v);
    vstd::arithmetic::div_mod::lemma_mod_bound(s, v);
    vstd::arithmetic::mul::lemma_mul_is_commutative(v, s / v);
    if s < 0 {
        let m = (-s) % v;
        let q = (-s) / v;
        vstd::arithmetic::div_mod::lemma_fundamental_div_mod(-s, v);
        vstd::arithmetic::div_mod::lemma_mod_bound(-s, v);
        if m == 0 {
            assert(s == (-q) * v + 0) by (nonlinear_arith)
                requires
                    -s == v * q,
            ;
            vstd::arithmetic::div_mod::lemma_fundamental_div_mod_converse(s, v, -q, 0);
        } else {
            assert(s == (-q - 1) * v + (v - m)) by (nonlinear_arith)
                requires
                    -s == v * q + m,
            ;
            vstd::arithmetic::div_mod::lemma_fundamental_div_mod_converse(s, v, -q - 1, v - m);
        }
    }
}

/// The size of one price level.
#[derive(Debug, Clone, Copy, PartialEq, Eq, Hash, Structural)]
pub struct PriceStep {
    pub units: i64,
}

impl Default for PriceStep {
    fn default() -> (s: Self)
        ensures
            s.units == 1,
    {
        PriceStep { units: 1 }
    }
}

/// A price.
#[derive(Debug, Clone, Copy, PartialEq, Eq, PartialOrd, Ord, Hash, Structural)]
pub struct Price {
    pub units: i64,
}

impl Price {
    /// The nearest multiple of `step`, the upper one in the middle.
    pub open spec fn rounded(self, step: PriceStep) -> Price {
        if step.units <= 1 {
            self
        } else {
            let u = step.units as int;
            Price { units: clamp_i64((self.units + u / 2) / u * u) }
        }
    }

    /// The nearest multiple of `step`, the upper one in the middle.
    pub fn round_to_step(self, step: PriceStep) -> (p: Self)
        ensures
            p == self.rounded(step),
    {
        if step.units <= 1 {
            return self;
        }
        let u: i128 = step.units as i128;
        let shifted: i128 = self.units as i128 + u / 2;
        let rem: i128 = if shifted >= 0 {
            shifted % u
        } else {
            let m: i128 = (-shifted) % u;
            if m == 0 {
                0
            } else {
                u - m
            }
        };
        proof {
            lemma_euclid(shifted as int, u as int);
        }
        Price { units: to_i64_saturating(shifted - rem) }
    }
}

/// A traded quantity.
#[derive(Debug, Clone, Copy, PartialEq, Eq, PartialOrd, Ord, Hash, Structural)]
pub struct Qty {
    pub units: i64,
}

impl Qty {
    /// The sum, at the limits of the type the limit.
    pub open spec fn sum(self, other: Qty) -> Qty {
        Qty { units: clamp_i64(self.units + other.units) }
    }

    /// The difference, at the limits of the type the limit.
    pub open spec fn difference(self, other: Qty) -> Qty {
        Qty { units: clamp_i64(self.units - other.units) }
    }

    /// The sum, at the limits of the type the limit.
    pub fn plus(self, other: Qty) -> (q: Qty)
        ensures
            q == self.sum(other),
    {
        Qty { units: to_i64_saturating(self.units as i128 + other.units as i128) }
    }

    /// The difference, at the limits of the type the limit.
    pub fn minus(self, other: Qty) -> (q: Qty)
        ensures
            q == self.difference(other),
    {
        Qty { units: to_i64_saturating(self.units as i128 - other.units as i128) }
    }
}

/// One trade.
#[derive(Debug, Clone, Copy, PartialEq, Eq, Hash, Structural)]
pub struct Trade {
    pub time: UnixMs,
    pub is_sell: bool,
    pub price: Price,
    pub qty: Qty,
}

/// Traded volume of a candle.
#[derive(Debug, Clone, Copy, PartialEq, Eq, Hash, Structural)]
pub enum Volume {
    TotalOnly(Qty),
    BuySell(Qty, Qty),
}

impl Volume {
    /// All that was traded, bought or sold.
    pub open spec fn whole(self) -> Qty {
        match self {
            Volume::TotalOnly(q) => q,
            Volume::BuySell(buy, sell) => buy.sum(sell),
        }
    }

    /// All that was traded, bought or sold.
    pub fn total(&self) -> (q: Qty)
        ensures
            q == self.whole(),
    {
        match self {
            Volume::TotalOnly(q) => *q,
            Volume::BuySell(buy, sell) => buy.plus(*sell),
        }
    }
}

/// One candle.
#[derive(Debug, Clone, Copy, PartialEq, Eq, Hash, Structural)]
pub struct Kline {
    pub time: UnixMs,
    pub open: Price,
    pub high: Price,
    pub low: Price,
    pub close: Price,
    pub volume: Volume,
}

/// One reading of open interest. The value is carried as its bit pattern.
#[derive(Debug, Clone, Copy, PartialEq, Eq, Hash, Structural)]
pub struct OpenInterest {
    pub time: UnixMs,
    pub value_bits: u64,
}

/// Sums and differences of quantities are exact as long as the type can hold them, and else the
/// limit on that side. All of a volume is what was bought and what was sold.
pub proof fn law_quantities_add_up(a: Qty, b: Qty)
    ensures
        i64::MIN <= a.units + b.units <= i64::MAX ==> a.sum(b).units == a.units + b.units,
        a.units + b.units > i64::MAX ==> a.sum(b).units == i64::MAX,
        a.units + b.units < i64::MIN ==> a.sum(b).units == i64::MIN,
        i64::MIN <= a.units - b.units <= i64::MAX ==> a.difference(b).units == a.units - b.units,
        a.units - b.units > i64::MAX ==> a.difference(b).units == i64::MAX,
        a.units - b.units < i64::MIN ==> a.difference(b).units == i64::MIN,
        Volume::TotalOnly(a).whole() == a,
        Volume::BuySell(a, b).whole() == a.sum(b),
{
}

} // verus!
