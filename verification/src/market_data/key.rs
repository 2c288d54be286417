//! Identity of market data streams.

use vstd::prelude::*;
use vstd::string::*;
use crate::keyed::Identity;
use crate::market::{AdapterMarketKind, Exchange, TickerInfo, TickerView};
use crate::text::{same_text, strip_text_prefix};
use crate::time::Timeframe;

verus! {

/// A venue whose data is tracked.
#[derive(Debug, Clone, Copy, PartialEq, Eq, Hash, Structural)]
pub enum Venue {
    BinanceSpot,
    BinanceLinear,
    BinanceInverse,
    BybitLinear,
    BybitInverse,
    HyperliquidLinear,
    MexcSpot,
    MexcLinear,
    MexcInverse,
    OkexSpot,
    OkexLinear,
}

impl Venue {
    /// The name of the venue.
    pub open spec fn name(self) -> Seq<char> {
        match self {
            Venue::BinanceSpot => "BinanceSpot"@,
            Venue::BinanceLinear => "BinanceLinear"@,
            Venue::BinanceInverse => "BinanceInverse"@,
            Venue::BybitLinear => "BybitLinear"@,
            Venue::BybitInverse => "BybitInverse"@,
            Venue::HyperliquidLinear => "HyperliquidLinear"@,
            Venue::MexcSpot => "MexcSpot"@,
            Venue::MexcLinear => "MexcLinear"@,
            Venue::MexcInverse => "MexcInverse"@,
            Venue::OkexSpot => "OkexSpot"@,
            Venue::OkexLinear => "OkexLinear"@,
        }
    }

    /// The exchange adapter of the venue.
    pub open spec fn adapter(self) -> Exchange {
        match self {
            Venue::BinanceSpot => Exchange::BinanceSpot,
            Venue::BinanceLinear => Exchange::BinanceLinear,
            Venue::BinanceInverse => Exchange::BinanceInverse,
            Venue::BybitLinear => Exchange::BybitLinear,
            Venue::BybitInverse => Exchange::BybitInverse,
            Venue::HyperliquidLinear => Exchange::HyperliquidLinear,
            Venue::MexcSpot => Exchange::MexcSpot,
            Venue::MexcLinear => Exchange::MexcLinear,
            Venue::MexcInverse => Exchange::MexcInverse,
            Venue::OkexSpot => Exchange::OkexSpot,
            Venue::OkexLinear => Exchange::OkexLinear,
        }
    }

    /// The venue of an exchange adapter, if it is tracked.
    pub open spec fn of_exchange(exchange: Exchange) -> Option<Venue> {
        match exchange {
            Exchange::BinanceSpot => Some(Venue::BinanceSpot),
            Exchange::BinanceLinear => Some(Venue::BinanceLinear),
            Exchange::BinanceInverse => Some(Venue::BinanceInverse),
            Exchange::BybitLinear => Some(Venue::BybitLinear),
            Exchange::BybitInverse => Some(Venue::BybitInverse),
            Exchange::HyperliquidLinear => Some(Venue::HyperliquidLinear),
            Exchange::MexcSpot => Some(Venue::MexcSpot),
            Exchange::MexcLinear => Some(Venue::MexcLinear),
            Exchange::MexcInverse => Some(Venue::MexcInverse),
            Exchange::OkexSpot => Some(Venue::OkexSpot),
            Exchange::OkexLinear => Some(Venue::OkexLinear),
            _ => None,
        }
    }

    /// The venue of an exchange adapter, if it is tracked.
    pub fn from_exchange(exchange: Exchange) -> (v: Option<Self>)
        ensures
            v == Venue::of_exchange(exchange),
            v matches Some(venue) ==> venue.adapter() == exchange,
            v is None ==> forall|venue: Venue| #[trigger] venue.adapter() != exchange,
    {
        match exchange {
            Exchange::BinanceSpot => Some(Venue::BinanceSpot),
            Exchange::BinanceLinear => Some(Venue::BinanceLinear),
            Exchange::BinanceInverse => Some(Venue::BinanceInverse),
            Exchange::BybitLinear => Some(Venue::BybitLinear),
            Exchange::BybitInverse => Some(Venue::BybitInverse),
            Exchange::HyperliquidLinear => Some(Venue::HyperliquidLinear),
            Exchange::MexcSpot => Some(Venue::MexcSpot),
            Exchange::MexcLinear => Some(Venue::MexcLinear),
            Exchange::MexcInverse => Some(Venue::MexcInverse),
            Exchange::OkexSpot => Some(Venue::OkexSpot),
            Exchange::OkexLinear => Some(Venue::OkexLinear),
            _ => None,
        }
    }

    /// The exchange adapter of the venue.
    pub fn to_exchange(self) -> (e: Exchange)
        ensures
            e == self.adapter(),
    {
        match self {
            Venue::BinanceSpot => Exchange::BinanceSpot,
            Venue::BinanceLinear => Exchange::BinanceLinear,
            Venue::BinanceInverse => Exchange::BinanceInverse,
            Venue::BybitLinear => Exchange::BybitLinear,
            Venue::BybitInverse => Exchange::BybitInverse,
            Venue::HyperliquidLinear => Exchange::HyperliquidLinear,
            Venue::MexcSpot => Exchange::MexcSpot,
            Venue::MexcLinear => Exchange::MexcLinear,
            Venue::MexcInverse => Exchange::MexcInverse,
            Venue::OkexSpot => Exchange::OkexSpot,
            Venue::OkexLinear => Exchange::OkexLinear,
        }
    }

    /// The name of the venue.
    pub fn display_name(&self) -> (s: &'static str)
        ensures
            s@ == self.name(),
    {
        match self {
            Venue::BinanceSpot => "BinanceSpot",
            Venue::BinanceLinear => "BinanceLinear",
            Venue::BinanceInverse => "BinanceInverse",
            Venue::BybitLinear => "BybitLinear",
            Venue::BybitInverse => "BybitInverse",
            Venue::HyperliquidLinear => "HyperliquidLinear",
            Venue::MexcSpot => "MexcSpot",
            Venue::MexcLinear => "MexcLinear",
            Venue::MexcInverse => "MexcInverse",
            Venue::OkexSpot => "OkexSpot",
            Venue::OkexLinear => "OkexLinear",
        }
    }

    /// The venue of that name.
    fn from_name(name: &str) -> (r: Option<Venue>)
        ensures
            r matches Some(v) ==> v.name() == name@,
            r is None ==> forall|v: Venue| #[trigger] v.name() != name@,
    {
        if same_text(name, "BinanceSpot") {
            return Some(Venue::BinanceSpot);
        }
        if same_text(name, "BinanceLinear") {
            return Some(Venue::BinanceLinear);
        }
        if same_text(name, "BinanceInverse") {
            return Some(Venue::BinanceInverse);
        }
        if same_text(name, "BybitLinear") {
            return Some(Venue::BybitLinear);
        }
        if same_text(name, "BybitInverse") {
            return Some(Venue::BybitInverse);
        }
        if same_text(name, "HyperliquidLinear") {
            return Some(Venue::HyperliquidLinear);
        }
        if same_text(name, "MexcSpot") {
            return Some(Venue::MexcSpot);
        }
        if same_text(name, "MexcLinear") {
            return Some(Venue::MexcLinear);
        }
        if same_text(name, "MexcInverse") {
            return Some(Venue::MexcInverse);
        }
        if same_text(name, "OkexSpot") {
            return Some(Venue::OkexSpot);
        }
        if same_text(name, "OkexLinear") {
            return Some(Venue::OkexLinear);
        }
        None
    }
}

/// A trading symbol, such as `BTCUSDT`.
#[derive(Debug, PartialEq, Eq, Hash)]
pub struct Symbol(pub String);

impl View for Symbol {
    type V = Seq<char>;

    open spec fn view(&self) -> Seq<char> {
        self.0@
    }
}

impl Clone for Symbol {
    fn clone(&self) -> (s: Self)
        ensures
            s == *self,
    {
        Symbol(self.0.clone())
    }
}

impl Symbol {
    /// A symbol of that text.
    pub fn new(s: &str) -> (symbol: Self)
        ensures
            symbol@ == s@,
    {
        Symbol(String::from_str(s))
    }

    /// The text of the symbol.
    pub fn as_str(&self) -> (s: &str)
        ensures
            s@ == self@,
    {
        self.0.as_str()
    }
}

/// The kind of market a venue trades on.
#[derive(Debug, Clone, Copy, PartialEq, Eq, Hash, Structural)]
pub enum MarketKind {
    Spot,
    LinearPerps,
    InversePerps,
}

impl MarketKind {
    /// The name of the kind of market.
    pub open spec fn name(self) -> Seq<char> {
        match self {
            MarketKind::Spot => "Spot"@,
            MarketKind::LinearPerps => "Linear"@,
            MarketKind::InversePerps => "Inverse"@,
        }
    }

    /// The adapter's word for the kind of market.
    pub open spec fn adapter(self) -> AdapterMarketKind {
        match self {
            MarketKind::Spot => AdapterMarketKind::Spot,
            MarketKind::LinearPerps => AdapterMarketKind::LinearPerps,
            MarketKind::InversePerps => AdapterMarketKind::InversePerps,
        }
    }

    /// The kind of market of an adapter.
    pub open spec fn of_adapter(kind: AdapterMarketKind) -> MarketKind {
        match kind {
            AdapterMarketKind::Spot => MarketKind::Spot,
            AdapterMarketKind::LinearPerps => MarketKind::LinearPerps,
            AdapterMarketKind::InversePerps => MarketKind::InversePerps,
        }
    }

    /// The kind of market of an adapter.
    pub fn from_adapter(kind: AdapterMarketKind) -> (m: Self)
        ensures
            m == MarketKind::of_adapter(kind),
            m.adapter() == kind,
    {
        match kind {
            AdapterMarketKind::Spot => MarketKind::Spot,
            AdapterMarketKind::LinearPerps => MarketKind::LinearPerps,
            AdapterMarketKind::InversePerps => MarketKind::InversePerps,
        }
    }

    /// The adapter's word for the kind of market.
    pub fn to_adapter(self) -> (kind: AdapterMarketKind)
        ensures
            kind == self.adapter(),
    {
        match self {
            MarketKind::Spot => AdapterMarketKind::Spot,
            MarketKind::LinearPerps => AdapterMarketKind::LinearPerps,
            MarketKind::InversePerps => AdapterMarketKind::InversePerps,
        }
    }

    /// The name of the kind of market.
    pub fn display_name(&self) -> (s: &'static str)
        ensures
            s@ == self.name(),
    {
        match self {
            MarketKind::Spot => "Spot",
            MarketKind::LinearPerps => "Linear",
            MarketKind::InversePerps => "Inverse",
        }
    }

    /// The kind of market of that name.
    fn from_name(name: &str) -> (r: Option<MarketKind>)
        ensures
            r matches Some(m) ==> m.name() == name@,
            r is None ==> forall|m: MarketKind| #[trigger] m.name() != name@,
    {
        if same_text(name, "Spot") {
            return Some(MarketKind::Spot);
        }
        if same_text(name, "Linear") {
            return Some(MarketKind::LinearPerps);
        }
        if same_text(name, "Inverse") {
            return Some(MarketKind::InversePerps);
        }
        None
    }
}

/// What a stream delivers.
#[derive(Debug, Clone, Copy, PartialEq, Eq, Hash, Structural)]
pub enum MarketDataKind {
    /// Single trades.
    Trades,
    /// Candles of one width.
    Klines { timeframe: Timeframe },
    /// Open interest, sampled per candle.
    OpenInterest { timeframe: Timeframe },
}

impl MarketDataKind {
    /// The name of the kind, such as `Klines:5m`.
    pub open spec fn name(self) -> Seq<char> {
        match self {
            MarketDataKind::Trades => "Trades"@,
            MarketDataKind::Klines { timeframe } => "Klines:"@ + timeframe.name(),
            MarketDataKind::OpenInterest { timeframe } => "OI:"@ + timeframe.name(),
        }
    }

    /// The width of the candles, if there are candles.
    pub open spec fn candle(self) -> Option<Timeframe> {
        match self {
            MarketDataKind::Klines { timeframe } => Some(timeframe),
            MarketDataKind::OpenInterest { timeframe } => Some(timeframe),
            MarketDataKind::Trades => None,
        }
    }

    /// The name of the kind, such as `Klines:5m`.
    pub fn display_name(&self) -> (s: String)
        ensures
            s@ == self.name(),
    {
        match self {
            MarketDataKind::Trades => String::from_str("Trades"),
            MarketDataKind::Klines { timeframe } => {
                let mut s = String::from_str("Klines:");
                s.append(timeframe.label());
                s
            },
            MarketDataKind::OpenInterest { timeframe } => {
                let mut s = String::from_str("OI:");
                s.append(timeframe.label());
                s
            },
        }
    }

    /// True for trades.
    pub fn is_trades(&self) -> (r: bool)
        ensures
            r == (*self is Trades),
    {
        matches!(self, MarketDataKind::Trades)
    }

    /// True for candles.
    pub fn is_klines(&self) -> (r: bool)
        ensures
            r == (*self is Klines),
    {
        matches!(self, MarketDataKind::Klines { .. })
    }

    /// True for open interest.
    pub fn is_open_interest(&self) -> (r: bool)
        ensures
            r == (*self is OpenInterest),
    {
        matches!(self, MarketDataKind::OpenInterest { .. })
    }

    /// The width of the candles, if there are candles.
    pub fn timeframe(&self) -> (tf: Option<Timeframe>)
        ensures
            tf == self.candle(),
    {
        match self {
            MarketDataKind::Klines { timeframe } => Some(*timeframe),
            MarketDataKind::OpenInterest { timeframe } => Some(*timeframe),
            MarketDataKind::Trades => None,
        }
    }

    /// The width of the candles in milliseconds, if there are candles.
    pub fn timeframe_ms(&self) -> (ms: Option<u64>)
        ensures
            ms == match self.candle() {
                Some(tf) => Some(tf.millis() as u64),
                None => None::<u64>,
            },
    {
        match self.timeframe() {
            Some(tf) => Some(tf.to_milliseconds()),
            None => None,
        }
    }

    /// The kind of that name.
    fn from_name(name: &str) -> (r: Option<MarketDataKind>)
        ensures
            r matches Some(k) ==> k.name() == name@,
            r is None ==> forall|k: MarketDataKind| #[trigger] k.name() != name@,
    {
        if same_text(name, "Trades") {
            return Some(MarketDataKind::Trades);
        }
        let klines = strip_text_prefix(name, "Klines:");
        let interest = strip_text_prefix(name, "OI:");
        let r = if let Some(rest) = klines {
            match parse_timeframe(rest) {
                Some(timeframe) => Some(MarketDataKind::Klines { timeframe }),
                None => None,
            }
        } else if let Some(rest) = interest {
            match parse_timeframe(rest) {
                Some(timeframe) => Some(MarketDataKind::OpenInterest { timeframe }),
                None => None,
            }
        } else {
            None
        };
        proof {
            lemma_kind_prefixes_differ(name@);
            if r is None {
                assert forall|k: MarketDataKind| #[trigger] k.name() != name@ by {
                    match k {
                        MarketDataKind::Trades => {},
                        MarketDataKind::Klines { timeframe } => {
                            if k.name() == name@ {
                                assert(name@.skip("Klines:"@.len() as int) =~= timeframe.name());
                                assert(name@.take("Klines:"@.len() as int) =~= "Klines:"@);
                            }
                        },
                        MarketDataKind::OpenInterest { timeframe } => {
                            if k.name() == name@ {
                                assert(name@.skip("OI:"@.len() as int) =~= timeframe.name());
                                assert(name@.take("OI:"@.len() as int) =~= "OI:"@);
                            }
                        },
                    }
                }
            }
        }
        r
    }
}

/// No text starts both as a kline kind and as an open interest kind.
proof fn lemma_kind_prefixes_differ(s: Seq<char>)
    ensures
        s.len() >= "Klines:"@.len() && s.take("Klines:"@.len() as int) == "Klines:"@ ==> !(s.len()
            >= "OI:"@.len() && s.take("OI:"@.len() as int) == "OI:"@),
{
    reveal_strlit("Klines:");
    reveal_strlit("OI:");
    if s.len() >= "Klines:"@.len() && s.take("Klines:"@.len() as int) == "Klines:"@ && s.len()
        >= "OI:"@.len() && s.take("OI:"@.len() as int) == "OI:"@ {
        assert(s.take(7)[0] == s[0]);
        assert(s.take(3)[0] == s[0]);
    }
}

/// Parse a timeframe name, such as `5m`.
fn parse_timeframe(s: &str) -> (r: Option<Timeframe>)
    ensures
        r matches Some(tf) ==> tf.name() == s@,
        r is None ==> forall|tf: Timeframe| #[trigger] tf.name() != s@,
{
    if same_text(s, "100ms") {
        return Some(Timeframe::MS100);
    }
    if same_text(s, "200ms") {
        return Some(Timeframe::MS200);
    }
    if same_text(s, "300ms") {
        return Some(Timeframe::MS300);
    }
    if same_text(s, "500ms") {
        return Some(Timeframe::MS500);
    }
    if same_text(s, "1s") {
        return Some(Timeframe::MS1000);
    }
    if same_text(s, "1m") {
        return Some(Timeframe::M1);
    }
    if same_text(s, "3m") {
        return Some(Timeframe::M3);
    }
    if same_text(s, "5m") {
        return Some(Timeframe::M5);
    }
    if same_text(s, "15m") {
        return Some(Timeframe::M15);
    }
    if same_text(s, "30m") {
        return Some(Timeframe::M30);
    }
    if same_text(s, "1h") {
        return Some(Timeframe::H1);
    }
    if same_text(s, "2h") {
        return Some(Timeframe::H2);
    }
    if same_text(s, "4h") {
        return Some(Timeframe::H4);
    }
    if same_text(s, "12h") {
        return Some(Timeframe::H12);
    }
    if same_text(s, "1d") {
        return Some(Timeframe::D1);
    }
    None
}

/// The identity of a market data stream.
#[derive(Debug, PartialEq, Eq, Hash)]
pub struct MarketDataKey {
    pub venue: Venue,
    pub symbol: Symbol,
    pub market_type: MarketKind,
    pub kind: MarketDataKind,
}

/// The identity of a market data stream, as a value.
#[verifier::ext_equal]
pub struct KeyView {
    pub venue: Venue,
    pub symbol: Seq<char>,
    pub market_type: MarketKind,
    pub kind: MarketDataKind,
}

impl View for MarketDataKey {
    type V = KeyView;

    open spec fn view(&self) -> KeyView {
        KeyView {
            venue: self.venue,
            symbol: self.symbol@,
            market_type: self.market_type,
            kind: self.kind,
        }
    }
}

impl Clone for MarketDataKey {
    fn clone(&self) -> (k: Self)
        ensures
            k == *self,
    {
        MarketDataKey {
            venue: self.venue,
            symbol: self.symbol.clone(),
            market_type: self.market_type,
            kind: self.kind,
        }
    }
}

impl Identity for MarketDataKey {
    fn same_as(&self, other: &Self) -> (same: bool) {
        self.same(other)
    }
}

impl KeyView {
    /// The key of one kind of data of an instrument, if its venue is tracked.
    pub open spec fn of_ticker(ticker: TickerView, kind: MarketDataKind) -> Option<KeyView> {
        match Venue::of_exchange(ticker.exchange) {
            Some(venue) => Some(
                KeyView {
                    venue,
                    symbol: ticker.name(),
                    market_type: MarketKind::of_adapter(ticker.exchange.market()),
                    kind,
                },
            ),
            None => None,
        }
    }

    /// The text of the key, such as `Trades:BinanceLinear:BTCUSDT`.
    pub open spec fn display(self) -> Seq<char> {
        self.kind.name() + ":"@ + self.venue.name() + ":"@ + self.symbol
    }
}

/// The value of an optional key.
pub open spec fn key_of(k: Option<MarketDataKey>) -> Option<KeyView> {
    match k {
        Some(key) => Some(key@),
        None => None,
    }
}

impl MarketDataKey {
    /// The key of a trade stream.
    pub fn trades(venue: Venue, symbol: Symbol, market_type: MarketKind) -> (k: Self)
        ensures
            k@ == (KeyView { venue, symbol: symbol@, market_type, kind: MarketDataKind::Trades }),
    {
        MarketDataKey { venue, symbol, market_type, kind: MarketDataKind::Trades }
    }

    /// The key of a kline stream.
    pub fn klines(
        venue: Venue,
        symbol: Symbol,
        market_type: MarketKind,
        timeframe: Timeframe,
    ) -> (k: Self)
        ensures
            k@ == (KeyView {
                venue,
                symbol: symbol@,
                market_type,
                kind: MarketDataKind::Klines { timeframe },
            }),
    {
        MarketDataKey { venue, symbol, market_type, kind: MarketDataKind::Klines { timeframe } }
    }

    /// The key of an open interest stream.
    pub fn open_interest(
        venue: Venue,
        symbol: Symbol,
        market_type: MarketKind,
        timeframe: Timeframe,
    ) -> (k: Self)
        ensures
            k@ == (KeyView {
                venue,
                symbol: symbol@,
                market_type,
                kind: MarketDataKind::OpenInterest { timeframe },
            }),
    {
        MarketDataKey {
            venue,
            symbol,
            market_type,
            kind: MarketDataKind::OpenInterest { timeframe },
        }
    }

    /// The key of one kind of data of an instrument, if its venue is tracked.
    pub fn from_ticker_info(ticker_info: &TickerInfo, kind: MarketDataKind) -> (k: Option<Self>)
        ensures
            key_of(k) == KeyView::of_ticker(ticker_info@, kind),
    {
        match Venue::from_exchange(ticker_info.exchange()) {
            Some(venue) => Some(
                MarketDataKey {
                    venue,
                    symbol: Symbol::new(ticker_info.ticker.shown_name()),
                    market_type: MarketKind::from_adapter(ticker_info.ticker.market_type()),
                    kind,
                },
            ),
            None => None,
        }
    }

    /// The key whose parts have these names.
    pub fn from_display_parts(
        venue: &str,
        symbol: &str,
        market_type: &str,
        kind: &str,
    ) -> (k: Option<Self>)
        ensures
            key_of(k) == key_named(venue@, symbol@, market_type@, kind@),
    {
        let venue = match Venue::from_name(venue) {
            Some(v) => v,
            None => return None,
        };
        let market_type = match MarketKind::from_name(market_type) {
            Some(m) => m,
            None => return None,
        };
        let kind = match MarketDataKind::from_name(kind) {
            Some(d) => d,
            None => return None,
        };
        proof {
            lemma_named(venue, market_type, kind);
        }
        Some(MarketDataKey { venue, symbol: Symbol::new(symbol), market_type, kind })
    }

    /// The text of the key, such as `Trades:BinanceLinear:BTCUSDT`.
    pub fn display_key(&self) -> (s: String)
        ensures
            s@ == self@.display(),
    {
        let mut s = self.kind.display_name();
        s.append(":");
        s.append(self.venue.display_name());
        s.append(":");
        s.append(self.symbol.as_str());
        s
    }

    /// True when both name the same stream.
    pub fn same(&self, other: &Self) -> (r: bool)
        ensures
            r == (self@ == other@),
    {
        self.venue == other.venue && self.symbol.0 == other.symbol.0 && self.market_type
            == other.market_type && self.kind == other.kind
    }
}

/// Different venues have different names.
pub proof fn law_venue_names_differ(a: Venue, b: Venue)
    requires
        a.name() == b.name(),
    ensures
        a == b,
{
    reveal_strlit("BinanceSpot");
    assert("BinanceSpot"@.len() == 11);
    assert("BinanceSpot"@[0] == 'B' && "BinanceSpot"@[1] == 'i');
    reveal_strlit("BinanceLinear");
    assert("BinanceLinear"@.len() == 13);
    assert("BinanceLinear"@[0] == 'B' && "BinanceLinear"@[1] == 'i');
    reveal_strlit("BinanceInverse");
    assert("BinanceInverse"@.len() == 14);
    assert("BinanceInverse"@[0] == 'B' && "BinanceInverse"@[1] == 'i');
    reveal_strlit("BybitLinear");
    assert("BybitLinear"@.len() == 11);
    assert("BybitLinear"@[0] == 'B' && "BybitLinear"@[1] == 'y');
    reveal_strlit("BybitInverse");
    assert("BybitInverse"@.len() == 12);
    assert("BybitInverse"@[0] == 'B' && "BybitInverse"@[1] == 'y');
    reveal_strlit("HyperliquidLinear");
    assert("HyperliquidLinear"@.len() == 17);
    assert("HyperliquidLinear"@[0] == 'H' && "HyperliquidLinear"@[1] == 'y');
    reveal_strlit("MexcSpot");
    assert("MexcSpot"@.len() == 8);
    assert("MexcSpot"@[0] == 'M' && "MexcSpot"@[1] == 'e');
    reveal_strlit("MexcLinear");
    assert("MexcLinear"@.len() == 10);
    assert("MexcLinear"@[0] == 'M' && "MexcLinear"@[1] == 'e');
    reveal_strlit("MexcInverse");
    assert("MexcInverse"@.len() == 11);
    assert("MexcInverse"@[0] == 'M' && "MexcInverse"@[1] == 'e');
    reveal_strlit("OkexSpot");
    assert("OkexSpot"@.len() == 8);
    assert("OkexSpot"@[0] == 'O' && "OkexSpot"@[1] == 'k');
    reveal_strlit("OkexLinear");
    assert("OkexLinear"@.len() == 10);
    assert("OkexLinear"@[0] == 'O' && "OkexLinear"@[1] == 'k');
    assert(a.name().len() == b.name().len());
    assert(a.name()[0] == b.name()[0]);
    assert(a.name()[1] == b.name()[1]);
}

/// Different kinds of market have different names.
pub proof fn law_market_names_differ(a: MarketKind, b: MarketKind)
    requires
        a.name() == b.name(),
    ensures
        a == b,
{
    reveal_strlit("Spot");
    assert("Spot"@.len() == 4);
    assert("Spot"@[0] == 'S' && "Spot"@[1] == 'p');
    reveal_strlit("Linear");
    assert("Linear"@.len() == 6);
    assert("Linear"@[0] == 'L' && "Linear"@[1] == 'i');
    reveal_strlit("Inverse");
    assert("Inverse"@.len() == 7);
    assert("Inverse"@[0] == 'I' && "Inverse"@[1] == 'n');
    assert(a.name().len() == b.name().len());
}

/// Different candle widths have different names.
pub proof fn law_timeframe_names_differ(a: Timeframe, b: Timeframe)
    requires
        a.name() == b.name(),
    ensures
        a == b,
{
    reveal_strlit("100ms");
    assert("100ms"@.len() == 5);
    assert("100ms"@[0] == '1' && "100ms"@[1] == '0');
    reveal_strlit("200ms");
    assert("200ms"@.len() == 5);
    assert("200ms"@[0] == '2' && "200ms"@[1] == '0');
    reveal_strlit("300ms");
    assert("300ms"@.len() == 5);
    assert("300ms"@[0] == '3' && "300ms"@[1] == '0');
    reveal_strlit("500ms");
    assert("500ms"@.len() == 5);
    assert("500ms"@[0] == '5' && "500ms"@[1] == '0');
    reveal_strlit("1s");
    assert("1s"@.len() == 2);
    assert("1s"@[0] == '1' && "1s"@[1] == 's');
    reveal_strlit("1m");
    assert("1m"@.len() == 2);
    assert("1m"@[0] == '1' && "1m"@[1] == 'm');
    reveal_strlit("3m");
    assert("3m"@.len() == 2);
    assert("3m"@[0] == '3' && "3m"@[1] == 'm');
    reveal_strlit("5m");
    assert("5m"@.len() == 2);
    assert("5m"@[0] == '5' && "5m"@[1] == 'm');
    reveal_strlit("15m");
    assert("15m"@.len() == 3);
    assert("15m"@[0] == '1' && "15m"@[1] == '5');
    reveal_strlit("30m");
    assert("30m"@.len() == 3);
    assert("30m"@[0] == '3' && "30m"@[1] == '0');
    reveal_strlit("1h");
    assert("1h"@.len() == 2);
    assert("1h"@[0] == '1' && "1h"@[1] == 'h');
    reveal_strlit("2h");
    assert("2h"@.len() == 2);
    assert("2h"@[0] == '2' && "2h"@[1] == 'h');
    reveal_strlit("4h");
    assert("4h"@.len() == 2);
    assert("4h"@[0] == '4' && "4h"@[1] == 'h');
    reveal_strlit("12h");
    assert("12h"@.len() == 3);
    assert("12h"@[0] == '1' && "12h"@[1] == '2');
    reveal_strlit("1d");
    assert("1d"@.len() == 2);
    assert("1d"@[0] == '1' && "1d"@[1] == 'd');
    assert(a.name().len() == b.name().len());
    assert(a.name()[0] == b.name()[0]);
    assert(a.name()[1] == b.name()[1]);
}

/// Different kinds of data have different names.
pub proof fn law_kind_names_differ(a: MarketDataKind, b: MarketDataKind)
    requires
        a.name() == b.name(),
    ensures
        a == b,
{
    reveal_strlit("Trades");
    assert("Trades"@.len() == 6);
    assert("Trades"@[0] == 'T' && "Trades"@[1] == 'r');
    reveal_strlit("Klines:");
    assert("Klines:"@.len() == 7);
    assert("Klines:"@[0] == 'K' && "Klines:"@[1] == 'l');
    reveal_strlit("OI:");
    assert("OI:"@.len() == 3);
    assert("OI:"@[0] == 'O' && "OI:"@[1] == 'I');
    let first = |k: MarketDataKind|
        match k {
            MarketDataKind::Trades => 'T',
            MarketDataKind::Klines { timeframe } => 'K',
            MarketDataKind::OpenInterest { timeframe } => 'O',
        };
    assert(a.name()[0] == first(a));
    assert(b.name()[0] == first(b));
    match (a, b) {
        (MarketDataKind::Klines { timeframe: x }, MarketDataKind::Klines { timeframe: y }) => {
            assert(a.name().skip(7) =~= x.name());
            assert(b.name().skip(7) =~= y.name());
            law_timeframe_names_differ(x, y);
        },
        (
            MarketDataKind::OpenInterest { timeframe: x },
            MarketDataKind::OpenInterest { timeframe: y },
        ) => {
            assert(a.name().skip(3) =~= x.name());
            assert(b.name().skip(3) =~= y.name());
            law_timeframe_names_differ(x, y);
        },
        _ => {},
    }
}

/// The venue of that name.
pub open spec fn venue_named(name: Seq<char>) -> Option<Venue> {
    if exists|v: Venue| #[trigger] v.name() == name {
        Some(choose|v: Venue| #[trigger] v.name() == name)
    } else {
        None
    }
}

/// The kind of market of that name.
pub open spec fn market_named(name: Seq<char>) -> Option<MarketKind> {
    if exists|m: MarketKind| #[trigger] m.name() == name {
        Some(choose|m: MarketKind| #[trigger] m.name() == name)
    } else {
        None
    }
}

/// The kind of data of that name.
pub open spec fn kind_named(name: Seq<char>) -> Option<MarketDataKind> {
    if exists|d: MarketDataKind| #[trigger] d.name() == name {
        Some(choose|d: MarketDataKind| #[trigger] d.name() == name)
    } else {
        None
    }
}

/// The key whose parts have these names, if all names are known.
pub open spec fn key_named(
    venue: Seq<char>,
    symbol: Seq<char>,
    market_type: Seq<char>,
    kind: Seq<char>,
) -> Option<KeyView> {
    match (venue_named(venue), market_named(market_type), kind_named(kind)) {
        (Some(v), Some(m), Some(d)) => Some(KeyView { venue: v, symbol, market_type: m, kind: d }),
        _ => None,
    }
}

proof fn lemma_named(venue: Venue, market_type: MarketKind, kind: MarketDataKind)
    ensures
        venue_named(venue.name()) == Some(venue),
        market_named(market_type.name()) == Some(market_type),
        kind_named(kind.name()) == Some(kind),
{
    let v = choose|v: Venue| #[trigger] v.name() == venue.name();
    law_venue_names_differ(v, venue);
    let m = choose|m: MarketKind| #[trigger] m.name() == market_type.name();
    law_market_names_differ(m, market_type);
    let d = choose|d: MarketDataKind| #[trigger] d.name() == kind.name();
    law_kind_names_differ(d, kind);
}

/// Reading back the names of a key's parts gives the key.
pub proof fn law_display_parts_round_trip(key: KeyView)
    ensures
        key_named(key.venue.name(), key.symbol, key.market_type.name(), key.kind.name()) == Some(key),
{
    lemma_named(key.venue, key.market_type, key.kind);
}

/// Each venue comes back from its exchange adapter, each kind of market from its adapter word.
pub proof fn law_adapter_round_trip(v: Venue, m: MarketKind)
    ensures
        Venue::of_exchange(v.adapter()) == Some(v),
        MarketKind::of_adapter(m.adapter()) == m,
{
}

} // verus!
