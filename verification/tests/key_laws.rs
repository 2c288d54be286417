//! Names of streams and the parts they are made of.

use flowsurface::market::{AdapterMarketKind, Exchange, Ticker, TickerInfo};
use flowsurface::market_data::key::{MarketDataKey, MarketDataKind, MarketKind, Symbol, Venue};
use flowsurface::time::Timeframe;

#[test]
fn parts_of_a_name_give_the_key_back() {
    let key = MarketDataKey::open_interest(
        Venue::MexcInverse,
        Symbol::new("BTC-USD-SWAP"),
        MarketKind::InversePerps,
        Timeframe::H4,
    );
    let back = MarketDataKey::from_display_parts(
        key.venue.display_name(),
        key.symbol.as_str(),
        key.market_type.display_name(),
        &key.kind.display_name(),
    );
    assert_eq!(back, Some(key));
}

#[test]
fn unknown_parts_give_no_key() {
    let kind = MarketDataKind::Trades.display_name();
    let spot = MarketKind::Spot.display_name();
    assert_eq!(MarketDataKey::from_display_parts("Nowhere", "BTCUSDT", spot, &kind), None);
    assert_eq!(MarketDataKey::from_display_parts("BinanceSpot", "BTCUSDT", "Nothing", &kind), None);
    assert_eq!(MarketDataKey::from_display_parts("BinanceSpot", "BTCUSDT", spot, "Klines:7m"), None);
}

#[test]
fn kinds_of_markets_go_both_ways() {
    for kind in [
        AdapterMarketKind::Spot,
        AdapterMarketKind::LinearPerps,
        AdapterMarketKind::InversePerps,
    ] {
        assert_eq!(MarketKind::from_adapter(kind).to_adapter(), kind);
    }
    assert_eq!(Venue::from_exchange(Exchange::OkexLinear).unwrap().to_exchange(), Exchange::OkexLinear);
}

#[test]
fn names_differ() {
    assert_ne!(Venue::BinanceSpot.display_name(), Venue::BinanceLinear.display_name());
    assert_ne!(MarketKind::Spot.display_name(), MarketKind::LinearPerps.display_name());
    assert_ne!(
        MarketDataKind::Klines { timeframe: Timeframe::M1 }.display_name(),
        MarketDataKind::Klines { timeframe: Timeframe::M15 }.display_name()
    );
    assert_ne!(
        MarketDataKind::OpenInterest { timeframe: Timeframe::M1 }.display_name(),
        MarketDataKind::Klines { timeframe: Timeframe::M1 }.display_name()
    );
}

#[test]
fn tickers_name_their_streams() {
    let info = TickerInfo::new(Ticker::new("BTCUSDT", Exchange::BybitLinear));
    let key = MarketDataKey::from_ticker_info(&info, MarketDataKind::Trades).unwrap();
    assert_eq!(key.venue, Venue::BybitLinear);
    assert_eq!(key.market_type, MarketKind::LinearPerps);
    assert_eq!(key.symbol.as_str(), "BTCUSDT");
    assert_eq!(key.kind.timeframe_ms(), None);
}
