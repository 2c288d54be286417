//! What a chart needs from the market data layer.
//!
//! A chart declares its needs and leaves it to the layer whether they are met from the cache or
//! over the network.

use vstd::prelude::*;
use vstd::string::*;
use crate::market::PriceStep;
use crate::text::{decimal, push_decimal};
use crate::time::UnixMs;

verus! {

/// One need of a chart.
#[derive(Debug, Clone, Copy, PartialEq, Eq, Structural)]
pub enum ChartDataNeed {
    /// Candles. Nothing is drawn without them.
    Klines { from: UnixMs, to: UnixMs },
    /// Single trades of a footprint chart.
    Trades { from: UnixMs, to: UnixMs },
    /// Single trades behind the delta indicators of a candle chart.
    TradeHydration { from: UnixMs, to: UnixMs },
    /// Open interest.
    OpenInterest { from: UnixMs, to: UnixMs },
    /// Volume bubbles, which are derived from single trades.
    Bubbles {
        from: UnixMs,
        to: UnixMs,
        timeframe_ms: u64,
        price_step: PriceStep,
        max_candidates_per_candle: usize,
    },
}

impl ChartDataNeed {
    /// Its name.
    pub open spec fn name(self) -> Seq<char> {
        match self {
            ChartDataNeed::Klines { .. } => "Klines"@,
            ChartDataNeed::Trades { .. } => "Trades"@,
            ChartDataNeed::TradeHydration { .. } => "TradeHydration"@,
            ChartDataNeed::OpenInterest { .. } => "OpenInterest"@,
            ChartDataNeed::Bubbles { .. } => "Bubbles"@,
        }
    }

    /// Its start and its end.
    pub open spec fn bounds(self) -> (UnixMs, UnixMs) {
        match self {
            ChartDataNeed::Klines { from, to } => (from, to),
            ChartDataNeed::Trades { from, to } => (from, to),
            ChartDataNeed::TradeHydration { from, to } => (from, to),
            ChartDataNeed::OpenInterest { from, to } => (from, to),
            ChartDataNeed::Bubbles { from, to, .. } => (from, to),
        }
    }

    /// A short name for the log.
    pub fn label(&self) -> (s: &'static str)
        ensures
            s@ == self.name(),
    {
        match self {
            ChartDataNeed::Klines { .. } => "Klines",
            ChartDataNeed::Trades { .. } => "Trades",
            ChartDataNeed::TradeHydration { .. } => "TradeHydration",
            ChartDataNeed::OpenInterest { .. } => "OpenInterest",
            ChartDataNeed::Bubbles { .. } => "Bubbles",
        }
    }

    /// The stretch of time that is needed.
    pub fn range(&self) -> (r: (UnixMs, UnixMs))
        ensures
            r == self.bounds(),
    {
        match self {
            ChartDataNeed::Klines { from, to } => (*from, *to),
            ChartDataNeed::Trades { from, to } => (*from, *to),
            ChartDataNeed::TradeHydration { from, to } => (*from, *to),
            ChartDataNeed::OpenInterest { from, to } => (*from, *to),
            ChartDataNeed::Bubbles { from, to, .. } => (*from, *to),
        }
    }

    /// Name and bounds in milliseconds, as in `Klines(100-200)`.
    pub fn display(&self) -> (s: String)
        ensures
            s@ == self.name() + "("@ + decimal(self.bounds().0.0 as nat) + "-"@ + decimal(
                self.bounds().1.0 as nat,
            ) + ")"@,
    {
        let (from, to) = self.range();
        let mut s = String::from_str(self.label());
        s.append("(");
        push_decimal(&mut s, from.0);
        s.append("-");
        push_decimal(&mut s, to.0);
        s.append(")");
        s
    }
}

} // verus!
