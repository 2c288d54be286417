//! Requests to the workers that fetch history, and their answers.

use vstd::prelude::*;
use crate::ids::Uuid;
use crate::market::{Kline, OpenInterest, PriceStep, StreamKind, StreamView, Trade};
use crate::market_data::derived::bubbles::{summary_views, BubbleVolumeSummary, SummaryView};
use crate::market_data::range::MarketDataRange;
use crate::seqs::copy_rows;
use crate::time::UnixMs;

verus! {

/// A stretch of history to fetch.
#[derive(Debug, Clone, Copy, PartialEq, Eq, Structural)]
pub enum FetchRange {
    Kline(UnixMs, UnixMs),
    OpenInterest(UnixMs, UnixMs),
    Trades(UnixMs, UnixMs),
    TradeHydration(UnixMs, UnixMs),
    BubbleSummary {
        from: UnixMs,
        to: UnixMs,
        timeframe_ms: u64,
        price_step: PriceStep,
        max_candidates_per_candle: usize,
    },
}

impl FetchRange {
    /// Its start and its end.
    pub open spec fn bounds(self) -> (UnixMs, UnixMs) {
        match self {
            FetchRange::Kline(from, to) => (from, to),
            FetchRange::OpenInterest(from, to) => (from, to),
            FetchRange::Trades(from, to) => (from, to),
            FetchRange::TradeHydration(from, to) => (from, to),
            FetchRange::BubbleSummary { from, to, .. } => (from, to),
        }
    }

    /// Its start and its end.
    pub fn ends(self) -> (r: (UnixMs, UnixMs))
        ensures
            r == self.bounds(),
    {
        match self {
            FetchRange::Kline(from, to) => (from, to),
            FetchRange::OpenInterest(from, to) => (from, to),
            FetchRange::Trades(from, to) => (from, to),
            FetchRange::TradeHydration(from, to) => (from, to),
            FetchRange::BubbleSummary { from, to, .. } => (from, to),
        }
    }
}

/// The range from `from` to `to`, where there is one.
pub open spec fn range_between(from: UnixMs, to: UnixMs) -> Option<MarketDataRange> {
    if from.0 < to.0 {
        Some(MarketDataRange { from, to })
    } else {
        None
    }
}

/// What an optional stream denotes.
pub open spec fn stream_of(s: Option<StreamKind>) -> Option<StreamView> {
    match s {
        Some(stream) => Some(stream@),
        None => None,
    }
}

/// A copy of an optional stream.
pub fn copy_stream(s: &Option<StreamKind>) -> (r: Option<StreamKind>)
    ensures
        stream_of(r) == stream_of(*s),
{
    match s {
        Some(stream) => Some(stream.clone()),
        None => None,
    }
}

/// What several streams denote.
pub open spec fn stream_views(s: Seq<StreamKind>) -> Seq<StreamView> {
    s.map_values(|k: StreamKind| k@)
}

/// One request to a worker.
#[derive(Debug)]
pub struct FetchSpec {
    pub req_id: Uuid,
    pub fetch: FetchRange,
    pub stream: Option<StreamKind>,
}

/// A request as a value.
#[verifier::ext_equal]
pub struct SpecView {
    pub req_id: Uuid,
    pub fetch: FetchRange,
    pub stream: Option<StreamView>,
}

impl View for FetchSpec {
    type V = SpecView;

    open spec fn view(&self) -> SpecView {
        SpecView { req_id: self.req_id, fetch: self.fetch, stream: stream_of(self.stream) }
    }
}

/// What several requests denote.
pub open spec fn spec_views(s: Seq<FetchSpec>) -> Seq<SpecView> {
    s.map_values(|f: FetchSpec| f@)
}

/// An answer of a worker.
#[derive(Debug)]
#[allow(inconsistent_fields)]
pub enum FetchedData {
    Trades { batch: Vec<Trade>, until_time: UnixMs, req_id: Option<Uuid> },
    Klines { data: Vec<Kline>, req_id: Option<Uuid> },
    OI { data: Vec<OpenInterest>, req_id: Option<Uuid> },
    BubbleSummary {
        data: Vec<BubbleVolumeSummary>,
        range: (UnixMs, UnixMs),
        trades_seen: usize,
        raw_discarded: usize,
        req_id: Option<Uuid>,
    },
}

/// An answer as a value.
#[verifier::ext_equal]
#[allow(inconsistent_fields)]
pub enum FetchedView {
    Trades { batch: Seq<Trade>, until_time: UnixMs, req_id: Option<Uuid> },
    Klines { data: Seq<Kline>, req_id: Option<Uuid> },
    OI { data: Seq<OpenInterest>, req_id: Option<Uuid> },
    BubbleSummary {
        data: Seq<SummaryView>,
        range: (UnixMs, UnixMs),
        trades_seen: usize,
        raw_discarded: usize,
        req_id: Option<Uuid>,
    },
}

impl View for FetchedData {
    type V = FetchedView;

    open spec fn view(&self) -> FetchedView {
        match *self {
            FetchedData::Trades { batch, until_time, req_id } => FetchedView::Trades {
                batch: batch@,
                until_time,
                req_id,
            },
            FetchedData::Klines { data, req_id } => FetchedView::Klines { data: data@, req_id },
            FetchedData::OI { data, req_id } => FetchedView::OI { data: data@, req_id },
            FetchedData::BubbleSummary { data, range, trades_seen, raw_discarded, req_id } =>
                FetchedView::BubbleSummary {
                data: summary_views(data@),
                range,
                trades_seen,
                raw_discarded,
                req_id,
            },
        }
    }
}

impl FetchedView {
    /// The request that the answer belongs to.
    pub open spec fn req_id(self) -> Option<Uuid> {
        match self {
            FetchedView::Trades { req_id, .. } => req_id,
            FetchedView::Klines { req_id, .. } => req_id,
            FetchedView::OI { req_id, .. } => req_id,
            FetchedView::BubbleSummary { req_id, .. } => req_id,
        }
    }
}

/// A copy of bubble summaries.
pub fn copy_summaries(v: &Vec<BubbleVolumeSummary>) -> (r: Vec<BubbleVolumeSummary>)
    ensures
        summary_views(r@) == summary_views(v@),
{
    let mut out: Vec<BubbleVolumeSummary> = Vec::new();
    let mut i: usize = 0;
    while i < v.len()
        invariant
            i <= v@.len(),
            out@.len() == i,
            forall|k: int| 0 <= k < i ==> (#[trigger] out@[k])@ == v@[k]@,
        decreases v@.len() - i,
    {
        out.push(v[i].clone());
        i += 1;
    }
    assert(summary_views(out@) =~= summary_views(v@));
    out
}

impl Clone for FetchedData {
    fn clone(&self) -> (d: Self)
        ensures
            d@ == self@,
    {
        match self {
            FetchedData::Trades { batch, until_time, req_id } => FetchedData::Trades {
                batch: copy_rows(batch),
                until_time: *until_time,
                req_id: *req_id,
            },
            FetchedData::Klines { data, req_id } => FetchedData::Klines {
                data: copy_rows(data),
                req_id: *req_id,
            },
            FetchedData::OI { data, req_id } => FetchedData::OI {
                data: copy_rows(data),
                req_id: *req_id,
            },
            FetchedData::BubbleSummary { data, range, trades_seen, raw_discarded, req_id } =>
                FetchedData::BubbleSummary {
                data: copy_summaries(data),
                range: *range,
                trades_seen: *trades_seen,
                raw_discarded: *raw_discarded,
                req_id: *req_id,
            },
        }
    }
}

impl FetchedData {
    /// The request that the answer belongs to.
    pub fn req_id(&self) -> (id: Option<Uuid>)
        ensures
            id == self@.req_id(),
    {
        match self {
            FetchedData::Trades { req_id, .. } => *req_id,
            FetchedData::Klines { req_id, .. } => *req_id,
            FetchedData::OI { req_id, .. } => *req_id,
            FetchedData::BubbleSummary { req_id, .. } => *req_id,
        }
    }
}

/// What a pane is waiting for.
#[derive(Debug, Clone, Copy, PartialEq, Eq, Structural)]
pub enum InfoKind {
    /// Trades, of which so many have come.
    FetchingTrades(usize),
    FetchingKlines,
    FetchingOI,
}

/// How far a fetch has got.
#[derive(Debug)]
pub enum FetchTaskStatus {
    Loading(InfoKind),
    Completed {
        req_id: Option<Uuid>,
        fetch: Option<FetchRange>,
        empty_covered_tail: Option<(UnixMs, UnixMs)>,
    },
}

/// News of a fetch for a pane.
#[derive(Debug)]
#[allow(inconsistent_fields)]
pub enum FetchUpdate {
    Status { pane_id: Uuid, status: FetchTaskStatus },
    Data { layout_id: Uuid, pane_id: Uuid, stream: StreamKind, data: FetchedData },
    Error { pane_id: Uuid, error: String, req_id: Option<Uuid>, fetch: Option<FetchRange> },
}

} // verus!
