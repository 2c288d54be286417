//! Requests of charts that wait for their data.
//!
//! A request is split into segments that arrive one by one, from the cache or over the network.
//! The request is satisfied when nothing that matters is missing any more.

use vstd::prelude::*;
use crate::connector::fetcher::{copy_stream, stream_of, FetchRange};
use crate::ids::Uuid;
use crate::market::{PriceStep, StreamKind, StreamView};
use crate::market_data::chart_need::ChartDataNeed;
use crate::market_data::coordinator::MIN_TRADE_BACKFILL_SEGMENT_MS;
use crate::market_data::key::{KeyView, MarketDataKey};
use crate::market_data::range::{
    add_required_segment_dedup, add_segment_merged, compute_missing, filter_tiny_trade_gaps,
    missing, with_required, with_segment, MarketDataRange,
};
use crate::market_data::requirement::ConsumerFeature;
use crate::seqs::{copy_rows, lemma_filter_take};

verus! {

/// How bubbles are derived for a request.
#[derive(Debug, Clone, Copy, PartialEq, Eq, Structural)]
pub struct BubbleConsumerConfig {
    pub timeframe_ms: u64,
    pub price_step: PriceStep,
    pub max_candidates_per_candle: usize,
}

/// How bubbles are derived for a request that asks for them.
pub open spec fn config_of_fetch(fetch: FetchRange) -> Option<BubbleConsumerConfig> {
    match fetch {
        FetchRange::BubbleSummary { timeframe_ms, price_step, max_candidates_per_candle, .. } =>
            Some(
            BubbleConsumerConfig { timeframe_ms, price_step, max_candidates_per_candle },
        ),
        _ => None,
    }
}

/// How bubbles are derived for a chart that needs them.
pub open spec fn config_of_need(need: ChartDataNeed) -> Option<BubbleConsumerConfig> {
    match need {
        ChartDataNeed::Bubbles { timeframe_ms, price_step, max_candidates_per_candle, .. } => Some(
            BubbleConsumerConfig { timeframe_ms, price_step, max_candidates_per_candle },
        ),
        _ => None,
    }
}

impl BubbleConsumerConfig {
    /// How bubbles are derived for a request that asks for them.
    pub fn from_fetch(fetch: FetchRange) -> (c: Option<Self>)
        ensures
            c == config_of_fetch(fetch),
    {
        match fetch {
            FetchRange::BubbleSummary {
                timeframe_ms,
                price_step,
                max_candidates_per_candle,
                ..
            } => Some(BubbleConsumerConfig { timeframe_ms, price_step, max_candidates_per_candle }),
            _ => None,
        }
    }

    /// How bubbles are derived for a chart that needs them.
    pub fn from_need(need: &ChartDataNeed) -> (c: Option<Self>)
        ensures
            c == config_of_need(*need),
    {
        match need {
            ChartDataNeed::Bubbles {
                timeframe_ms,
                price_step,
                max_candidates_per_candle,
                ..
            } => Some(
                BubbleConsumerConfig {
                    timeframe_ms: *timeframe_ms,
                    price_step: *price_step,
                    max_candidates_per_candle: *max_candidates_per_candle,
                },
            ),
            _ => None,
        }
    }
}

/// A request of a chart that waits for its data.
#[derive(Debug)]
pub struct PendingMarketDataConsumer {
    pub pane_id: Uuid,
    pub req_id: Uuid,
    pub fetch: FetchRange,
    pub stream: Option<StreamKind>,
    pub key: MarketDataKey,
    pub range: MarketDataRange,
    pub feature: ConsumerFeature,
    pub bubble_config: Option<BubbleConsumerConfig>,
    pub chart_generation: u64,
    pub has_partial_updates: bool,
    pub completed: bool,
    pub required_segments: Vec<MarketDataRange>,
    pub completed_segments: Vec<MarketDataRange>,
    pub failed_segments: Vec<MarketDataRange>,
    pub delivered_segments: Vec<MarketDataRange>,
}

/// A waiting request as a value.
#[verifier::ext_equal]
pub struct ConsumerView {
    pub pane_id: Uuid,
    pub req_id: Uuid,
    pub fetch: FetchRange,
    pub stream: Option<StreamView>,
    pub key: KeyView,
    pub range: MarketDataRange,
    pub feature: ConsumerFeature,
    pub bubble_config: Option<BubbleConsumerConfig>,
    pub chart_generation: u64,
    pub has_partial_updates: bool,
    pub completed: bool,
    pub required_segments: Seq<MarketDataRange>,
    pub completed_segments: Seq<MarketDataRange>,
    pub failed_segments: Seq<MarketDataRange>,
    pub delivered_segments: Seq<MarketDataRange>,
}

impl View for PendingMarketDataConsumer {
    type V = ConsumerView;

    open spec fn view(&self) -> ConsumerView {
        ConsumerView {
            pane_id: self.pane_id,
            req_id: self.req_id,
            fetch: self.fetch,
            stream: stream_of(self.stream),
            key: self.key@,
            range: self.range,
            feature: self.feature,
            bubble_config: self.bubble_config,
            chart_generation: self.chart_generation,
            has_partial_updates: self.has_partial_updates,
            completed: self.completed,
            required_segments: self.required_segments@,
            completed_segments: self.completed_segments@,
            failed_segments: self.failed_segments@,
            delivered_segments: self.delivered_segments@,
        }
    }
}

impl Clone for PendingMarketDataConsumer {
    fn clone(&self) -> (c: Self)
        ensures
            c@ == self@,
    {
        PendingMarketDataConsumer {
            pane_id: self.pane_id,
            req_id: self.req_id,
            fetch: self.fetch,
            stream: copy_stream(&self.stream),
            key: self.key.clone(),
            range: self.range,
            feature: self.feature,
            bubble_config: self.bubble_config,
            chart_generation: self.chart_generation,
            has_partial_updates: self.has_partial_updates,
            completed: self.completed,
            required_segments: copy_rows(&self.required_segments),
            completed_segments: copy_rows(&self.completed_segments),
            failed_segments: copy_rows(&self.failed_segments),
            delivered_segments: copy_rows(&self.delivered_segments),
        }
    }
}

/// What several waiting requests denote.
pub open spec fn consumer_views(s: Seq<PendingMarketDataConsumer>) -> Seq<ConsumerView> {
    s.map_values(|c: PendingMarketDataConsumer| c@)
}

/// What an optional request denotes.
pub open spec fn consumer_of(c: Option<PendingMarketDataConsumer>) -> Option<ConsumerView> {
    match c {
        Some(consumer) => Some(consumer@),
        None => None,
    }
}

/// How far a request has got: how many of its segments are there, how many there are, and what
/// is missing.
#[derive(Debug, PartialEq, Eq)]
pub struct ConsumerSegmentStatus {
    pub completed_logical: usize,
    pub total_logical: usize,
    pub missing: Vec<MarketDataRange>,
    pub coverage_complete: bool,
}

/// A gap that is wide enough to matter where single trades are drawn.
pub open spec fn wide_enough() -> spec_fn(MarketDataRange) -> bool {
    |range: MarketDataRange| range.span() >= MIN_TRADE_BACKFILL_SEGMENT_MS
}

/// The gaps that matter to a feature. Where single trades are drawn, short ones do not.
pub open spec fn effective(feature: ConsumerFeature, gaps: Seq<MarketDataRange>) -> Seq<
    MarketDataRange,
> {
    if feature is TradeHydration || feature is Footprint {
        gaps.filter(wide_enough())
    } else {
        gaps
    }
}

/// True for a segment of which nothing is missing.
pub open spec fn all_there(arrived: Seq<MarketDataRange>) -> spec_fn(MarketDataRange) -> bool {
    |segment: MarketDataRange| missing(segment, arrived).len() == 0
}

impl ConsumerView {
    /// The request of a pane for a range, before anything was planned for it.
    pub open spec fn waiting(
        pane_id: Uuid,
        req_id: Uuid,
        fetch: FetchRange,
        stream: Option<StreamView>,
        key: KeyView,
        range: MarketDataRange,
        feature: ConsumerFeature,
        bubble_config: Option<BubbleConsumerConfig>,
        chart_generation: u64,
    ) -> ConsumerView {
        ConsumerView {
            pane_id,
            req_id,
            fetch,
            stream,
            key,
            range,
            feature,
            bubble_config,
            chart_generation,
            has_partial_updates: false,
            completed: false,
            required_segments: Seq::empty(),
            completed_segments: Seq::empty(),
            failed_segments: Seq::empty(),
            delivered_segments: Seq::empty(),
        }
    }

    /// How bubbles are derived for it.
    pub open spec fn config(self) -> Option<BubbleConsumerConfig> {
        match self.bubble_config {
            Some(c) => Some(c),
            None => config_of_fetch(self.fetch),
        }
    }

    /// True when bubbles can be derived for it: their candles have a width.
    pub open spec fn sound(self) -> bool {
        self.feature is VolumeBubbles ==> (self.config() matches Some(c) ==> c.timeframe_ms > 0)
    }

    /// What is missing of it and matters.
    pub open spec fn gaps(self) -> Seq<MarketDataRange> {
        effective(self.feature, missing(self.range, self.completed_segments))
    }

    /// What matters of it and neither arrived nor failed.
    pub open spec fn open_gaps(self) -> Seq<MarketDataRange> {
        effective(self.feature, missing(self.range, self.completed_segments + self.failed_segments))
    }

    /// True when it has all that it needs.
    pub open spec fn satisfied(self) -> bool {
        self.required_segments.len() == 0 || self.gaps().len() == 0
    }

    /// The request after a segment of it arrived.
    pub open spec fn with_arrived(self, segment: MarketDataRange) -> ConsumerView {
        ConsumerView {
            completed_segments: with_segment(self.completed_segments, segment),
            ..self
        }
    }

    /// The request after a segment was planned for it.
    pub open spec fn with_planned(self, segment: MarketDataRange) -> ConsumerView {
        ConsumerView {
            required_segments: with_required(self.required_segments, segment),
            ..self
        }
    }

    /// The request after a segment was handed over, where that adds anything.
    pub open spec fn with_delivered(self, segment: MarketDataRange) -> ConsumerView {
        if self.was_delivered(segment) {
            self
        } else {
            ConsumerView {
                delivered_segments: with_segment(self.delivered_segments, segment),
                ..self
            }
        }
    }

    /// True when a segment was handed over before.
    pub open spec fn was_delivered(self, segment: MarketDataRange) -> bool {
        missing(segment, self.delivered_segments).len() == 0
    }

    /// The request after a segment of it failed.
    pub open spec fn with_failed(self, segment: MarketDataRange) -> ConsumerView {
        ConsumerView { failed_segments: self.failed_segments.push(segment), ..self }
    }

    /// The request, done with.
    pub open spec fn done(self) -> ConsumerView {
        ConsumerView { completed: true, ..self }
    }

    /// The request after a part of its bubbles was drawn.
    pub open spec fn begun(self) -> ConsumerView {
        ConsumerView { has_partial_updates: true, ..self }
    }

    /// True when it asks for a part of a range of a stream.
    pub open spec fn wants(self, key: KeyView, range: MarketDataRange) -> bool {
        self.key == key && self.range.crosses(range)
    }

    /// True when a status says how far the request has got.
    pub open spec fn has_status(self, s: ConsumerSegmentStatus) -> bool {
        &&& s.completed_logical == self.required_segments.filter(
            all_there(self.completed_segments),
        ).len()
        &&& s.total_logical == self.required_segments.len()
        &&& s.missing@ == self.gaps()
        &&& s.coverage_complete == (self.gaps().len() == 0)
    }
}

/// The gaps that matter to a feature.
pub fn effective_gaps(feature: ConsumerFeature, gaps: Vec<MarketDataRange>) -> (r: Vec<
    MarketDataRange,
>)
    ensures
        r@ == effective(feature, gaps@),
{
    match feature {
        ConsumerFeature::TradeHydration | ConsumerFeature::Footprint => {
            proof {
                assert((|range: MarketDataRange| range.span() >= MIN_TRADE_BACKFILL_SEGMENT_MS)
                    =~= wide_enough());
            }
            filter_tiny_trade_gaps(gaps, MIN_TRADE_BACKFILL_SEGMENT_MS)
        },
        _ => gaps,
    }
}

impl PendingMarketDataConsumer {
    /// How bubbles are derived for it.
    pub fn config(&self) -> (c: Option<BubbleConsumerConfig>)
        ensures
            c == self@.config(),
    {
        match self.bubble_config {
            Some(c) => Some(c),
            None => BubbleConsumerConfig::from_fetch(self.fetch),
        }
    }

    /// What is missing of it and matters.
    pub fn gaps(&self) -> (r: Vec<MarketDataRange>)
        ensures
            r@ == self@.gaps(),
    {
        effective_gaps(self.feature, compute_missing(self.range, &self.completed_segments))
    }

    /// What matters of it and neither arrived nor failed.
    pub fn open_gaps(&self) -> (r: Vec<MarketDataRange>)
        ensures
            r@ == self@.open_gaps(),
    {
        let mut terminal = copy_rows(&self.completed_segments);
        let mut failed = copy_rows(&self.failed_segments);
        terminal.append(&mut failed);
        assert(terminal@ =~= self.completed_segments@ + self.failed_segments@);
        effective_gaps(self.feature, compute_missing(self.range, &terminal))
    }

    /// True when it asks for a part of a range of a stream.
    pub fn wants(&self, key: &MarketDataKey, range: &MarketDataRange) -> (r: bool)
        ensures
            r == self@.wants(key@, *range),
    {
        self.key.same(key) && self.range.overlaps(range)
    }

    /// True when it has all that it needs.
    pub fn satisfied(&self) -> (r: bool)
        ensures
            r == self@.satisfied(),
    {
        self.required_segments.len() == 0 || self.gaps().len() == 0
    }

    /// How far it has got.
    pub fn status(&self) -> (s: ConsumerSegmentStatus)
        ensures
            self@.has_status(s),
    {
        let mut completed_logical: usize = 0;
        let mut i: usize = 0;
        let ghost there = all_there(self.completed_segments@);
        proof {
            reveal(Seq::filter);
            assert(self.required_segments@.take(0).filter(there).len() == 0);
        }
        while i < self.required_segments.len()
            invariant
                i <= self.required_segments@.len(),
                completed_logical <= i,
                there == all_there(self.completed_segments@),
                completed_logical == self.required_segments@.take(i as int).filter(there).len(),
            decreases self.required_segments@.len() - i,
        {
            let gaps = compute_missing(self.required_segments[i], &self.completed_segments);
            proof {
                lemma_filter_take(self.required_segments@, i as int, there);
            }
            if gaps.len() == 0 {
                completed_logical += 1;
            }
            i += 1;
        }
        assert(self.required_segments@.take(i as int) =~= self.required_segments@);
        let missing = self.gaps();
        let coverage_complete = missing.len() == 0;
        ConsumerSegmentStatus {
            completed_logical,
            total_logical: self.required_segments.len(),
            missing,
            coverage_complete,
        }
    }

    /// Notes that a segment of it arrived.
    pub fn note_arrived(&mut self, segment: MarketDataRange)
        ensures
            final(self)@ == old(self)@.with_arrived(segment),
    {
        add_segment_merged(&mut self.completed_segments, segment);
    }

    /// Notes that a segment was planned for it.
    pub fn note_planned(&mut self, segment: MarketDataRange)
        ensures
            final(self)@ == old(self)@.with_planned(segment),
    {
        add_required_segment_dedup(&mut self.required_segments, segment);
    }

    /// Notes that a segment is handed over. False when it was before.
    pub fn note_delivered(&mut self, segment: MarketDataRange) -> (added: bool)
        ensures
            final(self)@ == old(self)@.with_delivered(segment),
            added == !old(self)@.was_delivered(segment),
    {
        let gaps = compute_missing(segment, &self.delivered_segments);
        if gaps.len() == 0 {
            return false;
        }
        add_segment_merged(&mut self.delivered_segments, segment);
        true
    }
}

} // verus!
