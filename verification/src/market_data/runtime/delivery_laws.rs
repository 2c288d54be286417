//! Laws of what reaches the charts.

use vstd::prelude::*;
use crate::connector::fetcher::FetchedView;
use crate::id_table::lookup;
use crate::ids::Uuid;
use crate::market::{Kline, OpenInterest, StreamView, Trade};
use crate::market_data::bridge::key_streamed;
use crate::market_data::consumer::{wide_enough, BubbleConsumerConfig, ConsumerView};
use crate::market_data::coordinator::lemma_put_lookup;
use crate::market_data::coverage::{covered_at, rows, EntryView};
use crate::market_data::coverage_laws::{
    law_complete_is_covered, law_incomplete_is_missing, law_other_marks_add_only_themselves, tidy,
};
use crate::market_data::derived::bubbles::summarized;
use crate::market_data::effect::{CommandView, DispatchView, EffectView};
use crate::market_data::job::{FetchJobId, JobView};
use crate::market_data::key::KeyView;
use crate::market_data::live::latest_seen;
use crate::market_data::execution_laws::lemma_free_stretch;
use crate::market_data::range::{any_covers, missing, MarketDataRange};
use crate::market_data::range_laws::{
    law_add_segment_exact, law_nothing_missing_iff_covered, law_required_segment_exact,
};
use crate::market_data::runtime::laws::{
    law_finished_worker_is_gone, law_request_ends_with_its_last_segment,
};
use crate::market_data::runtime::model::{
    consumer_at, earliest_trade, handed_on, key_answered, place_of, range_of_trades, replaced, unfinished,
    RuntimeView, StepView, Tail,
};
use crate::market_data::runtime::{lemma_place, lemma_place_bounds, lemma_replaced};
use crate::market_data::series::within;
use crate::market_data::store_laws::history;
use crate::seqs::lemma_filter_map_has;
use crate::time::UnixMs;

verus! {

/// Tells the trades of a range.
pub open spec fn trades_in(range: MarketDataRange) -> spec_fn(Trade) -> bool {
    |t: Trade| range.from.0 <= t.time.0 < range.to.0
}

/// Tells the candles of a range.
pub open spec fn klines_in(range: MarketDataRange) -> spec_fn(Kline) -> bool {
    |k: Kline| range.from.0 <= k.time.0 < range.to.0
}

/// Tells the readings of a range.
pub open spec fn readings_in(range: MarketDataRange) -> spec_fn(OpenInterest) -> bool {
    |o: OpenInterest| range.from.0 <= o.time.0 < range.to.0
}

pub(crate) proof fn lemma_within(batch: Seq<Trade>, data: Seq<Kline>, oi: Seq<OpenInterest>, r: MarketDataRange)
    ensures
        within(batch, r) == batch.filter(trades_in(r)),
        within(data, r) == data.filter(klines_in(r)),
        within(oi, r) == oi.filter(readings_in(r)),
{
    lemma_within_trades(batch, r);
    assert((|x: Kline| r.covers(crate::market_data::series::Timed::at(&x).0 as int)) =~= klines_in(
        r,
    ));
    assert((|x: OpenInterest| r.covers(crate::market_data::series::Timed::at(&x).0 as int))
        =~= readings_in(r));
}

proof fn lemma_within_trades(batch: Seq<Trade>, r: MarketDataRange)
    ensures
        within(batch, r) == batch.filter(trades_in(r)),
{
    assert((|x: Trade| r.covers(crate::market_data::series::Timed::at(&x).0 as int)) =~= trades_in(
        r,
    ));
}

/// The change that hands trades over to a request.
pub open spec fn trades_for(c: ConsumerView, batch: Seq<Trade>, until: UnixMs) -> EffectView {
    EffectView::InsertTrades { consumer: c, stream: c.stream, batch, until_time: until }
}

/// Single trades are drawn by footprints and behind the delta indicators.
pub open spec fn draws_trades(c: ConsumerView) -> bool {
    c.feature is Footprint || c.feature is TradeHydration
}

/// How the bubbles of a request are derived: as it says itself, or else as its fetch says.
pub open spec fn bubbles_as(c: ConsumerView) -> Option<BubbleConsumerConfig> {
    if c.bubble_config is Some {
        c.bubble_config
    } else if c.fetch is BubbleSummary {
        Some(
            BubbleConsumerConfig {
                timeframe_ms: c.fetch->timeframe_ms,
                price_step: c.fetch->price_step,
                max_candidates_per_candle: c.fetch->max_candidates_per_candle,
            },
        )
    } else {
        None
    }
}

/// Trades on their way to a request that draws single trades are handed over, all of them and
/// once. For bubbles, all trades of the request that are stored are summed up; nothing else is
/// done for any other request.
pub proof fn law_trades_are_drawn(
    s: RuntimeView,
    c: ConsumerView,
    trades: Seq<Trade>,
    range: MarketDataRange,
)
    ensures
        draws_trades(c) ==> s.trades_step(c, trades, range) == (StepView {
            state: s,
            effects: seq![trades_for(c, trades, range.to)],
        }),
        !draws_trades(c) && c.feature !is VolumeBubbles ==> s.trades_step(c, trades, range) == (
        StepView { state: s, effects: Seq::empty() }),
        c.feature is VolumeBubbles ==> {
            let stored = history(s.coordinator.store.trades, c.key).filter(trades_in(c.range));
            let step = s.trades_step(c, trades, range);
            if bubbles_as(c) is Some && stored.len() > 0 {
                step.effects == seq![
                    EffectView::InsertBubbleSummaries {
                        consumer: c,
                        summaries: summarized(
                            stored,
                            bubbles_as(c)->Some_0.timeframe_ms,
                            bubbles_as(c)->Some_0.price_step,
                            bubbles_as(c)->Some_0.max_candidates_per_candle as nat,
                        ),
                        range: c.range,
                        trades_seen: trades.len() as usize,
                        raw_discarded: 0,
                        complete: false,
                    },
                ]
            } else {
                step == (StepView { state: s, effects: Seq::empty() })
            }
        },
{
    lemma_within_trades(history(s.coordinator.store.trades, c.key), c.range);
}

/// A request that has all that it needs is completed: for bubbles with all trades of it summed up,
/// for any other one by telling the chart. Bubbles for which there are no trades wait on.
pub proof fn law_complete_requests_are_told(s: RuntimeView, c: ConsumerView, tail: Tail)
    requires
        consumer_at(s.consumers, c.req_id) == Some(c),
    ensures
        c.feature !is VolumeBubbles ==> s.completing(c, tail).effects == seq![
            EffectView::CompleteConsumer { consumer: c, empty_covered_tail: tail },
        ] && consumer_at(s.completing(c, tail).state.consumers, c.req_id) == Some(
            ConsumerView { completed: true, ..c },
        ),
        c.feature is VolumeBubbles ==> {
            let stored = history(s.coordinator.store.trades, c.key).filter(trades_in(c.range));
            let step = s.completing(c, tail);
            if bubbles_as(c) is Some && stored.len() > 0 {
                &&& step.effects == seq![
                    EffectView::InsertBubbleSummaries {
                        consumer: c,
                        summaries: summarized(
                            stored,
                            bubbles_as(c)->Some_0.timeframe_ms,
                            bubbles_as(c)->Some_0.price_step,
                            bubbles_as(c)->Some_0.max_candidates_per_candle as nat,
                        ),
                        range: c.range,
                        trades_seen: 0,
                        raw_discarded: 0,
                        complete: true,
                    },
                ]
                &&& consumer_at(step.state.consumers, c.req_id) == Some(
                    ConsumerView { completed: true, ..c },
                )
            } else {
                step == (StepView { state: s, effects: Seq::empty() })
            }
        },
{
    lemma_within_trades(history(s.coordinator.store.trades, c.key), c.range);
    lemma_place_bounds(s.consumers, c.req_id);
    lemma_replaced(s.consumers, c.req_id, ConsumerView { completed: true, ..c });
}

/// Tells changes that hand over trades.
pub open spec fn hands_trades() -> spec_fn(EffectView) -> bool {
    |e: EffectView| e is InsertTrades
}

/// Tells requests that draw single trades.
pub open spec fn drawing_trades() -> spec_fn(ConsumerView) -> bool {
    |c: ConsumerView| draws_trades(c)
}

/// Trades are handed over to exactly those recipients that draw single trades, once to each and in
/// their order.
pub proof fn law_trades_reach_each_recipient(
    s: RuntimeView,
    cs: Seq<ConsumerView>,
    trades: Seq<Trade>,
    range: MarketDataRange,
)
    ensures
        s.trades_step_each(cs, trades, range).effects.filter(hands_trades()) == cs.filter(
            drawing_trades(),
        ).map_values(|c: ConsumerView| trades_for(c, trades, range.to)),
        forall|i: int|
            0 <= i < cs.len() && draws_trades(#[trigger] cs[i]) ==> s.trades_step_each(
                cs,
                trades,
                range,
            ).effects.contains(trades_for(cs[i], trades, range.to)),
    decreases cs.len(),
{
    reveal(Seq::filter);
    let g = |c: ConsumerView| trades_for(c, trades, range.to);
    let all = s.trades_step_each(cs, trades, range).effects;
    if cs.len() == 0 {
        assert(all.filter(hands_trades()) =~= cs.filter(drawing_trades()).map_values(g));
    } else {
        let few = cs.drop_last();
        let c = cs.last();
        law_trades_reach_each_recipient(s, few, trades, range);
        let front = s.trades_step_each(few, trades, range);
        let next = front.state.trades_step(c, trades, range);
        law_trades_are_drawn(front.state, c, trades, range);
        assert(all == front.effects + next.effects);
        assert(next.effects.len() <= 1);
        if next.effects.len() == 1 {
            assert(all =~= front.effects.push(next.effects[0]));
            assert(all.drop_last() =~= front.effects);
        } else {
            assert(all =~= front.effects);
        }
        assert(all.filter(hands_trades()) =~= cs.filter(drawing_trades()).map_values(g));
        assert forall|i: int| 0 <= i < cs.len() && draws_trades(
            #[trigger] cs[i],
        ) implies all.contains(trades_for(cs[i], trades, range.to)) by {
            if i < few.len() {
                assert(few[i] == cs[i]);
                let k = choose|k: int|
                    0 <= k < front.effects.len() && front.effects[k] == trades_for(
                        cs[i],
                        trades,
                        range.to,
                    );
                assert(all[k] == front.effects[k]);
            } else {
                assert(all[front.effects.len() as int] == trades_for(cs[i], trades, range.to));
            }
        }
    }
}

/// A request waits for what a job brings.
pub open spec fn waits_for(s: RuntimeView, id: FetchJobId, c: ConsumerView) -> bool {
    &&& requests_distinct(s.consumers)
    &&& s.consumers.contains(c)
    &&& lookup(s.job_consumers, id) matches Some(ids) && ids.contains(c.req_id)
}

/// The runtime sent a request to a worker for a job.
pub open spec fn sent_for(s: RuntimeView, req: Uuid, id: FetchJobId, j: JobView) -> bool {
    &&& lookup(s.worker_jobs, req) == Some(id)
    &&& lookup(s.coordinator.jobs, id) == Some(j)
}

proof fn lemma_waits(s: RuntimeView, id: FetchJobId, c: ConsumerView)
    requires
        waits_for(s, id, c),
    ensures
        s.waiting_for(id).contains(c),
{
    let ids = s.served_by(id);
    let f = |x: Uuid| consumer_at(s.consumers, x);
    let i = choose|i: int| 0 <= i < ids.len() && ids[i] == c.req_id;
    lemma_found(s.consumers, c);
    lemma_filter_map_has(ids, f, i);
}

/// What a worker answers reaches the requests that its job serves: of trades, exactly those of the
/// range of the job go into the store, and each request that draws single trades gets them.
pub proof fn law_answered_trades_arrive(
    s: RuntimeView,
    stream: StreamView,
    batch: Seq<Trade>,
    until_time: UnixMs,
    req: Uuid,
    id: FetchJobId,
    j: JobView,
    c: ConsumerView,
)
    requires
        sent_for(s, req, id, j),
        waits_for(s, id, c),
        draws_trades(c),
    ensures
        ({
            let out = s.receiving(
                stream,
                FetchedView::Trades { batch, until_time, req_id: Some(req) },
            );
            let own = batch.filter(trades_in(j.range));
            &&& out.handled
            &&& out.effects.contains(trades_for(c, own, j.range.to))
            &&& out.state.coordinator.store == s.coordinator.store.with_trades(j.key, own)
            &&& out.state.coordinator.facts == s.coordinator.facts
            &&& out.state.commands == s.commands.push(
                CommandView::StoreTrades { key: j.key, rows: own },
            )
        }),
{
    let raw = FetchedView::Trades { batch, until_time, req_id: Some(req) };
    let own = batch.filter(trades_in(j.range));
    lemma_within_trades(batch, j.range);
    let data = FetchedView::Trades { batch: own, until_time: j.range.to, req_id: Some(req) };
    assert(crate::market_data::runtime::model::trimmed(raw, Some(j)) == data);
    let stored = s.storing(stream, data, Some(j))->Some_0;
    let cs = stored.state.recipients(Some(id), stored.key, stored.range);
    assert(waits_for(stored.state, id, c));
    lemma_waits(stored.state, id, c);
    let i = choose|i: int| 0 <= i < cs.len() && cs[i] == c;
    law_trades_reach_each_recipient(stored.state, cs, own, j.range);
    lemma_trades_step_store(stored.state, cs, own, j.range);
    lemma_counting_store(
        stored.state.trades_step_each(cs, own, j.range).state,
        Some(id),
        stored.key,
        stored.range,
        stored.record_count,
    );
    assert(draws_trades(cs[i]));
}

proof fn lemma_trades_step_store(
    s: RuntimeView,
    cs: Seq<ConsumerView>,
    trades: Seq<Trade>,
    range: MarketDataRange,
)
    ensures
        s.trades_step_each(cs, trades, range).state.coordinator == s.coordinator,
        s.trades_step_each(cs, trades, range).state.commands == s.commands,
    decreases cs.len(),
{
    if cs.len() > 0 {
        lemma_trades_step_store(s, cs.drop_last(), trades, range);
    }
}

proof fn lemma_with_records_store(
    c: crate::market_data::coordinator::CoordinatorView,
    ids: Seq<FetchJobId>,
    n: usize,
)
    ensures
        crate::market_data::runtime::model::with_records(c, ids, n).store == c.store,
        crate::market_data::runtime::model::with_records(c, ids, n).facts == c.facts,
    decreases ids.len(),
{
    if ids.len() > 0 {
        lemma_with_records_store(c, ids.drop_last(), n);
    }
}

proof fn lemma_counting_store(
    s: RuntimeView,
    job_id: Option<FetchJobId>,
    key: KeyView,
    range: MarketDataRange,
    n: usize,
)
    ensures
        s.counting(job_id, key, range, n).coordinator.store == s.coordinator.store,
        s.counting(job_id, key, range, n).coordinator.facts == s.coordinator.facts,
{
    match job_id {
        Some(id) => lemma_with_records_store(s.coordinator, seq![id], n),
        None => lemma_with_records_store(
            s.coordinator,
            crate::market_data::runtime::model::active_ids(
                s.coordinator.jobs,
                crate::market_data::runtime::model::fetching_all(key, range),
            ),
            n,
        ),
    }
}

proof fn lemma_first_and_last(s: Seq<Trade>)
    requires
        s.len() > 0,
    ensures
        earliest_trade(s) matches Some(a) && latest_seen(None, s) matches Some(b) && {
            &&& forall|i: int| 0 <= i < s.len() ==> a.0 <= (#[trigger] s[i]).time.0 <= b.0
            &&& exists|i: int| 0 <= i < s.len() && (#[trigger] s[i]).time == a
            &&& exists|i: int| 0 <= i < s.len() && (#[trigger] s[i]).time == b
        },
    decreases s.len(),
{
    let n = s.len() - 1;
    let front = s.drop_last();
    assert(s[n] == s.last());
    if front.len() > 0 {
        lemma_first_and_last(front);
        let i = choose|i: int|
            0 <= i < front.len() && (#[trigger] front[i]).time == earliest_trade(front)->Some_0;
        let j = choose|j: int|
            0 <= j < front.len() && (#[trigger] front[j]).time == latest_seen(None, front)->Some_0;
        assert(s[i] == front[i] && s[j] == front[j]);
        assert forall|k: int| 0 <= k < s.len() implies earliest_trade(s)->Some_0.0 <= (
        #[trigger] s[k]).time.0 <= latest_seen(None, s)->Some_0.0 by {
            if k < n {
                assert(s[k] == front[k]);
            }
        }
    } else {
        reveal_with_fuel(earliest_trade, 2);
        reveal_with_fuel(latest_seen, 2);
    }
}

proof fn lemma_range_of_trades(s: Seq<Trade>, range: MarketDataRange)
    requires
        forall|i: int| 0 <= i < s.len() ==> range.from.0 <= (#[trigger] s[i]).time.0 < range.to.0,
        exists|i: int| 0 <= i < s.len() && (#[trigger] s[i]).time.0 == range.from.0,
        exists|i: int| 0 <= i < s.len() && (#[trigger] s[i]).time.0 + 1 == range.to.0,
    ensures
        range_of_trades(s) == Some(range),
{
    lemma_first_and_last(s);
    let i = choose|i: int| 0 <= i < s.len() && (#[trigger] s[i]).time.0 == range.from.0;
    let j = choose|j: int| 0 <= j < s.len() && (#[trigger] s[j]).time.0 + 1 == range.to.0;
    let a = earliest_trade(s)->Some_0;
    let b = latest_seen(None, s)->Some_0;
    assert(a.0 <= s[i].time.0 && s[j].time.0 <= b.0);
}

/// Trades that no job asked for reach each request for a part of the stretch that they lie in.
pub proof fn law_other_trades_arrive(
    s: RuntimeView,
    stream: StreamView,
    batch: Seq<Trade>,
    until_time: UnixMs,
    key: KeyView,
    range: MarketDataRange,
    c: ConsumerView,
)
    requires
        key_answered(stream, FetchedView::Trades { batch, until_time, req_id: None }) == Some(key),
        forall|i: int|
            0 <= i < batch.len() ==> range.from.0 <= (#[trigger] batch[i]).time.0 < range.to.0,
        exists|i: int| 0 <= i < batch.len() && (#[trigger] batch[i]).time.0 == range.from.0,
        exists|i: int| 0 <= i < batch.len() && (#[trigger] batch[i]).time.0 + 1 == range.to.0,
        s.consumers.contains(c),
        c.key == key,
        c.range.from.0 < range.to.0 && range.from.0 < c.range.to.0,
        draws_trades(c),
    ensures
        ({
            let out = s.receiving(stream, FetchedView::Trades { batch, until_time, req_id: None });
            &&& out.handled
            &&& out.effects.contains(trades_for(c, batch, range.to))
            &&& out.state.coordinator.store == s.coordinator.store.with_trades(key, batch)
        }),
{
    let data = FetchedView::Trades { batch, until_time, req_id: None };
    lemma_range_of_trades(batch, range);
    let stored = s.storing(stream, data, None)->Some_0;
    let p = crate::market_data::runtime::model::wanting(key, range);
    let cs = stored.state.recipients(None, key, range);
    let k = choose|k: int| 0 <= k < s.consumers.len() && s.consumers[k] == c;
    s.consumers.lemma_filter_contains(p, k);
    let i = choose|i: int| 0 <= i < cs.len() && cs[i] == c;
    law_trades_reach_each_recipient(stored.state, cs, batch, range);
    lemma_trades_step_store(stored.state, cs, batch, range);
    lemma_counting_store(
        stored.state.trades_step_each(cs, batch, range).state,
        None,
        key,
        range,
        stored.record_count,
    );
    assert(draws_trades(cs[i]));
}

/// The candles of a job that a worker answers reach each chart of candles that its job serves.
pub proof fn law_answered_klines_arrive(
    s: RuntimeView,
    stream: StreamView,
    data: Seq<Kline>,
    req: Uuid,
    id: FetchJobId,
    j: JobView,
    c: ConsumerView,
)
    requires
        sent_for(s, req, id, j),
        waits_for(s, id, c),
        c.feature is ChartKlines,
        c.stream is Some && c.stream->Some_0 is Kline,
        data.filter(klines_in(j.range)).len() > 0,
    ensures
        ({
            let out = s.receiving(stream, FetchedView::Klines { data, req_id: Some(req) });
            &&& out.handled
            &&& out.effects.contains(
                EffectView::InsertKlinesPartial {
                    consumer: c,
                    stream: c.stream,
                    timeframe: c.stream->Some_0->Kline_timeframe,
                    ticker: c.stream->Some_0->Kline_ticker,
                    rows: data.filter(klines_in(j.range)),
                },
            )
        }),
{
    let own = data.filter(klines_in(j.range));
    lemma_within(Seq::empty(), data, Seq::empty(), j.range);
    let trim = FetchedView::Klines { data: own, req_id: Some(req) };
    let stored = s.storing(stream, trim, Some(j))->Some_0;
    let cs = stored.state.recipients(Some(id), stored.key, stored.range);
    assert(waits_for(stored.state, id, c));
    lemma_waits(stored.state, id, c);
    let i = choose|i: int| 0 <= i < cs.len() && cs[i] == c;
    let f = |c: ConsumerView|
        crate::market_data::runtime::model::klines_effect(
            c,
            match c.stream {
                Some(x) => x,
                None => stream,
            },
            own,
        );
    lemma_filter_map_has(cs, f, i);
    let drawn = stored.state.drawing(cs, stream, trim, stored.range);
    assert(drawn.effects == cs.filter_map(f));
    let e = f(c)->Some_0;
    let k = choose|k: int| 0 <= k < drawn.effects.len() && drawn.effects[k] == e;
    let out = s.receiving(stream, FetchedView::Klines { data, req_id: Some(req) });
    assert(out.effects[k] == e);
}

/// The readings that a worker answers reach each request for open interest that its job serves.
pub proof fn law_answered_open_interest_arrives(
    s: RuntimeView,
    stream: StreamView,
    data: Seq<OpenInterest>,
    req: Uuid,
    id: FetchJobId,
    j: JobView,
    c: ConsumerView,
)
    requires
        sent_for(s, req, id, j),
        waits_for(s, id, c),
        c.feature is OpenInterest,
        data.len() > 0,
    ensures
        ({
            let out = s.receiving(stream, FetchedView::OI { data, req_id: Some(req) });
            &&& out.handled
            &&& out.effects.contains(
                EffectView::InsertOpenInterestPartial { consumer: c, rows: data },
            )
        }),
{
    let raw = FetchedView::OI { data, req_id: Some(req) };
    let stored = s.storing(stream, raw, Some(j))->Some_0;
    let cs = stored.state.recipients(Some(id), stored.key, stored.range);
    assert(waits_for(stored.state, id, c));
    lemma_waits(stored.state, id, c);
    let i = choose|i: int| 0 <= i < cs.len() && cs[i] == c;
    let f = |c: ConsumerView|
        if c.feature is OpenInterest {
            Some(EffectView::InsertOpenInterestPartial { consumer: c, rows: data })
        } else {
            None
        };
    lemma_filter_map_has(cs, f, i);
    let drawn = stored.state.drawing(cs, stream, raw, stored.range);
    assert(drawn.effects == cs.filter_map(f));
    let e = f(c)->Some_0;
    let k = choose|k: int| 0 <= k < drawn.effects.len() && drawn.effects[k] == e;
    let out = s.receiving(stream, raw);
    assert(out.effects[k] == e);
}

/// An answer that no request waits for goes to the pane that asked, with all of its records; trades
/// after the end of the fetch are left out, and the fetch counts as done once they reach its end.
pub proof fn law_unclaimed_answers_are_handed_on(
    pane_id: Uuid,
    stream: StreamView,
    batch: Seq<Trade>,
    until_time: UnixMs,
    data: Seq<Kline>,
    oi: Seq<OpenInterest>,
    req_id: Option<Uuid>,
)
    ensures
        handed_on(pane_id, stream, FetchedView::Klines { data, req_id })
            == (EffectView::InsertLegacyKlines { pane_id, req_id, stream, rows: data }),
        handed_on(pane_id, stream, FetchedView::OI { data: oi, req_id })
            == (EffectView::InsertLegacyOpenInterest { pane_id, req_id, rows: oi }),
        ({
            let done = if batch.len() > 0 {
                batch.last().time.0 >= until_time.0
            } else {
                until_time.0 == 0
            };
            handed_on(pane_id, stream, FetchedView::Trades { batch, until_time, req_id })
                == (EffectView::InsertLegacyTrades {
                pane_id,
                req_id,
                batch: if done {
                    batch.filter(|t: Trade| t.time.0 <= until_time.0)
                } else {
                    batch
                },
                is_batches_done: done,
            })
        }),
{
    assert((|t: Trade| t.time.0 <= until_time.0)
        =~= crate::market_data::runtime::model::not_after(until_time));
}

/// The requests all have different identifiers.
pub open spec fn requests_distinct(cs: Seq<ConsumerView>) -> bool {
    forall|i: int, j: int|
        0 <= i < j < cs.len() ==> (#[trigger] cs[i]).req_id != (#[trigger] cs[j]).req_id
}

pub(crate) proof fn lemma_found(cs: Seq<ConsumerView>, c: ConsumerView)
    requires
        requests_distinct(cs),
        cs.contains(c),
    ensures
        consumer_at(cs, c.req_id) == Some(c),
{
    let i = choose|i: int| 0 <= i < cs.len() && cs[i] == c;
    assert forall|k: int| 0 <= k < i implies (#[trigger] cs[k]).req_id != c.req_id by {
        assert(cs[k].req_id != cs[i].req_id);
    }
    lemma_place(cs, c.req_id, i);
}

pub(crate) proof fn lemma_distinct_requests_filter(cs: Seq<ConsumerView>, p: spec_fn(ConsumerView) -> bool)
    requires
        requests_distinct(cs),
    ensures
        requests_distinct(cs.filter(p)),
        forall|k: int| 0 <= k < cs.filter(p).len() ==> cs.contains(#[trigger] cs.filter(p)[k]),
    decreases cs.len(),
{
    reveal(Seq::filter);
    if cs.len() > 0 {
        let front = cs.drop_last();
        assert forall|i: int, j: int| 0 <= i < j < front.len() implies (#[trigger] front[i]).req_id
            != (#[trigger] front[j]).req_id by {
            assert(cs[i].req_id != cs[j].req_id);
        }
        lemma_distinct_requests_filter(front, p);
        let kept = front.filter(p);
        let out = cs.filter(p);
        assert forall|k: int| 0 <= k < out.len() implies cs.contains(#[trigger] out[k]) by {
            if k < kept.len() {
                assert(out[k] == kept[k]);
                let m = choose|m: int| 0 <= m < front.len() && front[m] == kept[k];
                assert(cs[m] == out[k]);
            } else {
                assert(cs[cs.len() - 1] == out[k]);
            }
        }
        assert forall|i: int, j: int| 0 <= i < j < out.len() implies (#[trigger] out[i]).req_id != (
        #[trigger] out[j]).req_id by {
            assert(out[i] == kept[i]);
            if j < kept.len() {
                assert(out[j] == kept[j]);
            } else {
                let m = choose|m: int| 0 <= m < front.len() && front[m] == kept[i];
                assert(cs[m].req_id != cs[cs.len() - 1].req_id);
            }
        }
    }
}

pub(crate) proof fn lemma_replaced_other(cs: Seq<ConsumerView>, id: Uuid, x: ConsumerView, other: Uuid)
    requires
        x.req_id == id,
        other != id,
    ensures
        consumer_at(replaced(cs, id, x), other) == consumer_at(cs, other),
{
    lemma_place_bounds(cs, id);
    lemma_place_bounds(cs, other);
    let out = replaced(cs, id, x);
    let at = place_of(cs, other);
    assert(out.len() == cs.len());
    assert forall|k: int| 0 <= k < at implies (#[trigger] out[k]).req_id != other by {
        if k != place_of(cs, id) {
            assert(out[k] == cs[k]);
        }
    }
    if at < cs.len() {
        assert(at != place_of(cs, id));
        assert(out[at] == cs[at]);
    }
    lemma_place(out, other, at);
}

pub(crate) proof fn lemma_segment_done_frame(
    s: RuntimeView,
    id: Uuid,
    segment: MarketDataRange,
    tail: Tail,
    other: Uuid,
)
    requires
        other != id,
    ensures
        consumer_at(s.segment_done(id, segment, tail).state.consumers, other) == consumer_at(
            s.consumers,
            other,
        ),
        s.segment_done(id, segment, tail).state.coordinator == s.coordinator,
{
    lemma_place_bounds(s.consumers, id);
    if let Some(c) = consumer_at(s.consumers, id) {
        let arrived = c.with_arrived(segment);
        lemma_replaced_other(s.consumers, id, arrived, other);
        lemma_replaced(s.consumers, id, arrived);
        let mid = s.arriving(id, segment);
        lemma_place_bounds(mid.consumers, id);
        lemma_replaced_other(mid.consumers, id, arrived.done(), other);
    }
}

proof fn lemma_segment_done_each(
    s: RuntimeView,
    ids: Seq<Uuid>,
    segment: MarketDataRange,
    tail: Tail,
    c: ConsumerView,
)
    requires
        ids.no_duplicates(),
        consumer_at(s.consumers, c.req_id) == Some(c),
    ensures
        ({
            let step = s.segment_done_each(ids, segment, tail);
            let arrived = c.with_arrived(segment);
            &&& !ids.contains(c.req_id) ==> consumer_at(step.state.consumers, c.req_id) == Some(c)
            &&& ids.contains(c.req_id) && arrived.satisfied() && c.feature !is VolumeBubbles ==> {
                &&& step.effects.contains(
                    EffectView::CompleteConsumer { consumer: arrived, empty_covered_tail: tail },
                )
                &&& consumer_at(step.state.consumers, c.req_id) == Some(arrived.done())
            }
            &&& ids.contains(c.req_id) && !arrived.satisfied() ==> consumer_at(
                step.state.consumers,
                c.req_id,
            ) == Some(arrived)
        }),
    decreases ids.len(),
{
    if ids.len() > 0 {
        let few = ids.drop_last();
        let id = ids.last();
        assert(id == ids[ids.len() - 1]);
        assert(few.no_duplicates());
        lemma_segment_done_each(s, few, segment, tail, c);
        let front = s.segment_done_each(few, segment, tail);
        let next = front.state.segment_done(id, segment, tail);
        let all = s.segment_done_each(ids, segment, tail);
        assert(all.effects == front.effects + next.effects);
        let e = EffectView::CompleteConsumer {
            consumer: c.with_arrived(segment),
            empty_covered_tail: tail,
        };
        if id == c.req_id {
            assert(!few.contains(id)) by {
                if few.contains(id) {
                    let k = choose|k: int| 0 <= k < few.len() && few[k] == id;
                    assert(ids[k] == ids[ids.len() - 1]);
                }
            }
            law_request_ends_with_its_last_segment(front.state, id, segment, tail);
            if c.with_arrived(segment).satisfied() && c.feature !is VolumeBubbles {
                assert(next.effects[0] == e);
                assert(all.effects[front.effects.len() as int] == e);
            }
            assert(ids.contains(c.req_id));
        } else {
            lemma_segment_done_frame(front.state, id, segment, tail, c.req_id);
            if ids.contains(c.req_id) {
                let k = choose|k: int| 0 <= k < ids.len() && ids[k] == c.req_id;
                assert(few[k] == c.req_id);
            }
            if few.contains(c.req_id) {
                let k = choose|k: int| 0 <= k < few.len() && few[k] == c.req_id;
                assert(ids[k] == c.req_id);
            }
            if front.effects.contains(e) {
                let k = choose|k: int| 0 <= k < front.effects.len() && front.effects[k] == e;
                assert(all.effects[k] == e);
            }
        }
    }
}

/// When a worker is done, each request that its job serves and that then has all that it needs is
/// told so, and no other one counts as done.
pub proof fn law_worker_end_completes_requests(
    s: RuntimeView,
    req: Uuid,
    id: FetchJobId,
    j: JobView,
    ids: Seq<Uuid>,
    tail: Tail,
    c: ConsumerView,
)
    requires
        sent_for(s, req, id, j),
        lookup(s.job_consumers, id) == Some(ids),
        ids.no_duplicates(),
        requests_distinct(s.consumers),
        s.consumers.contains(c),
        !c.completed,
    ensures
        ({
            let step = s.finishing_worker(req, tail)->Some_0;
            let arrived = c.with_arrived(j.range);
            &&& s.finishing_worker(req, tail) is Some
            &&& ids.contains(c.req_id) && arrived.satisfied()
                && c.feature !is VolumeBubbles ==> step.effects.contains(
                EffectView::CompleteConsumer { consumer: arrived, empty_covered_tail: tail },
            )
            &&& !ids.contains(c.req_id) ==> step.state.consumers.contains(c)
            &&& ids.contains(c.req_id) && !arrived.satisfied()
                ==> step.state.consumers.contains(arrived)
        }),
{
    let f = s.finished(req, tail)->Some_0;
    let done = f.completion->Some_0;
    assert(ids == done.consumer_ids);
    lemma_distinct_requests_filter(s.consumers, unfinished());
    let k = choose|k: int| 0 <= k < s.consumers.len() && s.consumers[k] == c;
    s.consumers.lemma_filter_contains(unfinished(), k);
    assert(f.state.consumers == s.consumers.filter(unfinished()));
    lemma_found(f.state.consumers, c);
    lemma_segment_done_each(f.state, ids, j.range, tail, c);
    let step = f.state.segment_done_each(ids, j.range, tail);
    let last = s.finishing_worker(req, tail)->Some_0;
    assert(last.effects == step.effects.push(EffectView::ProgressSnapshot));
    let arrived = c.with_arrived(j.range);
    let e = EffectView::CompleteConsumer { consumer: arrived, empty_covered_tail: tail };
    if step.effects.contains(e) {
        let k = choose|k: int| 0 <= k < step.effects.len() && step.effects[k] == e;
        assert(last.effects[k] == e);
    }
    lemma_place_bounds(step.state.consumers, c.req_id);
    let at = place_of(step.state.consumers, c.req_id);
    if !ids.contains(c.req_id) {
        assert(step.state.consumers[at] == c);
        step.state.consumers.lemma_filter_contains(unfinished(), at);
    } else if !arrived.satisfied() {
        assert(step.state.consumers[at] == arrived);
        step.state.consumers.lemma_filter_contains(unfinished(), at);
    }
}

/// When a worker is done, the range of its job counts as complete if it brought records, and as
/// empty if it brought none or the end of the fetch is known to hold nothing. What is stored stays.
pub proof fn law_worker_end_settles_coverage(
    s: RuntimeView,
    req: Uuid,
    id: FetchJobId,
    j: JobView,
    tail: Tail,
)
    requires
        sent_for(s, req, id, j),
        j.range.from.0 < j.range.to.0,
        tidy(rows(s.coordinator.facts, j.key)),
    ensures
        ({
            let after = s.finished(req, tail)->Some_0.state.coordinator;
            &&& s.finished(req, tail) is Some
            &&& after.store == s.coordinator.store
            &&& if j.progress.records_fetched > 0 && tail is None {
                covered_at(after.facts, j.key, j.range)
            } else {
                !covered_at(after.facts, j.key, j.range) && exists|e: EntryView|
                    #[trigger] rows(after.facts, j.key).contains(e) && e.range == j.range
                        && e.status is Empty
            }
        }),
{
    let n = j.progress.records_fetched;
    if n > 0 && tail is None {
        law_complete_is_covered(s.coordinator.facts, j.key, j.range, n, j.range);
    } else {
        let e = crate::market_data::coverage::empty_entry(j.range);
        law_incomplete_is_missing(s.coordinator.facts, j.key, e);
        law_other_marks_add_only_themselves(rows(s.coordinator.facts, j.key), e, e);
        let after = s.finished(req, tail)->Some_0.state.coordinator;
        assert(rows(after.facts, j.key).contains(e));
    }
}

/// Records of the cache that were not handed over to a request before are handed over to it, all of
/// them, and the segment counts as handed over and as arrived.
pub proof fn law_cached_records_arrive(
    s: RuntimeView,
    c: ConsumerView,
    d: DispatchView,
    range: MarketDataRange,
    t: int,
)
    requires
        consumer_at(s.consumers, c.req_id) == Some(c),
        range.from.0 <= t < range.to.0,
        !lies_in_some(c.delivered_segments, t),
        d matches DispatchView::Klines { range: r, .. } ==> r == range,
        d matches DispatchView::Trades { range: r, .. } ==> r == range,
        d matches DispatchView::OpenInterest { range: r, .. } ==> r == range,
    ensures
        d matches DispatchView::Trades { key, range: r, rows } ==> {
            &&& draws_trades(c) ==> s.cached_step(c, d).effects.len() > 0 && s.cached_step(
                c,
                d,
            ).effects[0] == trades_for(c, rows, range.to)
            &&& consumer_at(s.cached_step(c, d).state.consumers, c.req_id) matches Some(after)
                && after.delivered_segments == c.with_delivered(range).delivered_segments
        },
        d matches DispatchView::Klines { key, range: r, timeframe, rows } ==> (c.feature is ChartKlines
            && c.stream is Some && c.stream->Some_0 is Kline ==> s.cached_step(c, d).effects.len()
            > 0 && s.cached_step(c, d).effects[0] == (EffectView::InsertKlinesPartial {
            consumer: c,
            stream: c.stream,
            timeframe,
            ticker: c.stream->Some_0->Kline_ticker,
            rows,
        })),
        d matches DispatchView::OpenInterest { key, range: r, timeframe, rows } ==> (
        c.feature is OpenInterest ==> s.cached_step(c, d).effects.len() > 0 && s.cached_step(
            c,
            d,
        ).effects[0] == (EffectView::InsertOpenInterestPartial { consumer: c, rows })),
{
    lemma_place_bounds(s.consumers, c.req_id);
    lemma_lies_in_some(c.delivered_segments, t);
    law_nothing_missing_iff_covered(range, c.delivered_segments);
    assert(range.covers(t) && !any_covers(c.delivered_segments, t));
    if let DispatchView::Trades { key, range: r, rows } = d {
        let del = c.with_delivered(range);
        lemma_replaced(s.consumers, c.req_id, del);
        let a = s.delivering(c.req_id, range);
        law_trades_are_drawn(a, c, rows, range);
        let drawn = a.trades_step(c, rows, range);
        lemma_place_bounds(a.consumers, c.req_id);
        lemma_replaced(a.consumers, c.req_id, del.begun());
        let b = consumer_at(drawn.state.consumers, c.req_id)->Some_0;
        assert(b.delivered_segments == del.delivered_segments && b.req_id == c.req_id);
        lemma_place_bounds(drawn.state.consumers, c.req_id);
        let arrived = b.with_arrived(range);
        lemma_replaced(drawn.state.consumers, c.req_id, arrived);
        let e = drawn.state.arriving(c.req_id, range);
        lemma_place_bounds(e.consumers, c.req_id);
        lemma_replaced(e.consumers, c.req_id, arrived.done());
    }
}

/// An instant lies in one of some segments.
pub open spec fn lies_in_some(s: Seq<MarketDataRange>, t: int) -> bool {
    exists|i: int| 0 <= i < s.len() && (#[trigger] s[i]).from.0 <= t < s[i].to.0
}

pub(crate) proof fn lemma_lies_in_some(s: Seq<MarketDataRange>, t: int)
    ensures
        lies_in_some(s, t) <==> any_covers(s, t),
{
    if lies_in_some(s, t) {
        let i = choose|i: int| 0 <= i < s.len() && (#[trigger] s[i]).from.0 <= t < s[i].to.0;
        assert(s[i].covers(t));
    }
    if any_covers(s, t) {
        let i = choose|i: int| 0 <= i < s.len() && (#[trigger] s[i]).covers(t);
        assert(s[i].from.0 <= t < s[i].to.0);
    }
}

/// A request has all that it needs once each instant of its range arrived, and not before, as long
/// as anything was planned for it. Where single trades are drawn, what has not arrived is shorter
/// than a second.
pub proof fn law_request_has_all_it_needs(c: ConsumerView, r: MarketDataRange)
    requires
        c.range.from.0 < c.range.to.0,
        forall|i: int|
            0 <= i < c.completed_segments.len() ==> (#[trigger] c.completed_segments[i]).from.0
                < c.completed_segments[i].to.0,
    ensures
        c.required_segments.len() == 0 ==> c.satisfied(),
        (forall|t: int|
            c.range.from.0 <= t < c.range.to.0 ==> #[trigger] lies_in_some(c.completed_segments, t))
            ==> c.satisfied(),
        c.required_segments.len() > 0 && c.satisfied() && !draws_trades(c) ==> forall|t: int|
            c.range.from.0 <= t < c.range.to.0 ==> #[trigger] lies_in_some(c.completed_segments, t),
        c.required_segments.len() > 0 && c.satisfied() && draws_trades(c) && c.range.from.0
            <= r.from.0 && r.to.0 <= c.range.to.0 && r.to.0 - r.from.0 >= 1_000 ==> exists|t: int|
            r.from.0 <= t < r.to.0 && #[trigger] lies_in_some(c.completed_segments, t),
{
    let all = missing(c.range, c.completed_segments);
    law_nothing_missing_iff_covered(c.range, c.completed_segments);
    if forall|t: int|
        c.range.from.0 <= t < c.range.to.0 ==> #[trigger] lies_in_some(c.completed_segments, t) {
        assert forall|t: int| c.range.covers(t) implies #[trigger] any_covers(
            c.completed_segments,
            t,
        ) by {
            lemma_lies_in_some(c.completed_segments, t);
        }
        assert(all.len() == 0);
        assert(all.filter(wide_enough()).len() == 0) by {
            all.lemma_filter_len(wide_enough());
        }
    }
    if c.required_segments.len() > 0 && c.satisfied() && !draws_trades(c) {
        assert forall|t: int| c.range.from.0 <= t < c.range.to.0 implies #[trigger] lies_in_some(
            c.completed_segments,
            t,
        ) by {
            assert(c.range.covers(t));
            lemma_lies_in_some(c.completed_segments, t);
            assert(any_covers(c.completed_segments, t));
        }
    }
    if c.required_segments.len() > 0 && c.satisfied() && draws_trades(c) && c.range.from.0
        <= r.from.0 && r.to.0 <= c.range.to.0 && r.to.0 - r.from.0 >= 1_000 {
        if forall|t: int|
            r.from.0 <= t < r.to.0 ==> !(#[trigger] lies_in_some(c.completed_segments, t)) {
            assert forall|t: int| r.covers(t) implies !(#[trigger] any_covers(
                c.completed_segments,
                t,
            )) by {
                lemma_lies_in_some(c.completed_segments, t);
                assert(!lies_in_some(c.completed_segments, t));
            }
            assert(crate::market_data::range::all_valid(c.completed_segments)) by {
                assert forall|i: int| 0 <= i < c.completed_segments.len() implies (
                #[trigger] c.completed_segments[i]).valid() by {
                    assert(c.completed_segments[i].from.0 < c.completed_segments[i].to.0);
                }
            }
            let a = lemma_free_stretch(c.range, c.completed_segments, r);
            assert(wide_enough()(all[a]));
            all.lemma_filter_contains(wide_enough(), a);
            assert(false);
        }
    }
}

/// A segment that arrives adds exactly its instants to what arrived of a request, and changes
/// nothing else of it. A segment that was planned adds exactly its instants to what was planned.
pub proof fn law_segments_are_added(c: ConsumerView, segment: MarketDataRange, t: int)
    requires
        segment.from.0 < segment.to.0,
        forall|i: int|
            0 <= i < c.completed_segments.len() ==> (#[trigger] c.completed_segments[i]).from.0
                < c.completed_segments[i].to.0,
    ensures
        c.with_arrived(segment) == (ConsumerView {
            completed_segments: c.with_arrived(segment).completed_segments,
            ..c
        }),
        lies_in_some(c.with_arrived(segment).completed_segments, t) <==> lies_in_some(
            c.completed_segments,
            t,
        ) || segment.from.0 <= t < segment.to.0,
        c.with_planned(segment) == (ConsumerView {
            required_segments: c.with_planned(segment).required_segments,
            ..c
        }),
        lies_in_some(c.with_planned(segment).required_segments, t) <==> lies_in_some(
            c.required_segments,
            t,
        ) || segment.from.0 <= t < segment.to.0,
{
    assert forall|i: int| 0 <= i < c.completed_segments.len() implies (
    #[trigger] c.completed_segments[i]).valid() by {
        assert(c.completed_segments[i].from.0 < c.completed_segments[i].to.0);
    }
    law_add_segment_exact(c.completed_segments, segment, t);
    law_required_segment_exact(c.required_segments, segment);
    lemma_lies_in_some(c.completed_segments, t);
    lemma_lies_in_some(c.with_arrived(segment).completed_segments, t);
    lemma_lies_in_some(c.required_segments, t);
    lemma_lies_in_some(c.with_planned(segment).required_segments, t);
    assert(any_covers(c.with_planned(segment).required_segments, t) <==> any_covers(
        c.required_segments,
        t,
    ) || segment.covers(t));
}

proof fn lemma_segment_done_each_frame(
    s: RuntimeView,
    ids: Seq<Uuid>,
    segment: MarketDataRange,
    tail: Tail,
)
    ensures
        s.segment_done_each(ids, segment, tail).state.coordinator == s.coordinator,
        s.segment_done_each(ids, segment, tail).state.commands == s.commands,
        s.segment_done_each(ids, segment, tail).state.worker_jobs == s.worker_jobs,
    decreases ids.len(),
{
    if ids.len() > 0 {
        lemma_segment_done_each_frame(s, ids.drop_last(), segment, tail);
    }
}

/// An answer of candles settles its job: those of its range are stored and go to the cache, and the
/// whole range counts as complete. The job is gone.
pub proof fn law_answered_klines_settle(
    s: RuntimeView,
    stream: StreamView,
    data: Seq<Kline>,
    req: Uuid,
    id: FetchJobId,
    j: JobView,
    c: ConsumerView,
)
    requires
        sent_for(s, req, id, j),
        waits_for(s, id, c),
        data.filter(klines_in(j.range)).len() > 0,
        j.range.from.0 < j.range.to.0,
        tidy(rows(s.coordinator.facts, j.key)),
        data.len() <= usize::MAX,
    ensures
        ({
            let out = s.receiving(stream, FetchedView::Klines { data, req_id: Some(req) });
            let own = data.filter(klines_in(j.range));
            &&& out.handled
            &&& out.state.coordinator.store == s.coordinator.store.with_klines(j.key, own)
            &&& out.state.commands == s.commands.push(
                CommandView::StoreKlines { key: j.key, rows: own },
            ).push(CommandView::SaveCoverage)
            &&& covered_at(out.state.coordinator.facts, j.key, j.range)
            &&& lookup(out.state.coordinator.jobs, id) is None
            &&& lookup(out.state.worker_jobs, req) is None
        }),
{
    let own = data.filter(klines_in(j.range));
    lemma_within(Seq::empty(), data, Seq::empty(), j.range);
    data.lemma_filter_len(klines_in(j.range));
    let raw = FetchedView::Klines { data, req_id: Some(req) };
    let trim = FetchedView::Klines { data: own, req_id: Some(req) };
    let stored = s.storing(stream, trim, Some(j))->Some_0;
    let cs = stored.state.recipients(Some(id), stored.key, stored.range);
    assert(waits_for(stored.state, id, c));
    lemma_waits(stored.state, id, c);
    assert(cs.len() > 0);
    let n = own.len() as usize;
    let mid = stored.state.counting(Some(id), stored.key, stored.range, n);
    lemma_counting_store(stored.state, Some(id), stored.key, stored.range, n);
    let one = seq![id];
    assert(one.drop_last() =~= Seq::<FetchJobId>::empty());
    assert(one.last() == id);
    let total = crate::market_data::coverage::clamp_usize(
        (j.progress.records_fetched + n) as nat,
    );
    let after = JobView {
        progress: crate::market_data::job::FetchJobProgress {
            records_fetched: total,
            ..j.progress
        },
        ..j
    };
    let k = stored.state.coordinator;
    assert(crate::market_data::runtime::model::with_records(k, one.drop_last(), n) == k);
    assert(crate::market_data::runtime::model::with_records(k, one, n) == k.with_job(id, after));
    lemma_put_lookup(k.jobs, id, after);
    assert(lookup(mid.coordinator.jobs, id) == Some(after));
    assert(total > 0);
    let f = mid.finished(req, None)->Some_0;
    law_complete_is_covered(mid.coordinator.facts, j.key, j.range, total, j.range);
    law_finished_worker_is_gone(mid, req, None);
    lemma_segment_done_each_frame(f.state, mid.served_by(id), j.range, None);
    let out = s.receiving(stream, raw);
    assert(out.state.coordinator == f.state.coordinator);
}

/// Candles that no job asked for reach each request for a part of the stretch between the first and
/// the last of them.
pub proof fn law_other_klines_arrive(
    s: RuntimeView,
    stream: StreamView,
    data: Seq<Kline>,
    key: KeyView,
    c: ConsumerView,
)
    requires
        key_streamed(stream) == Some(key),
        data.len() > 0,
        data[0].time.0 <= data[data.len() - 1].time.0 < u64::MAX,
        s.consumers.contains(c),
        c.key == key,
        c.range.from.0 <= data[data.len() - 1].time.0,
        data[0].time.0 < c.range.to.0,
        c.feature is ChartKlines,
        c.stream is Some && c.stream->Some_0 is Kline,
    ensures
        ({
            let out = s.receiving(stream, FetchedView::Klines { data, req_id: None });
            &&& out.handled
            &&& out.state.coordinator.store == s.coordinator.store.with_klines(key, data)
            &&& out.effects.contains(
                EffectView::InsertKlinesPartial {
                    consumer: c,
                    stream: c.stream,
                    timeframe: c.stream->Some_0->Kline_timeframe,
                    ticker: c.stream->Some_0->Kline_ticker,
                    rows: data,
                },
            )
        }),
{
    let raw = FetchedView::Klines { data, req_id: None };
    let stored = s.storing(stream, raw, None)->Some_0;
    let range = MarketDataRange {
        from: data[0].time,
        to: UnixMs((data[data.len() - 1].time.0 + 1) as u64),
    };
    assert(crate::market_data::runtime::model::range_of_rows(data) == Some(range));
    let p = crate::market_data::runtime::model::wanting(key, range);
    let cs = stored.state.recipients(None, key, range);
    let k = choose|k: int| 0 <= k < s.consumers.len() && s.consumers[k] == c;
    assert(p(s.consumers[k]));
    s.consumers.lemma_filter_contains(p, k);
    let i = choose|i: int| 0 <= i < cs.len() && cs[i] == c;
    let f = |c: ConsumerView|
        crate::market_data::runtime::model::klines_effect(
            c,
            match c.stream {
                Some(x) => x,
                None => stream,
            },
            data,
        );
    lemma_filter_map_has(cs, f, i);
    let drawn = stored.state.drawing(cs, stream, raw, range);
    assert(drawn.effects == cs.filter_map(f));
    lemma_counting_store(stored.state, None, key, range, stored.record_count);
}

/// An answer that no request waits for, and no job, is left to the pane that asked: it counts as
/// not handled, and no chart changes.
pub proof fn law_unwanted_answers_are_left(
    s: RuntimeView,
    stream: StreamView,
    batch: Seq<Trade>,
    until_time: UnixMs,
)
    requires
        s.consumers.len() == 0,
    ensures
        ({
            let out = s.receiving(stream, FetchedView::Trades { batch, until_time, req_id: None });
            !out.handled && out.effects.len() == 0
        }),
{
    let raw = FetchedView::Trades { batch, until_time, req_id: None };
    if let Some(stored) = s.storing(stream, raw, None) {
        let p = crate::market_data::runtime::model::wanting(stored.key, stored.range);
        s.consumers.lemma_filter_len(p);
    }
}

/// An answer of readings settles its job: they are stored and go to the cache, and the whole range
/// of the job counts as complete. The job is gone.
pub proof fn law_answered_open_interest_settles(
    s: RuntimeView,
    stream: StreamView,
    data: Seq<OpenInterest>,
    req: Uuid,
    id: FetchJobId,
    j: JobView,
    c: ConsumerView,
)
    requires
        sent_for(s, req, id, j),
        waits_for(s, id, c),
        0 < data.len() <= usize::MAX,
        j.range.from.0 < j.range.to.0,
        tidy(rows(s.coordinator.facts, j.key)),
    ensures
        ({
            let out = s.receiving(stream, FetchedView::OI { data, req_id: Some(req) });
            &&& out.handled
            &&& out.state.coordinator.store == s.coordinator.store.with_open_interest(j.key, data)
            &&& out.state.commands == s.commands.push(
                CommandView::StoreOpenInterest { key: j.key, rows: data },
            ).push(CommandView::SaveCoverage)
            &&& covered_at(out.state.coordinator.facts, j.key, j.range)
            &&& lookup(out.state.coordinator.jobs, id) is None
            &&& lookup(out.state.worker_jobs, req) is None
        }),
{
    let raw = FetchedView::OI { data, req_id: Some(req) };
    let stored = s.storing(stream, raw, Some(j))->Some_0;
    let cs = stored.state.recipients(Some(id), stored.key, stored.range);
    assert(waits_for(stored.state, id, c));
    lemma_waits(stored.state, id, c);
    assert(cs.len() > 0);
    let n = data.len() as usize;
    let mid = stored.state.counting(Some(id), stored.key, stored.range, n);
    lemma_counting_store(stored.state, Some(id), stored.key, stored.range, n);
    let one = seq![id];
    assert(one.drop_last() =~= Seq::<FetchJobId>::empty());
    assert(one.last() == id);
    let total = crate::market_data::coverage::clamp_usize(
        (j.progress.records_fetched + n) as nat,
    );
    let after = JobView {
        progress: crate::market_data::job::FetchJobProgress {
            records_fetched: total,
            ..j.progress
        },
        ..j
    };
    let k = stored.state.coordinator;
    assert(crate::market_data::runtime::model::with_records(k, one.drop_last(), n) == k);
    assert(crate::market_data::runtime::model::with_records(k, one, n) == k.with_job(id, after));
    lemma_put_lookup(k.jobs, id, after);
    assert(lookup(mid.coordinator.jobs, id) == Some(after));
    let f = mid.finished(req, None)->Some_0;
    law_complete_is_covered(mid.coordinator.facts, j.key, j.range, total, j.range);
    law_finished_worker_is_gone(mid, req, None);
    lemma_segment_done_each_frame(f.state, mid.served_by(id), j.range, None);
    let out = s.receiving(stream, raw);
    assert(out.state.coordinator == f.state.coordinator);
}

} // verus!
