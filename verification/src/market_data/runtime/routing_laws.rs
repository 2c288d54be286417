//! Laws of how requests become fetches.

use vstd::prelude::*;
use crate::connector::fetcher::{FetchRange, SpecView};
use crate::id_table::{ids_distinct, lookup};
use crate::ids::Uuid;
use crate::market::{Kline, OpenInterest, StreamView};
use crate::market_data::bridge::{
    feature_of_fetch, feature_of_need, fetch_for_need, key_fetched, key_needed, key_streamed,
    range_fetched, range_needed, required_by_fetch, required_by_need,
};
use crate::market_data::chart_need::ChartDataNeed;
use crate::market_data::consumer::ConsumerView;
use crate::market_data::coordinator::{is_active, lemma_put_lookup, CoordinatorView};
use crate::market_data::coverage::{
    clamp_usize, covered_at, empty_entry, marked, rows, stale_entry, EntryView,
};
use crate::market_data::coverage_laws::{
    law_incomplete_is_missing, law_marking_keeps_tidy, law_other_marks_add_only_themselves, tidy,
};
use crate::market_data::effect::DispatchView;
use crate::market_data::job::{FetchJobId, JobStatusView, JobView};
use crate::market_data::key::{KeyView, MarketDataKind};
use crate::market_data::planner::{planned, CachedView};
use crate::market_data::range::{any_covers, MarketDataRange};
use crate::market_data::range_laws::law_nothing_missing_iff_covered;
use crate::market_data::requirement::{grouped_by_urgency, RequirementView};
use crate::market_data::runtime::delivery_laws::{
    draws_trades, klines_in, lemma_found, lemma_lies_in_some, lemma_replaced_other, lemma_within,
    lies_in_some, readings_in, requests_distinct,
};
use crate::market_data::runtime::laws::{law_active_job_serves_all, lemma_put_other};
use crate::market_data::runtime::model::{
    consumer_at, unfinished, unfinished_in, wanting, RuntimeView,
};
use crate::market_data::runtime::route_model::{
    carries, first_carrying, req_ids, routed, still_wanting, stream_of_first, wanting_trades,
    with_each_started, AskerView, LaunchedView, ReadView, RouteView, ServedView,
};
use crate::market_data::runtime::workers::active_jobs_of;
use crate::market_data::runtime::{lemma_place_bounds, lemma_replaced};
use crate::time::Timeframe;

verus! {

/// A request that has just come: nothing was planned for it, and nothing arrived.
pub open spec fn just_came(c: ConsumerView) -> bool {
    &&& !c.completed
    &&& !c.has_partial_updates
    &&& c.required_segments.len() == 0
    &&& c.completed_segments.len() == 0
    &&& c.failed_segments.len() == 0
    &&& c.delivered_segments.len() == 0
}

/// The instrument of a pane: that of its first stream.
pub open spec fn instrument(asker: AskerView) -> Option<crate::market::TickerView> {
    if asker.ready.len() > 0 {
        Some(
            match asker.ready[0] {
                StreamView::Kline { ticker, .. } => ticker,
                StreamView::Depth { ticker, .. } => ticker,
                StreamView::Trades { ticker } => ticker,
            },
        )
    } else {
        None
    }
}

/// A width is that of the first stream of candles.
pub open spec fn width_of_first(ready: Seq<StreamView>, tf: Option<Timeframe>) -> bool {
    match tf {
        Some(w) => exists|i: int|
            0 <= i < ready.len() && (#[trigger] ready[i]) is Kline && ready[i]->Kline_timeframe == w
                && forall|j: int| 0 <= j < i ==> (#[trigger] ready[j]) !is Kline,
        None => forall|i: int| 0 <= i < ready.len() ==> (#[trigger] ready[i]) !is Kline,
    }
}

proof fn lemma_first_width(ready: Seq<StreamView>)
    ensures
        width_of_first(ready, crate::market_data::runtime::model::first_timeframe(ready)),
    decreases ready.len(),
{
    if ready.len() > 0 {
        let rest = ready.skip(1);
        lemma_first_width(rest);
        let tf = crate::market_data::runtime::model::first_timeframe(ready);
        if ready[0] !is Kline {
            match tf {
                Some(w) => {
                    let i = choose|i: int|
                        0 <= i < rest.len() && (#[trigger] rest[i]) is Kline
                            && rest[i]->Kline_timeframe == w && forall|j: int|
                            0 <= j < i ==> (#[trigger] rest[j]) !is Kline;
                    assert(ready[i + 1] == rest[i]);
                    assert forall|j: int| 0 <= j < i + 1 implies (#[trigger] ready[j]) !is Kline by {
                        if j > 0 {
                            assert(rest[j - 1] == ready[j]);
                        }
                    }
                },
                None => {
                    assert forall|i: int| 0 <= i < ready.len() implies (
                    #[trigger] ready[i]) !is Kline by {
                        if i > 0 {
                            assert(rest[i - 1] == ready[i]);
                        }
                    }
                },
            }
        }
    }
}

proof fn lemma_one_width(ready: Seq<StreamView>, a: Option<Timeframe>, b: Option<Timeframe>)
    requires
        width_of_first(ready, a),
        width_of_first(ready, b),
    ensures
        a == b,
{
    if let Some(x) = a {
        let i = choose|i: int|
            0 <= i < ready.len() && (#[trigger] ready[i]) is Kline && ready[i]->Kline_timeframe == x
                && forall|j: int| 0 <= j < i ==> (#[trigger] ready[j]) !is Kline;
        if let Some(y) = b {
            let k = choose|k: int|
                0 <= k < ready.len() && (#[trigger] ready[k]) is Kline && ready[k]->Kline_timeframe
                    == y && forall|j: int| 0 <= j < k ==> (#[trigger] ready[j]) !is Kline;
            if i < k {
                assert(ready[i] !is Kline);
            }
            if k < i {
                assert(ready[k] !is Kline);
            }
        }
    } else if let Some(y) = b {
        let k = choose|k: int|
            0 <= k < ready.len() && (#[trigger] ready[k]) is Kline && ready[k]->Kline_timeframe == y
                && forall|j: int| 0 <= j < k ==> (#[trigger] ready[j]) !is Kline;
        assert(ready[k] !is Kline);
    }
}

/// A request of a pane waits from when it is taken: one that asks for a known stream and a range
/// that is not empty goes behind the others, for that stream and that range, and is required of the
/// coordinator; any other one changes nothing.
pub proof fn law_taken_requests_wait(
    s: RuntimeView,
    asker: AskerView,
    spec: SpecView,
    tf: Option<Timeframe>,
)
    requires
        if spec.stream is Some && spec.stream->Some_0 is Kline {
            tf == Some(spec.stream->Some_0->Kline_timeframe)
        } else {
            width_of_first(asker.ready, tf)
        },
    ensures
        ({
            let after = s.with_spec(asker, spec);
            let key = key_fetched(spec.fetch, instrument(asker), tf);
            let range = range_fetched(spec.fetch);
            if key is Some && range is Some {
                &&& after.consumers.len() == s.consumers.len() + 1
                &&& after.consumers.drop_last() == s.consumers
                &&& just_came(after.consumers.last())
                &&& after.consumers.last().pane_id == asker.pane_id
                &&& after.consumers.last().req_id == spec.req_id
                &&& after.consumers.last().fetch == spec.fetch
                &&& after.consumers.last().stream == spec.stream
                &&& Some(after.consumers.last().key) == key
                &&& Some(after.consumers.last().range) == range
                &&& after.consumers.last().feature == feature_of_fetch(spec.fetch)
                &&& after.consumers.last().chart_generation == asker.chart_generation
                &&& Some(after.coordinator) == match required_by_fetch(
                    spec.fetch,
                    asker.pane_id,
                    feature_of_fetch(spec.fetch),
                    instrument(asker),
                    tf,
                ) {
                    Some(r) => Some(s.coordinator.with_need(r)),
                    None => None,
                }
                &&& after.worker_jobs == s.worker_jobs
                &&& after.job_consumers == s.job_consumers
                &&& after.commands == s.commands
            } else {
                after == s
            }
        }),
{
    lemma_first_width(asker.ready);
    let own = crate::market_data::runtime::model::first_timeframe(asker.ready);
    if !(spec.stream is Some && spec.stream->Some_0 is Kline) {
        lemma_one_width(asker.ready, tf, own);
    }
    let after = s.with_spec(asker, spec);
    assert(asker.can_take(spec) ==> after.consumers.drop_last() =~= s.consumers);
}

/// A need of a chart waits from when it is taken, unless the same need of the pane waits already.
pub proof fn law_taken_needs_wait(
    s: RuntimeView,
    asker: AskerView,
    need: ChartDataNeed,
    req_id: Uuid,
    tf: Option<Timeframe>,
)
    requires
        width_of_first(asker.ready, tf),
    ensures
        ({
            let after = s.with_need(asker, need, req_id);
            let key = key_needed(need, instrument(asker), tf);
            let range = range_needed(need);
            let waits = exists|i: int|
                0 <= i < s.consumers.len() && (#[trigger] s.consumers[i]).pane_id == asker.pane_id
                    && Some(s.consumers[i].key) == key && Some(s.consumers[i].range) == range
                    && s.consumers[i].feature == feature_of_need(need) && !s.consumers[i].completed;
            if key is Some && range is Some && !waits {
                &&& after.consumers.len() == s.consumers.len() + 1
                &&& after.consumers.drop_last() == s.consumers
                &&& just_came(after.consumers.last())
                &&& after.consumers.last().pane_id == asker.pane_id
                &&& after.consumers.last().req_id == req_id
                &&& after.consumers.last().fetch == fetch_for_need(need)
                &&& Some(after.consumers.last().key) == key
                &&& Some(after.consumers.last().range) == range
                &&& after.consumers.last().feature == feature_of_need(need)
                &&& after.consumers.last().chart_generation == asker.chart_generation
                &&& need matches ChartDataNeed::Bubbles {
                    from,
                    to,
                    timeframe_ms,
                    price_step,
                    max_candidates_per_candle,
                } ==> after.consumers.last().bubble_config matches Some(cfg) && cfg.timeframe_ms
                    == timeframe_ms && cfg.price_step == price_step && cfg.max_candidates_per_candle
                    == max_candidates_per_candle
                &&& Some(after.coordinator) == match required_by_need(
                    need,
                    asker.pane_id,
                    instrument(asker),
                    tf,
                ) {
                    Some(r) => Some(s.coordinator.with_need(r)),
                    None => None,
                }
            } else {
                after == s
            }
        }),
{
    lemma_first_width(asker.ready);
    let own = crate::market_data::runtime::model::first_timeframe(asker.ready);
    lemma_one_width(asker.ready, tf, own);
    let after = s.with_need(asker, need, req_id);
    assert(s.takes_need(asker, need) ==> after.consumers.drop_last() =~= s.consumers);
    let key = key_needed(need, instrument(asker), tf);
    let range = range_needed(need);
    if exists|i: int|
        0 <= i < s.consumers.len() && (#[trigger] s.consumers[i]).pane_id == asker.pane_id && Some(
            s.consumers[i].key,
        ) == key && Some(s.consumers[i].range) == range && s.consumers[i].feature
            == feature_of_need(need) && !s.consumers[i].completed {
        let i = choose|i: int|
            0 <= i < s.consumers.len() && (#[trigger] s.consumers[i]).pane_id == asker.pane_id
                && Some(s.consumers[i].key) == key && Some(s.consumers[i].range) == range
                && s.consumers[i].feature == feature_of_need(need) && !s.consumers[i].completed;
        assert(s.awaits(asker, key->Some_0, need));
    } else if key is Some {
        if s.awaits(asker, key->Some_0, need) {
            let i = choose|i: int|
                0 <= i < s.consumers.len() && (#[trigger] s.consumers[i]).pane_id == asker.pane_id
                    && s.consumers[i].key == key->Some_0 && Some(s.consumers[i].range)
                    == range_needed(need) && s.consumers[i].feature == feature_of_need(need)
                    && !s.consumers[i].completed;
            assert(false);
        }
    }
}

/// A need that the coordinator is told of is kept until planning, and is planned at once, with all
/// others, where more would wait than may.
pub proof fn law_needs_are_kept(c: CoordinatorView, r: RequirementView)
    ensures
        ({
            let after = c.with_need(r);
            &&& after.jobs == c.jobs && after.queue == c.queue && after.store == c.store
                && after.facts == c.facts
            &&& c.pending.len() < c.max_pending_requirements ==> after.pending == c.pending.push(r)
                && after.plan == c.plan
            &&& c.pending.len() >= c.max_pending_requirements ==> after.pending.len() == 0
                && after.plan == Some(planned(grouped_by_urgency(c.pending.push(r)), c.facts))
        }),
{
}

/// A stream carries the trades or candles of its own instrument and width, and the open interest
/// of the instrument of a stream of candles of that width.
pub proof fn law_streams_carry_their_data(stream: StreamView, key: KeyView)
    ensures
        key.kind is Trades ==> (carries(stream, key) <==> stream is Trades && key_streamed(stream)
            == Some(key)),
        key.kind is Klines ==> (carries(stream, key) <==> stream is Kline && key_streamed(stream)
            == Some(key)),
        key.kind matches MarketDataKind::OpenInterest { timeframe } ==> (carries(stream, key)
            <==> stream is Kline && stream->Kline_timeframe == timeframe && key_streamed(stream)
            == Some(KeyView { kind: MarketDataKind::Klines { timeframe }, ..key })),
{
    if let StreamView::Kline { ticker, timeframe } = stream {
        if let Some(k) = KeyView::of_ticker(ticker, key.kind) {
            assert(key_streamed(stream) == Some(
                KeyView { kind: MarketDataKind::Klines { timeframe }, ..k },
            ));
            if key.kind is OpenInterest {
                assert(k.kind == key.kind);
                assert(key_streamed(stream) == Some(
                    KeyView { kind: MarketDataKind::Klines { timeframe }, ..key },
                ) ==> k == key);
            }
        }
    }
}

/// The stream to fetch from is the first one of a pane that carries the data.
pub proof fn law_first_stream_that_carries(ready: Seq<StreamView>, key: KeyView)
    ensures
        match first_carrying(ready, key) {
            Some(x) => exists|i: int|
                0 <= i < ready.len() && (#[trigger] ready[i]) == x && carries(x, key) && forall|
                    j: int,
                |
                    0 <= j < i ==> !carries(#[trigger] ready[j], key),
            None => forall|i: int| 0 <= i < ready.len() ==> !carries(#[trigger] ready[i], key),
        },
    decreases ready.len(),
{
    if ready.len() > 0 {
        let rest = ready.skip(1);
        law_first_stream_that_carries(rest, key);
        if carries(ready[0], key) {
            assert(ready[0] == first_carrying(ready, key)->Some_0);
        } else {
            match first_carrying(ready, key) {
                Some(x) => {
                    let i = choose|i: int|
                        0 <= i < rest.len() && (#[trigger] rest[i]) == x && carries(x, key)
                            && forall|j: int| 0 <= j < i ==> !carries(#[trigger] rest[j], key);
                    assert(ready[i + 1] == x);
                    assert forall|j: int| 0 <= j < i + 1 implies !carries(
                        #[trigger] ready[j],
                        key,
                    ) by {
                        if j > 0 {
                            assert(rest[j - 1] == ready[j]);
                        }
                    }
                },
                None => {
                    assert forall|i: int| 0 <= i < ready.len() implies !carries(
                        #[trigger] ready[i],
                        key,
                    ) by {
                        if i > 0 {
                            assert(rest[i - 1] == ready[i]);
                        }
                    }
                },
            }
        }
    }
}

proof fn lemma_planning_each_frame(s: RuntimeView, ids: Seq<Uuid>, range: MarketDataRange)
    ensures
        s.planning_each(ids, range) == (RuntimeView {
            consumers: s.planning_each(ids, range).consumers,
            ..s
        }),
    decreases ids.len(),
{
    if ids.len() > 0 {
        lemma_planning_each_frame(s, ids.drop_last(), range);
    }
}

proof fn lemma_planning_each(
    s: RuntimeView,
    ids: Seq<Uuid>,
    range: MarketDataRange,
    c: ConsumerView,
)
    requires
        ids.no_duplicates(),
        consumer_at(s.consumers, c.req_id) == Some(c),
    ensures
        consumer_at(s.planning_each(ids, range).consumers, c.req_id) == Some(
            if ids.contains(c.req_id) {
                c.with_planned(range)
            } else {
                c
            },
        ),
    decreases ids.len(),
{
    if ids.len() > 0 {
        let few = ids.drop_last();
        let id = ids.last();
        assert(ids[ids.len() - 1] == id);
        assert(few.no_duplicates());
        lemma_planning_each(s, few, range, c);
        let front = s.planning_each(few, range);
        lemma_place_bounds(front.consumers, id);
        if id == c.req_id {
            assert(!few.contains(id)) by {
                if few.contains(id) {
                    let k = choose|k: int| 0 <= k < few.len() && few[k] == id;
                    assert(ids[k] == ids[ids.len() - 1]);
                }
            }
            lemma_replaced(front.consumers, id, c.with_planned(range));
        } else {
            if let Some(x) = consumer_at(front.consumers, id) {
                lemma_replaced_other(front.consumers, id, x.with_planned(range), c.req_id);
            }
            if ids.contains(c.req_id) {
                let k = choose|k: int| 0 <= k < ids.len() && ids[k] == c.req_id;
                assert(few[k] == c.req_id);
            }
            if few.contains(c.req_id) {
                let k = choose|k: int| 0 <= k < few.len() && few[k] == c.req_id;
                assert(ids[k] == c.req_id);
            }
        }
    }
}

proof fn lemma_ids_of_requests(cs: Seq<ConsumerView>, p: spec_fn(ConsumerView) -> bool)
    requires
        requests_distinct(cs),
    ensures
        req_ids(cs.filter(p)).no_duplicates(),
        forall|c: ConsumerView| #[trigger]
            cs.contains(c) ==> (p(c) <==> req_ids(cs.filter(p)).contains(c.req_id)),
{
    let kept = cs.filter(p);
    let ids = req_ids(kept);
    crate::market_data::runtime::delivery_laws::lemma_distinct_requests_filter(cs, p);
    assert forall|i: int, j: int| 0 <= i < ids.len() && 0 <= j < ids.len() && i != j implies ids[i]
        != ids[j] by {
        if i < j {
            assert(kept[i].req_id != kept[j].req_id);
        } else {
            assert(kept[j].req_id != kept[i].req_id);
        }
    }
    assert forall|c: ConsumerView| #[trigger] cs.contains(c) implies (p(c) <==> ids.contains(
        c.req_id,
    )) by {
        let a = choose|a: int| 0 <= a < cs.len() && cs[a] == c;
        if p(c) {
            cs.lemma_filter_contains(p, a);
            let k = choose|k: int| 0 <= k < kept.len() && kept[k] == c;
            assert(ids[k] == c.req_id);
        }
        if ids.contains(c.req_id) {
            let k = choose|k: int| 0 <= k < ids.len() && ids[k] == c.req_id;
            cs.lemma_filter_pred(p, k);
            assert(cs.contains(kept[k]));
            lemma_found(cs, kept[k]);
            lemma_found(cs, c);
        }
    }
}

/// A fetch asks for the range of its job and the kind of its stream.
pub open spec fn asks_for(fetch: FetchRange, key: KeyView, range: MarketDataRange) -> bool {
    match fetch {
        FetchRange::Kline(a, b) => key.kind is Klines && a == range.from && b == range.to,
        FetchRange::Trades(a, b) => key.kind is Trades && a == range.from && b == range.to,
        FetchRange::OpenInterest(a, b) => key.kind is OpenInterest && a == range.from && b
            == range.to,
        _ => false,
    }
}

/// The request to a worker for a job asks for the range of the job, and the job then serves exactly
/// the requests for a part of that range that are not done with; each of them has the range
/// planned.
pub proof fn law_job_is_sent_out(
    s: RuntimeView,
    job_id: FetchJobId,
    key: KeyView,
    range: MarketDataRange,
    ready: Seq<StreamView>,
    req_id: Uuid,
    c: ConsumerView,
)
    requires
        requests_distinct(s.consumers),
        s.consumers.contains(c),
    ensures
        ({
            let (after, spec) = s.launching(job_id, key, range, ready, req_id);
            let served = c.key == key && c.range.from.0 < range.to.0 && range.from.0 < c.range.to.0
                && !c.completed;
            &&& spec.req_id == req_id
            &&& asks_for(spec.fetch, key, range)
            &&& first_carrying(ready, key) is Some ==> spec.stream == first_carrying(ready, key)
            &&& lookup(after.worker_jobs, req_id) == Some(job_id)
            &&& lookup(after.job_workers, job_id) == Some(req_id)
            &&& lookup(after.job_consumers, job_id) matches Some(ids) && (ids.contains(c.req_id)
                <==> served)
            &&& consumer_at(after.consumers, c.req_id) == Some(
                if served {
                    c.with_planned(range)
                } else {
                    c
                },
            )
            &&& after.coordinator == s.coordinator
        }),
{
    let p = still_wanting(key, range);
    let ids = req_ids(s.consumers.filter(p));
    lemma_ids_of_requests(s.consumers, p);
    lemma_put_lookup(s.worker_jobs, req_id, job_id);
    lemma_put_lookup(s.job_workers, job_id, req_id);
    lemma_put_lookup(s.job_consumers, job_id, ids);
    let (after, spec) = s.launching(job_id, key, range, ready, req_id);
    let linked = RuntimeView {
        worker_jobs: crate::id_table::put(s.worker_jobs, req_id, job_id),
        job_workers: crate::id_table::put(s.job_workers, job_id, req_id),
        job_consumers: crate::id_table::put(s.job_consumers, job_id, ids),
        ..s
    };
    lemma_planning_each_frame(linked, ids, range);
    lemma_found(s.consumers, c);
    lemma_planning_each(linked, ids, range, c);
    assert(p(c) <==> ids.contains(c.req_id));
}

/// Each job gets exactly one request to a worker, in their order.
pub proof fn law_each_job_is_sent_out(
    s: RuntimeView,
    jobs: Seq<FetchJobId>,
    ready: Seq<StreamView>,
    ids: Seq<Uuid>,
)
    requires
        ids.len() == jobs.len(),
        forall|i: int|
            0 <= i < jobs.len() ==> lookup(s.coordinator.jobs, #[trigger] jobs[i]) is Some,
    ensures
        s.launching_each(jobs, ready, ids).specs.len() == jobs.len(),
        s.launching_each(jobs, ready, ids).state.coordinator == s.coordinator,
        forall|i: int|
            0 <= i < jobs.len() ==> (#[trigger] s.launching_each(
                jobs,
                ready,
                ids,
            ).specs[i]).req_id == ids[i] && asks_for(
                s.launching_each(jobs, ready, ids).specs[i].fetch,
                lookup(s.coordinator.jobs, jobs[i])->Some_0.key,
                lookup(s.coordinator.jobs, jobs[i])->Some_0.range,
            ),
    decreases jobs.len(),
{
    if jobs.len() > 0 {
        let few = jobs.drop_last();
        assert forall|i: int| 0 <= i < few.len() implies lookup(
            s.coordinator.jobs,
            #[trigger] few[i],
        ) is Some by {
            assert(few[i] == jobs[i]);
        }
        law_each_job_is_sent_out(s, few, ready, ids.drop_last());
        let front = s.launching_each(few, ready, ids.drop_last());
        let last = jobs[jobs.len() - 1];
        let j = lookup(s.coordinator.jobs, last)->Some_0;
        let own = req_ids(front.state.consumers.filter(still_wanting(j.key, j.range)));
        let linked = RuntimeView {
            worker_jobs: crate::id_table::put(front.state.worker_jobs, ids.last(), last),
            job_workers: crate::id_table::put(front.state.job_workers, last, ids.last()),
            job_consumers: crate::id_table::put(front.state.job_consumers, last, own),
            ..front.state
        };
        lemma_planning_each_frame(linked, own, j.range);
        let all = s.launching_each(jobs, ready, ids);
        assert forall|i: int| 0 <= i < jobs.len() implies (#[trigger] all.specs[i]).req_id == ids[i]
            && asks_for(
            all.specs[i].fetch,
            lookup(s.coordinator.jobs, jobs[i])->Some_0.key,
            lookup(s.coordinator.jobs, jobs[i])->Some_0.range,
        ) by {
            if i < few.len() {
                assert(all.specs[i] == front.specs[i]);
                assert(few[i] == jobs[i]);
                assert(ids.drop_last()[i] == ids[i]);
            }
        }
    }
}

/// The records of the cache that a segment is served with.
pub open spec fn served_records(seg: CachedView, read: ReadView) -> nat {
    match seg.key.kind {
        MarketDataKind::Klines { timeframe } => read.klines.filter(klines_in(seg.range)).len(),
        MarketDataKind::Trades => read.trades.len(),
        MarketDataKind::OpenInterest { timeframe } => read.open_interest.filter(
            readings_in(seg.range),
        ).len(),
    }
}

/// The records of the cache fit into a segment: there are some, and no more candles than the
/// segment has room for, give or take one at each end.
pub open spec fn cache_is_right(seg: CachedView, read: ReadView) -> bool {
    &&& served_records(seg, read) > 0
    &&& seg.key.kind matches MarketDataKind::Klines { timeframe } ==> served_records(seg, read)
        <= (seg.range.to.0 - seg.range.from.0) / (timeframe.millis() as int) + 2
}

/// A cached segment is served with what the cache holds of it: the records go into the store and on
/// to the charts, all of them. Candles and readings outside of the segment do not.
pub proof fn law_cached_segments_are_served(
    s: RuntimeView,
    seg: CachedView,
    read: ReadView,
    ready: Seq<StreamView>,
    req_id: Uuid,
)
    requires
        seg.range.from.0 < seg.range.to.0,
        cache_is_right(seg, read),
    ensures
        ({
            let out = s.serving_segment(seg, read, ready, req_id);
            &&& out.refetches.len() == 0
            &&& out.state.consumers == s.consumers
            &&& out.state.coordinator.facts == s.coordinator.facts
            &&& out.state.coordinator.jobs == s.coordinator.jobs
            &&& out.state.coordinator.cached_served == clamp_usize(
                (s.coordinator.cached_served + served_records(seg, read)) as nat,
            )
            &&& match seg.key.kind {
                MarketDataKind::Klines { timeframe } => out.dispatches == seq![
                    DispatchView::Klines {
                        key: seg.key,
                        range: seg.range,
                        timeframe,
                        rows: read.klines.filter(klines_in(seg.range)),
                    },
                ] && out.state.coordinator.store == s.coordinator.store.with_klines(
                    seg.key,
                    read.klines.filter(klines_in(seg.range)),
                ),
                MarketDataKind::Trades => out.dispatches == seq![
                    DispatchView::Trades { key: seg.key, range: seg.range, rows: read.trades },
                ] && out.state.coordinator.store == s.coordinator.store.with_trades(
                    seg.key,
                    read.trades,
                ),
                MarketDataKind::OpenInterest { timeframe } => out.dispatches == seq![
                    DispatchView::OpenInterest {
                        key: seg.key,
                        range: seg.range,
                        timeframe,
                        rows: read.open_interest.filter(readings_in(seg.range)),
                    },
                ] && out.state.coordinator.store == s.coordinator.store.with_open_interest(
                    seg.key,
                    read.open_interest.filter(readings_in(seg.range)),
                ),
            }
        }),
{
    lemma_within(read.trades, read.klines, read.open_interest, seg.range);
}

/// Where the cache holds nothing of a segment, or too much, the segment no longer counts as
/// covered. It is fetched anew, as a whole, but for less than a second of trades, which count as
/// empty.
pub proof fn law_wrong_cache_is_fetched_anew(
    s: RuntimeView,
    seg: CachedView,
    read: ReadView,
    ready: Seq<StreamView>,
    req_id: Uuid,
)
    requires
        seg.range.from.0 < seg.range.to.0,
        tidy(rows(s.coordinator.facts, seg.key)),
        !cache_is_right(seg, read),
    ensures
        ({
            let out = s.serving_segment(seg, read, ready, req_id);
            &&& out.dispatches.len() == 0
            &&& out.state.consumers == s.consumers
            &&& out.state.coordinator.store == s.coordinator.store
            &&& !covered_at(out.state.coordinator.facts, seg.key, seg.range)
            &&& if seg.key.kind is Trades && seg.range.to.0 - seg.range.from.0 < 1_000 {
                out.refetches.len() == 0 && exists|e: EntryView| #[trigger]
                    rows(out.state.coordinator.facts, seg.key).contains(e) && e.status is Empty
                        && e.range == seg.range
            } else {
                &&& out.refetches.len() == 1
                &&& out.refetches[0].req_id == req_id
                &&& asks_for(out.refetches[0].fetch, seg.key, seg.range)
                &&& first_carrying(ready, seg.key) is Some ==> out.refetches[0].stream
                    == first_carrying(ready, seg.key)
                &&& exists|e: EntryView| #[trigger]
                    rows(out.state.coordinator.facts, seg.key).contains(e) && e.status is Stale
                        && e.range == seg.range
            }
        }),
{
    lemma_within(read.trades, read.klines, read.open_interest, seg.range);
    let out = s.serving_segment(seg, read, ready, req_id);
    let reason = if seg.key.kind is Klines && served_records(seg, read) > 0 {
        "corrupt_cache"@
    } else {
        "cache_desync"@
    };
    assert(out == s.refetching(seg, reason, ready, req_id));
    let e = stale_entry(seg.range, reason);
    let facts = marked(s.coordinator.facts, seg.key, e);
    law_incomplete_is_missing(s.coordinator.facts, seg.key, e);
    law_other_marks_add_only_themselves(rows(s.coordinator.facts, seg.key), e, e);
    law_marking_keeps_tidy(rows(s.coordinator.facts, seg.key), e);
    let f = empty_entry(seg.range);
    law_incomplete_is_missing(facts, seg.key, f);
    law_other_marks_add_only_themselves(rows(facts, seg.key), f, f);
    assert(rows(facts, seg.key).contains(e));
    assert(rows(marked(facts, seg.key, f), seg.key).contains(f));
}

/// Each cached segment is served, whatever becomes of the others: what it hands on to the charts or
/// asks for anew is part of the whole.
pub proof fn law_each_cached_segment_is_served(
    s: RuntimeView,
    segs: Seq<CachedView>,
    reads: Seq<ReadView>,
    ready: Seq<StreamView>,
    ids: Seq<Uuid>,
    k: int,
)
    requires
        segs.len() == reads.len(),
        segs.len() == ids.len(),
        0 <= k < segs.len(),
        segs[k].range.from.0 < segs[k].range.to.0,
        cache_is_right(segs[k], reads[k]),
    ensures
        segs[k].key.kind is Trades ==> s.serving(segs, reads, ready, ids).dispatches.contains(
            DispatchView::Trades {
                key: segs[k].key,
                range: segs[k].range,
                rows: reads[k].trades,
            },
        ),
        segs[k].key.kind matches MarketDataKind::Klines { timeframe } ==> s.serving(
            segs,
            reads,
            ready,
            ids,
        ).dispatches.contains(
            DispatchView::Klines {
                key: segs[k].key,
                range: segs[k].range,
                timeframe,
                rows: reads[k].klines.filter(klines_in(segs[k].range)),
            },
        ),
        segs[k].key.kind matches MarketDataKind::OpenInterest { timeframe } ==> s.serving(
            segs,
            reads,
            ready,
            ids,
        ).dispatches.contains(
            DispatchView::OpenInterest {
                key: segs[k].key,
                range: segs[k].range,
                timeframe,
                rows: reads[k].open_interest.filter(readings_in(segs[k].range)),
            },
        ),
{
    lemma_served(s, segs, reads, ready, ids, k);
}

proof fn lemma_served(
    s: RuntimeView,
    segs: Seq<CachedView>,
    reads: Seq<ReadView>,
    ready: Seq<StreamView>,
    ids: Seq<Uuid>,
    k: int,
)
    requires
        segs.len() <= reads.len(),
        segs.len() == ids.len(),
        0 <= k < segs.len(),
        segs[k].range.from.0 < segs[k].range.to.0,
        cache_is_right(segs[k], reads[k]),
    ensures
        s.serving(segs, reads, ready, ids).dispatches.contains(
            match segs[k].key.kind {
                MarketDataKind::Trades => DispatchView::Trades {
                    key: segs[k].key,
                    range: segs[k].range,
                    rows: reads[k].trades,
                },
                MarketDataKind::Klines { timeframe } => DispatchView::Klines {
                    key: segs[k].key,
                    range: segs[k].range,
                    timeframe,
                    rows: reads[k].klines.filter(klines_in(segs[k].range)),
                },
                MarketDataKind::OpenInterest { timeframe } => DispatchView::OpenInterest {
                    key: segs[k].key,
                    range: segs[k].range,
                    timeframe,
                    rows: reads[k].open_interest.filter(readings_in(segs[k].range)),
                },
            },
        ),
    decreases segs.len(),
{
    let few = segs.drop_last();
    let n = segs.len() - 1;
    let front = s.serving(few, reads, ready, ids.drop_last());
    let next = front.state.serving_segment(segs.last(), reads[n], ready, ids.last());
    let all = s.serving(segs, reads, ready, ids);
    assert(all.dispatches == front.dispatches + next.dispatches);
    if k < n {
        assert(few[k] == segs[k]);
        lemma_served(s, few, reads, ready, ids.drop_last(), k);
        let d = match segs[k].key.kind {
            MarketDataKind::Trades => DispatchView::Trades {
                key: segs[k].key,
                range: segs[k].range,
                rows: reads[k].trades,
            },
            MarketDataKind::Klines { timeframe } => DispatchView::Klines {
                key: segs[k].key,
                range: segs[k].range,
                timeframe,
                rows: reads[k].klines.filter(klines_in(segs[k].range)),
            },
            MarketDataKind::OpenInterest { timeframe } => DispatchView::OpenInterest {
                key: segs[k].key,
                range: segs[k].range,
                timeframe,
                rows: reads[k].open_interest.filter(readings_in(segs[k].range)),
            },
        };
        let i = choose|i: int| 0 <= i < front.dispatches.len() && front.dispatches[i] == d;
        assert(all.dispatches[i] == d);
    } else {
        law_cached_segments_are_served(front.state, segs[k], reads[k], ready, ids.last());
        assert(all.dispatches[front.dispatches.len() as int] == next.dispatches[0]);
    }
}

/// A cached segment is planned for each request for a part of it, and for no other one. Less than a
/// second is left out where any such request draws single trades.
pub proof fn law_cached_segments_are_planned(s: RuntimeView, seg: CachedView, c: ConsumerView)
    requires
        requests_distinct(s.consumers),
        s.consumers.contains(c),
    ensures
        ({
            let after = s.planning_cached(seg);
            let asked = c.key == seg.key && c.range.from.0 < seg.range.to.0 && seg.range.from.0
                < c.range.to.0;
            &&& asked && seg.range.to.0 - seg.range.from.0 >= 1_000 ==> consumer_at(
                after.consumers,
                c.req_id,
            ) == Some(c.with_planned(seg.range))
            &&& asked && draws_trades(c) && seg.range.to.0 - seg.range.from.0 < 1_000
                && seg.range.from.0 <= seg.range.to.0 ==> after == s
            &&& !asked ==> consumer_at(after.consumers, c.req_id) == Some(c)
            &&& after.coordinator == s.coordinator
        }),
{
    let p = wanting(seg.key, seg.range);
    let ids = req_ids(s.consumers.filter(p));
    lemma_found(s.consumers, c);
    lemma_ids_of_requests(s.consumers, p);
    lemma_planning_each(s, ids, seg.range, c);
    lemma_planning_each_frame(s, ids, seg.range);
    assert(p(c) <==> ids.contains(c.req_id));
    let q = wanting_trades(seg.key, seg.range);
    if q(c) {
        let k = choose|k: int| 0 <= k < s.consumers.len() && s.consumers[k] == c;
        s.consumers.lemma_filter_contains(q, k);
    }
}

proof fn lemma_started(c: CoordinatorView, ids: Seq<FetchJobId>, x: FetchJobId, j: JobView)
    requires
        ids_distinct(c.jobs),
        lookup(c.jobs, x) == Some(j),
    ensures
        ids_distinct(with_each_started(c, ids).jobs),
        lookup(with_each_started(c, ids).jobs, x) == Some(
            if ids.contains(x) {
                JobView { status: JobStatusView::InProgress, ..j }
            } else {
                j
            },
        ),
    decreases ids.len(),
{
    if ids.len() > 0 {
        let few = ids.drop_last();
        let id = ids.last();
        assert(ids[ids.len() - 1] == id);
        lemma_started(c, few, x, j);
        let front = with_each_started(c, few);
        if ids.contains(x) && id != x {
            let k = choose|k: int| 0 <= k < ids.len() && ids[k] == x;
            assert(few[k] == x);
        }
        if few.contains(x) {
            let k = choose|k: int| 0 <= k < few.len() && few[k] == x;
            assert(ids[k] == x);
        }
        if let Some(y) = lookup(front.jobs, id) {
            let z = JobView { status: JobStatusView::InProgress, ..y };
            let far = Uuid(
                if id.0 == 0 {
                    1
                } else {
                    0
                },
            );
            lemma_put_other(front.jobs, id, z, far);
            lemma_put_lookup(front.jobs, id, z);
            if id != x {
                lemma_put_other(front.jobs, id, z, x);
            }
        }
    }
}

/// A pane that asks gets one request to a worker for each job that was made for it, which asks for
/// the range of the job, then those that replace what the cache should have held, and all that the
/// cache did hold. Each job then counts as being fetched.
pub proof fn law_routes_ask_for_each_job(
    before: RuntimeView,
    asker: AskerView,
    cached: Seq<CachedView>,
    reads: Seq<ReadView>,
    served: ServedView,
    jobs: Seq<FetchJobId>,
    executed: CoordinatorView,
    launched: LaunchedView,
    after: RuntimeView,
    outcome: RouteView,
    i: int,
)
    requires
        routed(before, asker, cached, reads, served, jobs, executed, launched, after, outcome),
        ids_distinct(executed.jobs),
        forall|k: int| 0 <= k < jobs.len() ==> lookup(executed.jobs, #[trigger] jobs[k]) is Some,
        0 <= i < jobs.len(),
    ensures
        outcome.asker == asker,
        outcome.specs.len() == jobs.len() + served.refetches.len(),
        asks_for(
            outcome.specs[i].fetch,
            lookup(executed.jobs, jobs[i])->Some_0.key,
            lookup(executed.jobs, jobs[i])->Some_0.range,
        ),
        outcome.specs.skip(jobs.len() as int) == served.refetches,
        outcome.dispatches == served.dispatches,
        lookup(launched.state.coordinator.jobs, jobs[i]) matches Some(j)
            && j.status is InProgress,
{
    let ids = choose|ids: Seq<Uuid>|
        ids.len() == jobs.len() && launched == #[trigger] (RuntimeView {
            coordinator: with_each_started(executed, jobs),
            ..served.state
        }).launching_each(jobs, asker.ready, ids);
    let start = RuntimeView {
        coordinator: with_each_started(executed, jobs),
        ..served.state
    };
    assert forall|k: int| 0 <= k < jobs.len() implies lookup(
        start.coordinator.jobs,
        #[trigger] jobs[k],
    ) is Some by {
        lemma_started(executed, jobs, jobs[k], lookup(executed.jobs, jobs[k])->Some_0);
    }
    lemma_started(executed, jobs, jobs[i], lookup(executed.jobs, jobs[i])->Some_0);
    law_each_job_is_sent_out(start, jobs, asker.ready, ids);
    assert(jobs.contains(jobs[i]));
    assert(outcome.specs[i] == launched.specs[i]);
    assert(outcome.specs.skip(jobs.len() as int) =~= served.refetches);
}

proof fn lemma_with_specs_grows(s: RuntimeView, asker: AskerView, specs: Seq<SpecView>)
    ensures
        s.with_specs(asker, specs).consumers.len() >= s.consumers.len(),
        s.with_specs(asker, specs).consumers.take(s.consumers.len() as int) == s.consumers,
    decreases specs.len(),
{
    if specs.len() > 0 {
        lemma_with_specs_grows(s, asker, specs.drop_last());
        let front = s.with_specs(asker, specs.drop_last());
        let all = s.with_specs(asker, specs);
        assert(all.consumers.take(s.consumers.len() as int) =~= front.consumers.take(
            s.consumers.len() as int,
        ));
    } else {
        assert(s.consumers.take(s.consumers.len() as int) =~= s.consumers);
    }
}

/// Of several requests of a pane each one waits that can be met, and those that waited before wait
/// on.
pub proof fn law_each_taken_request_waits(
    s: RuntimeView,
    asker: AskerView,
    specs: Seq<SpecView>,
    i: int,
    tf: Option<Timeframe>,
)
    requires
        0 <= i < specs.len(),
        if specs[i].stream is Some && specs[i].stream->Some_0 is Kline {
            tf == Some(specs[i].stream->Some_0->Kline_timeframe)
        } else {
            width_of_first(asker.ready, tf)
        },
        key_fetched(specs[i].fetch, instrument(asker), tf) is Some,
        range_fetched(specs[i].fetch) is Some,
    ensures
        s.with_specs(asker, specs).consumers.take(s.consumers.len() as int) == s.consumers,
        exists|k: int|
            s.consumers.len() <= k < s.with_specs(asker, specs).consumers.len() && (
            #[trigger] s.with_specs(asker, specs).consumers[k]).req_id == specs[i].req_id
                && s.with_specs(asker, specs).consumers[k].fetch == specs[i].fetch
                && s.with_specs(asker, specs).consumers[k].pane_id == asker.pane_id && just_came(
                s.with_specs(asker, specs).consumers[k],
            ),
    decreases specs.len(),
{
    lemma_with_specs_grows(s, asker, specs);
    let few = specs.drop_last();
    lemma_with_specs_grows(s, asker, few);
    let front = s.with_specs(asker, few);
    let all = s.with_specs(asker, specs);
    if i < few.len() {
        assert(few[i] == specs[i]);
        law_each_taken_request_waits(s, asker, few, i, tf);
        let k = choose|k: int|
            s.consumers.len() <= k < front.consumers.len() && (#[trigger] front.consumers[k]).req_id
                == specs[i].req_id && front.consumers[k].fetch == specs[i].fetch
                && front.consumers[k].pane_id == asker.pane_id && just_came(front.consumers[k]);
        assert(all.consumers[k] == front.consumers[k]);
    } else {
        law_taken_requests_wait(front, asker, specs[i], tf);
        let n = all.consumers.len() - 1;
        assert(all.consumers[n] == all.consumers.last());
    }
}

/// A runtime to which nothing has happened waits for nothing, fetches nothing and hands live trades
/// on to the cache by the hundred.
pub proof fn law_nothing_waits_at_first(c: CoordinatorView, now_ms: u64)
    ensures
        ({
            let s = RuntimeView::fresh(c, now_ms);
            &&& s.coordinator == c
            &&& s.consumers.len() == 0
            &&& s.worker_jobs.len() == 0 && s.job_workers.len() == 0 && s.job_consumers.len() == 0
            &&& s.commands.len() == 0
            &&& s.live.persist && s.live.batch_size == 100
            &&& forall|key: KeyView| !(#[trigger] s.live.streams.contains_key(key))
            &&& forall|key: KeyView| !(#[trigger] s.live.pending.contains_key(key))
        }),
{
}

/// A request is dropped exactly when it is done with and nothing of it is to come.
pub proof fn law_only_finished_requests_go(s: RuntimeView, c: ConsumerView)
    ensures
        s.tidied().consumers.contains(c) <==> s.consumers.contains(c) && (!c.completed
            || c.open_gaps().len() > 0),
        s.tidied() == (RuntimeView { consumers: s.tidied().consumers, ..s }),
{
    let p = unfinished();
    let out = s.tidied().consumers;
    if out.contains(c) {
        let i = choose|i: int| 0 <= i < out.len() && out[i] == c;
        s.consumers.lemma_filter_pred(p, i);
        s.consumers.lemma_filter_contains_rev(p, c);
    }
    if s.consumers.contains(c) && p(c) {
        let i = choose|i: int| 0 <= i < s.consumers.len() && s.consumers[i] == c;
        s.consumers.lemma_filter_contains(p, i);
    }
}

/// Where a range ended, only requests for a part of it are dropped, and of these exactly those that
/// are done with and of which nothing is to come.
pub proof fn law_only_finished_requests_of_a_range_go(
    s: RuntimeView,
    key: KeyView,
    range: MarketDataRange,
    c: ConsumerView,
)
    ensures
        s.tidied_in(key, range).consumers.contains(c) <==> s.consumers.contains(c) && !(c.completed
            && c.open_gaps().len() == 0 && c.key == key && c.range.from.0 < range.to.0
            && range.from.0 < c.range.to.0),
{
    let p = unfinished_in(key, range);
    let out = s.tidied_in(key, range).consumers;
    if out.contains(c) {
        let i = choose|i: int| 0 <= i < out.len() && out[i] == c;
        s.consumers.lemma_filter_pred(p, i);
        s.consumers.lemma_filter_contains_rev(p, c);
    }
    if s.consumers.contains(c) && p(c) {
        let i = choose|i: int| 0 <= i < s.consumers.len() && s.consumers[i] == c;
        s.consumers.lemma_filter_contains(p, i);
    }
}

/// Needs of a pane were taken exactly when more requests wait than before, and those that waited
/// before wait on.
pub proof fn law_taken_needs_add_requests(
    s: RuntimeView,
    asker: AskerView,
    needs: Seq<ChartDataNeed>,
    ids: Seq<Uuid>,
)
    ensures
        s.takes_any_need(asker, needs, ids) <==> s.with_needs(asker, needs, ids).consumers.len()
            > s.consumers.len(),
        s.with_needs(asker, needs, ids).consumers.len() >= s.consumers.len(),
        s.with_needs(asker, needs, ids).consumers.take(s.consumers.len() as int) == s.consumers,
    decreases needs.len(),
{
    let n = s.consumers.len() as int;
    let all = s.with_needs(asker, needs, ids);
    if needs.len() > 0 {
        law_taken_needs_add_requests(s, asker, needs.drop_last(), ids.drop_last());
        let front = s.with_needs(asker, needs.drop_last(), ids.drop_last());
        assert(all.consumers.take(n) =~= front.consumers.take(n));
    } else {
        assert(all.consumers.take(n) =~= s.consumers);
    }
}

/// All that is missing of a request and has neither arrived nor failed is to come, and nothing
/// else: where short gaps matter, something is to come exactly when some instant of its range did
/// neither.
pub proof fn law_what_is_to_come(c: ConsumerView)
    requires
        c.range.from.0 < c.range.to.0,
        !draws_trades(c),
    ensures
        c.open_gaps().len() == 0 <==> forall|t: int|
            c.range.from.0 <= t < c.range.to.0 ==> #[trigger] lies_in_some(c.completed_segments, t)
                || lies_in_some(c.failed_segments, t),
{
    let all = c.completed_segments + c.failed_segments;
    law_nothing_missing_iff_covered(c.range, all);
    assert forall|t: int| #[trigger] lies_in_some(c.completed_segments, t) || lies_in_some(
        c.failed_segments,
        t,
    ) <==> any_covers(all, t) by {
        lemma_lies_in_some(c.completed_segments, t);
        lemma_lies_in_some(c.failed_segments, t);
        if any_covers(c.completed_segments, t) {
            let i = choose|i: int|
                0 <= i < c.completed_segments.len() && (#[trigger] c.completed_segments[i]).covers(
                    t,
                );
            assert(all[i].covers(t));
        }
        if any_covers(c.failed_segments, t) {
            let i = choose|i: int|
                0 <= i < c.failed_segments.len() && (#[trigger] c.failed_segments[i]).covers(t);
            assert(all[c.completed_segments.len() + i].covers(t));
        }
        if any_covers(all, t) {
            let i = choose|i: int| 0 <= i < all.len() && (#[trigger] all[i]).covers(t);
            if i < c.completed_segments.len() {
                assert(c.completed_segments[i].covers(t));
            } else {
                assert(c.failed_segments[i - c.completed_segments.len()].covers(t));
            }
        }
    }
    if forall|t: int|
        c.range.from.0 <= t < c.range.to.0 ==> #[trigger] lies_in_some(c.completed_segments, t)
            || lies_in_some(c.failed_segments, t) {
        assert forall|t: int| c.range.covers(t) implies #[trigger] any_covers(all, t) by {
            assert(lies_in_some(c.completed_segments, t) || lies_in_some(c.failed_segments, t));
        }
    }
    if c.open_gaps().len() == 0 {
        assert forall|t: int| c.range.from.0 <= t < c.range.to.0 implies #[trigger] lies_in_some(
            c.completed_segments,
            t,
        ) || lies_in_some(c.failed_segments, t) by {
            assert(c.range.covers(t));
            assert(any_covers(all, t));
        }
    }
}

/// Once requests are linked with active jobs, each job that waits or fetches serves each request
/// for a part of its range that is not done with.
pub proof fn law_requests_join_active_jobs(s: RuntimeView, row: (FetchJobId, JobView), i: int)
    requires
        ids_distinct(s.job_consumers),
        s.coordinator.jobs.contains(row),
        row.1.status is Pending || row.1.status is InProgress,
        0 <= i < s.consumers.len(),
        s.consumers[i].key == row.1.key,
        s.consumers[i].range.from.0 < row.1.range.to.0,
        row.1.range.from.0 < s.consumers[i].range.to.0,
        !s.consumers[i].completed,
    ensures
        lookup(s.attaching().0.job_consumers, row.1.id) matches Some(ids) && ids.contains(
            s.consumers[i].req_id,
        ),
{
    let jobs = s.coordinator.jobs;
    let k = choose|k: int| 0 <= k < jobs.len() && jobs[k] == row;
    jobs.lemma_filter_contains(is_active(), k);
    let act = jobs.filter(is_active());
    let a = choose|a: int| 0 <= a < act.len() && act[a] == row;
    assert(active_jobs_of(jobs)[a] == row.1);
    law_active_job_serves_all(s, a, i);
}

proof fn lemma_stream_of_first(
    cs: Seq<ConsumerView>,
    key: KeyView,
    range: MarketDataRange,
    i: int,
)
    requires
        0 <= i < cs.len(),
        cs[i].wants(key, range),
        forall|k: int| 0 <= k < i ==> !(#[trigger] cs[k]).wants(key, range),
    ensures
        stream_of_first(cs, wanting(key, range)) == cs[i].stream,
    decreases cs.len(),
{
    if i > 0 {
        let rest = cs.skip(1);
        assert(!cs[0].wants(key, range));
        assert(rest[i - 1] == cs[i]);
        assert forall|k: int| 0 <= k < i - 1 implies !(#[trigger] rest[k]).wants(key, range) by {
            assert(rest[k] == cs[k + 1]);
        }
        lemma_stream_of_first(rest, key, range, i - 1);
    }
}

/// Where no stream of a pane carries the data, a range is fetched from the stream of the first
/// request for a part of it.
pub proof fn law_requests_lend_their_stream(
    s: RuntimeView,
    key: KeyView,
    range: MarketDataRange,
    ready: Seq<StreamView>,
    i: int,
)
    requires
        forall|k: int| 0 <= k < ready.len() ==> !carries(#[trigger] ready[k], key),
        0 <= i < s.consumers.len(),
        s.consumers[i].key == key,
        s.consumers[i].range.from.0 < range.to.0,
        range.from.0 < s.consumers[i].range.to.0,
        forall|k: int|
            0 <= k < i ==> !((#[trigger] s.consumers[k]).key == key && s.consumers[k].range.from.0
                < range.to.0 && range.from.0 < s.consumers[k].range.to.0),
    ensures
        s.source_of(key, range, ready) == s.consumers[i].stream,
{
    law_first_stream_that_carries(ready, key);
    if let Some(x) = first_carrying(ready, key) {
        let k = choose|k: int| 0 <= k < ready.len() && (#[trigger] ready[k]) == x && carries(x, key);
        assert(!carries(ready[k], key));
    }
    assert forall|k: int| 0 <= k < i implies !(#[trigger] s.consumers[k]).wants(key, range) by {
        assert(!(s.consumers[k].key == key && s.consumers[k].range.from.0 < range.to.0
            && range.from.0 < s.consumers[k].range.to.0));
    }
    lemma_stream_of_first(s.consumers, key, range, i);
}

/// A request that a job comes to serve has the range of the job planned; one that it serves already
/// is left as it is.
pub proof fn law_joining_plans_the_range(s: RuntimeView, j: JobView, c: ConsumerView)
    requires
        requests_distinct(s.consumers),
        s.consumers.contains(c),
    ensures
        ({
            let (after, n) = s.attaching_one(j, c.req_id);
            let known = lookup(s.job_consumers, j.id) matches Some(ids) && ids.contains(c.req_id);
            &&& known ==> after == s && n == 0
            &&& !known ==> n == 1 && consumer_at(after.consumers, c.req_id) == Some(
                c.with_planned(j.range),
            )
            &&& lookup(after.job_consumers, j.id) matches Some(ids) && ids.contains(c.req_id)
            &&& after.coordinator == s.coordinator
        }),
{
    lemma_found(s.consumers, c);
    let ids = s.served_by(j.id);
    if !ids.contains(c.req_id) {
        let more = ids.push(c.req_id);
        lemma_put_lookup(s.job_consumers, j.id, more);
        assert(more[ids.len() as int] == c.req_id);
        lemma_place_bounds(s.consumers, c.req_id);
        lemma_replaced(s.consumers, c.req_id, c.with_planned(j.range));
    }
}

/// What stays of a request while segments are planned for it: who asked for what, and each instant
/// that was planned before.
pub open spec fn planned_further(a: ConsumerView, b: ConsumerView) -> bool {
    &&& b == (ConsumerView { required_segments: b.required_segments, ..a })
    &&& forall|t: int| #[trigger]
        lies_in_some(a.required_segments, t) ==> lies_in_some(b.required_segments, t)
}

proof fn lemma_planned_segment(c: ConsumerView, range: MarketDataRange, t: int)
    requires
        range.from.0 < range.to.0,
    ensures
        lies_in_some(c.with_planned(range).required_segments, t) <==> lies_in_some(
            c.required_segments,
            t,
        ) || range.from.0 <= t < range.to.0,
{
    crate::market_data::range_laws::law_required_segment_exact(c.required_segments, range);
    lemma_lies_in_some(c.required_segments, t);
    lemma_lies_in_some(c.with_planned(range).required_segments, t);
    assert(any_covers(c.with_planned(range).required_segments, t) <==> any_covers(
        c.required_segments,
        t,
    ) || range.covers(t));
}

proof fn lemma_planning_cached_step(s: RuntimeView, seg: CachedView, c: ConsumerView)
    requires
        requests_distinct(s.consumers),
        s.consumers.contains(c),
        seg.range.from.0 < seg.range.to.0,
    ensures
        requests_distinct(s.planning_cached(seg).consumers),
        consumer_at(s.planning_cached(seg).consumers, c.req_id) matches Some(d) && planned_further(
            c,
            d,
        ) && s.planning_cached(seg).consumers.contains(d) && (c.key == seg.key && c.range.from.0
            < seg.range.to.0 && seg.range.from.0 < c.range.to.0 && seg.range.to.0
            - seg.range.from.0 >= 1_000 ==> d == c.with_planned(seg.range)),
{
    let p = wanting(seg.key, seg.range);
    let ids = req_ids(s.consumers.filter(p));
    let after = s.planning_cached(seg);
    lemma_found(s.consumers, c);
    lemma_ids_of_requests(s.consumers, p);
    lemma_planning_each(s, ids, seg.range, c);
    lemma_planning_keeps_ids(s, ids, seg.range);
    assert(p(c) <==> ids.contains(c.req_id));
    assert forall|t: int| #[trigger] lies_in_some(c.required_segments, t) implies lies_in_some(
        c.with_planned(seg.range).required_segments,
        t,
    ) by {
        lemma_planned_segment(c, seg.range, t);
    }
    lemma_place_bounds(after.consumers, c.req_id);
    let d = consumer_at(after.consumers, c.req_id)->Some_0;
    let at = crate::market_data::runtime::model::place_of(after.consumers, c.req_id);
    assert(after.consumers[at] == d);
    assert(requests_distinct(after.consumers)) by {
        assert forall|i: int, j: int| 0 <= i < j < after.consumers.len() implies (
        #[trigger] after.consumers[i]).req_id != (#[trigger] after.consumers[j]).req_id by {
            assert(s.consumers[i].req_id != s.consumers[j].req_id);
        }
    }
}

proof fn lemma_planning_keeps_ids(s: RuntimeView, ids: Seq<Uuid>, range: MarketDataRange)
    ensures
        s.planning_each(ids, range).consumers.len() == s.consumers.len(),
        forall|i: int|
            0 <= i < s.consumers.len() ==> (#[trigger] s.planning_each(
                ids,
                range,
            ).consumers[i]).req_id == s.consumers[i].req_id,
    decreases ids.len(),
{
    if ids.len() > 0 {
        lemma_planning_keeps_ids(s, ids.drop_last(), range);
        let front = s.planning_each(ids.drop_last(), range);
        lemma_place_bounds(front.consumers, ids.last());
        let after = s.planning_each(ids, range);
        assert forall|i: int| 0 <= i < s.consumers.len() implies (
        #[trigger] after.consumers[i]).req_id == s.consumers[i].req_id by {
            assert(front.consumers[i].req_id == s.consumers[i].req_id);
        }
    }
}

/// Each cached segment of at least a second is planned for each request for a part of it.
pub proof fn law_each_cached_segment_is_planned(
    s: RuntimeView,
    segs: Seq<CachedView>,
    c: ConsumerView,
    k: int,
    t: int,
)
    requires
        requests_distinct(s.consumers),
        s.consumers.contains(c),
        forall|i: int|
            0 <= i < segs.len() ==> (#[trigger] segs[i]).range.from.0 < segs[i].range.to.0,
        0 <= k < segs.len(),
        c.key == segs[k].key,
        c.range.from.0 < segs[k].range.to.0,
        segs[k].range.from.0 < c.range.to.0,
        segs[k].range.to.0 - segs[k].range.from.0 >= 1_000,
        segs[k].range.from.0 <= t < segs[k].range.to.0,
    ensures
        consumer_at(s.planning_cached_each(segs).consumers, c.req_id) matches Some(d)
            && planned_further(c, d) && lies_in_some(d.required_segments, t),
{
    lemma_planned_cached_each(s, segs, c, k, t);
}

proof fn lemma_planned_cached_each(
    s: RuntimeView,
    segs: Seq<CachedView>,
    c: ConsumerView,
    k: int,
    t: int,
)
    requires
        requests_distinct(s.consumers),
        s.consumers.contains(c),
        forall|i: int|
            0 <= i < segs.len() ==> (#[trigger] segs[i]).range.from.0 < segs[i].range.to.0,
    ensures
        requests_distinct(s.planning_cached_each(segs).consumers),
        consumer_at(s.planning_cached_each(segs).consumers, c.req_id) matches Some(d)
            && planned_further(c, d) && s.planning_cached_each(segs).consumers.contains(d) && (0 <= k
            < segs.len() && c.key == segs[k].key && c.range.from.0 < segs[k].range.to.0
            && segs[k].range.from.0 < c.range.to.0 && segs[k].range.to.0 - segs[k].range.from.0
            >= 1_000 && segs[k].range.from.0 <= t < segs[k].range.to.0 ==> lies_in_some(
            d.required_segments,
            t,
        )),
    decreases segs.len(),
{
    if segs.len() > 0 {
        let few = segs.drop_last();
        let seg = segs.last();
        assert(segs[segs.len() - 1] == seg);
        assert forall|i: int| 0 <= i < few.len() implies (#[trigger] few[i]).range.from.0
            < few[i].range.to.0 by {
            assert(few[i] == segs[i]);
        }
        lemma_planned_cached_each(s, few, c, k, t);
        let front = s.planning_cached_each(few);
        let d = consumer_at(front.consumers, c.req_id)->Some_0;
        assert(d.req_id == c.req_id);
        lemma_planning_cached_step(front, seg, d);
        let e = consumer_at(s.planning_cached_each(segs).consumers, c.req_id)->Some_0;
        assert forall|u: int| #[trigger] lies_in_some(c.required_segments, u) implies lies_in_some(
            e.required_segments,
            u,
        ) by {
            assert(lies_in_some(d.required_segments, u));
        }
        if k < few.len() && k >= 0 {
            assert(few[k] == segs[k]);
        }
        lemma_planned_segment(d, seg.range, t);
    } else {
        lemma_found(s.consumers, c);
    }
}

/// Of several needs of a pane each one waits that can be met, whether it waited before or was taken
/// now.
pub proof fn law_each_need_waits(
    s: RuntimeView,
    asker: AskerView,
    needs: Seq<ChartDataNeed>,
    ids: Seq<Uuid>,
    i: int,
    tf: Option<Timeframe>,
)
    requires
        width_of_first(asker.ready, tf),
        ids.len() == needs.len(),
        0 <= i < needs.len(),
        key_needed(needs[i], instrument(asker), tf) is Some,
        range_needed(needs[i]) is Some,
    ensures
        exists|k: int|
            0 <= k < s.with_needs(asker, needs, ids).consumers.len() && (#[trigger] s.with_needs(
                asker,
                needs,
                ids,
            ).consumers[k]).pane_id == asker.pane_id && Some(
                s.with_needs(asker, needs, ids).consumers[k].key,
            ) == key_needed(needs[i], instrument(asker), tf) && Some(
                s.with_needs(asker, needs, ids).consumers[k].range,
            ) == range_needed(needs[i]) && s.with_needs(asker, needs, ids).consumers[k].feature
                == feature_of_need(needs[i]) && !s.with_needs(asker, needs, ids).consumers[
                k
            ].completed,
    decreases needs.len(),
{
    let few = needs.drop_last();
    let fewer = ids.drop_last();
    let front = s.with_needs(asker, few, fewer);
    let all = s.with_needs(asker, needs, ids);
    let key = key_needed(needs[i], instrument(asker), tf);
    let range = range_needed(needs[i]);
    law_taken_needs_wait(front, asker, needs.last(), ids.last(), tf);
    if i < few.len() {
        assert(few[i] == needs[i]);
        law_each_need_waits(s, asker, few, fewer, i, tf);
        let k = choose|k: int|
            0 <= k < front.consumers.len() && (#[trigger] front.consumers[k]).pane_id
                == asker.pane_id && Some(front.consumers[k].key) == key && Some(
                front.consumers[k].range,
            ) == range && front.consumers[k].feature == feature_of_need(needs[i])
                && !front.consumers[k].completed;
        if all.consumers.len() > front.consumers.len() {
            assert(all.consumers.drop_last()[k] == front.consumers[k]);
        }
        assert(all.consumers[k] == front.consumers[k]);
    } else if exists|k: int|
        0 <= k < front.consumers.len() && (#[trigger] front.consumers[k]).pane_id == asker.pane_id
            && Some(front.consumers[k].key) == key && Some(front.consumers[k].range) == range
            && front.consumers[k].feature == feature_of_need(needs[i])
            && !front.consumers[k].completed {
        let k = choose|k: int|
            0 <= k < front.consumers.len() && (#[trigger] front.consumers[k]).pane_id
                == asker.pane_id && Some(front.consumers[k].key) == key && Some(
                front.consumers[k].range,
            ) == range && front.consumers[k].feature == feature_of_need(needs[i])
                && !front.consumers[k].completed;
        assert(all == front);
        assert(all.consumers[k].pane_id == asker.pane_id);
    } else {
        let n = all.consumers.len() - 1;
        assert(all.consumers[n] == all.consumers.last());
    }
}

} // verus!
