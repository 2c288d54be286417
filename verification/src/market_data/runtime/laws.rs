//! What holds of the runtime as a whole.

use vstd::prelude::*;
use crate::id_table::{holds, lemma_lookup_at, lookup, other_than, put, without};
use crate::ids::Uuid;
use crate::market_data::chart_need::ChartDataNeed;
use crate::market_data::consumer::{all_there, wide_enough, ConsumerView};
use crate::market_data::coordinator::lemma_put_lookup;
use crate::market_data::effect::EffectView;
use crate::market_data::job::{FetchJobId, JobView};
use crate::market_data::range::{any_covers, missing, with_segment, MarketDataRange};
use crate::market_data::range_laws::{
    law_missing_exact, law_missing_in_order, law_nothing_missing_iff_covered,
    lemma_settled_encloses,
};
use crate::market_data::runtime::model::{consumer_at, unfinished, RuntimeView, Tail};
use crate::market_data::runtime::route_model::{req_ids, still_wanting, AskerView};
use crate::market_data::runtime::workers::active_jobs_of;
use crate::market_data::runtime::{lemma_place_bounds, lemma_replaced};

verus! {

proof fn lemma_segment_held(s: Seq<MarketDataRange>, segment: MarketDataRange, t: int)
    requires
        segment.covers(t),
    ensures
        any_covers(with_segment(s, segment), t),
{
    let k = lemma_settled_encloses(s, segment, s.len() as int);
    assert(with_segment(s, segment)[k].covers(t));
}

/// A segment is handed over to a request once: doing it again adds nothing.
pub proof fn law_segment_is_delivered_once(s: RuntimeView, id: Uuid, segment: MarketDataRange)
    requires
        segment.valid(),
    ensures
        !s.delivering(id, segment).delivers(id, segment),
        s.delivering(id, segment).delivering(id, segment) == s.delivering(id, segment),
{
    let after = s.delivering(id, segment);
    match consumer_at(s.consumers, id) {
        Some(c) => {
            lemma_place_bounds(s.consumers, id);
            let d = c.with_delivered(segment);
            lemma_replaced(s.consumers, id, d);
            assert(d.was_delivered(segment)) by {
                if !c.was_delivered(segment) {
                    law_nothing_missing_iff_covered(segment, d.delivered_segments);
                    assert forall|t: int| segment.covers(t) implies #[trigger] any_covers(
                        d.delivered_segments,
                        t,
                    ) by {
                        lemma_segment_held(c.delivered_segments, segment, t);
                    }
                }
            }
        },
        None => {},
    }
    crate::market_data::runtime::lemma_not_delivered(after, id, segment);
}

/// A request ends when it has all that it needs, and not before: as long as something of it is
/// missing, a segment that arrives only counts as arrived; with the last one the chart is told
/// that the request is complete, and the request is done with.
pub proof fn law_request_ends_with_its_last_segment(
    s: RuntimeView,
    id: Uuid,
    segment: MarketDataRange,
    tail: Tail,
)
    requires
        consumer_at(s.consumers, id) is Some,
    ensures
        ({
            let arrived = consumer_at(s.consumers, id)->Some_0.with_arrived(segment);
            let step = s.segment_done(id, segment, tail);
            if !arrived.satisfied() {
                &&& step.effects.len() == 0
                &&& consumer_at(step.state.consumers, id) == Some(arrived)
            } else {
                arrived.feature !is VolumeBubbles ==> {
                    &&& step.effects == seq![
                        EffectView::CompleteConsumer { consumer: arrived, empty_covered_tail: tail },
                    ]
                    &&& consumer_at(step.state.consumers, id) == Some(arrived.done())
                }
            }
        }),
{
    let c = consumer_at(s.consumers, id)->Some_0;
    let arrived = c.with_arrived(segment);
    lemma_place_bounds(s.consumers, id);
    lemma_replaced(s.consumers, id, arrived);
    let after = s.arriving(id, segment);
    lemma_place_bounds(after.consumers, id);
    lemma_replaced(after.consumers, id, arrived.done());
}

/// Where short gaps matter, a request has nothing missing exactly when all of its range arrived.
pub proof fn law_nothing_missing_when_all_arrived(c: ConsumerView)
    requires
        c.range.valid(),
        !(c.feature is TradeHydration || c.feature is Footprint),
    ensures
        c.gaps().len() == 0 <==> forall|t: int|
            c.range.covers(t) ==> #[trigger] any_covers(c.completed_segments, t),
{
    law_nothing_missing_iff_covered(c.range, c.completed_segments);
}

/// What is missing of a request lies in its range and did not arrive, and where trades are drawn
/// it is at least a second long.
pub proof fn law_gaps_are_missing(c: ConsumerView, i: int)
    requires
        c.range.valid(),
        0 <= i < c.gaps().len(),
    ensures
        c.gaps()[i].valid(),
        forall|t: int| #[trigger]
            c.gaps()[i].covers(t) ==> c.range.covers(t) && !any_covers(c.completed_segments, t),
        c.feature is TradeHydration || c.feature is Footprint ==> c.gaps()[i].span() >= 1_000,
{
    let all = missing(c.range, c.completed_segments);
    let g = c.gaps()[i];
    law_missing_in_order(c.range, c.completed_segments);
    assert(all.contains(g)) by {
        if c.feature is TradeHydration || c.feature is Footprint {
            assert(all.filter(wide_enough()).contains(g));
            all.lemma_filter_contains_rev(wide_enough(), g);
            all.lemma_filter_pred(wide_enough(), i);
        } else {
            assert(all[i] == g);
        }
    }
    let k = choose|k: int| 0 <= k < all.len() && all[k] == g;
    assert(all[k].valid());
    assert forall|t: int| #[trigger] c.gaps()[i].covers(t) implies c.range.covers(t) && !any_covers(
        c.completed_segments,
        t,
    ) by {
        assert(all[k].covers(t));
        assert(any_covers(all, t));
        law_missing_exact(c.range, c.completed_segments, t);
    }
}

/// How far a request has got never contradicts what is missing of it: as long as its planned
/// segments make up its range, something is missing only if not all of them arrived.
pub proof fn law_count_agrees_with_gaps(c: ConsumerView)
    requires
        c.range.valid(),
        forall|i: int|
            0 <= i < c.required_segments.len() ==> (#[trigger] c.required_segments[i]).valid(),
        forall|t: int| c.range.covers(t) ==> #[trigger] any_covers(c.required_segments, t),
        c.gaps().len() > 0,
    ensures
        c.required_segments.filter(all_there(c.completed_segments)).len()
            < c.required_segments.len(),
{
    law_gaps_are_missing(c, 0);
    let g = c.gaps()[0];
    let t = g.from.0 as int;
    assert(g.covers(t));
    assert(any_covers(c.required_segments, t));
    let k = choose|k: int|
        0 <= k < c.required_segments.len() && (#[trigger] c.required_segments[k]).covers(t);
    let r = c.required_segments[k];
    law_missing_exact(r, c.completed_segments, t);
    let left = missing(r, c.completed_segments);
    assert(any_covers(left, t));
    assert(!all_there(c.completed_segments)(r));
    lemma_filter_drops(c.required_segments, all_there(c.completed_segments), k);
}

proof fn lemma_filter_drops<A>(s: Seq<A>, p: spec_fn(A) -> bool, k: int)
    requires
        0 <= k < s.len(),
        !p(s[k]),
    ensures
        s.filter(p).len() < s.len(),
    decreases s.len(),
{
    reveal(Seq::filter);
    s.drop_last().lemma_filter_len(p);
    if k < s.len() - 1 {
        lemma_filter_drops(s.drop_last(), p, k);
    }
}

/// What was removed is not there.
pub proof fn lemma_without_gone<T>(rows: Seq<(Uuid, T)>, id: Uuid)
    ensures
        lookup(without(rows, id), id) is None,
{
    let left = without(rows, id);
    if holds(left, id) {
        let i = choose|i: int| 0 <= i < left.len() && (#[trigger] left[i]).0 == id;
        rows.lemma_filter_pred(other_than::<T>(id), i);
    }
}

/// A request to a worker that ended leaves no trace: neither it nor its job is known any more.
pub proof fn law_finished_worker_is_gone(s: RuntimeView, worker_req: Uuid, tail: Tail)
    requires
        s.finished(worker_req, tail) is Some,
    ensures
        ({
            let after = s.finished(worker_req, tail)->Some_0.state;
            let job_id = lookup(s.worker_jobs, worker_req)->Some_0;
            &&& lookup(after.worker_jobs, worker_req) is None
            &&& lookup(after.job_workers, job_id) is None
            &&& lookup(after.job_consumers, job_id) is None
            &&& lookup(after.coordinator.jobs, job_id) is None
        }),
{
    let job_id = lookup(s.worker_jobs, worker_req)->Some_0;
    lemma_without_gone(s.worker_jobs, worker_req);
    lemma_without_gone(s.job_workers, job_id);
    lemma_without_gone(s.job_consumers, job_id);
    lemma_without_gone(s.coordinator.jobs, job_id);
    lemma_without_gone(s.coordinator.with_emptied(job_id).jobs, job_id);
    if let Some(j) = lookup(s.coordinator.jobs, job_id) {
        lemma_without_gone(
            s.coordinator.with_completed(job_id, j.progress.records_fetched).jobs,
            job_id,
        );
    }
}

/// A request that is not done with is never dropped, nor one of which something is still to come.
pub proof fn law_unfinished_requests_stay(s: RuntimeView, c: ConsumerView)
    requires
        s.consumers.contains(c),
        !c.completed || c.open_gaps().len() > 0,
    ensures
        s.tidied().consumers.contains(c),
{
    s.consumers.lemma_filter_contains(unfinished(), choose|i: int|
        0 <= i < s.consumers.len() && s.consumers[i] == c);
}

/// A need of a chart that waits is not taken a second time.
pub proof fn law_need_is_taken_once(
    s: RuntimeView,
    asker: AskerView,
    need: ChartDataNeed,
    req_id: Uuid,
)
    ensures
        !s.with_need(asker, need, req_id).takes_need(asker, need),
{
    let after = s.with_need(asker, need, req_id);
    if s.takes_need(asker, need) {
        let key = asker.key_of_need(need)->Some_0;
        let i = s.consumers.len() as int;
        assert(after.consumers[i].pane_id == asker.pane_id);
        assert(after.awaits(asker, key, need));
    }
}

/// The identity of requests: all that does not change as their segments are planned.
spec fn steady(a: Seq<ConsumerView>, b: Seq<ConsumerView>) -> bool {
    &&& a.len() == b.len()
    &&& forall|i: int|
        0 <= i < a.len() ==> (#[trigger] a[i]).req_id == b[i].req_id && a[i].key == b[i].key
            && a[i].range == b[i].range && a[i].completed == b[i].completed
}

/// Each job serves at least what it served before.
spec fn serves_more(a: RuntimeView, b: RuntimeView) -> bool {
    forall|j: FetchJobId, id: Uuid|
        #![trigger b.served_by(j).contains(id)]
        a.served_by(j).contains(id) ==> b.served_by(j).contains(id)
}

pub(crate) proof fn lemma_put_other<T>(rows: Seq<(Uuid, T)>, id: Uuid, v: T, other: Uuid)
    requires
        other != id,
        crate::id_table::ids_distinct(rows),
    ensures
        lookup(put(rows, id, v), other) == lookup(rows, other),
        crate::id_table::ids_distinct(put(rows, id, v)),
{
    let out = put(rows, id, v);
    assert(crate::id_table::ids_distinct(out)) by {
        assert forall|i: int, j: int| 0 <= i < j < out.len() implies (#[trigger] out[i]).0 != (
        #[trigger] out[j]).0 by {
            if holds(rows, id) {
                assert(rows[i].0 == out[i].0);
                assert(rows[j].0 == out[j].0);
            } else {
                if j < rows.len() {
                    assert(rows[i].0 != rows[j].0);
                } else {
                    assert(rows[i].0 == out[i].0);
                }
            }
        }
    }
    if holds(rows, other) {
        let i = choose|i: int| 0 <= i < rows.len() && (#[trigger] rows[i]).0 == other;
        assert(out[i] == rows[i]);
        lemma_lookup_at(rows, i);
        lemma_lookup_at(out, i);
    } else {
        if holds(out, other) {
            let i = choose|i: int| 0 <= i < out.len() && (#[trigger] out[i]).0 == other;
            if i < rows.len() {
                assert(rows[i].0 == other);
            }
        }
    }
}

proof fn lemma_planning_steady(s: RuntimeView, id: Uuid, segment: MarketDataRange)
    ensures
        steady(s.consumers, s.planning(id, segment).consumers),
        s.planning(id, segment).job_consumers == s.job_consumers,
{
    lemma_place_bounds(s.consumers, id);
}

proof fn lemma_attach_one(s: RuntimeView, j: JobView, id: Uuid)
    requires
        crate::id_table::ids_distinct(s.job_consumers),
    ensures
        ({
            let after = s.attaching_one(j, id).0;
            &&& steady(s.consumers, after.consumers)
            &&& serves_more(s, after)
            &&& after.served_by(j.id).contains(id)
            &&& crate::id_table::ids_distinct(after.job_consumers)
        }),
{
    let before = s.served_by(j.id);
    let after = s.attaching_one(j, id).0;
    if !before.contains(id) {
        let more = before.push(id);
        let linked = RuntimeView {
            job_consumers: put(s.job_consumers, j.id, more),
            ..s
        };
        lemma_planning_steady(linked, id, j.range);
        lemma_put_lookup(s.job_consumers, j.id, more);
        assert(after.served_by(j.id) == more);
        assert(more[before.len() as int] == id);
        let far = Uuid(
            if j.id.0 == 0 {
                1
            } else {
                0
            },
        );
        lemma_put_other(s.job_consumers, j.id, more, far);
        assert forall|k: FetchJobId, x: Uuid|
            s.served_by(k).contains(x) implies #[trigger] after.served_by(k).contains(x) by {
            if k == j.id {
                let i = choose|i: int| 0 <= i < before.len() && before[i] == x;
                assert(more[i] == x);
            } else {
                lemma_put_other(s.job_consumers, j.id, more, k);
            }
        }
    }
}

proof fn lemma_attach_each(s: RuntimeView, j: JobView, ids: Seq<Uuid>)
    requires
        crate::id_table::ids_distinct(s.job_consumers),
    ensures
        ({
            let after = s.attaching_each(j, ids).0;
            &&& steady(s.consumers, after.consumers)
            &&& serves_more(s, after)
            &&& forall|i: int| 0 <= i < ids.len() ==> after.served_by(j.id).contains(#[trigger] ids[i])
            &&& crate::id_table::ids_distinct(after.job_consumers)
        }),
    decreases ids.len(),
{
    if ids.len() > 0 {
        let front = s.attaching_each(j, ids.drop_last()).0;
        lemma_attach_each(s, j, ids.drop_last());
        lemma_attach_one(front, j, ids.last());
        let after = front.attaching_one(j, ids.last()).0;
        assert forall|i: int| 0 <= i < ids.len() implies after.served_by(j.id).contains(
            #[trigger] ids[i],
        ) by {
            if i < ids.len() - 1 {
                assert(ids.drop_last()[i] == ids[i]);
                assert(front.served_by(j.id).contains(ids[i]));
            }
        }
        assert forall|k: FetchJobId, x: Uuid|
            s.served_by(k).contains(x) implies #[trigger] after.served_by(k).contains(x) by {
            assert(front.served_by(k).contains(x));
        }
        assert(steady(s.consumers, after.consumers)) by {
            assert forall|i: int| 0 <= i < s.consumers.len() implies (
            #[trigger] s.consumers[i]).req_id == after.consumers[i].req_id && s.consumers[i].key
                == after.consumers[i].key && s.consumers[i].range == after.consumers[i].range
                && s.consumers[i].completed == after.consumers[i].completed by {
                assert(front.consumers[i].req_id == s.consumers[i].req_id);
            }
        }
    }
}

proof fn lemma_attach_jobs(s: RuntimeView, js: Seq<JobView>)
    requires
        crate::id_table::ids_distinct(s.job_consumers),
    ensures
        ({
            let after = s.attaching_jobs(js).0;
            &&& steady(s.consumers, after.consumers)
            &&& serves_more(s, after)
            &&& crate::id_table::ids_distinct(after.job_consumers)
            &&& forall|a: int, i: int|
                #![trigger js[a], s.consumers[i]]
                0 <= a < js.len() && 0 <= i < s.consumers.len() && s.consumers[i].wants(
                    js[a].key,
                    js[a].range,
                ) && !s.consumers[i].completed ==> after.served_by(js[a].id).contains(
                    s.consumers[i].req_id,
                )
        }),
    decreases js.len(),
{
    if js.len() > 0 {
        let front = s.attaching_jobs(js.drop_last()).0;
        lemma_attach_jobs(s, js.drop_last());
        let j = js.last();
        let p = still_wanting(j.key, j.range);
        let ids = req_ids(front.consumers.filter(p));
        lemma_attach_each(front, j, ids);
        let after = front.attaching_each(j, ids).0;
        assert forall|a: int, i: int|
            #![trigger js[a], s.consumers[i]]
            0 <= a < js.len() && 0 <= i < s.consumers.len() && s.consumers[i].wants(
                js[a].key,
                js[a].range,
            ) && !s.consumers[i].completed implies after.served_by(js[a].id).contains(
            s.consumers[i].req_id,
        ) by {
            let c = front.consumers[i];
            assert(s.consumers[i].req_id == c.req_id);
            if a < js.len() - 1 {
                assert(js.drop_last()[a] == js[a]);
                assert(front.served_by(js[a].id).contains(s.consumers[i].req_id));
            } else {
                assert(p(c));
                front.consumers.lemma_filter_contains(p, i);
                let k = choose|k: int|
                    0 <= k < front.consumers.filter(p).len() && front.consumers.filter(p)[k] == c;
                assert(ids[k] == c.req_id);
            }
        }
        assert forall|k: FetchJobId, x: Uuid|
            s.served_by(k).contains(x) implies #[trigger] after.served_by(k).contains(x) by {
            assert(front.served_by(k).contains(x));
        }
        assert(steady(s.consumers, after.consumers)) by {
            assert forall|i: int| 0 <= i < s.consumers.len() implies (
            #[trigger] s.consumers[i]).req_id == after.consumers[i].req_id && s.consumers[i].key
                == after.consumers[i].key && s.consumers[i].range == after.consumers[i].range
                && s.consumers[i].completed == after.consumers[i].completed by {
                assert(front.consumers[i].req_id == s.consumers[i].req_id);
            }
        }
    }
}

/// A request for what an active job fetches needs no job of its own: once requests are linked with
/// active jobs, each active job serves each request for a part of its range that is not done with.
pub proof fn law_active_job_serves_all(s: RuntimeView, a: int, i: int)
    requires
        crate::id_table::ids_distinct(s.job_consumers),
        0 <= a < active_jobs_of(s.coordinator.jobs).len(),
        0 <= i < s.consumers.len(),
        s.consumers[i].wants(
            active_jobs_of(s.coordinator.jobs)[a].key,
            active_jobs_of(s.coordinator.jobs)[a].range,
        ),
        !s.consumers[i].completed,
    ensures
        s.attaching().0.served_by(active_jobs_of(s.coordinator.jobs)[a].id).contains(
            s.consumers[i].req_id,
        ),
{
    lemma_attach_jobs(s, active_jobs_of(s.coordinator.jobs));
}

/// A request that is done with is not linked with active jobs: only requests that are not done
/// with, and those that a job served before, are served after.
pub proof fn law_done_requests_are_not_linked(s: RuntimeView, id: Uuid, job_id: FetchJobId)
    requires
        crate::id_table::ids_distinct(s.job_consumers),
        forall|i: int|
            0 <= i < s.consumers.len() && (#[trigger] s.consumers[i]).req_id == id
                ==> s.consumers[i].completed,
        !s.served_by(job_id).contains(id),
    ensures
        !s.attaching().0.served_by(job_id).contains(id),
{
    lemma_done_not_linked(s, active_jobs_of(s.coordinator.jobs), id, job_id);
}

proof fn lemma_not_linked_each(
    s: RuntimeView,
    j: JobView,
    ids: Seq<Uuid>,
    id: Uuid,
    job_id: FetchJobId,
)
    requires
        crate::id_table::ids_distinct(s.job_consumers),
        !ids.contains(id),
        !s.served_by(job_id).contains(id),
    ensures
        !s.attaching_each(j, ids).0.served_by(job_id).contains(id),
    decreases ids.len(),
{
    if ids.len() > 0 {
        let last = ids.last();
        assert(ids[ids.len() - 1] == last);
        assert(!ids.drop_last().contains(id)) by {
            if ids.drop_last().contains(id) {
                let k = choose|k: int| 0 <= k < ids.len() - 1 && ids.drop_last()[k] == id;
                assert(ids[k] == id);
            }
        }
        lemma_not_linked_each(s, j, ids.drop_last(), id, job_id);
        lemma_attach_each(s, j, ids.drop_last());
        let front = s.attaching_each(j, ids.drop_last()).0;
        if !front.served_by(j.id).contains(last) {
            let before = front.served_by(j.id);
            let more = before.push(last);
            let linked = RuntimeView {
                job_consumers: put(front.job_consumers, j.id, more),
                ..front
            };
            lemma_planning_steady(linked, last, j.range);
            if job_id == j.id {
                lemma_put_lookup(front.job_consumers, j.id, more);
                if more.contains(id) {
                    let k = choose|k: int| 0 <= k < more.len() && more[k] == id;
                    if k < before.len() {
                        assert(before[k] == id);
                    }
                }
            } else {
                lemma_put_other(front.job_consumers, j.id, more, job_id);
            }
        }
    }
}

proof fn lemma_done_not_linked(s: RuntimeView, js: Seq<JobView>, id: Uuid, job_id: FetchJobId)
    requires
        crate::id_table::ids_distinct(s.job_consumers),
        forall|i: int|
            0 <= i < s.consumers.len() && (#[trigger] s.consumers[i]).req_id == id
                ==> s.consumers[i].completed,
        !s.served_by(job_id).contains(id),
    ensures
        !s.attaching_jobs(js).0.served_by(job_id).contains(id),
    decreases js.len(),
{
    if js.len() > 0 {
        let front = s.attaching_jobs(js.drop_last()).0;
        lemma_attach_jobs(s, js.drop_last());
        lemma_done_not_linked(s, js.drop_last(), id, job_id);
        let j = js.last();
        let p = still_wanting(j.key, j.range);
        let cs = front.consumers.filter(p);
        let ids = req_ids(cs);
        assert(!ids.contains(id)) by {
            if ids.contains(id) {
                let k = choose|k: int| 0 <= k < ids.len() && ids[k] == id;
                assert(cs.contains(cs[k]));
                front.consumers.lemma_filter_contains_rev(p, cs[k]);
                front.consumers.lemma_filter_pred(p, k);
                let i = choose|i: int| 0 <= i < front.consumers.len() && front.consumers[i] == cs[k];
                assert(s.consumers[i].req_id == id);
                assert(s.consumers[i].completed == front.consumers[i].completed);
            }
        }
        lemma_not_linked_each(front, j, ids, id, job_id);
    }
}

} // verus!
