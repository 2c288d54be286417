//! Laws of how fetches end.

use vstd::prelude::*;
use crate::connector::fetcher::{FetchRange, FetchedView};
use crate::id_table::lookup;
use crate::ids::Uuid;
use crate::market::{Kline, OpenInterest, StreamView, Trade};
use crate::market_data::bridge::{key_fetched, range_fetched};
use crate::market_data::consumer::ConsumerView;
use crate::market_data::coordinator::{active_of, is_active, lemma_put_lookup};
use crate::market_data::coordinator_laws::law_removed_job_is_gone;
use crate::market_data::coverage::{
    clamp_usize, complete_entry, covered_at, empty_entry, rows, EntryView,
};
use crate::market_data::coverage_laws::{
    law_complete_is_covered, law_incomplete_is_missing, tidy,
};
use crate::market_data::effect::{CommandView, DispatchView, EffectView};
use crate::market_data::job::{FetchJobId, JobView};
use crate::market_data::key::KeyView;
use crate::market_data::plan_laws::law_failed_ranges_are_not_covered;
use crate::market_data::range::MarketDataRange;
use crate::market_data::runtime::delivery_laws::{
    draws_trades, klines_in, law_cached_records_arrive, lemma_found, lemma_replaced_other,
    lemma_segment_done_frame, lemma_within, lies_in_some, requests_distinct, sent_for, trades_for,
};
use crate::market_data::runtime::laws::lemma_without_gone;
use crate::market_data::runtime::model::{
    active_ids, consumer_at, fetching_some, wanting, with_each_completed, with_records,
    RuntimeView, Tail,
};
use crate::market_data::runtime::workers::active_jobs_of;
use crate::market_data::runtime::{lemma_place_bounds, lemma_replaced};
use crate::seqs::lemma_filter_map_has;

verus! {

proof fn lemma_failing_each(
    s: RuntimeView,
    ids: Seq<Uuid>,
    range: MarketDataRange,
    c: ConsumerView,
)
    requires
        ids.no_duplicates(),
        consumer_at(s.consumers, c.req_id) == Some(c),
    ensures
        s.failing_each(ids, range) == (RuntimeView {
            consumers: s.failing_each(ids, range).consumers,
            ..s
        }),
        consumer_at(s.failing_each(ids, range).consumers, c.req_id) == Some(
            if ids.contains(c.req_id) {
                c.with_failed(range)
            } else {
                c
            },
        ),
    decreases ids.len(),
{
    if ids.len() > 0 {
        let few = ids.drop_last();
        let id = ids.last();
        assert(ids[ids.len() - 1] == id);
        assert(few.no_duplicates());
        lemma_failing_each(s, few, range, c);
        let front = s.failing_each(few, range);
        lemma_place_bounds(front.consumers, id);
        if id == c.req_id {
            assert(!few.contains(id)) by {
                if few.contains(id) {
                    let k = choose|k: int| 0 <= k < few.len() && few[k] == id;
                    assert(ids[k] == ids[ids.len() - 1]);
                }
            }
            lemma_replaced(front.consumers, id, c.with_failed(range));
        } else {
            if let Some(x) = consumer_at(front.consumers, id) {
                lemma_replaced_other(front.consumers, id, x.with_failed(range), c.req_id);
            }
            if ids.contains(c.req_id) {
                let k = choose|k: int| 0 <= k < ids.len() && ids[k] == c.req_id;
                assert(few[k] == c.req_id);
            }
            if few.contains(c.req_id) {
                let k = choose|k: int| 0 <= k < few.len() && few[k] == c.req_id;
                assert(ids[k] == c.req_id);
            }
        }
    }
}

/// A request to a worker that failed takes its job with it. The range of the job counts as failed
/// and not as covered, for each request that the job served; nothing else changes for any request,
/// and nothing that is stored.
pub proof fn law_failed_workers(
    s: RuntimeView,
    req: Uuid,
    error: Seq<char>,
    id: FetchJobId,
    j: JobView,
    ids: Seq<Uuid>,
    c: ConsumerView,
)
    requires
        sent_for(s, req, id, j),
        lookup(s.job_workers, id) == Some(req),
        lookup(s.job_consumers, id) == Some(ids),
        ids.no_duplicates(),
        requests_distinct(s.consumers),
        s.consumers.contains(c),
        j.range.from.0 < j.range.to.0,
        tidy(rows(s.coordinator.facts, j.key)),
    ensures
        ({
            let after = s.failing_worker(req, error);
            &&& !covered_at(after.coordinator.facts, j.key, j.range)
            &&& exists|e: EntryView| #[trigger]
                rows(after.coordinator.facts, j.key).contains(e) && e.range == j.range
                    && e.status is Failed
            &&& after.coordinator.store == s.coordinator.store
            &&& lookup(after.coordinator.jobs, id) is None
            &&& lookup(after.worker_jobs, req) is None
            &&& lookup(after.job_workers, id) is None
            &&& lookup(after.job_consumers, id) is None
            &&& consumer_at(after.consumers, c.req_id) == Some(
                if ids.contains(c.req_id) {
                    ConsumerView { failed_segments: c.failed_segments.push(j.range), ..c }
                } else {
                    c
                },
            )
            &&& after.commands == s.commands
        }),
{
    lemma_found(s.consumers, c);
    lemma_failing_each(s, ids, j.range, c);
    law_failed_ranges_are_not_covered(s.coordinator, id, j, error);
    law_removed_job_is_gone(s.coordinator.with_failure(id, error), id);
    lemma_without_gone(s.worker_jobs, req);
    lemma_without_gone(s.job_workers, id);
    lemma_without_gone(s.job_consumers, id);
    let mid = s.failing_each(ids, j.range);
    let after = s.failing_worker(req, error);
    assert(after == mid.failing_job(id, error));
    assert(mid.coordinator == s.coordinator && mid.job_workers == s.job_workers);
    assert(after.coordinator.facts == s.coordinator.with_failure(id, error).facts);
    assert(after.consumers == mid.consumers);
    assert(c.with_failed(j.range) == (ConsumerView {
        failed_segments: c.failed_segments.push(j.range),
        ..c
    }));
    let e = choose|e: EntryView| #[trigger]
        rows(s.coordinator.with_failure(id, error).facts, j.key).contains(e) && e.range == j.range
            && e.status is Failed;
    assert(rows(after.coordinator.facts, j.key).contains(e));
}

/// An answer that holds candles, none of them of the range of its job, takes the job with it, and
/// the range counts as failed.
pub proof fn law_answers_beside_the_range_fail(
    s: RuntimeView,
    stream: StreamView,
    data: Seq<Kline>,
    req: Uuid,
    id: FetchJobId,
    j: JobView,
)
    requires
        sent_for(s, req, id, j),
        data.len() > 0,
        forall|i: int|
            0 <= i < data.len() ==> !(j.range.from.0 <= (#[trigger] data[i]).time.0 < j.range.to.0),
        j.range.from.0 < j.range.to.0,
        tidy(rows(s.coordinator.facts, j.key)),
    ensures
        ({
            let out = s.receiving(stream, FetchedView::Klines { data, req_id: Some(req) });
            &&& out.handled
            &&& out.effects == seq![EffectView::ProgressSnapshot]
            &&& !covered_at(out.state.coordinator.facts, j.key, j.range)
            &&& exists|e: EntryView| #[trigger]
                rows(out.state.coordinator.facts, j.key).contains(e) && e.range == j.range
                    && e.status is Failed
            &&& lookup(out.state.coordinator.jobs, id) is None
            &&& lookup(out.state.worker_jobs, req) is None
            &&& out.state.consumers == s.consumers
            &&& out.state.coordinator.store == s.coordinator.store
        }),
{
    let p = klines_in(j.range);
    lemma_within(Seq::empty(), data, Seq::empty(), j.range);
    assert(data.filter(p).len() == 0) by {
        if data.filter(p).len() > 0 {
            let x = data.filter(p)[0];
            assert(data.filter(p).contains(x));
            data.lemma_filter_pred(p, 0);
            data.lemma_filter_contains_rev(p, x);
            let k = choose|k: int| 0 <= k < data.len() && data[k] == x;
            assert(!(j.range.from.0 <= data[k].time.0 < j.range.to.0));
        }
    }
    law_failed_ranges_are_not_covered(
        s.coordinator,
        id,
        j,
        "invalid_out_of_range_response"@,
    );
    law_removed_job_is_gone(s.coordinator.with_failure(id, "invalid_out_of_range_response"@), id);
    lemma_without_gone(s.worker_jobs, req);
    lemma_without_gone(s.job_workers, id);
    lemma_without_gone(s.job_consumers, id);
    let out = s.receiving(stream, FetchedView::Klines { data, req_id: Some(req) });
    let after = s.invalidating(req);
    assert(out.state == after);
    assert(after.coordinator.facts == s.coordinator.with_failure(
        id,
        "invalid_out_of_range_response"@,
    ).facts);
}

/// An answer without any candle ends its job as one without records, as the end of its worker does.
pub proof fn law_empty_answers_end_their_job(
    s: RuntimeView,
    stream: StreamView,
    req: Uuid,
    id: FetchJobId,
    j: JobView,
)
    requires
        sent_for(s, req, id, j),
    ensures
        ({
            let out = s.receiving(
                stream,
                FetchedView::Klines { data: Seq::empty(), req_id: Some(req) },
            );
            &&& out.handled
            &&& s.finishing_worker(req, None) matches Some(step) && out.state == step.state
                && out.effects == step.effects
        }),
{
    let none = Seq::<Kline>::empty();
    lemma_within(Seq::empty(), none, Seq::empty(), j.range);
    assert(none.filter(klines_in(j.range)).len() == 0) by {
        none.lemma_filter_len(klines_in(j.range));
    }
}

/// The jobs without progress are the active ones that were created long enough ago and brought no
/// record.
pub proof fn law_stuck_jobs_are_found(
    s: RuntimeView,
    now_ms: u64,
    limit: u64,
    row: (FetchJobId, JobView),
)
    requires
        s.coordinator.jobs.contains(row),
        row.1.status is Pending || row.1.status is InProgress,
        row.1.created_at <= now_ms,
        now_ms - row.1.created_at >= limit,
        row.1.progress.records_fetched == 0,
    ensures
        exists|i: int|
            0 <= i < s.stale_jobs(now_ms, limit).len() && (#[trigger] s.stale_jobs(
                now_ms,
                limit,
            )[i]).job_id == row.1.id && s.stale_jobs(now_ms, limit)[i].range == row.1.range
                && s.stale_jobs(now_ms, limit)[i].age_ms == now_ms - row.1.created_at,
{
    let rows = s.coordinator.jobs;
    let k = choose|k: int| 0 <= k < rows.len() && rows[k] == row;
    rows.lemma_filter_contains(is_active(), k);
    let act = rows.filter(is_active());
    let a = choose|a: int| 0 <= a < act.len() && act[a] == row;
    let js = active_jobs_of(rows);
    assert(js[a] == row.1);
    let f = |j: JobView|
        if crate::market_data::runtime::model::stuck(now_ms, limit)(j) {
            Some(s.stale_view(j, now_ms))
        } else {
            None
        };
    lemma_filter_map_has(js, f, a);
    let out = s.stale_jobs(now_ms, limit);
    assert(out == js.filter_map(f));
    let i = choose|i: int| 0 <= i < out.len() && out[i] == s.stale_view(row.1, now_ms);
    assert(out[i].job_id == row.1.id);
}

/// No other job counts as one without progress.
pub proof fn law_only_stuck_jobs_are_found(s: RuntimeView, now_ms: u64, limit: u64, i: int)
    requires
        0 <= i < s.stale_jobs(now_ms, limit).len(),
    ensures
        exists|row: (FetchJobId, JobView)| #[trigger]
            s.coordinator.jobs.contains(row) && row.1.id == s.stale_jobs(now_ms, limit)[i].job_id
                && row.1.range == s.stale_jobs(now_ms, limit)[i].range && (row.1.status is Pending
                || row.1.status is InProgress) && row.1.progress.records_fetched == 0
                && row.1.created_at + limit <= if now_ms >= row.1.created_at {
                now_ms as int
            } else {
                row.1.created_at as int
            },
{
    let rows = s.coordinator.jobs;
    let js = active_jobs_of(rows);
    let act = rows.filter(is_active());
    let f = |j: JobView|
        if crate::market_data::runtime::model::stuck(now_ms, limit)(j) {
            Some(s.stale_view(j, now_ms))
        } else {
            None
        };
    let out = s.stale_jobs(now_ms, limit);
    assert(out == js.filter_map(f));
    assert(out.contains(out[i]));
    js.lemma_filter_map_contains(f, out[i]);
    let j = choose|j: JobView| #[trigger] js.contains(j) && f(j) == Some(out[i]);
    let a = choose|a: int| 0 <= a < js.len() && js[a] == j;
    let row = act[a];
    assert(row.1 == j);
    rows.lemma_filter_pred(is_active(), a);
    assert(act.contains(row));
    rows.lemma_filter_contains_rev(is_active(), row);
    assert(rows.contains(row));
}

/// A range that failed for want of progress counts as failed once for a request. The request is
/// then done with where it has all that it needs all the same, and is handed out.
pub proof fn law_stuck_ranges_fail_once(s: RuntimeView, c: ConsumerView, range: MarketDataRange)
    requires
        requests_distinct(s.consumers),
        s.consumers.contains(c),
    ensures
        ({
            let (after, told) = s.giving_up(c.req_id, range);
            let failed = if c.failed_segments.contains(range) {
                c
            } else {
                ConsumerView { failed_segments: c.failed_segments.push(range), ..c }
            };
            &&& after == (RuntimeView { consumers: after.consumers, ..s })
            &&& told == if failed.satisfied() {
                Some(failed)
            } else {
                None
            }
            &&& consumer_at(after.consumers, c.req_id) == Some(
                ConsumerView { completed: c.completed || failed.satisfied(), ..failed },
            )
        }),
{
    lemma_found(s.consumers, c);
    lemma_place_bounds(s.consumers, c.req_id);
    let failed = if c.failed_segments.contains(range) {
        c
    } else {
        c.with_failed(range)
    };
    lemma_replaced(s.consumers, c.req_id, failed);
    let mid = s.altered(c.req_id, failed);
    lemma_place_bounds(mid.consumers, c.req_id);
    lemma_replaced(mid.consumers, c.req_id, failed.done());
}

/// Live data is stored like any other, and changes neither what is covered nor what waits.
pub proof fn law_live_data_is_stored(
    s: RuntimeView,
    key: KeyView,
    trades: Seq<Trade>,
    klines: Seq<Kline>,
)
    ensures
        s.hearing_klines(key, klines).coordinator.store == s.coordinator.store.with_klines(
            key,
            klines,
        ),
        s.hearing_trades(key, trades).coordinator.store == s.coordinator.store.with_trades(
            key,
            trades,
        ).with_trades(key, trades),
        s.hearing_klines(key, klines).coordinator.facts == s.coordinator.facts,
        s.hearing_trades(key, trades).coordinator.facts == s.coordinator.facts,
        s.hearing_klines(key, klines).coordinator.jobs == s.coordinator.jobs,
        s.hearing_trades(key, trades).coordinator.jobs == s.coordinator.jobs,
        s.hearing_klines(key, klines).consumers == s.consumers,
        s.hearing_trades(key, trades).consumers == s.consumers,
        s.hearing_trades(key, trades).live == s.live.with_trades(key, trades, true).0,
        s.hearing_klines(key, klines).live == s.live.with_klines(key, klines),
        klines.len() > 0 && s.live.persist ==> s.hearing_klines(key, klines).commands
            == s.commands.push(CommandView::StoreKlines { key, rows: klines }),
        klines.len() == 0 || !s.live.persist ==> s.hearing_klines(key, klines).commands
            == s.commands,
        s.live.with_trades(key, trades, true).1 matches Some(batch) ==> s.hearing_trades(
            key,
            trades,
        ).commands == s.commands.push(CommandView::StoreTrades { key, rows: batch }),
        s.live.with_trades(key, trades, true).1 is None ==> s.hearing_trades(key, trades).commands
            == s.commands,
{
}

/// The records of an answer are added to those that its job has brought.
pub proof fn law_answers_are_counted(
    s: RuntimeView,
    id: FetchJobId,
    j: JobView,
    key: KeyView,
    range: MarketDataRange,
    n: usize,
)
    requires
        lookup(s.coordinator.jobs, id) == Some(j),
        j.progress.records_fetched + n <= usize::MAX,
    ensures
        lookup(s.counting(Some(id), key, range, n).coordinator.jobs, id) matches Some(after)
            && after.progress.records_fetched == j.progress.records_fetched + n && after.key
            == j.key && after.range == j.range && after.status == j.status,
        s.coordinator.fetched_received + n <= usize::MAX ==> s.counting(
            Some(id),
            key,
            range,
            n,
        ).coordinator.fetched_received == s.coordinator.fetched_received + n,
        s.counting(Some(id), key, range, n).consumers == s.consumers,
{
    let one = seq![id];
    assert(one.drop_last() =~= Seq::<FetchJobId>::empty());
    assert(one.last() == id);
    reveal_with_fuel(with_records, 2);
    let c = with_records(s.coordinator, one, n);
    let after = JobView {
        progress: crate::market_data::job::FetchJobProgress {
            records_fetched: clamp_usize((j.progress.records_fetched + n) as nat),
            ..j.progress
        },
        ..j
    };
    assert(with_records(s.coordinator, one.drop_last(), n) == s.coordinator);
    assert(c == s.coordinator.with_job(id, after));
    lemma_put_lookup(s.coordinator.jobs, id, after);
}

proof fn lemma_completing_each(s: RuntimeView, cs: Seq<ConsumerView>, tail: Tail, i: int)
    requires
        0 <= i < cs.len(),
        cs[i].feature !is VolumeBubbles,
    ensures
        s.completing_each(cs, tail).effects.contains(
            EffectView::CompleteConsumer { consumer: cs[i], empty_covered_tail: tail },
        ),
    decreases cs.len(),
{
    let few = cs.drop_last();
    let front = s.completing_each(few, tail);
    let next = front.state.completing(cs.last(), tail);
    let all = s.completing_each(cs, tail);
    let e = EffectView::CompleteConsumer { consumer: cs[i], empty_covered_tail: tail };
    assert(all.effects == front.effects + next.effects);
    if i < few.len() {
        assert(few[i] == cs[i]);
        lemma_completing_each(s, few, tail, i);
        let k = choose|k: int| 0 <= k < front.effects.len() && front.effects[k] == e;
        assert(all.effects[k] == e);
    } else {
        assert(next.effects[0] == e);
        assert(all.effects[front.effects.len() as int] == e);
    }
}

/// At the end of a fetch that no job stands behind, each request for a part of its range is told
/// that it is complete.
pub proof fn law_ended_fetches_complete_requests(
    s: RuntimeView,
    key: KeyView,
    range: MarketDataRange,
    tail: Tail,
    c: ConsumerView,
)
    requires
        s.consumers.contains(c),
        c.key == key,
        c.range.from.0 < range.to.0,
        range.from.0 < c.range.to.0,
        c.feature !is VolumeBubbles,
    ensures
        s.closing_all(key, range, tail).effects.contains(
            EffectView::CompleteConsumer { consumer: c, empty_covered_tail: tail },
        ),
{
    let closed = s.closing(key, range, tail);
    let p = wanting(key, range);
    let cs = closed.wanting(key, range);
    let k = choose|k: int| 0 <= k < s.consumers.len() && s.consumers[k] == c;
    s.consumers.lemma_filter_contains(p, k);
    let i = choose|i: int| 0 <= i < cs.len() && cs[i] == c;
    lemma_completing_each(closed, cs, tail, i);
}

proof fn lemma_cached_step_frame(s: RuntimeView, x: ConsumerView, d: DispatchView, other: Uuid)
    requires
        x.req_id != other,
    ensures
        consumer_at(s.cached_step(x, d).state.consumers, other) == consumer_at(
            s.consumers,
            other,
        ),
{
    let range = match d {
        DispatchView::Klines { range, .. } => range,
        DispatchView::Trades { range, .. } => range,
        DispatchView::OpenInterest { range, .. } => range,
    };
    lemma_place_bounds(s.consumers, x.req_id);
    let mid = s.delivering(x.req_id, range);
    if let Some(c) = consumer_at(s.consumers, x.req_id) {
        lemma_replaced_other(s.consumers, x.req_id, c.with_delivered(range), other);
    }
    lemma_place_bounds(mid.consumers, x.req_id);
    let begun = mid.beginning(x.req_id);
    if let Some(c) = consumer_at(mid.consumers, x.req_id) {
        lemma_replaced_other(mid.consumers, x.req_id, c.begun(), other);
    }
    lemma_segment_done_frame(mid, x.req_id, range, None, other);
    lemma_segment_done_frame(begun, x.req_id, range, None, other);
}

proof fn lemma_cached_step_each(
    s: RuntimeView,
    cs: Seq<ConsumerView>,
    d: DispatchView,
    c: ConsumerView,
    i: int,
)
    requires
        requests_distinct(cs),
        0 <= i < cs.len(),
        cs[i] == c,
        consumer_at(s.consumers, c.req_id) == Some(c),
    ensures
        ({
            let front = s.cached_step_each(cs.take(i), d);
            &&& consumer_at(front.state.consumers, c.req_id) == Some(c)
            &&& forall|e: EffectView| #[trigger]
                front.state.cached_step(c, d).effects.contains(e) ==> s.cached_step_each(
                    cs,
                    d,
                ).effects.contains(e)
        }),
    decreases cs.len(),
{
    let few = cs.drop_last();
    let n = cs.len() - 1;
    let front = s.cached_step_each(few, d);
    let next = front.state.cached_step(cs.last(), d);
    let all = s.cached_step_each(cs, d);
    assert(all.effects == front.effects + next.effects);
    assert forall|a: int, b: int| 0 <= a < b < few.len() implies (#[trigger] few[a]).req_id != (
    #[trigger] few[b]).req_id by {
        assert(cs[a].req_id != cs[b].req_id);
    }
    if i < n {
        assert(few[i] == c);
        lemma_cached_step_each(s, few, d, c, i);
        assert(few.take(i) =~= cs.take(i));
        let own = s.cached_step_each(cs.take(i), d);
        assert forall|e: EffectView| #[trigger]
            own.state.cached_step(c, d).effects.contains(e) implies all.effects.contains(e) by {
            let k = choose|k: int| 0 <= k < front.effects.len() && front.effects[k] == e;
            assert(all.effects[k] == e);
        }
    } else {
        assert(cs.take(i) =~= few);
        lemma_cached_front(s, few, d, c);
        assert forall|e: EffectView| #[trigger]
            front.state.cached_step(c, d).effects.contains(e) implies all.effects.contains(e) by {
            let k = choose|k: int| 0 <= k < next.effects.len() && next.effects[k] == e;
            assert(all.effects[front.effects.len() + k] == e);
        }
        assert forall|a: int| 0 <= a < few.len() implies (#[trigger] few[a]).req_id != c.req_id by {
            assert(cs[a].req_id != cs[n].req_id);
        }
    }
}

proof fn lemma_cached_front(s: RuntimeView, cs: Seq<ConsumerView>, d: DispatchView, c: ConsumerView)
    ensures
        (forall|a: int| 0 <= a < cs.len() ==> (#[trigger] cs[a]).req_id != c.req_id)
            ==> consumer_at(s.cached_step_each(cs, d).state.consumers, c.req_id) == consumer_at(
            s.consumers,
            c.req_id,
        ),
    decreases cs.len(),
{
    if cs.len() > 0 && forall|a: int| 0 <= a < cs.len() ==> (#[trigger] cs[a]).req_id != c.req_id {
        let few = cs.drop_last();
        assert forall|a: int| 0 <= a < few.len() implies (#[trigger] few[a]).req_id != c.req_id by {
            assert(cs[a].req_id != c.req_id);
        }
        lemma_cached_front(s, few, d, c);
        assert(cs[cs.len() - 1].req_id != c.req_id);
        lemma_cached_step_frame(s.cached_step_each(few, d).state, cs.last(), d, c.req_id);
    }
}

/// Records of the cache reach each request for a part of their range that draws them and has not
/// got all of that range before.
pub proof fn law_cached_records_reach_requests(
    s: RuntimeView,
    d: DispatchView,
    key: KeyView,
    range: MarketDataRange,
    c: ConsumerView,
    t: int,
)
    requires
        match d {
            DispatchView::Klines { key: k, range: r, .. } => k == key && r == range,
            DispatchView::Trades { key: k, range: r, .. } => k == key && r == range,
            DispatchView::OpenInterest { key: k, range: r, .. } => k == key && r == range,
        },
        requests_distinct(s.consumers),
        s.consumers.contains(c),
        c.key == key,
        c.range.from.0 < range.to.0,
        range.from.0 < c.range.to.0,
        range.from.0 <= t < range.to.0,
        !lies_in_some(c.delivered_segments, t),
    ensures
        d matches DispatchView::Trades { key: k, range: r, rows } ==> (draws_trades(c)
            ==> s.dispatching(d).effects.contains(trades_for(c, rows, range.to))),
        d matches DispatchView::Klines { key: k, range: r, timeframe, rows } ==> (
        c.feature is ChartKlines && c.stream is Some && c.stream->Some_0 is Kline ==> s.dispatching(
            d,
        ).effects.contains(
            EffectView::InsertKlinesPartial {
                consumer: c,
                stream: c.stream,
                timeframe,
                ticker: c.stream->Some_0->Kline_ticker,
                rows,
            },
        )),
        d matches DispatchView::OpenInterest { key: k, range: r, timeframe, rows } ==> (
        c.feature is OpenInterest ==> s.dispatching(d).effects.contains(
            EffectView::InsertOpenInterestPartial { consumer: c, rows },
        )),
{
    let p = wanting(key, range);
    let cs = s.consumers.filter(p);
    let k = choose|k: int| 0 <= k < s.consumers.len() && s.consumers[k] == c;
    s.consumers.lemma_filter_contains(p, k);
    crate::market_data::runtime::delivery_laws::lemma_distinct_requests_filter(s.consumers, p);
    let i = choose|i: int| 0 <= i < cs.len() && cs[i] == c;
    lemma_found(s.consumers, c);
    lemma_cached_step_each(s, cs, d, c, i);
    let front = s.cached_step_each(cs.take(i), d).state;
    law_cached_records_arrive(front, c, d, range, t);
    let own = front.cached_step(c, d).effects;
    if own.len() > 0 {
        assert(own.contains(own[0]));
    }
    assert(s.dispatching(d).effects == s.cached_step_each(cs, d).effects);
}

/// The end of a fetch that no request to a worker stands behind makes its pane ready. Where nobody
/// waits for the trades of such a fetch, the pane itself is told that they are complete.
pub proof fn law_other_fetches_end(
    s: RuntimeView,
    pane_id: Uuid,
    f: FetchRange,
    tail: Tail,
    ready: Seq<StreamView>,
    key: KeyView,
    range: MarketDataRange,
)
    requires
        key_fetched(
            f,
            crate::market_data::runtime::model::first_ticker(ready),
            crate::market_data::runtime::model::first_timeframe(ready),
        ) == Some(key),
        range_fetched(f) == Some(range),
    ensures
        ({
            let step = s.ending(pane_id, None, Some(f), tail, ready);
            let closed = s.closing_all(key, range, tail);
            let waited = exists|i: int|
                0 <= i < s.consumers.len() && (#[trigger] s.consumers[i]).key == key
                    && s.consumers[i].range.from.0 < range.to.0 && range.from.0
                    < s.consumers[i].range.to.0;
            &&& step.state == closed.state
            &&& step.effects.len() > 0
            &&& step.effects.last() == (EffectView::MarkPaneReady { pane_id })
            &&& waited || !(f is Trades) ==> step.effects.drop_last() == closed.effects
            &&& !waited && f is Trades ==> step.effects == seq![
                EffectView::CompleteLegacyTradeFetch {
                    pane_id,
                    req_id: None,
                    fetch: f,
                    empty_covered_tail: tail,
                },
                EffectView::MarkPaneReady { pane_id },
            ]
        }),
{
    let step = s.ending(pane_id, None, Some(f), tail, ready);
    let closed = s.closing_all(key, range, tail);
    let p = wanting(key, range);
    let cs = s.wanting(key, range);
    let mid = s.closing(key, range, tail);
    assert(mid.wanting(key, range) == cs);
    let waited = exists|i: int|
        0 <= i < s.consumers.len() && (#[trigger] s.consumers[i]).key == key
            && s.consumers[i].range.from.0 < range.to.0 && range.from.0
            < s.consumers[i].range.to.0;
    if waited {
        let i = choose|i: int|
            0 <= i < s.consumers.len() && (#[trigger] s.consumers[i]).key == key
                && s.consumers[i].range.from.0 < range.to.0 && range.from.0
                < s.consumers[i].range.to.0;
        assert(p(s.consumers[i]));
        s.consumers.lemma_filter_contains(p, i);
        assert(cs.len() > 0);
    } else if cs.len() > 0 {
        assert(cs.contains(cs[0]));
        s.consumers.lemma_filter_pred(p, 0);
        s.consumers.lemma_filter_contains_rev(p, cs[0]);
        let i = choose|i: int| 0 <= i < s.consumers.len() && s.consumers[i] == cs[0];
        assert(s.consumers[i].key == key);
        assert(false);
    } else {
        assert(closed.effects.len() == 0);
        assert(closed.effects =~= Seq::empty());
    }
    assert(closed.effects + Seq::<EffectView>::empty() =~= closed.effects);
    if waited || !(f is Trades) {
        assert(step.effects.drop_last() =~= closed.effects);
    } else {
        assert(step.effects =~= seq![
            EffectView::CompleteLegacyTradeFetch {
                pane_id,
                req_id: None,
                fetch: f,
                empty_covered_tail: tail,
            },
            EffectView::MarkPaneReady { pane_id },
        ]);
    }
}

/// The range of a fetch that ended counts as complete, or as empty where its end is known to hold
/// nothing, as long as no job of the coordinator fetches a part of it.
pub proof fn law_ended_fetches_settle_coverage(
    s: RuntimeView,
    key: KeyView,
    range: MarketDataRange,
    tail: Tail,
)
    requires
        range.from.0 < range.to.0,
        tidy(rows(s.coordinator.facts, key)),
        forall|i: int|
            0 <= i < s.coordinator.jobs.len() ==> !((#[trigger] s.coordinator.jobs[i]).1.key == key
                && s.coordinator.jobs[i].1.range.from.0 < range.to.0 && range.from.0
                < s.coordinator.jobs[i].1.range.to.0),
    ensures
        tail is None ==> covered_at(s.closing(key, range, tail).coordinator.facts, key, range),
        tail is Some ==> !covered_at(s.closing(key, range, tail).coordinator.facts, key, range),
        s.closing(key, range, tail).commands == s.commands.push(CommandView::SaveCoverage),
        s.closing(key, range, tail).coordinator.store == s.coordinator.store,
{
    let marked = s.coordinator.with_mark(
        key,
        if tail is Some {
            empty_entry(range)
        } else {
            complete_entry(range, 0)
        },
    );
    let p = fetching_some(key, range);
    let ids = active_ids(marked.jobs, p);
    assert(ids.len() == 0) by {
        if ids.len() > 0 {
            let f = |row: (FetchJobId, JobView)|
                if p(row.1) {
                    Some(row.1.id)
                } else {
                    None
                };
            let act = active_of(marked.jobs);
            assert(ids == act.filter_map(f));
            assert(ids.contains(ids[0]));
            act.lemma_filter_map_contains(f, ids[0]);
            let row = choose|row: (FetchJobId, JobView)| #[trigger]
                act.contains(row) && f(row) == Some(ids[0]);
            marked.jobs.lemma_filter_contains_rev(is_active(), row);
            let k = choose|k: int| 0 <= k < marked.jobs.len() && marked.jobs[k] == row;
            assert(s.coordinator.jobs[k].1.key == key);
        }
    }
    assert(with_each_completed(marked, ids) == marked);
    if tail is None {
        law_complete_is_covered(s.coordinator.facts, key, range, 0, range);
    } else {
        law_incomplete_is_missing(s.coordinator.facts, key, empty_entry(range));
    }
}

proof fn lemma_giving_up_each(
    s: RuntimeView,
    ids: Seq<Uuid>,
    range: MarketDataRange,
    c: ConsumerView,
)
    requires
        ids.no_duplicates(),
        consumer_at(s.consumers, c.req_id) == Some(c),
    ensures
        ({
            let (after, told) = s.giving_up_each(ids, range);
            let failed = if c.failed_segments.contains(range) {
                c
            } else {
                c.with_failed(range)
            };
            &&& after == (RuntimeView { consumers: after.consumers, ..s })
            &&& consumer_at(after.consumers, c.req_id) == Some(
                if !ids.contains(c.req_id) {
                    c
                } else if failed.satisfied() {
                    failed.done()
                } else {
                    failed
                },
            )
            &&& ids.contains(c.req_id) && failed.satisfied() ==> told.contains(failed)
        }),
    decreases ids.len(),
{
    if ids.len() > 0 {
        let few = ids.drop_last();
        let id = ids.last();
        assert(ids[ids.len() - 1] == id);
        assert(few.no_duplicates());
        lemma_giving_up_each(s, few, range, c);
        let front = s.giving_up_each(few, range);
        let next = front.0.giving_up(id, range);
        let all = s.giving_up_each(ids, range);
        let failed = if c.failed_segments.contains(range) {
            c
        } else {
            c.with_failed(range)
        };
        lemma_place_bounds(front.0.consumers, id);
        if id == c.req_id {
            assert(!few.contains(id)) by {
                if few.contains(id) {
                    let k = choose|k: int| 0 <= k < few.len() && few[k] == id;
                    assert(ids[k] == ids[ids.len() - 1]);
                }
            }
            lemma_replaced(front.0.consumers, id, failed);
            let mid = front.0.altered(id, failed);
            lemma_place_bounds(mid.consumers, id);
            lemma_replaced(mid.consumers, id, failed.done());
            if failed.satisfied() {
                assert(all.1[front.1.len() as int] == failed);
            }
        } else {
            if let Some(x) = consumer_at(front.0.consumers, id) {
                let y = if x.failed_segments.contains(range) {
                    x
                } else {
                    x.with_failed(range)
                };
                lemma_replaced_other(front.0.consumers, id, y, c.req_id);
                lemma_replaced(front.0.consumers, id, y);
                let mid = front.0.altered(id, y);
                lemma_place_bounds(mid.consumers, id);
                lemma_replaced_other(mid.consumers, id, y.done(), c.req_id);
            }
            if ids.contains(c.req_id) {
                let k = choose|k: int| 0 <= k < ids.len() && ids[k] == c.req_id;
                assert(few[k] == c.req_id);
            }
            if few.contains(c.req_id) {
                let k = choose|k: int| 0 <= k < few.len() && few[k] == c.req_id;
                assert(ids[k] == c.req_id);
            }
            if front.1.contains(failed) {
                let k = choose|k: int| 0 <= k < front.1.len() && front.1[k] == failed;
                assert(all.1[k] == failed);
            }
        }
    }
}

/// A range that failed for want of progress fails for each request that its job served, and for no
/// other one; those that then have all that they need are handed out.
pub proof fn law_stuck_ranges_fail_for_each(
    s: RuntimeView,
    ids: Seq<Uuid>,
    range: MarketDataRange,
    c: ConsumerView,
)
    requires
        ids.no_duplicates(),
        requests_distinct(s.consumers),
        s.consumers.contains(c),
        !c.failed_segments.contains(range),
        !c.completed,
    ensures
        ({
            let (after, told) = s.giving_up_each(ids, range);
            let failed = ConsumerView { failed_segments: c.failed_segments.push(range), ..c };
            &&& !ids.contains(c.req_id) ==> consumer_at(after.consumers, c.req_id) == Some(c)
            &&& ids.contains(c.req_id) ==> consumer_at(after.consumers, c.req_id) == Some(
                ConsumerView { completed: failed.satisfied(), ..failed },
            )
            &&& ids.contains(c.req_id) && failed.satisfied() ==> told.contains(failed)
            &&& after.coordinator == s.coordinator
        }),
{
    lemma_found(s.consumers, c);
    lemma_giving_up_each(s, ids, range, c);
}

} // verus!
