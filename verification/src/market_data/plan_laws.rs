//! Laws of groups, plans and the queue of jobs.

use vstd::prelude::*;
use crate::id_table::lookup;
use crate::market_data::consumer::{all_there, ConsumerSegmentStatus, ConsumerView};
use crate::market_data::coordinator::{
    active_of, first_waiting, is_active, latest_anywhere, next_taken, retained,
    CoordinatorView, Jobs,
};
use crate::market_data::coordinator_laws::{
    law_plan_fetches_what_is_missing, needed_at, network_at,
};
use crate::market_data::coverage::{
    complete_at, covered_at, empty_entry, failed_entry, latest_of, marked, missing_at,
    records_of, rows,
    EntryView, Facts,
};
use crate::market_data::coverage_laws::{
    law_complete_is_covered, law_incomplete_is_missing, law_other_marks_add_only_themselves,
    lemma_complete_covers, tidy,
};
use crate::market_data::job::{backoff_ms, FetchJobId, JobStatusView, JobView};
use crate::market_data::key::KeyView;
use crate::market_data::planner::{
    cached_for, cached_part, fetches_for, gathered, planned, with_consumers, CachedView,
};
use crate::market_data::range::{any_covers, missing, MarketDataRange};
use crate::market_data::range_laws::{
    law_fully_covered_iff_nothing_missing, law_intersection_exact, law_missing_exact,
    law_missing_in_order, law_nothing_missing_iff_covered,
};
use crate::market_data::requirement::{
    group_index, grouped, grouped_by_urgency, law_grouping, sums_up, with_consumer,
    with_requirement, ConsumerId, GroupView, RequirementView,
};
use crate::seqs::lemma_filter_map_has;
use crate::sorting::lemma_sorted;
use crate::time::UnixMs;

verus! {

/// The range of a group starts and ends with needs of the group.
pub open spec fn no_wider_than_needed(g: GroupView) -> bool {
    &&& exists|i: int|
        0 <= i < g.requirements.len() && (#[trigger] g.requirements[i]).range.from
            == g.merged_range.from
    &&& exists|i: int|
        0 <= i < g.requirements.len() && (#[trigger] g.requirements[i]).range.to
            == g.merged_range.to
}

proof fn lemma_with_no_wider(g: GroupView, r: RequirementView)
    requires
        no_wider_than_needed(g),
    ensures
        no_wider_than_needed(g.with(r)),
{
    let out = g.with(r);
    let n = g.requirements.len() as int;
    let i = choose|i: int|
        0 <= i < g.requirements.len() && (#[trigger] g.requirements[i]).range.from
            == g.merged_range.from;
    let j = choose|j: int|
        0 <= j < g.requirements.len() && (#[trigger] g.requirements[j]).range.to
            == g.merged_range.to;
    assert(out.requirements[i] == g.requirements[i]);
    assert(out.requirements[j] == g.requirements[j]);
    assert(out.requirements[n] == r);
}

proof fn lemma_grouped_no_wider(reqs: Seq<RequirementView>)
    ensures
        forall|i: int|
            0 <= i < grouped(reqs).len() ==> no_wider_than_needed(#[trigger] grouped(reqs)[i]),
    decreases reqs.len(),
{
    if reqs.len() > 0 {
        let front = reqs.drop_last();
        let r = reqs.last();
        lemma_grouped_no_wider(front);
        let gs = grouped(front);
        let at = group_index(gs, r.key);
        crate::market_data::coordinator::lemma_group_place(gs, r.key);
        let out = with_requirement(gs, r);
        assert forall|i: int| 0 <= i < out.len() implies no_wider_than_needed(
            #[trigger] out[i],
        ) by {
            if i < gs.len() {
                assert(no_wider_than_needed(gs[i]));
                if i == at {
                    lemma_with_no_wider(gs[i], r);
                }
            } else {
                let g = GroupView::single(r);
                assert(g.requirements[0] == r);
            }
        }
    }
}

/// A group asks for no more than its needs span: its range starts where one of them starts and ends
/// where one of them ends.
pub proof fn law_groups_are_no_wider_than_their_needs(reqs: Seq<RequirementView>, i: int)
    requires
        0 <= i < grouped_by_urgency(reqs).len(),
    ensures
        no_wider_than_needed(grouped_by_urgency(reqs)[i]),
{
    let gs = grouped(reqs);
    let out = grouped_by_urgency(reqs);
    lemma_grouped_no_wider(reqs);
    lemma_sorted(gs);
    assert(out.contains(out[i]));
    let k = choose|k: int| 0 <= k < gs.len() && gs[k] == out[i];
    assert(no_wider_than_needed(gs[k]));
}

/// The cached segments of a plan for one stream hold the millisecond `t`.
pub open spec fn cached_at(s: Seq<CachedView>, key: KeyView, t: int) -> bool {
    exists|i: int|
        0 <= i < s.len() && (#[trigger] s[i]).key == key && s[i].range.from.0 <= t < s[i].range.to.0
}

proof fn lemma_cached_for(g: GroupView, facts: Facts, t: int)
    requires
        g.merged_range.from.0 < g.merged_range.to.0,
    ensures
        cached_at(cached_for(g, facts), g.key, t) <==> g.merged_range.covers(t) && any_covers(
            complete_at(facts, g.key),
            t,
        ),
        forall|i: int|
            0 <= i < cached_for(g, facts).len() ==> (#[trigger] cached_for(g, facts)[i]).key
                == g.key,
{
    let rs = complete_at(facts, g.key);
    let out = cached_for(g, facts);
    let f = |r: MarketDataRange| cached_part(g, r);
    law_nothing_missing_iff_covered(g.merged_range, rs);
    if missing_at(facts, g.key, g.merged_range).len() == 0 {
        if g.merged_range.covers(t) {
            assert(out[0].key == g.key && out[0].range == g.merged_range);
        }
    } else {
        assert(out == rs.filter_map(f));
        assert forall|i: int| 0 <= i < out.len() implies (#[trigger] out[i]).key == g.key by {
            assert(out.contains(out[i]));
            rs.lemma_filter_map_contains(f, out[i]);
        }
        if cached_at(out, g.key, t) {
            let i = choose|i: int|
                0 <= i < out.len() && (#[trigger] out[i]).key == g.key && out[i].range.from.0 <= t
                    < out[i].range.to.0;
            assert(out.contains(out[i]));
            rs.lemma_filter_map_contains(f, out[i]);
            let r = choose|r: MarketDataRange| #[trigger] rs.contains(r) && f(r) == Some(out[i]);
            let k = choose|k: int| 0 <= k < rs.len() && rs[k] == r;
            law_intersection_exact(g.merged_range, r);
            assert(rs[k].covers(t));
        }
        if g.merged_range.covers(t) && any_covers(rs, t) {
            let k = choose|k: int| 0 <= k < rs.len() && (#[trigger] rs[k]).covers(t);
            law_intersection_exact(g.merged_range, rs[k]);
            assert(g.merged_range.crosses(rs[k]));
            lemma_filter_map_has(rs, f, k);
            let c = f(rs[k])->Some_0;
            let i = choose|i: int| 0 <= i < out.len() && out[i] == c;
            assert(out[i].key == g.key && out[i].range.covers(t));
        }
    }
}

proof fn lemma_gathered_cached(gs: Seq<GroupView>, facts: Facts, key: KeyView, t: int)
    requires
        forall|i: int|
            0 <= i < gs.len() ==> (#[trigger] gs[i]).merged_range.from.0 < gs[i].merged_range.to.0,
    ensures
        cached_at(gathered(gs, facts).cached, key, t) <==> needed_at(gs, key, t) && any_covers(
            complete_at(facts, key),
            t,
        ),
    decreases gs.len(),
{
    if gs.len() > 0 {
        let front = gs.drop_last();
        let g = gs.last();
        assert(gs[gs.len() - 1] == g);
        assert forall|i: int| 0 <= i < front.len() implies (#[trigger] front[i]).merged_range.from.0
            < front[i].merged_range.to.0 by {
            assert(front[i] == gs[i]);
        }
        lemma_gathered_cached(front, facts, key, t);
        lemma_cached_for(g, facts, t);
        let a = gathered(front, facts).cached;
        let b = cached_for(g, facts);
        if cached_at(a + b, key, t) {
            let i = choose|i: int|
                0 <= i < (a + b).len() && (#[trigger] (a + b)[i]).key == key && (a
                    + b)[i].range.from.0 <= t < (a + b)[i].range.to.0;
            if i < a.len() {
                assert(a[i] == (a + b)[i]);
                let k = choose|k: int|
                    0 <= k < front.len() && (#[trigger] front[k]).key == key
                        && front[k].merged_range.covers(t);
                assert(gs[k].key == key);
            } else {
                assert((a + b)[i] == b[i - a.len()]);
                assert(b[i - a.len()].key == g.key);
                assert(cached_at(b, g.key, t));
                assert(gs[gs.len() - 1].key == key);
            }
        }
        if needed_at(gs, key, t) && any_covers(complete_at(facts, key), t) {
            let k = choose|k: int|
                0 <= k < gs.len() && (#[trigger] gs[k]).key == key && gs[k].merged_range.covers(t);
            if k < front.len() {
                assert(front[k].key == key && front[k].merged_range.covers(t));
                let i = choose|i: int|
                    0 <= i < a.len() && (#[trigger] a[i]).key == key && a[i].range.from.0 <= t
                        < a[i].range.to.0;
                assert((a + b)[i] == a[i]);
            } else {
                let i = choose|i: int|
                    0 <= i < b.len() && (#[trigger] b[i]).key == key && b[i].range.from.0 <= t
                        < b[i].range.to.0;
                assert((a + b)[a.len() + i] == b[i]);
            }
        }
    }
}

/// A plan serves from the cache exactly what is needed and complete.
pub proof fn law_plan_serves_what_is_complete(
    gs: Seq<GroupView>,
    facts: Facts,
    key: KeyView,
    t: int,
)
    requires
        forall|i: int|
            0 <= i < gs.len() ==> (#[trigger] gs[i]).merged_range.from.0 < gs[i].merged_range.to.0,
    ensures
        cached_at(planned(gs, facts).cached, key, t) <==> needed_at(gs, key, t) && any_covers(
            complete_at(facts, key),
            t,
        ),
{
    lemma_gathered_cached(gs, facts, key, t);
}

proof fn lemma_with_consumers(s: Seq<ConsumerId>, more: Seq<ConsumerId>, c: ConsumerId)
    ensures
        with_consumers(s, more).contains(c) <==> s.contains(c) || more.contains(c),
        s.no_duplicates() ==> with_consumers(s, more).no_duplicates(),
    decreases more.len(),
{
    if more.len() > 0 {
        let few = more.drop_last();
        let last = more.last();
        lemma_with_consumers(s, few, c);
        let a = with_consumers(s, few);
        let b = with_consumer(a, last);
        assert(more[more.len() - 1] == last);
        if more.contains(c) {
            let k = choose|k: int| 0 <= k < more.len() && more[k] == c;
            if k < few.len() {
                assert(few[k] == c);
            }
        }
        if few.contains(c) {
            let k = choose|k: int| 0 <= k < few.len() && few[k] == c;
            assert(more[k] == c);
        }
        if !a.contains(last) {
            if b.contains(c) {
                let k = choose|k: int| 0 <= k < b.len() && b[k] == c;
                if k < a.len() {
                    assert(a[k] == c);
                }
            }
            if a.contains(c) {
                let k = choose|k: int| 0 <= k < a.len() && a[k] == c;
                assert(b[k] == c);
            }
            assert(b[a.len() as int] == last);
            if a.no_duplicates() {
                assert forall|i: int, j: int| 0 <= i < b.len() && 0 <= j < b.len() && i != j implies b[i]
                    != b[j] by {
                    if i < a.len() && j < a.len() {
                        assert(a[i] != a[j]);
                    } else if i < a.len() {
                        assert(a.contains(a[i]));
                    } else {
                        assert(a.contains(a[j]));
                    }
                }
            }
        }
    }
}

/// The consumers of a plan are those of its groups, each once.
pub proof fn law_plan_names_its_consumers(gs: Seq<GroupView>, facts: Facts, c: ConsumerId)
    ensures
        planned(gs, facts).consumers.contains(c) <==> exists|i: int|
            0 <= i < gs.len() && (#[trigger] gs[i]).consumers.contains(c),
        planned(gs, facts).consumers.no_duplicates(),
    decreases gs.len(),
{
    if gs.len() > 0 {
        let front = gs.drop_last();
        law_plan_names_its_consumers(front, facts, c);
        let a = gathered(front, facts).consumers;
        lemma_with_consumers(a, gs.last().consumers, c);
        if exists|i: int| 0 <= i < gs.len() && (#[trigger] gs[i]).consumers.contains(c) {
            let i = choose|i: int| 0 <= i < gs.len() && (#[trigger] gs[i]).consumers.contains(c);
            if i < front.len() {
                assert(front[i].consumers.contains(c));
            }
        }
        if a.contains(c) {
            let i = choose|i: int|
                0 <= i < front.len() && (#[trigger] front[i]).consumers.contains(c);
            assert(gs[i].consumers.contains(c));
        }
        if gs.last().consumers.contains(c) {
            assert(gs[gs.len() - 1].consumers.contains(c));
        }
    }
}

/// A planned fetch is for the consumers of its group and lies in its range.
pub proof fn law_planned_fetches_are_for_their_consumers(
    gs: Seq<GroupView>,
    facts: Facts,
    i: int,
)
    requires
        0 <= i < planned(gs, facts).network.len(),
        forall|k: int|
            0 <= k < gs.len() ==> (#[trigger] gs[k]).merged_range.from.0 < gs[k].merged_range.to.0,
    ensures
        ({
            let n = planned(gs, facts).network[i];
            &&& n.range.from.0 < n.range.to.0
            &&& exists|k: int|
                0 <= k < gs.len() && (#[trigger] gs[k]).key == n.key && gs[k].consumers
                    == n.consumers && gs[k].merged_range.from.0 <= n.range.from.0 && n.range.to.0
                    <= gs[k].merged_range.to.0
        }),
    decreases gs.len(),
{
    assert(gs.len() > 0);
    let front = gs.drop_last();
    let g = gs.last();
    assert(gs[gs.len() - 1] == g);
    let a = gathered(front, facts).network;
    let b = fetches_for(g, facts);
    let n = planned(gs, facts).network[i];
    if i < a.len() {
        assert forall|k: int| 0 <= k < front.len() implies (#[trigger] front[k]).merged_range.from.0
            < front[k].merged_range.to.0 by {
            assert(front[k] == gs[k]);
        }
        assert(planned(front, facts).network[i] == n);
        law_planned_fetches_are_for_their_consumers(front, facts, i);
        let k = choose|k: int|
            0 <= k < front.len() && (#[trigger] front[k]).key == n.key && front[k].consumers
                == n.consumers && front[k].merged_range.from.0 <= n.range.from.0 && n.range.to.0
                <= front[k].merged_range.to.0;
        assert(gs[k] == front[k]);
    } else {
        let m = missing_at(facts, g.key, g.merged_range);
        assert(n == b[i - a.len()]);
        law_missing_in_order(g.merged_range, complete_at(facts, g.key));
        let r = m[i - a.len()];
        assert(n.range == r && r.valid());
        let lo = r.from.0 as int;
        let hi = r.to.0 - 1;
        assert(r.covers(lo) && r.covers(hi));
        assert(any_covers(m, lo) && any_covers(m, hi));
        law_missing_exact(g.merged_range, complete_at(facts, g.key), lo);
        law_missing_exact(g.merged_range, complete_at(facts, g.key), hi);
    }
}

/// A range counts as covered exactly when each instant of it lies in a range that was fetched in
/// full, and what is missing of it is what does not.
pub proof fn law_covered_is_complete(facts: Facts, key: KeyView, range: MarketDataRange, t: int)
    requires
        range.from.0 < range.to.0,
        tidy(rows(facts, key)),
    ensures
        covered_at(facts, key, range) <==> forall|u: int|
            range.from.0 <= u < range.to.0 ==> #[trigger] fetched_in_full(facts, key, u),
        any_covers(missing_at(facts, key, range), t) <==> range.from.0 <= t < range.to.0
            && !fetched_in_full(facts, key, t),
{
    let rs = complete_at(facts, key);
    lemma_complete_covers(rows(facts, key), 0);
    law_fully_covered_iff_nothing_missing(range, rs);
    law_nothing_missing_iff_covered(range, rs);
    assert forall|u: int| #[trigger] any_covers(rs, u) <==> fetched_in_full(facts, key, u) by {
        lemma_complete_covers(rows(facts, key), u);
        lemma_fetched_in_full(facts, key, u);
    }
    law_missing_exact(range, rs, t);
    if forall|u: int|
        range.from.0 <= u < range.to.0 ==> #[trigger] fetched_in_full(facts, key, u) {
        assert forall|u: int| range.covers(u) implies #[trigger] any_covers(rs, u) by {
            assert(fetched_in_full(facts, key, u));
        }
    }
    if covered_at(facts, key, range) {
        assert forall|u: int| range.from.0 <= u < range.to.0 implies #[trigger] fetched_in_full(
            facts,
            key,
            u,
        ) by {
            assert(range.covers(u));
            assert(any_covers(rs, u));
        }
    }
    assert(any_covers(rs, t) <==> fetched_in_full(facts, key, t));
}

/// An instant of a stream lies in a range that was fetched in full.
pub open spec fn fetched_in_full(facts: Facts, key: KeyView, t: int) -> bool {
    facts.contains_key(key) && exists|i: int|
        0 <= i < facts[key].len() && (#[trigger] facts[key][i]).status is Complete
            && facts[key][i].range.from.0 <= t < facts[key][i].range.to.0
}

proof fn lemma_fetched_in_full(facts: Facts, key: KeyView, t: int)
    ensures
        fetched_in_full(facts, key, t) <==> crate::market_data::coverage_laws::complete_covers(
            rows(facts, key),
            t,
        ),
{
    let s = rows(facts, key);
    if fetched_in_full(facts, key, t) {
        let i = choose|i: int|
            0 <= i < facts[key].len() && (#[trigger] facts[key][i]).status is Complete
                && facts[key][i].range.from.0 <= t < facts[key][i].range.to.0;
        assert(s[i].status is Complete && s[i].range.covers(t));
    }
    if crate::market_data::coverage_laws::complete_covers(s, t) {
        let i = choose|i: int|
            0 <= i < s.len() && (#[trigger] s[i]).status is Complete && s[i].range.covers(t);
        assert(facts[key][i].status is Complete);
    }
}

/// Tells jobs that wait or fetch.
pub open spec fn waiting_or_fetching() -> spec_fn((FetchJobId, JobView)) -> bool {
    |row: (FetchJobId, JobView)| row.1.status is Pending || row.1.status is InProgress
}

/// A job of the queue waits for its turn.
pub open spec fn waits(c: CoordinatorView, id: FetchJobId) -> bool {
    lookup(c.jobs, id) matches Some(j) && j.status is Pending
}

proof fn lemma_first_waiting(queue: Seq<FetchJobId>, c: CoordinatorView)
    ensures
        0 <= first_waiting(queue, c.jobs) <= queue.len(),
        forall|k: int|
            0 <= k < first_waiting(queue, c.jobs) ==> !waits(c, #[trigger] queue[k]),
        first_waiting(queue, c.jobs) < queue.len() ==> waits(
            c,
            queue[first_waiting(queue, c.jobs)],
        ),
    decreases queue.len(),
{
    if queue.len() > 0 && !waits(c, queue[0]) {
        let rest = queue.skip(1);
        lemma_first_waiting(rest, c);
        let n = first_waiting(rest, c.jobs);
        assert forall|k: int| 0 <= k < n + 1 implies !waits(c, #[trigger] queue[k]) by {
            if k > 0 {
                assert(rest[k - 1] == queue[k]);
            }
        }
        if n < rest.len() {
            assert(rest[n] == queue[n + 1]);
        }
    }
}

/// The next job is the first one of the queue that waits, as long as fewer jobs are active than
/// may be. It leaves the queue with those before it; nothing else changes.
pub proof fn law_next_job_is_the_first_that_waits(c: CoordinatorView)
    ensures
        ({
            let (after, job) = next_taken(c);
            let busy = c.jobs.filter(waiting_or_fetching()).len() >= c.max_concurrent_jobs;
            &&& after == (CoordinatorView { queue: after.queue, ..c })
            &&& busy ==> job is None && after.queue == c.queue
            &&& job is Some <==> !busy && exists|i: int|
                0 <= i < c.queue.len() && waits(c, #[trigger] c.queue[i])
            &&& job matches Some(j) ==> exists|i: int|
                0 <= i < c.queue.len() && lookup(c.jobs, #[trigger] c.queue[i]) == Some(j)
                    && j.status is Pending && after.queue == c.queue.skip(i + 1) && forall|k: int|
                    0 <= k < i ==> !waits(c, #[trigger] c.queue[k])
            &&& job is None && !busy ==> after.queue.len() == 0
        }),
{
    assert(is_active() =~= waiting_or_fetching());
    lemma_first_waiting(c.queue, c);
    let i = first_waiting(c.queue, c.jobs);
    if i < c.queue.len() {
        assert(waits(c, c.queue[i]));
        assert(lookup(c.jobs, c.queue[i]) is Some);
    }
}

/// Jobs that wait or fetch stay, however old; one that ended stays as long as it is not older than
/// the limit.
pub proof fn law_only_old_jobs_go(
    jobs: Jobs,
    now: u64,
    retention_ms: u64,
    row: (FetchJobId, JobView),
)
    ensures
        retained(jobs, now, retention_ms).contains(row) <==> jobs.contains(row) && (
        row.1.status is Pending || row.1.status is InProgress || row.1.created_at + retention_ms
            >= now),
{
    let p = |row: (FetchJobId, JobView)|
        row.1.status.active() || now - row.1.created_at <= retention_ms;
    let out = retained(jobs, now, retention_ms);
    assert(out == jobs.filter(p));
    if out.contains(row) {
        let i = choose|i: int| 0 <= i < out.len() && out[i] == row;
        jobs.lemma_filter_contains_rev(p, row);
        jobs.lemma_filter_pred(p, i);
    }
    if jobs.contains(row) && p(row) {
        let i = choose|i: int| 0 <= i < jobs.len() && jobs[i] == row;
        jobs.lemma_filter_contains(p, i);
    }
}

/// The wait after a failure is two and a half seconds after the first two, doubles with each
/// further one, and stays at eighty seconds.
pub proof fn law_backoff_doubles(n: u32)
    ensures
        n <= 1 ==> backoff_ms(n) == 2_500,
        1 <= n < 6 ==> backoff_ms((n + 1) as u32) == 2 * backoff_ms(n),
        n >= 6 ==> backoff_ms(n) == 80_000,
{
    reveal(vstd::arithmetic::power::pow);
    reveal_with_fuel(vstd::arithmetic::power::pow, 7);
}

/// A job that failed may be tried again once its wait is over, and not before. Nothing but its
/// status and its count of attempts changes.
pub proof fn law_failed_jobs_wait(j: JobView, error: Seq<char>, now: u64, later: u64)
    requires
        now + backoff_ms(j.attempts) <= u64::MAX,
    ensures
        j.failed(error, now).retryable(later) <==> later >= now + backoff_ms(j.attempts),
        j.failed(error, now).status == (JobStatusView::Failed {
            error,
            retry_at: Some((now + backoff_ms(j.attempts)) as u64),
        }),
        j.attempts < u32::MAX ==> j.failed(error, now).attempts == j.attempts + 1,
        j.failed(error, now) == (JobView {
            status: j.failed(error, now).status,
            attempts: j.failed(error, now).attempts,
            ..j
        }),
        !(j.status is Failed) ==> !j.retryable(later),
{
    law_backoff_doubles(1);
    law_backoff_doubles(2);
    law_backoff_doubles(3);
    law_backoff_doubles(4);
    law_backoff_doubles(j.attempts);
}

/// The range of a job that failed counts as failed, not as covered, and its job and everything else
/// stays.
pub proof fn law_failed_ranges_are_not_covered(
    c: CoordinatorView,
    id: FetchJobId,
    j: JobView,
    error: Seq<char>,
)
    requires
        lookup(c.jobs, id) == Some(j),
        j.range.from.0 < j.range.to.0,
        tidy(rows(c.facts, j.key)),
    ensures
        ({
            let after = c.with_failure(id, error);
            &&& after == (CoordinatorView { facts: after.facts, ..c })
            &&& !covered_at(after.facts, j.key, j.range)
            &&& exists|e: EntryView| #[trigger]
                rows(after.facts, j.key).contains(e) && e.range == j.range && e.status is Failed
        }),
{
    let e = failed_entry(j.range, error, None);
    law_incomplete_is_missing(c.facts, j.key, e);
    law_other_marks_add_only_themselves(rows(c.facts, j.key), e, e);
    assert(rows(marked(c.facts, j.key, e), j.key).contains(e));
}

/// The latest end of what was fetched in full is the end of such a range, and none ends later.
pub proof fn law_latest_end_of_coverage(s: Seq<EntryView>)
    ensures
        match latest_of(s) {
            Some(t) => {
                &&& exists|i: int|
                    0 <= i < s.len() && (#[trigger] s[i]).status is Complete && s[i].range.to == t
                &&& forall|i: int|
                    0 <= i < s.len() && (#[trigger] s[i]).status is Complete ==> s[i].range.to.0
                        <= t.0
            },
            None => forall|i: int| 0 <= i < s.len() ==> !((#[trigger] s[i]).status is Complete),
        },
    decreases s.len(),
{
    if s.len() > 0 {
        let front = s.drop_last();
        law_latest_end_of_coverage(front);
        let n = s.len() - 1;
        assert(s[n] == s.last());
        match latest_of(s) {
            Some(t) => {
                assert forall|i: int|
                    0 <= i < s.len() && (#[trigger] s[i]).status is Complete implies s[i].range.to.0
                    <= t.0 by {
                    if i < n {
                        assert(front[i] == s[i]);
                    }
                }
                if !(s[n].status is Complete && s[n].range.to == t) {
                    let i = choose|i: int|
                        0 <= i < front.len() && (#[trigger] front[i]).status is Complete
                            && front[i].range.to == t;
                    assert(s[i] == front[i]);
                }
            },
            None => {
                assert forall|i: int| 0 <= i < s.len() implies !((
                #[trigger] s[i]).status is Complete) by {
                    if i < n {
                        assert(front[i] == s[i]);
                    }
                }
            },
        }
    }
}

/// A job without records shows that there are no candles and no readings in its range, which then
/// counts as empty. Of trades there may be none in a range that was fetched in full.
pub proof fn law_jobs_without_records(c: CoordinatorView, id: FetchJobId, j: JobView)
    requires
        lookup(c.jobs, id) == Some(j),
        j.range.from.0 < j.range.to.0,
        tidy(rows(c.facts, j.key)),
    ensures
        j.key.kind is Trades ==> covered_at(c.with_completed(id, 0).facts, j.key, j.range),
        !(j.key.kind is Trades) ==> !covered_at(c.with_completed(id, 0).facts, j.key, j.range),
        !covered_at(c.with_emptied(id).facts, j.key, j.range),
        c.with_completed(id, 0).store == c.store && c.with_completed(id, 0).queue == c.queue,
        lookup(c.with_completed(id, 0).jobs, id) == Some(
            JobView { status: JobStatusView::Completed { records: 0 }, ..j },
        ),
        c.with_emptied(id) == (CoordinatorView { facts: c.with_emptied(id).facts, ..c }),
{
    law_incomplete_is_missing(c.facts, j.key, empty_entry(j.range));
    law_complete_is_covered(c.facts, j.key, j.range, 0, j.range);
    crate::market_data::coordinator::lemma_put_lookup(
        c.jobs,
        id,
        JobView { status: JobStatusView::Completed { records: 0 }, ..j },
    );
}

/// What is told of the progress names exactly the jobs that wait or fetch, and how many records
/// came from the cache and from exchanges.
pub proof fn law_progress_names_active_jobs(
    c: CoordinatorView,
    t: Option<UnixMs>,
    j: JobView,
)
    ensures
        c.progress(t).active_jobs.contains(j) <==> exists|i: int|
            0 <= i < c.jobs.len() && (#[trigger] c.jobs[i]).1 == j && (j.status is Pending
                || j.status is InProgress),
        c.progress(t).total_fetched_records == c.fetched_received,
        c.progress(t).total_cached_records == c.cached_served,
        c.progress(t).covered_until == t,
{
    let act = active_of(c.jobs);
    let js = c.progress(t).active_jobs;
    if js.contains(j) {
        let k = choose|k: int| 0 <= k < js.len() && js[k] == j;
        assert(act[k].1 == j);
        c.jobs.lemma_filter_pred(is_active(), k);
        assert(act.contains(act[k]));
        c.jobs.lemma_filter_contains_rev(is_active(), act[k]);
        let i = choose|i: int| 0 <= i < c.jobs.len() && c.jobs[i] == act[k];
        assert(c.jobs[i].1 == j);
    }
    if exists|i: int|
        0 <= i < c.jobs.len() && (#[trigger] c.jobs[i]).1 == j && (j.status is Pending
            || j.status is InProgress) {
        let i = choose|i: int|
            0 <= i < c.jobs.len() && (#[trigger] c.jobs[i]).1 == j && (j.status is Pending
                || j.status is InProgress);
        c.jobs.lemma_filter_contains(is_active(), i);
        let k = choose|k: int| 0 <= k < act.len() && act[k] == c.jobs[i];
        assert(js[k] == j);
    }
}

/// A new job waits, has brought nothing and was never tried.
pub proof fn law_new_jobs_wait(
    id: FetchJobId,
    key: KeyView,
    range: MarketDataRange,
    consumers: Seq<ConsumerId>,
    created_at: u64,
)
    ensures
        ({
            let j = JobView::pending(id, key, range, consumers, created_at);
            &&& j.id == id && j.key == key && j.range == range && j.consumers == consumers
                && j.created_at == created_at
            &&& j.status is Pending
            &&& j.attempts == 0
            &&& j.progress.records_fetched == 0 && j.progress.until_time is None
                && j.progress.bytes_downloaded == 0
        }),
{
}

/// The latest end of coverage that is told is that of a stream, and no stream reaches further.
pub proof fn law_latest_end_anywhere(facts: Facts, t: Option<UnixMs>, key: KeyView, i: int)
    requires
        latest_anywhere(facts, t),
        facts.contains_key(key),
        0 <= i < facts[key].len(),
        facts[key][i].status is Complete,
    ensures
        t matches Some(u) && facts[key][i].range.to.0 <= u.0,
        t matches Some(u) && exists|k: KeyView, j: int|
            #![trigger facts[k][j]]
            facts.contains_key(k) && 0 <= j < facts[k].len() && facts[k][j].status is Complete
                && facts[k][j].range.to == u,
{
    law_latest_end_of_coverage(facts[key]);
    let u = t->Some_0;
    let k = choose|k: KeyView| facts.contains_key(k) && #[trigger] latest_of(facts[k]) == Some(u);
    law_latest_end_of_coverage(facts[k]);
    let j = choose|j: int|
        0 <= j < facts[k].len() && (#[trigger] facts[k][j]).status is Complete
            && facts[k][j].range.to == u;
    assert(facts.contains_key(k) && facts[k][j].status is Complete);
}

/// How far a request has got is told in full: how many of its planned segments have arrived
/// without a gap, how many there are, and what is missing.
pub proof fn law_status_counts_segments(c: ConsumerView, s: ConsumerSegmentStatus)
    requires
        c.has_status(s),
    ensures
        s.total_logical == c.required_segments.len(),
        s.completed_logical <= s.total_logical,
        s.coverage_complete <==> s.missing@.len() == 0,
        s.missing@ == c.gaps(),
        (forall|i: int|
            0 <= i < c.required_segments.len() ==> missing(
                #[trigger] c.required_segments[i],
                c.completed_segments,
            ).len() == 0) ==> s.completed_logical == s.total_logical,
{
    let p = all_there(c.completed_segments);
    c.required_segments.lemma_filter_len(p);
    if forall|i: int|
        0 <= i < c.required_segments.len() ==> missing(
            #[trigger] c.required_segments[i],
            c.completed_segments,
        ).len() == 0 {
        lemma_filter_all(c.required_segments, p);
    }
}

proof fn lemma_filter_all<A>(s: Seq<A>, p: spec_fn(A) -> bool)
    requires
        forall|i: int| 0 <= i < s.len() ==> p(#[trigger] s[i]),
    ensures
        s.filter(p) == s,
    decreases s.len(),
{
    reveal(Seq::filter);
    if s.len() > 0 {
        let front = s.drop_last();
        assert forall|i: int| 0 <= i < front.len() implies p(#[trigger] front[i]) by {
            assert(front[i] == s[i]);
        }
        lemma_filter_all(front, p);
        assert(p(s[s.len() - 1]));
        assert(front.push(s.last()) =~= s);
    } else {
        assert(s.filter(p) =~= s);
    }
}

/// Planning takes up each need that waits: what it asks for is fetched where it is not complete,
/// and served from the cache where it is. Nothing waits afterwards.
pub proof fn law_each_need_is_planned(c: CoordinatorView, k: int, t: int)
    requires
        0 <= k < c.pending.len(),
        forall|i: int|
            0 <= i < c.pending.len() ==> (#[trigger] c.pending[i]).range.from.0
                < c.pending[i].range.to.0,
        c.pending[k].range.from.0 <= t < c.pending[k].range.to.0,
        tidy(rows(c.facts, c.pending[k].key)),
    ensures
        c.with_plan().pending.len() == 0,
        c.with_plan().plan is Some,
        fetched_in_full(c.facts, c.pending[k].key, t) ==> cached_at(
            c.with_plan().plan->Some_0.cached,
            c.pending[k].key,
            t,
        ),
        !fetched_in_full(c.facts, c.pending[k].key, t) ==> network_at(
            c.with_plan().plan->Some_0.network,
            c.pending[k].key,
            t,
        ),
        c.with_plan().jobs == c.jobs && c.with_plan().facts == c.facts && c.with_plan().store
            == c.store && c.with_plan().queue == c.queue,
{
    let r = c.pending[k];
    let gs = grouped_by_urgency(c.pending);
    law_grouping(c.pending);
    let i = choose|i: int| 0 <= i < gs.len() && (#[trigger] gs[i]).key == r.key;
    let g = gs[i];
    assert(sums_up(g, c.pending));
    let p = |x: RequirementView| x.key == g.key;
    assert(g.requirements == c.pending.filter(p));
    c.pending.lemma_filter_contains(p, k);
    let m = choose|m: int| 0 <= m < g.requirements.len() && g.requirements[m] == r;
    assert(g.merged_range.encloses(g.requirements[m].range));
    assert(g.merged_range.covers(t));
    assert(needed_at(gs, r.key, t));
    assert forall|x: int| 0 <= x < gs.len() implies (#[trigger] gs[x]).merged_range.from.0
        < gs[x].merged_range.to.0 by {
        assert(sums_up(gs[x], c.pending));
        let q = |y: RequirementView| y.key == gs[x].key;
        assert(gs[x].requirements == c.pending.filter(q));
        let first = gs[x].requirements[0];
        assert(gs[x].merged_range.encloses(first.range));
        assert(c.pending.filter(q).contains(first));
        c.pending.lemma_filter_contains_rev(q, first);
        let y = choose|y: int| 0 <= y < c.pending.len() && c.pending[y] == first;
        assert(c.pending[y].range.from.0 < c.pending[y].range.to.0);
    }
    law_plan_fetches_what_is_missing(gs, c.facts, r.key, t);
    law_plan_serves_what_is_complete(gs, c.facts, r.key, t);
    lemma_complete_covers(rows(c.facts, r.key), t);
    lemma_fetched_in_full(c.facts, r.key, t);
}

/// A plan expects five thousand records of each fetch.
pub proof fn law_records_expected(gs: Seq<GroupView>, facts: Facts)
    ensures
        planned(gs, facts).network.len() * 5_000 <= usize::MAX ==> planned(gs, facts).estimate
            == planned(gs, facts).network.len() * 5_000,
{
}

/// Only ranges that were fetched in full count, each with its records.
pub proof fn law_records_of_coverage_add_up(s: Seq<EntryView>, e: EntryView, n: usize)
    ensures
        records_of(Seq::empty()) == 0,
        e.status is Complete && e.record_count == Some(n) ==> records_of(s.push(e)) == records_of(s)
            + n,
        !(e.status is Complete) || e.record_count is None ==> records_of(s.push(e)) == records_of(
            s,
        ),
{
    assert(s.push(e).drop_last() =~= s);
}

} // verus!
