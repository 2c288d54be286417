//! Laws of carrying out a plan.

use vstd::prelude::*;
use crate::id_table::{holds, lookup, put};
use crate::market_data::coordinator::{
    active_of, active_stretches, carried_out, created, decision_on, decisions, due_decisions,
    fetch_target, fetched_by, fetches_of, is_active, negligible, network_roundable, on_stream,
    ranges_for, roundable, segment_decisions, suppressed, CoordinatorView, DecisionView, Jobs,
    Stretch,
};
use crate::market_data::coordinator_laws::{
    apart, busy_at, law_no_double_fetch, lemma_created, lemma_fetches_concat,
    lemma_ranges_for_valid, network_valid, stretches_valid,
};
use crate::market_data::coverage::{
    complete_at, empty_entry, missing_at, rows, EntryView, Facts,
};
use crate::market_data::coverage_laws::{
    law_marking_keeps_tidy, law_other_marks_add_only_themselves, tidy,
};
use crate::market_data::job::{FetchJobId, JobView};
use crate::market_data::key::{KeyView, MarketDataKind};
use crate::market_data::planner::{fetches_for, gathered, planned, NetworkView};
use crate::market_data::range::{aligned, all_valid, any_covers, missing, MarketDataRange};
use crate::market_data::range_laws::{
    law_alignment, law_missing_exact, law_missing_in_order, law_missing_separated,
};
use crate::market_data::requirement::{
    distinct_groups, grouped_by_urgency, law_grouping, sums_up, GroupView, RequirementView,
};

verus! {

/// The jobs that carrying out decisions adds to the others.
pub open spec fn adds_jobs(jobs: Jobs, ids: Seq<FetchJobId>, after: Jobs) -> bool {
    &&& after.len() == jobs.len() + ids.len()
    &&& after.take(jobs.len() as int) == jobs
    &&& forall|i: int|
        0 <= i < ids.len() ==> (#[trigger] after[jobs.len() + i]).0 == ids[i] && after[jobs.len()
            + i].1.status is Pending
}

proof fn lemma_created_rows(
    jobs: Jobs,
    ds: Seq<DecisionView>,
    ids: Seq<FetchJobId>,
    times: Seq<u64>,
)
    requires
        ids.len() == fetches_of(ds).len(),
        times.len() == ids.len(),
        ids.no_duplicates(),
        forall|i: int| 0 <= i < ids.len() ==> !holds(jobs, #[trigger] ids[i]),
    ensures
        adds_jobs(jobs, ids, created(jobs, ds, ids, times)),
    decreases ds.len(),
{
    reveal(Seq::filter_map);
    let out = created(jobs, ds, ids, times);
    if ds.len() == 0 {
        assert(out.take(jobs.len() as int) =~= jobs);
    } else {
        let front = ds.drop_last();
        match ds.last() {
            DecisionView::Suppress { key, range } => {
                assert(fetches_of(ds) == fetches_of(front));
                lemma_created_rows(jobs, front, ids, times);
            },
            DecisionView::Fetch { key, range, consumers } => {
                assert(fetches_of(ds) =~= fetches_of(front).push((key, range)));
                let fewer = ids.drop_last();
                let id = ids.last();
                assert forall|i: int| 0 <= i < fewer.len() implies !holds(
                    jobs,
                    #[trigger] fewer[i],
                ) by {
                    assert(fewer[i] == ids[i]);
                }
                lemma_created_rows(jobs, front, fewer, times.drop_last());
                let before = created(jobs, front, fewer, times.drop_last());
                if holds(before, id) {
                    let k = choose|k: int| 0 <= k < before.len() && (#[trigger] before[k]).0 == id;
                    if k < jobs.len() {
                        assert(before.take(jobs.len() as int)[k] == before[k]);
                        assert(jobs[k].0 == id);
                        assert(holds(jobs, ids[ids.len() - 1]));
                    } else {
                        assert(before[jobs.len() + (k - jobs.len())].0 == fewer[k - jobs.len()]);
                        assert(ids[k - jobs.len()] == ids[ids.len() - 1]);
                    }
                }
                assert(out.take(jobs.len() as int) =~= before.take(jobs.len() as int));
                assert forall|i: int| 0 <= i < ids.len() implies (
                #[trigger] out[jobs.len() + i]).0 == ids[i] && out[jobs.len()
                    + i].1.status is Pending by {
                    if i < fewer.len() {
                        assert(out[jobs.len() + i] == before[jobs.len() + i]);
                    }
                }
            },
        }
    }
}

/// Each job that a plan asks for is there once the plan was carried out, where the new identifiers
/// are new: it waits in the queue, no other job has gone or changed, and the jobs that are active
/// are as many more.
pub proof fn law_plan_adds_jobs(c: CoordinatorView, ids: Seq<FetchJobId>, after: CoordinatorView)
    requires
        carried_out(c, due_decisions(c), ids, after),
        ids.no_duplicates(),
        forall|i: int| 0 <= i < ids.len() ==> !holds(c.jobs, #[trigger] ids[i]),
    ensures
        adds_jobs(c.jobs, ids, after.jobs),
        active_of(after.jobs).len() == active_of(c.jobs).len() + ids.len(),
        after.queue == c.queue + ids,
        after.store == c.store,
        after.pending == c.pending,
        forall|i: int|
            0 <= i < ids.len() ==> (lookup(after.jobs, #[trigger] ids[i]) matches Some(j)
                && j.status is Pending),
{
    let ds = due_decisions(c);
    let times = choose|times: Seq<u64>|
        times.len() == ids.len() && after == (CoordinatorView {
            facts: suppressed(c.facts, ds),
            jobs: #[trigger] created(c.jobs, ds, ids, times),
            queue: c.queue + ids,
            ..c
        });
    lemma_created(c.jobs, ds, ids, times);
    lemma_created_rows(c.jobs, ds, ids, times);
    assert(active_stretches(after.jobs).len() == active_of(after.jobs).len());
    assert(active_stretches(c.jobs).len() == active_of(c.jobs).len());
    let n = c.jobs.len();
    assert forall|i: int| 0 <= i < ids.len() implies (lookup(
        after.jobs,
        #[trigger] ids[i],
    ) matches Some(j) && j.status is Pending) by {
        assert(after.jobs[n + i].0 == ids[i]);
        assert(holds(after.jobs, ids[i]));
        let k = choose|k: int|
            0 <= k < after.jobs.len() && (#[trigger] after.jobs[k]).0 == ids[i];
        if k < n {
            assert(after.jobs.take(n as int)[k] == after.jobs[k]);
            assert(c.jobs[k].0 == ids[i]);
            assert(holds(c.jobs, ids[i]));
        } else {
            assert(after.jobs[n + (k - n)].0 == ids[k - n]);
        }
    }
}

/// The planned segments of a stream without candles share nothing.
pub open spec fn trade_segments_apart(s: Seq<NetworkView>) -> bool {
    forall|i: int, j: int|
        0 <= i < j < s.len() && (#[trigger] s[i]).key == (#[trigger] s[j]).key
            && s[i].key.kind.candle() is None ==> !s[i].range.crosses(s[j].range)
}

/// A stretch of `key` holds the millisecond `t`.
spec fn held(s: Seq<Stretch>, key: KeyView, t: int) -> bool {
    exists|i: int| 0 <= i < s.len() && (#[trigger] s[i]).0 == key && s[i].1.covers(t)
}

proof fn lemma_held(s: Seq<Stretch>, key: KeyView, t: int)
    ensures
        busy_at(s, key, t) <==> held(s, key, t),
{
    let p = on_stream(key);
    let kept = s.filter(p);
    let rs = ranges_for(s, key);
    if busy_at(s, key, t) {
        let i = choose|i: int| 0 <= i < rs.len() && (#[trigger] rs[i]).covers(t);
        assert(rs[i] == kept[i].1);
        s.lemma_filter_pred(p, i);
        assert(kept.contains(kept[i]));
        s.lemma_filter_contains_rev(p, kept[i]);
        let k = choose|k: int| 0 <= k < s.len() && s[k] == kept[i];
        assert(s[k].0 == key && s[k].1.covers(t));
    }
    if held(s, key, t) {
        let k = choose|k: int| 0 <= k < s.len() && (#[trigger] s[k]).0 == key && s[k].1.covers(t);
        s.lemma_filter_contains(p, k);
        let i = choose|i: int| 0 <= i < kept.len() && kept[i] == s[k];
        assert(rs[i].covers(t));
    }
}

/// What is fetched for a segment is a missing part of its range that is worth a fetch.
proof fn lemma_fetch_is_part(seg: NetworkView, base: Seq<MarketDataRange>, x: Stretch) -> (m: int)
    requires
        fetches_of(segment_decisions(seg, base)).contains(x),
    ensures
        fetch_target(seg) is Some,
        x.0 == seg.key,
        0 <= m < missing(fetch_target(seg)->Some_0, base).len(),
        missing(fetch_target(seg)->Some_0, base)[m] == x.1,
        !negligible(seg.key.kind, x.1),
{
    let ds = segment_decisions(seg, base);
    let f = |d: DecisionView| fetched_by(d);
    ds.lemma_filter_map_contains(f, x);
    let d = choose|d: DecisionView| #[trigger] ds.contains(d) && f(d) == Some(x);
    let m = choose|m: int| 0 <= m < ds.len() && ds[m] == d;
    match fetch_target(seg) {
        None => {
            assert(d == ds[0]);
        },
        Some(target) => {
            assert(d == decision_on(seg, missing(target, base)[m]));
        },
    }
    m
}

proof fn lemma_filter_map_holds(ds: Seq<DecisionView>, m: int)
    requires
        0 <= m < ds.len(),
        fetched_by(ds[m]) is Some,
    ensures
        fetches_of(ds).contains(fetched_by(ds[m])->Some_0),
    decreases ds.len(),
{
    reveal(Seq::filter_map);
    let front = ds.drop_last();
    let x = fetched_by(ds[m])->Some_0;
    if m < front.len() {
        lemma_filter_map_holds(front, m);
        let k = choose|k: int| 0 <= k < fetches_of(front).len() && fetches_of(front)[k] == x;
        assert(fetches_of(ds)[k] == x);
    } else {
        assert(fetches_of(ds).last() == x);
        assert(fetches_of(ds)[fetches_of(ds).len() - 1] == x);
    }
}

/// A missing part of a segment that is worth a fetch is fetched.
proof fn lemma_part_is_fetched(seg: NetworkView, base: Seq<MarketDataRange>, m: int)
    requires
        fetch_target(seg) is Some,
        0 <= m < missing(fetch_target(seg)->Some_0, base).len(),
        !negligible(seg.key.kind, missing(fetch_target(seg)->Some_0, base)[m]),
    ensures
        fetches_of(segment_decisions(seg, base)).contains(
            (seg.key, missing(fetch_target(seg)->Some_0, base)[m]),
        ),
{
    let ds = segment_decisions(seg, base);
    assert(ds[m] == decision_on(seg, missing(fetch_target(seg)->Some_0, base)[m]));
    lemma_filter_map_holds(ds, m);
}

/// What the first `n` segments of a plan lead to.
spec fn first_decisions(segs: Seq<NetworkView>, busy: Seq<Stretch>, n: int) -> Seq<DecisionView> {
    decisions(segs.take(n), busy)
}

/// The ranges that are busy when the decision on segment `n` is made.
spec fn busy_before(segs: Seq<NetworkView>, busy: Seq<Stretch>, n: int) -> Seq<MarketDataRange> {
    ranges_for(busy + fetches_of(first_decisions(segs, busy, n)), segs[n].key)
}

proof fn lemma_next_fetches(segs: Seq<NetworkView>, busy: Seq<Stretch>, n: int)
    requires
        0 <= n < segs.len(),
    ensures
        fetches_of(first_decisions(segs, busy, n + 1)) == fetches_of(
            first_decisions(segs, busy, n),
        ) + fetches_of(segment_decisions(segs[n], busy_before(segs, busy, n))),
{
    let more = segs.take(n + 1);
    assert(more.drop_last() =~= segs.take(n));
    assert(more.last() == segs[n]);
    lemma_fetches_concat(
        first_decisions(segs, busy, n),
        segment_decisions(segs[n], busy_before(segs, busy, n)),
    );
}

/// A stretch is a part of what is fetched for some segment from `k` on, but before `n`.
spec fn stems_from(segs: Seq<NetworkView>, k: int, n: int, x: Stretch) -> bool {
    exists|j: int|
        k <= j < n && (#[trigger] segs[j]).key == x.0 && (fetch_target(segs[j]) matches Some(target)
            && target.encloses(x.1))
}

proof fn lemma_later_fetches(segs: Seq<NetworkView>, busy: Seq<Stretch>, k: int, n: int)
    requires
        0 <= k <= n <= segs.len(),
        network_valid(segs),
    ensures
        ({
            let old_ones = fetches_of(first_decisions(segs, busy, k));
            let all = fetches_of(first_decisions(segs, busy, n));
            &&& old_ones.len() <= all.len()
            &&& all.take(old_ones.len() as int) == old_ones
            &&& forall|i: int|
                old_ones.len() <= i < all.len() ==> stems_from(segs, k, n, #[trigger] all[i])
        }),
    decreases n - k,
{
    let old_ones = fetches_of(first_decisions(segs, busy, k));
    let all = fetches_of(first_decisions(segs, busy, n));
    if k == n {
        assert(all.take(old_ones.len() as int) =~= old_ones);
    } else {
        lemma_later_fetches(segs, busy, k, n - 1);
        lemma_next_fetches(segs, busy, n - 1);
        let front = fetches_of(first_decisions(segs, busy, n - 1));
        let seg = segs[n - 1];
        let base = busy_before(segs, busy, n - 1);
        let more = fetches_of(segment_decisions(seg, base));
        assert(all == front + more);
        assert(all.take(old_ones.len() as int) =~= front.take(old_ones.len() as int));
        assert forall|i: int| old_ones.len() <= i < all.len() implies stems_from(
            segs,
            k,
            n,
            #[trigger] all[i],
        ) by {
            if i < front.len() {
                assert(all[i] == front[i]);
                assert(stems_from(segs, k, n - 1, front[i]));
                let j = choose|j: int|
                    k <= j < n - 1 && (#[trigger] segs[j]).key == front[i].0 && (fetch_target(
                        segs[j],
                    ) matches Some(target) && target.encloses(front[i].1));
                assert(segs[j].key == all[i].0);
            } else {
                let x = more[i - front.len()];
                assert(all[i] == x);
                assert(more.contains(x));
                let m = lemma_fetch_is_part(seg, base, x);
                let target = fetch_target(seg)->Some_0;
                assert(seg.range.valid());
                assert(target.valid());
                law_missing_in_order(target, base);
                assert(target.encloses(missing(target, base)[m]));
            }
        }
    }
}

proof fn lemma_valid_prefix(segs: Seq<NetworkView>, busy: Seq<Stretch>, n: int)
    requires
        0 <= n <= segs.len(),
        network_valid(segs),
        stretches_valid(busy),
        apart(busy),
    ensures
        stretches_valid(busy + fetches_of(first_decisions(segs, busy, n))),
{
    let front = segs.take(n);
    assert forall|i: int| 0 <= i < front.len() implies (#[trigger] front[i]).range.valid() by {
        assert(front[i] == segs[i]);
    }
    law_no_double_fetch(front, busy);
}

/// What is still missing of a segment once the plan was carried out is not worth a fetch.
proof fn lemma_rest_is_negligible(segs: Seq<NetworkView>, busy: Seq<Stretch>, k: int, m: int)
    requires
        network_valid(segs),
        stretches_valid(busy),
        apart(busy),
        trade_segments_apart(segs),
        0 <= k < segs.len(),
        fetch_target(segs[k]) is Some,
        0 <= m < missing(
            fetch_target(segs[k])->Some_0,
            ranges_for(busy + fetches_of(decisions(segs, busy)), segs[k].key),
        ).len(),
    ensures
        negligible(
            segs[k].key.kind,
            missing(
                fetch_target(segs[k])->Some_0,
                ranges_for(busy + fetches_of(decisions(segs, busy)), segs[k].key),
            )[m],
        ),
{
    let seg = segs[k];
    let key = seg.key;
    let n = segs.len() as int;
    assert(segs.take(n) =~= segs);
    let before = busy + fetches_of(first_decisions(segs, busy, k));
    let mine = fetches_of(segment_decisions(seg, busy_before(segs, busy, k)));
    let all = busy + fetches_of(decisions(segs, busy));
    let base1 = busy_before(segs, busy, k);
    let base2 = ranges_for(all, key);
    let target = fetch_target(seg)->Some_0;
    assert(seg.range.valid());
    assert(target.valid());
    lemma_valid_prefix(segs, busy, k);
    lemma_valid_prefix(segs, busy, n);
    lemma_ranges_for_valid(before, key);
    lemma_ranges_for_valid(all, key);
    lemma_next_fetches(segs, busy, k);
    lemma_later_fetches(segs, busy, k + 1, n);
    let upto = fetches_of(first_decisions(segs, busy, k + 1));
    let fetched = fetches_of(decisions(segs, busy));
    assert(upto == fetches_of(first_decisions(segs, busy, k)) + mine);
    assert(fetched.take(upto.len() as int) == upto);
    // What is busy for segment `k` stays busy, and so is what is fetched for it.
    assert forall|t: int| held(before, key, t) || held(mine, key, t) implies #[trigger] held(
        all,
        key,
        t,
    ) by {
        if held(before, key, t) {
            let i = choose|i: int|
                0 <= i < before.len() && (#[trigger] before[i]).0 == key && before[i].1.covers(t);
            if i >= busy.len() {
                assert(fetched.take(upto.len() as int)[i - busy.len()] == upto[i - busy.len()]);
            }
            assert(all[i] == before[i]);
        } else {
            let i = choose|i: int|
                0 <= i < mine.len() && (#[trigger] mine[i]).0 == key && mine[i].1.covers(t);
            let at = upto.len() - mine.len() + i;
            assert(upto[at] == mine[i]);
            assert(fetched.take(upto.len() as int)[at] == upto[at]);
            assert(all[busy.len() + at] == mine[i]);
        }
    }
    let parts1 = missing(target, base1);
    let parts2 = missing(target, base2);
    law_missing_in_order(target, base1);
    law_missing_in_order(target, base2);
    law_missing_separated(target, base1);
    law_missing_separated(target, base2);
    let q = parts2[m];
    assert(q.valid());
    assert(target.encloses(q));
    // The part of the first run that holds the start of `q`.
    assert forall|t: int| any_covers(parts2, t) implies #[trigger] any_covers(parts1, t) by {
        law_missing_exact(target, base1, t);
        law_missing_exact(target, base2, t);
        lemma_held(before, key, t);
        lemma_held(all, key, t);
        if held(before, key, t) {
            assert(held(all, key, t));
        }
    }
    let start = q.from.0 as int;
    assert(parts2[m].covers(start));
    assert(any_covers(parts2, start));
    assert(any_covers(parts1, start));
    let a = choose|a: int| 0 <= a < parts1.len() && (#[trigger] parts1[a]).covers(start);
    let p = parts1[a];
    // It was not worth a fetch, or else its start would be busy.
    if !negligible(key.kind, p) {
        lemma_part_is_fetched(seg, base1, a);
        let i = choose|i: int| 0 <= i < mine.len() && mine[i] == (key, p);
        assert(mine[i].0 == key && mine[i].1.covers(start));
        assert(held(mine, key, start));
        assert(held(all, key, start));
        lemma_held(all, key, start);
        law_missing_exact(target, base2, start);
        assert(false);
    }
    // `q` ends no later than it.
    if q.to.0 > p.to.0 {
        let t = p.to.0 as int;
        assert(parts2[m].covers(t));
        assert(any_covers(parts2, t));
        assert(any_covers(parts1, t));
        let b = choose|b: int| 0 <= b < parts1.len() && (#[trigger] parts1[b]).covers(t);
        if a < b {
            assert(parts1[a].to.0 < parts1[b].from.0);
        } else if b < a {
            assert(parts1[b].to.0 < parts1[a].from.0);
        }
        assert(false);
    }
    // Of trades it ends where the part ends, as no other segment fetches anything of it.
    if key.kind.candle() is None && q.to.0 < p.to.0 {
        let t = q.to.0 as int;
        assert(target == seg.range);
        assert(p.covers(t));
        assert(any_covers(parts1, t));
        law_missing_exact(target, base1, t);
        law_missing_exact(target, base2, t);
        lemma_held(before, key, t);
        lemma_held(all, key, t);
        if any_covers(parts2, t) {
            let b = choose|b: int| 0 <= b < parts2.len() && (#[trigger] parts2[b]).covers(t);
            if m < b {
                assert(parts2[m].to.0 < parts2[b].from.0);
            } else if b < m {
                assert(parts2[b].to.0 < parts2[m].from.0);
            }
            assert(false);
        }
        assert(held(all, key, t));
        let i = choose|i: int| 0 <= i < all.len() && (#[trigger] all[i]).0 == key
            && all[i].1.covers(t);
        if i < before.len() {
            if i >= busy.len() {
                assert(fetched.take(upto.len() as int)[i - busy.len()] == upto[i - busy.len()]);
            }
            assert(before[i] == all[i]);
            assert(held(before, key, t));
        } else if i < busy.len() + upto.len() {
            let at = i - before.len();
            assert(fetched.take(upto.len() as int)[i - busy.len()] == upto[i - busy.len()]);
            assert(mine[at] == all[i]);
            assert(mine.contains(mine[at]));
            let b = lemma_fetch_is_part(seg, base1, mine[at]);
            assert(parts1[b].covers(t));
            if a < b {
                assert(parts1[a].to.0 < parts1[b].from.0);
            } else if b < a {
                assert(parts1[b].to.0 < parts1[a].from.0);
            }
            assert(false);
        } else {
            let x = fetched[i - busy.len()];
            assert(all[i] == x);
            assert(stems_from(segs, k + 1, n, x));
            let j = choose|j: int|
                k + 1 <= j < n && (#[trigger] segs[j]).key == x.0 && (fetch_target(
                    segs[j],
                ) matches Some(other) && other.encloses(x.1));
            assert(segs[k].key == segs[j].key);
            assert(segs[j].range.covers(t));
            assert(segs[k].range.covers(t));
            assert(segs[k].range.crosses(segs[j].range));
            assert(false);
        }
        assert(false);
    }
}

proof fn lemma_second_time(segs: Seq<NetworkView>, busy: Seq<Stretch>, n: int)
    requires
        network_valid(segs),
        stretches_valid(busy),
        apart(busy),
        trade_segments_apart(segs),
        0 <= n <= segs.len(),
    ensures
        fetches_of(
            first_decisions(segs, busy + fetches_of(decisions(segs, busy)), n),
        ).len() == 0,
    decreases n,
{
    reveal(Seq::filter_map);
    let all = busy + fetches_of(decisions(segs, busy));
    if n > 0 {
        lemma_second_time(segs, busy, n - 1);
        lemma_next_fetches(segs, all, n - 1);
        let seg = segs[n - 1];
        let none = fetches_of(first_decisions(segs, all, n - 1));
        assert(all + none =~= all);
        let base = busy_before(segs, all, n - 1);
        assert(base == ranges_for(all, seg.key));
        let more = fetches_of(segment_decisions(seg, base));
        if more.len() > 0 {
            assert(more.contains(more[0]));
            let m = lemma_fetch_is_part(seg, base, more[0]);
            lemma_rest_is_negligible(segs, busy, n - 1, m);
            assert(false);
        }
    }
}

/// A plan is carried out once: where the new identifiers are new, carrying it out again at once
/// creates no job.
pub proof fn law_plan_is_carried_out_once(
    c: CoordinatorView,
    ids: Seq<FetchJobId>,
    after: CoordinatorView,
    more: Seq<FetchJobId>,
    last: CoordinatorView,
)
    requires
        carried_out(c, due_decisions(c), ids, after),
        ids.no_duplicates(),
        forall|i: int| 0 <= i < ids.len() ==> !holds(c.jobs, #[trigger] ids[i]),
        c.plan matches Some(p) ==> network_valid(p.network) && trade_segments_apart(p.network),
        stretches_valid(active_stretches(c.jobs)),
        apart(active_stretches(c.jobs)),
        carried_out(after, due_decisions(after), more, last),
    ensures
        more.len() == 0,
        last.jobs == after.jobs,
{
    reveal(Seq::filter_map);
    let ds = due_decisions(c);
    let times = choose|times: Seq<u64>|
        times.len() == ids.len() && after == (CoordinatorView {
            facts: suppressed(c.facts, ds),
            jobs: #[trigger] created(c.jobs, ds, ids, times),
            queue: c.queue + ids,
            ..c
        });
    lemma_created(c.jobs, ds, ids, times);
    match c.plan {
        Some(p) => {
            lemma_second_time(p.network, active_stretches(c.jobs), p.network.len() as int);
            assert(p.network.take(p.network.len() as int) =~= p.network);
        },
        None => {},
    }
    let ds2 = due_decisions(after);
    let times2 = choose|times: Seq<u64>|
        times.len() == more.len() && last == (CoordinatorView {
            facts: suppressed(after.facts, ds2),
            jobs: #[trigger] created(after.jobs, ds2, more, times),
            queue: after.queue + more,
            ..after
        });
    lemma_created_none(after.jobs, ds2, more, times2);
}

proof fn lemma_created_none(
    jobs: Jobs,
    ds: Seq<DecisionView>,
    ids: Seq<FetchJobId>,
    times: Seq<u64>,
)
    requires
        fetches_of(ds).len() == 0,
    ensures
        created(jobs, ds, ids, times) == jobs,
    decreases ds.len(),
{
    reveal(Seq::filter_map);
    if ds.len() > 0 {
        match ds.last() {
            DecisionView::Suppress { key, range } => {
                lemma_created_none(jobs, ds.drop_last(), ids, times);
            },
            DecisionView::Fetch { key, range, consumers } => {
                assert(fetched_by(ds.last()) is Some);
                lemma_filter_map_holds(ds, ds.len() - 1);
            },
        }
    }
}

proof fn lemma_gathered_apart(gs: Seq<GroupView>, facts: Facts)
    requires
        distinct_groups(gs),
        forall|i: int| 0 <= i < gs.len() ==> (#[trigger] gs[i]).merged_range.valid(),
        forall|key: KeyView| all_valid(#[trigger] complete_at(facts, key)),
    ensures
        network_valid(gathered(gs, facts).network),
        trade_segments_apart(gathered(gs, facts).network),
        forall|i: int|
            0 <= i < gathered(gs, facts).network.len() ==> exists|k: int|
                0 <= k < gs.len() && (#[trigger] gs[k]).key == (#[trigger] gathered(
                    gs,
                    facts,
                ).network[i]).key,
    decreases gs.len(),
{
    if gs.len() > 0 {
        let front = gs.drop_last();
        let g = gs.last();
        assert forall|i: int| 0 <= i < front.len() implies (
        #[trigger] front[i]).merged_range.valid() by {
            assert(gs[i].merged_range.valid());
        }
        assert forall|i: int, j: int| 0 <= i < j < front.len() implies (
        #[trigger] front[i]).key != (#[trigger] front[j]).key by {
            assert(gs[i].key != gs[j].key);
        }
        lemma_gathered_apart(front, facts);
        let a = gathered(front, facts).network;
        let b = fetches_for(g, facts);
        let m = missing_at(facts, g.key, g.merged_range);
        let all = gathered(gs, facts).network;
        assert(all == a + b);
        assert(gs[gs.len() - 1].merged_range.valid());
        assert(all_valid(complete_at(facts, g.key)));
        law_missing_in_order(g.merged_range, complete_at(facts, g.key));
        assert forall|i: int| 0 <= i < all.len() implies (#[trigger] all[i]).range.valid() by {
            if i < a.len() {
                assert(all[i] == a[i]);
            } else {
                assert(all[i].range == m[i - a.len()]);
            }
        }
        assert forall|i: int| 0 <= i < all.len() implies exists|k: int|
            0 <= k < gs.len() && (#[trigger] gs[k]).key == (#[trigger] all[i]).key by {
            if i < a.len() {
                assert(all[i] == a[i]);
                let k = choose|k: int|
                    0 <= k < front.len() && (#[trigger] front[k]).key == a[i].key;
                assert(gs[k].key == all[i].key);
            } else {
                assert(gs[gs.len() - 1].key == all[i].key);
            }
        }
        assert forall|i: int, j: int|
            0 <= i < j < all.len() && (#[trigger] all[i]).key == (#[trigger] all[j]).key
                && all[i].key.kind.candle() is None implies !all[i].range.crosses(all[j].range) by {
            if j < a.len() {
                assert(all[i] == a[i] && all[j] == a[j]);
            } else if i < a.len() {
                assert(all[i] == a[i]);
                assert(all[j].key == g.key);
                let k = choose|k: int|
                    0 <= k < front.len() && (#[trigger] front[k]).key == a[i].key;
                assert(gs[k].key != gs[gs.len() - 1].key);
            } else {
                assert(all[i].range == m[i - a.len()]);
                assert(all[j].range == m[j - a.len()]);
                assert(m[i - a.len()].to.0 <= m[j - a.len()].from.0);
            }
        }
    }
}

/// A plan for valid needs asks for valid segments, and the segments of a stream of trades share
/// nothing.
pub proof fn law_planned_segments_are_apart(c: CoordinatorView)
    requires
        forall|i: int| 0 <= i < c.pending.len() ==> (#[trigger] c.pending[i]).range.valid(),
        forall|key: KeyView| all_valid(#[trigger] complete_at(c.facts, key)),
    ensures
        c.with_plan().plan matches Some(p) && network_valid(p.network) && trade_segments_apart(
            p.network,
        ),
{
    let gs = grouped_by_urgency(c.pending);
    law_grouping(c.pending);
    assert forall|i: int| 0 <= i < gs.len() implies (#[trigger] gs[i]).merged_range.valid() by {
        assert(sums_up(gs[i], c.pending));
        let r = gs[i].requirements[0];
        let own = |x: RequirementView| x.key == gs[i].key;
        assert(c.pending.filter(own) == gs[i].requirements);
        assert(gs[i].requirements.contains(r));
        c.pending.lemma_filter_contains_rev(own, r);
        let k = choose|k: int| 0 <= k < c.pending.len() && c.pending[k] == r;
        assert(c.pending[k].range.valid());
        assert(gs[i].merged_range.encloses(r.range));
    }
    lemma_gathered_apart(gs, c.facts);
    assert(planned(gs, c.facts).network == gathered(gs, c.facts).network);
}

/// What a stream is fetched in: whole candles, or single milliseconds.
pub open spec fn grain(kind: MarketDataKind) -> int {
    match kind {
        MarketDataKind::Trades => 1,
        MarketDataKind::Klines { timeframe } => timeframe.millis() as int,
        MarketDataKind::OpenInterest { timeframe } => timeframe.millis() as int,
    }
}

/// How long a missing stretch has to be in order to be fetched: a second of trades, or a candle.
pub open spec fn worth(kind: MarketDataKind) -> int {
    match kind {
        MarketDataKind::Trades => 1_000,
        MarketDataKind::Klines { timeframe } => timeframe.millis() as int,
        MarketDataKind::OpenInterest { timeframe } => timeframe.millis() as int,
    }
}

/// A segment asks for the millisecond `t`: it lies in the segment, or in the same candle as a part
/// of it.
pub open spec fn asked(seg: NetworkView, t: int) -> bool {
    let w = grain(seg.key.kind);
    seg.range.from.0 as int / w <= t / w && t / w <= (seg.range.to.0 - 1) / w
}

/// A job is to be fetched, or being fetched.
pub open spec fn under_way(j: JobView) -> bool {
    j.status is Pending || j.status is InProgress
}

proof fn lemma_quotient(x: int, w: int, q: int)
    requires
        w > 0,
    ensures
        x / w >= q <==> x >= w * q,
{
    vstd::arithmetic::div_mod::lemma_fundamental_div_mod(x, w);
    vstd::arithmetic::div_mod::lemma_mod_bound(x, w);
    let p = x / w;
    if p >= q {
        assert(w * p >= w * q) by (nonlinear_arith)
            requires
                p >= q,
                w > 0,
        ;
    } else {
        assert(w * p + w <= w * q) by (nonlinear_arith)
            requires
                p + 1 <= q,
                w > 0,
        ;
    }
}

proof fn lemma_target_asked(seg: NetworkView, t: int)
    requires
        seg.range.valid(),
        roundable(seg.key.kind, seg.range.to),
    ensures
        fetch_target(seg) is Some,
        fetch_target(seg)->Some_0.valid(),
        fetch_target(seg)->Some_0.covers(t) <==> asked(seg, t),
        seg.key.kind.candle() is None ==> grain(seg.key.kind) == 1,
{
    let w = grain(seg.key.kind);
    assert(w > 0);
    match seg.key.kind.candle() {
        Some(tf) => {
            assert(w == tf.millis());
            law_alignment(seg.range, tf.millis() as u64);
            let r = aligned(seg.range, tf.millis() as u64)->Some_0;
            let qf = r.from.0 as int / w;
            let qt = r.to.0 as int / w;
            vstd::arithmetic::div_mod::lemma_fundamental_div_mod(r.from.0 as int, w);
            vstd::arithmetic::div_mod::lemma_fundamental_div_mod(r.to.0 as int, w);
            assert(r.from.0 == w * qf && r.to.0 == w * qt);
            assert(w * (qf + 1) == w * qf + w) by (nonlinear_arith);
            assert(w * (qt - 1) == w * qt - w) by (nonlinear_arith);
            lemma_quotient(seg.range.from.0 as int, w, qf);
            lemma_quotient(seg.range.from.0 as int, w, qf + 1);
            lemma_quotient(seg.range.to.0 - 1, w, qt - 1);
            lemma_quotient(seg.range.to.0 - 1, w, qt);
            lemma_quotient(t, w, qf);
            lemma_quotient(t, w, qt);
        },
        None => {
            assert(seg.range.from.0 as int / 1 == seg.range.from.0);
            assert(t / 1 == t);
        },
    }
}

proof fn lemma_worth(kind: MarketDataKind, r: MarketDataRange)
    ensures
        negligible(kind, r) ==> r.span() < worth(kind),
        !negligible(kind, r) ==> r.span() >= worth(kind) || (kind is Trades && r.to.0
            <= 1_000_000),
{
}

/// A decision on a plan is one on some segment of it.
proof fn lemma_decision_origin(
    segs: Seq<NetworkView>,
    busy: Seq<Stretch>,
    n: int,
    m: int,
) -> (j: int)
    requires
        0 <= n <= segs.len(),
        0 <= m < first_decisions(segs, busy, n).len(),
    ensures
        0 <= j < n,
        segment_decisions(segs[j], busy_before(segs, busy, j)).contains(
            first_decisions(segs, busy, n)[m],
        ),
    decreases n,
{
    let more = segs.take(n);
    assert(n > 0) by {
        if n == 0 {
            assert(more.len() == 0);
        }
    }
    assert(more.drop_last() =~= segs.take(n - 1));
    assert(more.last() == segs[n - 1]);
    let front = first_decisions(segs, busy, n - 1);
    let own = segment_decisions(segs[n - 1], busy_before(segs, busy, n - 1));
    assert(first_decisions(segs, busy, n) == front + own);
    if m < front.len() {
        lemma_decision_origin(segs, busy, n - 1, m)
    } else {
        assert(own[m - front.len()] == first_decisions(segs, busy, n)[m]);
        n - 1
    }
}

/// Each decision on a segment is one of the decisions on the plan.
proof fn lemma_decision_is_due(
    segs: Seq<NetworkView>,
    busy: Seq<Stretch>,
    n: int,
    j: int,
    d: DecisionView,
)
    requires
        0 <= j < n <= segs.len(),
        segment_decisions(segs[j], busy_before(segs, busy, j)).contains(d),
    ensures
        first_decisions(segs, busy, n).contains(d),
    decreases n,
{
    let more = segs.take(n);
    assert(more.drop_last() =~= segs.take(n - 1));
    assert(more.last() == segs[n - 1]);
    let front = first_decisions(segs, busy, n - 1);
    let own = segment_decisions(segs[n - 1], busy_before(segs, busy, n - 1));
    let all = first_decisions(segs, busy, n);
    assert(all == front + own);
    if j < n - 1 {
        lemma_decision_is_due(segs, busy, n - 1, j, d);
        let m = choose|m: int| 0 <= m < front.len() && front[m] == d;
        assert(all[m] == d);
    } else {
        let m = choose|m: int| 0 <= m < own.len() && own[m] == d;
        assert(all[front.len() + m] == d);
    }
}

/// The job of a decision to fetch, and the decision of a job.
proof fn lemma_created_jobs(
    jobs: Jobs,
    ds: Seq<DecisionView>,
    ids: Seq<FetchJobId>,
    times: Seq<u64>,
)
    requires
        ids.len() == fetches_of(ds).len(),
        times.len() == ids.len(),
        ids.no_duplicates(),
        forall|i: int| 0 <= i < ids.len() ==> !holds(jobs, #[trigger] ids[i]),
    ensures
        forall|m: int|
            0 <= m < ds.len() && (#[trigger] ds[m]) is Fetch ==> exists|k: int|
                jobs.len() <= k < created(jobs, ds, ids, times).len() && made_from(
                    #[trigger] created(jobs, ds, ids, times)[k].1,
                    ds[m],
                ),
        forall|k: int|
            jobs.len() <= k < created(jobs, ds, ids, times).len() ==> exists|m: int|
                0 <= m < ds.len() && made_from(
                    (#[trigger] created(jobs, ds, ids, times)[k]).1,
                    #[trigger] ds[m],
                ),
    decreases ds.len(),
{
    reveal(Seq::filter_map);
    let out = created(jobs, ds, ids, times);
    lemma_created_rows(jobs, ds, ids, times);
    if ds.len() > 0 {
        let front = ds.drop_last();
        match ds.last() {
            DecisionView::Suppress { key, range } => {
                assert(fetches_of(ds) == fetches_of(front));
                lemma_created_jobs(jobs, front, ids, times);
                let same = created(jobs, front, ids, times);
                assert(out == same);
                assert forall|m: int| 0 <= m < ds.len() && (
                #[trigger] ds[m]) is Fetch implies exists|k: int|
                    jobs.len() <= k < out.len() && made_from(#[trigger] out[k].1, ds[m]) by {
                    assert(ds[m] == front[m]);
                }
                assert forall|k: int| jobs.len() <= k < out.len() implies exists|m: int|
                    0 <= m < ds.len() && made_from((#[trigger] out[k]).1, #[trigger] ds[m]) by {
                    assert(same[k] == out[k]);
                    let m = choose|m: int|
                        0 <= m < front.len() && made_from(out[k].1, #[trigger] front[m]);
                    assert(made_from(out[k].1, ds[m]));
                }
            },
            DecisionView::Fetch { key, range, consumers } => {
                assert(fetches_of(ds) =~= fetches_of(front).push((key, range)));
                let fewer = ids.drop_last();
                let id = ids.last();
                assert forall|i: int| 0 <= i < fewer.len() implies !holds(
                    jobs,
                    #[trigger] fewer[i],
                ) by {
                    assert(fewer[i] == ids[i]);
                }
                lemma_created_jobs(jobs, front, fewer, times.drop_last());
                lemma_created_rows(jobs, front, fewer, times.drop_last());
                let before = created(jobs, front, fewer, times.drop_last());
                let job = JobView::pending(id, key, range, consumers, times.last());
                assert(out == put(before, id, job));
                assert(out.len() == before.len() + 1);
                assert(out == before.push((id, job)));
                assert(made_from(out[before.len() as int].1, ds[ds.len() - 1]));
                assert forall|m: int| 0 <= m < ds.len() && (
                #[trigger] ds[m]) is Fetch implies exists|k: int|
                    jobs.len() <= k < out.len() && made_from(#[trigger] out[k].1, ds[m]) by {
                    if m < front.len() {
                        assert(ds[m] == front[m]);
                        let k = choose|k: int|
                            jobs.len() <= k < before.len() && made_from(
                                #[trigger] before[k].1,
                                front[m],
                            );
                        assert(made_from(out[k].1, ds[m]));
                    }
                }
                assert forall|k: int| jobs.len() <= k < out.len() implies exists|m: int|
                    0 <= m < ds.len() && made_from((#[trigger] out[k]).1, #[trigger] ds[m]) by {
                    if k < before.len() {
                        assert(out[k] == before[k]);
                        let m = choose|m: int|
                            0 <= m < front.len() && made_from(before[k].1, #[trigger] front[m]);
                        assert(made_from(out[k].1, ds[m]));
                    }
                }
            },
        }
    }
}

/// A job was created for a decision.
spec fn made_from(j: JobView, d: DecisionView) -> bool {
    d matches DecisionView::Fetch { key, range, consumers } && j.key == key && j.range == range
        && j.consumers == consumers && j.status is Pending
}

/// A job that is under way holds the millisecond `t` of a stream.
pub open spec fn being_fetched(jobs: Jobs, key: KeyView, t: int) -> bool {
    exists|k: int|
        0 <= k < jobs.len() && under_way((#[trigger] jobs[k]).1) && jobs[k].1.key == key
            && jobs[k].1.range.from.0 <= t < jobs[k].1.range.to.0
}

proof fn lemma_being_fetched(jobs: Jobs, key: KeyView, t: int)
    ensures
        held(active_stretches(jobs), key, t) <==> being_fetched(jobs, key, t),
{
    let p = is_active();
    let act = active_of(jobs);
    let s = active_stretches(jobs);
    if held(s, key, t) {
        let i = choose|i: int| 0 <= i < s.len() && (#[trigger] s[i]).0 == key && s[i].1.covers(t);
        jobs.lemma_filter_pred(p, i);
        assert(act.contains(act[i]));
        jobs.lemma_filter_contains_rev(p, act[i]);
        let k = choose|k: int| 0 <= k < jobs.len() && jobs[k] == act[i];
        assert(under_way(jobs[k].1));
    }
    if being_fetched(jobs, key, t) {
        let k = choose|k: int|
            0 <= k < jobs.len() && under_way((#[trigger] jobs[k]).1) && jobs[k].1.key == key
                && jobs[k].1.range.from.0 <= t < jobs[k].1.range.to.0;
        jobs.lemma_filter_contains(p, k);
        let i = choose|i: int| 0 <= i < act.len() && act[i] == jobs[k];
        assert(s[i].0 == key && s[i].1.covers(t));
    }
}

/// A stretch of a segment of which nothing is busy lies in one missing part.
pub(crate) proof fn lemma_free_stretch(
    target: MarketDataRange,
    base: Seq<MarketDataRange>,
    r: MarketDataRange,
) -> (a: int)
    requires
        target.valid(),
        all_valid(base),
        r.valid(),
        target.encloses(r),
        forall|t: int| r.covers(t) ==> !(#[trigger] any_covers(base, t)),
    ensures
        0 <= a < missing(target, base).len(),
        missing(target, base)[a].encloses(r),
{
    let parts = missing(target, base);
    law_missing_in_order(target, base);
    law_missing_separated(target, base);
    let start = r.from.0 as int;
    assert(!any_covers(base, start));
    law_missing_exact(target, base, start);
    let a = choose|a: int| 0 <= a < parts.len() && (#[trigger] parts[a]).covers(start);
    if parts[a].to.0 < r.to.0 {
        let t = parts[a].to.0 as int;
        assert(r.covers(t));
        assert(!any_covers(base, t));
        law_missing_exact(target, base, t);
        let b = choose|b: int| 0 <= b < parts.len() && (#[trigger] parts[b]).covers(t);
        if a < b {
            assert(parts[a].to.0 < parts[b].from.0);
        } else if b < a {
            assert(parts[b].to.0 < parts[a].from.0);
        }
        assert(false);
    }
    a
}

/// The premises on which a plan is carried out: the new identifiers are new, the plan asks for
/// valid ranges, and the jobs under way are valid and apart.
pub open spec fn carries_out(
    c: CoordinatorView,
    segs: Seq<NetworkView>,
    ids: Seq<FetchJobId>,
    after: CoordinatorView,
) -> bool {
    &&& carried_out(c, due_decisions(c), ids, after)
    &&& ids.no_duplicates()
    &&& forall|i: int| 0 <= i < ids.len() ==> !holds(c.jobs, #[trigger] ids[i])
    &&& c.plan matches Some(p) && p.network == segs
    &&& network_valid(segs)
    &&& network_roundable(segs)
    &&& stretches_valid(active_stretches(c.jobs))
    &&& apart(active_stretches(c.jobs))
}

/// A missing part of a segment that is worth a fetch gets a job.
proof fn lemma_part_gets_a_job(
    c: CoordinatorView,
    segs: Seq<NetworkView>,
    ids: Seq<FetchJobId>,
    after: CoordinatorView,
    i: int,
    a: int,
) -> (k: int)
    requires
        carries_out(c, segs, ids, after),
        0 <= i < segs.len(),
        fetch_target(segs[i]) is Some,
        0 <= a < missing(
            fetch_target(segs[i])->Some_0,
            busy_before(segs, active_stretches(c.jobs), i),
        ).len(),
        !negligible(
            segs[i].key.kind,
            missing(
                fetch_target(segs[i])->Some_0,
                busy_before(segs, active_stretches(c.jobs), i),
            )[a],
        ),
    ensures
        c.jobs.len() <= k < after.jobs.len(),
        after.jobs[k].1.key == segs[i].key,
        after.jobs[k].1.range == missing(
            fetch_target(segs[i])->Some_0,
            busy_before(segs, active_stretches(c.jobs), i),
        )[a],
        after.jobs[k].1.consumers == segs[i].consumers,
        after.jobs[k].1.status is Pending,
{
    let busy = active_stretches(c.jobs);
    let n = segs.len() as int;
    let ds = due_decisions(c);
    assert(segs.take(n) =~= segs);
    assert(ds == first_decisions(segs, busy, n));
    let base = busy_before(segs, busy, i);
    let part = missing(fetch_target(segs[i])->Some_0, base)[a];
    let own = segment_decisions(segs[i], base);
    let d = decision_on(segs[i], part);
    assert(own[a] == d);
    assert(own.contains(d));
    lemma_decision_is_due(segs, busy, n, i, d);
    let m = choose|m: int| 0 <= m < ds.len() && ds[m] == d;
    let times = choose|times: Seq<u64>|
        times.len() == ids.len() && after == (CoordinatorView {
            facts: suppressed(c.facts, ds),
            jobs: #[trigger] created(c.jobs, ds, ids, times),
            queue: c.queue + ids,
            ..c
        });
    lemma_created_jobs(c.jobs, ds, ids, times);
    assert(ds[m] is Fetch);
    choose|k: int| c.jobs.len() <= k < after.jobs.len() && made_from(#[trigger] after.jobs[k].1, ds[m])
}

/// No stretch that is long enough is left out: of a second of trades, or a candle's length of
/// candles, that a planned segment asks for, something is being fetched once the plan was carried
/// out.
pub proof fn law_no_long_stretch_is_left_out(
    c: CoordinatorView,
    segs: Seq<NetworkView>,
    ids: Seq<FetchJobId>,
    after: CoordinatorView,
    i: int,
    r: MarketDataRange,
)
    requires
        carries_out(c, segs, ids, after),
        0 <= i < segs.len(),
        r.from.0 < r.to.0,
        asked(segs[i], r.from.0 as int),
        asked(segs[i], r.to.0 - 1),
        r.to.0 - r.from.0 >= worth(segs[i].key.kind),
    ensures
        exists|t: int|
            r.from.0 <= t < r.to.0 && #[trigger] being_fetched(after.jobs, segs[i].key, t),
{
    let key = segs[i].key;
    let busy = active_stretches(c.jobs);
    let ds = due_decisions(c);
    let n = segs.len() as int;
    assert(segs.take(n) =~= segs);
    let target = fetch_target(segs[i])->Some_0;
    assert(segs[i].range.valid());
    assert(roundable(segs[i].key.kind, segs[i].range.to));
    lemma_target_asked(segs[i], r.from.0 as int);
    lemma_target_asked(segs[i], r.to.0 - 1);
    let base = busy_before(segs, busy, i);
    let before = busy + fetches_of(first_decisions(segs, busy, i));
    let all = busy + fetches_of(ds);
    lemma_valid_prefix(segs, busy, i);
    lemma_ranges_for_valid(before, key);
    lemma_later_fetches(segs, busy, i, n);
    let times = choose|times: Seq<u64>|
        times.len() == ids.len() && after == (CoordinatorView {
            facts: suppressed(c.facts, ds),
            jobs: #[trigger] created(c.jobs, ds, ids, times),
            queue: c.queue + ids,
            ..c
        });
    lemma_created(c.jobs, ds, ids, times);
    if forall|t: int| r.from.0 <= t < r.to.0 ==> !(#[trigger] being_fetched(after.jobs, key, t)) {
        assert forall|t: int| r.covers(t) implies !(#[trigger] any_covers(base, t)) by {
            lemma_held(before, key, t);
            lemma_being_fetched(after.jobs, key, t);
            assert(!being_fetched(after.jobs, key, t));
            if held(before, key, t) {
                let k = choose|k: int|
                    0 <= k < before.len() && (#[trigger] before[k]).0 == key
                        && before[k].1.covers(t);
                let old_ones = fetches_of(first_decisions(segs, busy, i));
                if k >= busy.len() {
                    assert(fetches_of(ds).take(old_ones.len() as int)[k - busy.len()]
                        == old_ones[k - busy.len()]);
                }
                assert(all[k] == before[k]);
                assert(held(all, key, t));
            }
        }
        let a = lemma_free_stretch(target, base, r);
        lemma_worth(key.kind, missing(target, base)[a]);
        let k = lemma_part_gets_a_job(c, segs, ids, after, i, a);
        let t = r.from.0 as int;
        assert(under_way(after.jobs[k].1) && after.jobs[k].1.range.from.0 <= t
            < after.jobs[k].1.range.to.0);
        assert(being_fetched(after.jobs, key, t));
    }
}

/// What is missing is fetched in full: a stretch that is long enough, of which nothing is being
/// fetched and which no other segment asks for, lies in the range of one new job, for the
/// consumers of its segment.
pub proof fn law_missing_stretches_are_fetched(
    c: CoordinatorView,
    segs: Seq<NetworkView>,
    ids: Seq<FetchJobId>,
    after: CoordinatorView,
    i: int,
    r: MarketDataRange,
)
    requires
        carries_out(c, segs, ids, after),
        0 <= i < segs.len(),
        r.from.0 < r.to.0,
        asked(segs[i], r.from.0 as int),
        asked(segs[i], r.to.0 - 1),
        r.to.0 - r.from.0 >= worth(segs[i].key.kind),
        forall|t: int|
            r.from.0 <= t < r.to.0 ==> !(#[trigger] being_fetched(c.jobs, segs[i].key, t)),
        forall|j: int, t: int|
            0 <= j < segs.len() && j != i && segs[j].key == segs[i].key && r.from.0 <= t < r.to.0
                ==> !(#[trigger] asked(segs[j], t)),
    ensures
        exists|k: int|
            c.jobs.len() <= k < after.jobs.len() && (#[trigger] after.jobs[k]).1.key == segs[i].key
                && after.jobs[k].1.status is Pending && after.jobs[k].1.consumers
                == segs[i].consumers && after.jobs[k].1.range.from.0 <= r.from.0
                && after.jobs[k].1.range.to.0 >= r.to.0,
{
    let key = segs[i].key;
    let busy = active_stretches(c.jobs);
    let target = fetch_target(segs[i])->Some_0;
    assert(segs[i].range.valid());
    assert(roundable(segs[i].key.kind, segs[i].range.to));
    lemma_target_asked(segs[i], r.from.0 as int);
    lemma_target_asked(segs[i], r.to.0 - 1);
    let base = busy_before(segs, busy, i);
    let old_ones = fetches_of(first_decisions(segs, busy, i));
    let before = busy + old_ones;
    lemma_valid_prefix(segs, busy, i);
    lemma_ranges_for_valid(before, key);
    lemma_later_fetches(segs, busy, 0, i);
    let none = segs.take(0);
    assert(none.len() == 0);
    assert(first_decisions(segs, busy, 0) =~= Seq::<DecisionView>::empty());
    assert(fetches_of(first_decisions(segs, busy, 0)).len() == 0) by {
        reveal(Seq::filter_map);
    }
    assert forall|t: int| r.covers(t) implies !(#[trigger] any_covers(base, t)) by {
        lemma_held(before, key, t);
        lemma_being_fetched(c.jobs, key, t);
        assert(!being_fetched(c.jobs, key, t));
        if held(before, key, t) {
            let k = choose|k: int|
                0 <= k < before.len() && (#[trigger] before[k]).0 == key && before[k].1.covers(t);
            if k < busy.len() {
                assert(busy[k] == before[k]);
                assert(held(busy, key, t));
            } else {
                let x = old_ones[k - busy.len()];
                assert(before[k] == x);
                assert(stems_from(segs, 0, i, x));
                let j = choose|j: int|
                    0 <= j < i && (#[trigger] segs[j]).key == x.0 && (fetch_target(
                        segs[j],
                    ) matches Some(other) && other.encloses(x.1));
                assert(segs[j].range.valid());
                assert(roundable(segs[j].key.kind, segs[j].range.to));
                lemma_target_asked(segs[j], t);
                assert(asked(segs[j], t));
            }
        }
    }
    let a = lemma_free_stretch(target, base, r);
    lemma_worth(key.kind, missing(target, base)[a]);
    let k = lemma_part_gets_a_job(c, segs, ids, after, i, a);
    assert(after.jobs[k].1.key == segs[i].key);
}

/// Nothing else is fetched: each new job is for a segment of the plan and its consumers, asks for
/// nothing that the segment does not ask for and nothing that is being fetched, and is long enough,
/// but for trades of the first seconds of the epoch.
pub proof fn law_only_missing_stretches_are_fetched(
    c: CoordinatorView,
    segs: Seq<NetworkView>,
    ids: Seq<FetchJobId>,
    after: CoordinatorView,
    k: int,
)
    requires
        carries_out(c, segs, ids, after),
        c.jobs.len() <= k < after.jobs.len(),
    ensures
        after.jobs[k].1.status is Pending,
        after.jobs[k].1.range.from.0 < after.jobs[k].1.range.to.0,
        after.jobs[k].1.range.to.0 - after.jobs[k].1.range.from.0 >= worth(
            after.jobs[k].1.key.kind,
        ) || (after.jobs[k].1.key.kind is Trades && after.jobs[k].1.range.to.0 <= 1_000_000),
        exists|j: int|
            0 <= j < segs.len() && (#[trigger] segs[j]).key == after.jobs[k].1.key
                && segs[j].consumers == after.jobs[k].1.consumers && forall|t: int|
                after.jobs[k].1.range.from.0 <= t < after.jobs[k].1.range.to.0 ==> #[trigger] asked(
                    segs[j],
                    t,
                ),
        forall|t: int|
            after.jobs[k].1.range.from.0 <= t < after.jobs[k].1.range.to.0 ==> !(
            #[trigger] being_fetched(c.jobs, after.jobs[k].1.key, t)),
{
    let busy = active_stretches(c.jobs);
    let n = segs.len() as int;
    let ds = due_decisions(c);
    assert(segs.take(n) =~= segs);
    assert(ds == first_decisions(segs, busy, n));
    let times = choose|times: Seq<u64>|
        times.len() == ids.len() && after == (CoordinatorView {
            facts: suppressed(c.facts, ds),
            jobs: #[trigger] created(c.jobs, ds, ids, times),
            queue: c.queue + ids,
            ..c
        });
    lemma_created_jobs(c.jobs, ds, ids, times);
    let job = after.jobs[k].1;
    let m = choose|m: int| 0 <= m < ds.len() && made_from(job, #[trigger] ds[m]);
    let j = lemma_decision_origin(segs, busy, n, m);
    let seg = segs[j];
    let base = busy_before(segs, busy, j);
    let own = segment_decisions(seg, base);
    let a = choose|a: int| 0 <= a < own.len() && own[a] == ds[m];
    let before = busy + fetches_of(first_decisions(segs, busy, j));
    assert(seg.range.valid());
    assert(roundable(seg.key.kind, seg.range.to));
    lemma_target_asked(seg, 0);
    let target = fetch_target(seg)->Some_0;
    assert(own[a] == decision_on(seg, missing(target, base)[a]));
    assert(job.range == missing(target, base)[a]);
    lemma_worth(seg.key.kind, job.range);
    law_missing_in_order(target, base);
    assert(job.range.valid());
    assert(target.encloses(missing(target, base)[a]));
    assert forall|t: int| job.range.from.0 <= t < job.range.to.0 implies #[trigger] asked(
        seg,
        t,
    ) by {
        lemma_target_asked(seg, t);
    }
    assert forall|t: int| job.range.from.0 <= t < job.range.to.0 implies !(
    #[trigger] being_fetched(c.jobs, job.key, t)) by {
        lemma_being_fetched(c.jobs, job.key, t);
        lemma_held(before, job.key, t);
        assert(missing(target, base)[a].covers(t));
        law_missing_exact(target, base, t);
        if held(busy, job.key, t) {
            let x = choose|x: int|
                0 <= x < busy.len() && (#[trigger] busy[x]).0 == job.key && busy[x].1.covers(t);
            assert(before[x] == busy[x]);
            assert(held(before, job.key, t));
        }
    }
    assert(segs[j].key == job.key);
}

/// Only stretches that are too short to be fetched count as empty: whatever the ledger knows of a
/// stream after a plan was carried out it knew before, or it is a stretch of a segment that is
/// shorter than a second of trades or than a candle.
pub proof fn law_only_short_stretches_count_as_empty(
    c: CoordinatorView,
    segs: Seq<NetworkView>,
    ids: Seq<FetchJobId>,
    after: CoordinatorView,
    key: KeyView,
    e: EntryView,
)
    requires
        carries_out(c, segs, ids, after),
        tidy(rows(c.facts, key)),
        rows(after.facts, key).contains(e),
    ensures
        rows(c.facts, key).contains(e) || {
            &&& e.status is Empty
            &&& e.range.to.0 - e.range.from.0 < worth(key.kind)
            &&& exists|j: int|
                0 <= j < segs.len() && (#[trigger] segs[j]).key == key && asked(
                    segs[j],
                    e.range.from.0 as int,
                )
        },
{
    let busy = active_stretches(c.jobs);
    let n = segs.len() as int;
    let ds = due_decisions(c);
    assert(segs.take(n) =~= segs);
    assert(ds == first_decisions(segs, busy, n));
    assert forall|m: int| 0 <= m < ds.len() && (#[trigger] ds[m]) is Suppress implies short_of(
        segs,
        ds[m],
    ) by {
        let j = lemma_decision_origin(segs, busy, n, m);
        let seg = segs[j];
        let base = busy_before(segs, busy, j);
        let own = segment_decisions(seg, base);
        let a = choose|a: int| 0 <= a < own.len() && own[a] == ds[m];
        assert(seg.range.valid());
        assert(roundable(seg.key.kind, seg.range.to));
        lemma_target_asked(seg, 0);
        let target = fetch_target(seg)->Some_0;
        let part = missing(target, base)[a];
        assert(own[a] == decision_on(seg, part));
        lemma_worth(seg.key.kind, part);
        law_missing_in_order(target, base);
        assert(part.valid());
        assert(target.encloses(part));
        lemma_target_asked(seg, part.from.0 as int);
        assert(segs[j].key == seg.key);
    }
    lemma_suppressed_entries(segs, c.facts, ds, key, e);
}

/// A suppressed stretch is a short one of a segment.
spec fn short_of(segs: Seq<NetworkView>, d: DecisionView) -> bool {
    d matches DecisionView::Suppress { key, range } && range.valid() && range.span() < worth(
        key.kind,
    ) && exists|j: int|
        0 <= j < segs.len() && (#[trigger] segs[j]).key == key && asked(
            segs[j],
            range.from.0 as int,
        )
}

proof fn lemma_suppressed_entries(
    segs: Seq<NetworkView>,
    facts: Facts,
    ds: Seq<DecisionView>,
    key: KeyView,
    e: EntryView,
)
    requires
        tidy(rows(facts, key)),
        forall|m: int|
            0 <= m < ds.len() && (#[trigger] ds[m]) is Suppress ==> short_of(segs, ds[m]),
    ensures
        tidy(rows(suppressed(facts, ds), key)),
        rows(suppressed(facts, ds), key).contains(e) ==> rows(facts, key).contains(e) || {
            &&& e.status is Empty
            &&& e.range.to.0 - e.range.from.0 < worth(key.kind)
            &&& exists|j: int|
                0 <= j < segs.len() && (#[trigger] segs[j]).key == key && asked(
                    segs[j],
                    e.range.from.0 as int,
                )
        },
    decreases ds.len(),
{
    if ds.len() > 0 {
        let front = ds.drop_last();
        assert forall|m: int| 0 <= m < front.len() && (#[trigger] front[m]) is Suppress implies short_of(
            segs,
            front[m],
        ) by {
            assert(front[m] == ds[m]);
        }
        lemma_suppressed_entries(segs, facts, front, key, e);
        match ds.last() {
            DecisionView::Suppress { key: k, range } => {
                assert(ds[ds.len() - 1] is Suppress);
                assert(short_of(segs, ds[ds.len() - 1]));
                if k == key {
                    let old_rows = rows(suppressed(facts, front), key);
                    law_marking_keeps_tidy(old_rows, empty_entry(range));
                    law_other_marks_add_only_themselves(old_rows, empty_entry(range), e);
                }
            },
            DecisionView::Fetch { key: k, range, consumers } => {},
        }
    }
}

/// A stretch that a segment asks for, of which nothing is busy and which is long enough, is fetched
/// as a whole by one decision on the segment, for its consumers.
pub proof fn law_long_stretches_are_fetched(
    seg: NetworkView,
    busy: Seq<MarketDataRange>,
    r: MarketDataRange,
)
    requires
        seg.range.valid(),
        roundable(seg.key.kind, seg.range.to),
        all_valid(busy),
        r.from.0 < r.to.0,
        asked(seg, r.from.0 as int),
        asked(seg, r.to.0 - 1),
        r.to.0 - r.from.0 >= worth(seg.key.kind),
        forall|i: int|
            0 <= i < busy.len() ==> (#[trigger] busy[i]).to.0 <= r.from.0 || r.to.0
                <= busy[i].from.0,
    ensures
        exists|i: int|
            0 <= i < segment_decisions(seg, busy).len() && (
            #[trigger] segment_decisions(seg, busy)[i] matches DecisionView::Fetch {
                key,
                range,
                consumers,
            } && key == seg.key && consumers == seg.consumers && range.from.0 <= r.from.0
                && range.to.0 >= r.to.0),
{
    let target = fetch_target(seg)->Some_0;
    lemma_target_asked(seg, r.from.0 as int);
    lemma_target_asked(seg, r.to.0 - 1);
    assert forall|t: int| r.covers(t) implies !(#[trigger] any_covers(busy, t)) by {
        if any_covers(busy, t) {
            let i = choose|i: int| 0 <= i < busy.len() && (#[trigger] busy[i]).covers(t);
            assert(busy[i].to.0 <= r.from.0 || r.to.0 <= busy[i].from.0);
        }
    }
    let a = lemma_free_stretch(target, busy, r);
    let part = missing(target, busy)[a];
    lemma_worth(seg.key.kind, part);
    assert(segment_decisions(seg, busy)[a] == decision_on(seg, part));
}

/// Whatever is decided on a segment lies in what it asks for and is not busy. It is suppressed only
/// where it is too short to be worth a fetch.
pub proof fn law_only_short_stretches_are_suppressed(
    seg: NetworkView,
    busy: Seq<MarketDataRange>,
    i: int,
    t: int,
)
    requires
        seg.range.valid(),
        roundable(seg.key.kind, seg.range.to),
        all_valid(busy),
        0 <= i < segment_decisions(seg, busy).len(),
    ensures
        segment_decisions(seg, busy)[i] matches DecisionView::Suppress { key, range } ==> key
            == seg.key && range.to.0 - range.from.0 < worth(key.kind) && (range.from.0 <= t
            < range.to.0 ==> asked(seg, t) && !any_covers(busy, t)),
        segment_decisions(seg, busy)[i] matches DecisionView::Fetch { key, range, consumers } ==> key
            == seg.key && (range.from.0 <= t < range.to.0 ==> asked(seg, t) && !any_covers(busy, t)),
{
    let target = fetch_target(seg)->Some_0;
    lemma_target_asked(seg, t);
    let part = missing(target, busy)[i];
    assert(segment_decisions(seg, busy)[i] == decision_on(seg, part));
    lemma_worth(seg.key.kind, part);
    law_missing_exact(target, busy, t);
    if part.covers(t) {
        assert(any_covers(missing(target, busy), t));
    }
}

} // verus!
