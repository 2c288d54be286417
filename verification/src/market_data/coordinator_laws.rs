//! Laws of the coordinator.

use vstd::prelude::*;
use crate::id_table::{holds, ids_distinct, lookup, without};
use crate::market_data::coordinator::{
    active_of, active_stretches, created, decision_on, decisions, fetch_target, fetched_by,
    fetches_of, is_active, not_job, on_stream, ranges_for, segment_decisions, CoordinatorView,
    DecisionView, Jobs, Stretch,
};
use crate::market_data::coverage::{complete_at, covered_at, missing_at, rows, Facts};
use crate::market_data::coverage_laws::{law_complete_is_covered, tidy};
use crate::market_data::job::{FetchJobId, JobStatusView, JobView};
use crate::market_data::key::KeyView;
use crate::market_data::planner::{fetches_for, gathered, planned, NetworkView};
use crate::market_data::range::{all_valid, any_covers, in_order, missing, MarketDataRange};
use crate::market_data::range_laws::{law_missing_exact, law_missing_in_order};
use crate::market_data::requirement::GroupView;

verus! {

/// All stretches hold something.
pub open spec fn stretches_valid(s: Seq<Stretch>) -> bool {
    forall|i: int| 0 <= i < s.len() ==> (#[trigger] s[i]).1.valid()
}

/// No two stretches of the same stream overlap.
pub open spec fn apart(s: Seq<Stretch>) -> bool {
    forall|i: int, j: int|
        0 <= i < j < s.len() && (#[trigger] s[i]).0 == (#[trigger] s[j]).0 ==> !s[i].1.crosses(
            s[j].1,
        )
}

/// All planned fetches hold something.
pub open spec fn network_valid(s: Seq<NetworkView>) -> bool {
    forall|i: int| 0 <= i < s.len() ==> (#[trigger] s[i]).range.valid()
}

proof fn lemma_ranges_for(s: Seq<Stretch>, key: KeyView, i: int)
    requires
        stretches_valid(s),
        0 <= i < s.len(),
        s[i].0 == key,
    ensures
        ranges_for(s, key).contains(s[i].1),
{
    let p = on_stream(key);
    let kept = s.filter(p);
    s.lemma_filter_contains(p, i);
    let k = choose|k: int| 0 <= k < kept.len() && kept[k] == s[i];
    assert(ranges_for(s, key)[k] == s[i].1);
}

pub(crate) proof fn lemma_ranges_for_valid(s: Seq<Stretch>, key: KeyView)
    requires
        stretches_valid(s),
    ensures
        all_valid(ranges_for(s, key)),
{
    let p = on_stream(key);
    let kept = s.filter(p);
    let rs = ranges_for(s, key);
    assert forall|i: int| 0 <= i < rs.len() implies (#[trigger] rs[i]).valid() by {
        assert(rs[i] == kept[i].1);
        assert(kept.contains(kept[i]));
        s.lemma_filter_contains_rev(p, kept[i]);
        let k = choose|k: int| 0 <= k < s.len() && s[k] == kept[i];
        assert(s[k].1.valid());
    }
}

proof fn lemma_part_apart(
    target: MarketDataRange,
    busy: Seq<MarketDataRange>,
    i: int,
    b: MarketDataRange,
)
    requires
        target.valid(),
        all_valid(busy),
        0 <= i < missing(target, busy).len(),
        busy.contains(b),
    ensures
        !missing(target, busy)[i].crosses(b),
        missing(target, busy)[i].valid(),
{
    let m = missing(target, busy);
    law_missing_in_order(target, busy);
    assert(m[i].valid());
    let k = choose|k: int| 0 <= k < busy.len() && busy[k] == b;
    assert(busy[k].valid());
    if m[i].crosses(b) {
        let t = if m[i].from.0 >= b.from.0 {
            m[i].from.0 as int
        } else {
            b.from.0 as int
        };
        assert(m[i].covers(t) && b.covers(t));
        law_missing_exact(target, busy, t);
        assert(any_covers(m, t));
        assert(busy[k].covers(t));
        assert(any_covers(busy, t));
    }
}

/// The fetches of one segment's decisions, in terms of the missing parts.
proof fn lemma_segment_fetches(
    seg: NetworkView,
    parts: Seq<MarketDataRange>,
    s: Seq<Stretch>,
    base: Seq<MarketDataRange>,
    target: MarketDataRange,
)
    requires
        target.valid(),
        stretches_valid(s),
        apart(s),
        base == ranges_for(s, seg.key),
        parts == missing(target, base),
    ensures
        stretches_valid(
            s + fetches_of(parts.map_values(|part: MarketDataRange| decision_on(seg, part))),
        ),
        apart(s + fetches_of(parts.map_values(|part: MarketDataRange| decision_on(seg, part)))),
{
    lemma_ranges_for_valid(s, seg.key);
    law_missing_in_order(target, base);
    lemma_prefix_fetches(seg, parts, parts.len() as int, s, base, target);
    let ds = parts.map_values(|part: MarketDataRange| decision_on(seg, part));
    assert(ds.take(parts.len() as int) =~= ds);
}

proof fn lemma_prefix_fetches(
    seg: NetworkView,
    parts: Seq<MarketDataRange>,
    n: int,
    s: Seq<Stretch>,
    base: Seq<MarketDataRange>,
    target: MarketDataRange,
)
    requires
        target.valid(),
        stretches_valid(s),
        apart(s),
        base == ranges_for(s, seg.key),
        all_valid(base),
        parts == missing(target, base),
        all_valid(parts),
        in_order(parts),
        0 <= n <= parts.len(),
    ensures
        ({
            let ds = parts.map_values(|part: MarketDataRange| decision_on(seg, part)).take(n);
            let all = s + fetches_of(ds);
            &&& stretches_valid(all)
            &&& apart(all)
            &&& forall|i: int|
                s.len() <= i < all.len() ==> (#[trigger] all[i]).0 == seg.key && exists|k: int|
                    0 <= k < n && #[trigger] parts[k] == all[i].1
        }),
    decreases n,
{
    reveal(Seq::filter_map);
    let full = parts.map_values(|part: MarketDataRange| decision_on(seg, part));
    let ds = full.take(n);
    if n == 0 {
        assert(ds =~= Seq::<DecisionView>::empty());
        assert(s + fetches_of(ds) =~= s);
    } else {
        lemma_prefix_fetches(seg, parts, n - 1, s, base, target);
        let front = full.take(n - 1);
        assert(ds.drop_last() =~= front);
        let part = parts[n - 1];
        assert(ds.last() == decision_on(seg, part));
        let old_all = s + fetches_of(front);
        let all = s + fetches_of(ds);
        match fetched_by(ds.last()) {
            Some(x) => {
                assert(x == (seg.key, part));
                assert(all =~= old_all.push(x));
                assert(part.valid());
                assert forall|i: int, j: int|
                    0 <= i < j < all.len() && (#[trigger] all[i]).0 == (#[trigger] all[j]).0 implies !all[i].1.crosses(
                    all[j].1,
                ) by {
                    if j < old_all.len() {
                        assert(old_all[i].0 == old_all[j].0);
                    } else if i < s.len() {
                        assert(all[i] == s[i]);
                        lemma_ranges_for(s, seg.key, i);
                        lemma_part_apart(target, base, n - 1, s[i].1);
                    } else {
                        assert(all[i] == old_all[i]);
                        let k = choose|k: int| 0 <= k < n - 1 && #[trigger] parts[k] == all[i].1;
                        assert(parts[k].to.0 <= parts[n - 1].from.0);
                    }
                }
                assert forall|i: int| s.len() <= i < all.len() implies (#[trigger] all[i]).0 == seg.key
                    && exists|k: int| 0 <= k < n && #[trigger] parts[k] == all[i].1 by {
                    if i < old_all.len() {
                        assert(all[i] == old_all[i]);
                        let k = choose|k: int| 0 <= k < n - 1 && #[trigger] parts[k] == all[i].1;
                        assert(parts[k] == all[i].1);
                    } else {
                        assert(parts[n - 1] == all[i].1);
                    }
                }
                assert forall|i: int| 0 <= i < all.len() implies (#[trigger] all[i]).1.valid() by {
                    if i < old_all.len() {
                        assert(all[i] == old_all[i]);
                    }
                }
            },
            None => {
                assert(all =~= old_all);
                assert forall|i: int| s.len() <= i < all.len() implies (#[trigger] all[i]).0 == seg.key
                    && exists|k: int| 0 <= k < n && #[trigger] parts[k] == all[i].1 by {
                    assert(all[i] == old_all[i]);
                    let k = choose|k: int| 0 <= k < n - 1 && #[trigger] parts[k] == all[i].1;
                    assert(parts[k] == all[i].1);
                }
            },
        }
    }
}

pub(crate) proof fn lemma_fetches_concat(a: Seq<DecisionView>, b: Seq<DecisionView>)
    ensures
        fetches_of(a + b) == fetches_of(a) + fetches_of(b),
    decreases b.len(),
{
    reveal(Seq::filter_map);
    if b.len() == 0 {
        assert(a + b =~= a);
        assert(fetches_of(a) + fetches_of(b) =~= fetches_of(a));
    } else {
        lemma_fetches_concat(a, b.drop_last());
        assert((a + b).drop_last() =~= a + b.drop_last());
        assert(fetches_of(a + b) =~= fetches_of(a) + fetches_of(b));
    }
}

/// Nothing is fetched twice at a time: where the stretches that active jobs fetch are valid and
/// apart, they stay so together with everything that the plan decides to fetch.
pub proof fn law_no_double_fetch(segs: Seq<NetworkView>, busy: Seq<Stretch>)
    requires
        network_valid(segs),
        stretches_valid(busy),
        apart(busy),
    ensures
        stretches_valid(busy + fetches_of(decisions(segs, busy))),
        apart(busy + fetches_of(decisions(segs, busy))),
    decreases segs.len(),
{
    reveal(Seq::filter_map);
    if segs.len() == 0 {
        assert(busy + fetches_of(decisions(segs, busy)) =~= busy);
    } else {
        let front = segs.drop_last();
        let seg = segs.last();
        assert(seg == segs[segs.len() - 1]);
        assert forall|i: int| 0 <= i < front.len() implies (#[trigger] front[i]).range.valid() by {
            assert(front[i] == segs[i]);
        }
        law_no_double_fetch(front, busy);
        let ds = decisions(front, busy);
        let s = busy + fetches_of(ds);
        let base = ranges_for(s, seg.key);
        let more = segment_decisions(seg, base);
        lemma_fetches_concat(ds, more);
        match fetch_target(seg) {
            None => {
                assert(more.drop_last() =~= Seq::<DecisionView>::empty());
                assert(fetches_of(more.drop_last()) =~= Seq::<Stretch>::empty());
                assert(fetches_of(more) =~= Seq::<Stretch>::empty());
                assert(busy + fetches_of(ds + more) =~= s);
            },
            Some(target) => {
                assert(target.valid());
                lemma_segment_fetches(seg, missing(target, base), s, base, target);
                assert(busy + (fetches_of(ds) + fetches_of(more)) =~= s + fetches_of(more));
            },
        }
    }
}

/// The stretch that a decision is about.
pub open spec fn stretch_decided(d: DecisionView) -> Stretch {
    match d {
        DecisionView::Fetch { key, range, consumers } => (key, range),
        DecisionView::Suppress { key, range } => (key, range),
    }
}

/// A decision on `key` is about the millisecond `t`.
pub open spec fn decided(ds: Seq<DecisionView>, key: KeyView, t: int) -> bool {
    exists|i: int|
        0 <= i < ds.len() && stretch_decided(#[trigger] ds[i]).0 == key && stretch_decided(
            ds[i],
        ).1.covers(t)
}

/// A stretch of `key` holds the millisecond `t`.
pub open spec fn busy_at(s: Seq<Stretch>, key: KeyView, t: int) -> bool {
    any_covers(ranges_for(s, key), t)
}

proof fn lemma_busy_decided(busy: Seq<Stretch>, ds: Seq<DecisionView>, key: KeyView, t: int)
    requires
        busy_at(busy + fetches_of(ds), key, t),
    ensures
        busy_at(busy, key, t) || decided(ds, key, t),
{
    let p = on_stream(key);
    let f = |d: DecisionView| fetched_by(d);
    let all = busy + fetches_of(ds);
    let rs = ranges_for(all, key);
    let kept = all.filter(p);
    let i = choose|i: int| 0 <= i < rs.len() && (#[trigger] rs[i]).covers(t);
    assert(rs[i] == kept[i].1);
    all.lemma_filter_pred(p, i);
    assert(kept.contains(kept[i]));
    all.lemma_filter_contains_rev(p, kept[i]);
    let k = choose|k: int| 0 <= k < all.len() && all[k] == kept[i];
    if k < busy.len() {
        busy.lemma_filter_contains(p, k);
        let own = busy.filter(p);
        let m = choose|m: int| 0 <= m < own.len() && own[m] == busy[k];
        assert(ranges_for(busy, key)[m].covers(t));
    } else {
        let x = fetches_of(ds)[k - busy.len()];
        assert(fetches_of(ds).contains(x));
        ds.lemma_filter_map_contains(f, x);
        let d = choose|d: DecisionView| #[trigger] ds.contains(d) && f(d) == Some(x);
        let m = choose|m: int| 0 <= m < ds.len() && ds[m] == d;
        assert(stretch_decided(ds[m]) == x);
    }
}

proof fn lemma_decided_push(a: Seq<DecisionView>, b: Seq<DecisionView>, key: KeyView, t: int)
    ensures
        decided(a, key, t) || decided(b, key, t) ==> decided(a + b, key, t),
{
    if decided(a, key, t) {
        let i = choose|i: int|
            0 <= i < a.len() && stretch_decided(#[trigger] a[i]).0 == key && stretch_decided(
                a[i],
            ).1.covers(t);
        assert((a + b)[i] == a[i]);
    }
    if decided(b, key, t) {
        let i = choose|i: int|
            0 <= i < b.len() && stretch_decided(#[trigger] b[i]).0 == key && stretch_decided(
                b[i],
            ).1.covers(t);
        assert((a + b)[a.len() + i] == b[i]);
    }
}

/// Nothing that the plan asks for is forgotten: each millisecond of a planned segment is being
/// fetched already, or decided on.
pub proof fn law_plan_is_carried_out(segs: Seq<NetworkView>, busy: Seq<Stretch>, i: int, t: int)
    requires
        0 <= i < segs.len(),
        network_valid(segs),
        crate::market_data::coordinator::network_roundable(segs),
        segs[i].range.covers(t),
    ensures
        busy_at(busy, segs[i].key, t) || decided(decisions(segs, busy), segs[i].key, t),
    decreases segs.len(),
{
    let front = segs.drop_last();
    let ds = decisions(front, busy);
    let seg = segs.last();
    let s = busy + fetches_of(ds);
    let base = ranges_for(s, seg.key);
    let more = segment_decisions(seg, base);
    lemma_decided_push(ds, more, segs[i].key, t);
    if i < segs.len() - 1 {
        assert forall|k: int| 0 <= k < front.len() implies (#[trigger] front[k]).range.valid()
            && crate::market_data::coordinator::roundable(
            front[k].key.kind,
            front[k].range.to,
        ) by {
            assert(front[k] == segs[k]);
        }
        assert(front[i] == segs[i]);
        law_plan_is_carried_out(front, busy, i, t);
    } else {
        match fetch_target(seg) {
            None => {
                assert(stretch_decided(more[0]).1.covers(t));
            },
            Some(target) => {
                assert(target.covers(t)) by {
                    if let Some(tf) = seg.key.kind.candle() {
                        assert(seg.range.valid());
                        crate::market_data::range_laws::law_alignment(
                            seg.range,
                            tf.millis() as u64,
                        );
                    }
                }
                law_missing_exact(target, base, t);
                if any_covers(base, t) {
                    lemma_busy_decided(busy, ds, seg.key, t);
                } else {
                    let m = missing(target, base);
                    let k = choose|k: int| 0 <= k < m.len() && (#[trigger] m[k]).covers(t);
                    assert(more[k] == decision_on(seg, m[k]));
                    assert(stretch_decided(more[k]).1.covers(t));
                }
            },
        }
    }
}

/// The fetches that a plan holds for one stream hold the millisecond `t`.
pub open spec fn network_at(s: Seq<NetworkView>, key: KeyView, t: int) -> bool {
    exists|i: int| 0 <= i < s.len() && (#[trigger] s[i]).key == key && s[i].range.covers(t)
}

/// A group needs the millisecond `t` of a stream.
pub open spec fn needed_at(gs: Seq<GroupView>, key: KeyView, t: int) -> bool {
    exists|i: int| 0 <= i < gs.len() && (#[trigger] gs[i]).key == key && gs[i].merged_range.covers(t)
}

proof fn lemma_gathered_network(gs: Seq<GroupView>, facts: Facts, key: KeyView, t: int)
    ensures
        network_at(gathered(gs, facts).network, key, t) <==> needed_at(gs, key, t) && !any_covers(
            complete_at(facts, key),
            t,
        ),
    decreases gs.len(),
{
    if gs.len() > 0 {
        let front = gs.drop_last();
        let g = gs.last();
        lemma_gathered_network(front, facts, key, t);
        let a = gathered(front, facts).network;
        let b = fetches_for(g, facts);
        let m = missing_at(facts, g.key, g.merged_range);
        law_missing_exact(g.merged_range, complete_at(facts, g.key), t);
        if network_at(a + b, key, t) {
            let i = choose|i: int|
                0 <= i < (a + b).len() && (#[trigger] (a + b)[i]).key == key && (a
                    + b)[i].range.covers(t);
            if i < a.len() {
                assert(a[i].key == key && a[i].range.covers(t));
                let k = choose|k: int|
                    0 <= k < front.len() && (#[trigger] front[k]).key == key
                        && front[k].merged_range.covers(t);
                assert(gs[k].key == key);
            } else {
                assert((a + b)[i] == b[i - a.len()]);
                assert(m[i - a.len()].covers(t));
                assert(any_covers(m, t));
                assert(gs[gs.len() - 1].key == key);
            }
        }
        if needed_at(gs, key, t) && !any_covers(complete_at(facts, key), t) {
            let k = choose|k: int|
                0 <= k < gs.len() && (#[trigger] gs[k]).key == key && gs[k].merged_range.covers(t);
            if k < front.len() {
                assert(front[k].key == key && front[k].merged_range.covers(t));
                let i = choose|i: int|
                    0 <= i < a.len() && (#[trigger] a[i]).key == key && a[i].range.covers(t);
                assert((a + b)[i] == a[i]);
            } else {
                let i = choose|i: int| 0 <= i < m.len() && (#[trigger] m[i]).covers(t);
                assert((a + b)[a.len() + i] == b[i]);
                assert(b[i].range == m[i]);
            }
        }
    }
}

/// A plan fetches exactly what is needed and not complete.
pub proof fn law_plan_fetches_what_is_missing(
    gs: Seq<GroupView>,
    facts: Facts,
    key: KeyView,
    t: int,
)
    ensures
        network_at(planned(gs, facts).network, key, t) <==> needed_at(gs, key, t) && !any_covers(
            complete_at(facts, key),
            t,
        ),
{
    lemma_gathered_network(gs, facts, key, t);
}

/// A job that is done is no longer active, and where it brought records, its range is covered.
pub proof fn law_completed_job(c: CoordinatorView, id: FetchJobId, records: usize)
    requires
        ids_distinct(c.jobs),
        lookup(c.jobs, id) is Some,
        lookup(c.jobs, id)->Some_0.range.valid(),
        tidy(rows(c.facts, lookup(c.jobs, id)->Some_0.key)),
        records > 0,
    ensures
        lookup(c.with_completed(id, records).jobs, id) matches Some(j) && !j.status.active(),
        covered_at(
            c.with_completed(id, records).facts,
            lookup(c.jobs, id)->Some_0.key,
            lookup(c.jobs, id)->Some_0.range,
        ),
{
    let j = lookup(c.jobs, id)->Some_0;
    let done = JobView { status: JobStatusView::Completed { records }, ..j };
    crate::market_data::coordinator::lemma_put_lookup(c.jobs, id, done);
    law_complete_is_covered(c.facts, j.key, j.range, records, j.range);
}

/// A job that was taken out is gone from the table, from the queue and from what is active.
pub proof fn law_removed_job_is_gone(c: CoordinatorView, id: FetchJobId)
    ensures
        lookup(c.without_job(id).jobs, id) is None,
        !c.without_job(id).queue.contains(id),
        !holds(active_of(c.without_job(id).jobs), id),
{
    let keep = crate::id_table::other_than::<JobView>(id);
    let left = without(c.jobs, id);
    if holds(left, id) {
        let i = choose|i: int| 0 <= i < left.len() && (#[trigger] left[i]).0 == id;
        c.jobs.lemma_filter_pred(keep, i);
    }
    let q = c.queue.filter(not_job(id));
    if q.contains(id) {
        let i = choose|i: int| 0 <= i < q.len() && q[i] == id;
        c.queue.lemma_filter_pred(not_job(id), i);
    }
    let act = active_of(left);
    if holds(act, id) {
        let i = choose|i: int| 0 <= i < act.len() && (#[trigger] act[i]).0 == id;
        assert(act.contains(act[i]));
        left.lemma_filter_contains_rev(is_active(), act[i]);
        let k = choose|k: int| 0 <= k < left.len() && left[k] == act[i];
        assert(left[k].0 == id);
    }
}

pub(crate) proof fn lemma_created(jobs: Jobs, ds: Seq<DecisionView>, ids: Seq<FetchJobId>, times: Seq<u64>)
    requires
        ids.len() == fetches_of(ds).len(),
        times.len() == ids.len(),
        ids.no_duplicates(),
        forall|i: int| 0 <= i < ids.len() ==> !holds(jobs, #[trigger] ids[i]),
    ensures
        active_stretches(created(jobs, ds, ids, times)) == active_stretches(jobs) + fetches_of(ds),
        forall|id: FetchJobId|
            holds(#[trigger] created(jobs, ds, ids, times), id) ==> holds(jobs, id) || ids.contains(
                id,
            ),
    decreases ds.len(),
{
    reveal(Seq::filter_map);
    reveal(Seq::filter);
    let out = created(jobs, ds, ids, times);
    if ds.len() == 0 {
        assert(active_stretches(jobs) + fetches_of(ds) =~= active_stretches(jobs));
    } else {
        let front = ds.drop_last();
        match ds.last() {
            DecisionView::Suppress { key, range } => {
                assert(fetches_of(ds) == fetches_of(front));
                lemma_created(jobs, front, ids, times);
            },
            DecisionView::Fetch { key, range, consumers } => {
                assert(fetches_of(ds) =~= fetches_of(front).push((key, range)));
                let fewer = ids.drop_last();
                let id = ids.last();
                assert forall|i: int| 0 <= i < fewer.len() implies !holds(
                    jobs,
                    #[trigger] fewer[i],
                ) by {
                    assert(fewer[i] == ids[i]);
                }
                lemma_created(jobs, front, fewer, times.drop_last());
                let before = created(jobs, front, fewer, times.drop_last());
                assert(!holds(jobs, ids[ids.len() - 1]));
                assert(!fewer.contains(id)) by {
                    if fewer.contains(id) {
                        let k = choose|k: int| 0 <= k < fewer.len() && fewer[k] == id;
                        assert(ids[k] == ids[ids.len() - 1]);
                    }
                }
                assert(!holds(before, id));
                let row = (id, JobView::pending(id, key, range, consumers, times.last()));
                assert(out == before.push(row));
                assert(out.drop_last() =~= before);
                assert(active_of(out) =~= active_of(before).push(row));
                assert(active_stretches(out) =~= active_stretches(before).push((key, range)));
                assert(active_stretches(out) =~= active_stretches(jobs) + fetches_of(ds));
                assert forall|x: FetchJobId| holds(#[trigger] created(jobs, ds, ids, times), x) implies holds(
                    jobs,
                    x,
                ) || ids.contains(x) by {
                    let k = choose|k: int| 0 <= k < out.len() && (#[trigger] out[k]).0 == x;
                    if k < before.len() {
                        assert(before[k].0 == x);
                        assert(holds(before, x));
                        if fewer.contains(x) {
                            let m = choose|m: int| 0 <= m < fewer.len() && fewer[m] == x;
                            assert(ids[m] == x);
                        }
                    } else {
                        assert(ids[ids.len() - 1] == x);
                    }
                }
            },
        }
    }
}

/// Carrying out a plan keeps the stretches of active jobs apart, where the new identifiers are
/// new.
pub proof fn law_active_jobs_stay_apart(
    c: CoordinatorView,
    ids: Seq<FetchJobId>,
    after: CoordinatorView,
)
    requires
        crate::market_data::coordinator::carried_out(
            c,
            crate::market_data::coordinator::due_decisions(c),
            ids,
            after,
        ),
        ids.no_duplicates(),
        forall|i: int| 0 <= i < ids.len() ==> !holds(c.jobs, #[trigger] ids[i]),
        c.plan matches Some(p) ==> network_valid(p.network),
        stretches_valid(active_stretches(c.jobs)),
        apart(active_stretches(c.jobs)),
    ensures
        stretches_valid(active_stretches(after.jobs)),
        apart(active_stretches(after.jobs)),
{
    reveal(Seq::filter_map);
    let ds = crate::market_data::coordinator::due_decisions(c);
    let times = choose|times: Seq<u64>|
        times.len() == ids.len() && after == (CoordinatorView {
            facts: crate::market_data::coordinator::suppressed(c.facts, ds),
            jobs: #[trigger] created(c.jobs, ds, ids, times),
            queue: c.queue + ids,
            ..c
        });
    lemma_created(c.jobs, ds, ids, times);
    match c.plan {
        Some(p) => {
            law_no_double_fetch(p.network, active_stretches(c.jobs));
        },
        None => {
            assert(active_stretches(c.jobs) + fetches_of(ds) =~= active_stretches(c.jobs));
        },
    }
}

} // verus!
