//! What holds of the filling of holes as a whole.

use vstd::prelude::*;
use crate::connector::fetcher::FetchRange;
use crate::ids::Uuid;
use crate::market::StreamView;
use crate::screen::backfill::{
    asking, decided, differing, filling, filling_each, group_place, grouped, lacked, lacking,
    lasting, lemma_group_place, lost_streams, pending_apart, queueing, taken, window_of, with_gap,
    BackfillDecision, BackfillsView, GapsView, GroupView, PaneGap, PendingView, WindowView,
    MAX_BACKFILL_RANGE_MS, MIN_BACKFILL_GAP_MS,
};
use crate::time::UnixMs;

verus! {

/// A range that is fetched starts behind the last record and ends now. It is never shorter than
/// the smallest hole worth a request and never longer than the cap, and it leaves nothing out
/// unless it is capped. It is fetched for each stream of trades or candles whose hole is large
/// enough, and for no other.
pub proof fn law_window_fits(stream: StreamView, last: Option<UnixMs>, now: UnixMs)
    ensures
        decided(stream, last, now) is Fetch <==> stream !is Depth && (last matches Some(t) && now.0
            - t.0 > MIN_BACKFILL_GAP_MS),
        decided(stream, last, now) matches BackfillDecision::Fetch { from, to, capped } ==> {
            &&& to == now
            &&& last matches Some(t) && t.0 < from.0 && (!capped ==> from.0 == t.0 + 1)
            &&& MIN_BACKFILL_GAP_MS <= to.0 - from.0 <= MAX_BACKFILL_RANGE_MS
            &&& capped ==> to.0 - from.0 == MAX_BACKFILL_RANGE_MS
        },
{
}

/// What a selection of fetches that do not touch holds does not touch either.
proof fn lemma_filter_apart(pending: Seq<PendingView>, p: spec_fn(PendingView) -> bool)
    requires
        pending_apart(pending),
    ensures
        pending_apart(pending.filter(p)),
    decreases pending.len(),
{
    reveal(Seq::filter);
    if pending.len() > 0 {
        let front = pending.drop_last();
        assert forall|i: int, j: int| 0 <= i < j < front.len() implies !(#[trigger] front[i]).touches(
            (#[trigger] front[j]).stream,
            front[j].from,
            front[j].to,
        ) by {
            assert(pending[i] == front[i] && pending[j] == front[j]);
        }
        lemma_filter_apart(front, p);
        let out = pending.filter(p);
        let kept = front.filter(p);
        if p(pending.last()) {
            assert(out == kept.push(pending.last()));
            assert forall|i: int, j: int| 0 <= i < j < out.len() implies !(
            #[trigger] out[i]).touches((#[trigger] out[j]).stream, out[j].from, out[j].to) by {
                assert(kept[i] == out[i]);
                if j < kept.len() {
                    assert(kept[j] == out[j]);
                } else {
                    assert(kept.contains(out[i]));
                    front.lemma_filter_contains_rev(p, out[i]);
                    let k = front.index_of(out[i]);
                    assert(pending[k] == out[i]);
                    assert(pending[pending.len() - 1] == out[j]);
                }
            }
        }
    }
}

/// Taking up the groups of a stream keeps fetches from touching.
proof fn lemma_queueing_apart(
    pending: Seq<PendingView>,
    stream: StreamView,
    groups: Seq<GroupView>,
    now: u64,
)
    requires
        pending_apart(pending),
    ensures
        pending_apart(queueing(pending, stream, groups, now).0),
    decreases groups.len(),
{
    if groups.len() > 0 {
        lemma_queueing_apart(pending, stream, groups.drop_last(), now);
        let front = queueing(pending, stream, groups.drop_last(), now).0;
        let g = groups.last();
        if !taken(front, stream, g.from, g.to) {
            let out = queueing(pending, stream, groups, now).0;
            assert forall|i: int, j: int| 0 <= i < j < out.len() implies !(
            #[trigger] out[i]).touches((#[trigger] out[j]).stream, out[j].from, out[j].to) by {
                assert(out[i] == front[i]);
                if j < front.len() {
                    assert(out[j] == front[j]);
                }
            }
        }
    }
}

/// No range is fetched twice at a time: whatever is asked for, no two fetches of a stream touch.
pub proof fn law_fetches_stay_apart(pending: Seq<PendingView>, lacks: Seq<GapsView>, now: u64)
    requires
        pending_apart(pending),
    ensures
        pending_apart(filling_each(pending, lacks, now).0),
    decreases lacks.len(),
{
    if lacks.len() > 0 {
        law_fetches_stay_apart(pending, lacks.drop_last(), now);
        let front = filling_each(pending, lacks.drop_last(), now).0;
        let lack = lacks.last();
        if lack.stream !is Depth {
            lemma_queueing_apart(front, lack.stream, grouped(lack.gaps), now);
        }
        assert(filling_each(pending, lacks, now).0 == filling(front, lack, now).0);
    }
}

/// Nor do fetches touch after the old ones were forgotten or one has ended.
pub proof fn law_ended_fetches_stay_apart(
    pending: Seq<PendingView>,
    now: u64,
    stream: StreamView,
    from: UnixMs,
    to: UnixMs,
)
    requires
        pending_apart(pending),
    ensures
        pending_apart(pending.filter(lasting(now))),
        pending_apart(pending.filter(differing(stream, from, to))),
{
    lemma_filter_apart(pending, lasting(now));
    lemma_filter_apart(pending, differing(stream, from, to));
}

/// Once a fetch has ended, its range can be asked for again.
pub proof fn law_ended_range_is_free(pending: Seq<PendingView>, i: int)
    requires
        pending_apart(pending),
        0 <= i < pending.len(),
    ensures
        !taken(
            pending.filter(differing(pending[i].stream, pending[i].from, pending[i].to)),
            pending[i].stream,
            pending[i].from,
            pending[i].to,
        ),
{
    let e = pending[i];
    let p = differing(e.stream, e.from, e.to);
    let kept = pending.filter(p);
    assert forall|k: int| 0 <= k < kept.len() implies !(#[trigger] kept[k]).touches(
        e.stream,
        e.from,
        e.to,
    ) by {
        assert(kept.contains(kept[k]));
        pending.lemma_filter_pred(p, k);
        pending.lemma_filter_contains_rev(p, kept[k]);
        let j = pending.index_of(kept[k]);
        assert(pending[j] == kept[k]);
        assert(p(kept[k]));
        assert(j != i);
        if j < i {
            assert(!pending[j].touches(pending[i].stream, pending[i].from, pending[i].to));
        } else {
            assert(!pending[i].touches(pending[j].stream, pending[j].from, pending[j].to));
        }
    }
}

/// The panes that lack a range, in their order.
pub open spec fn panes_lacking(gaps: Seq<PaneGap>, from: UnixMs, to: UnixMs) -> Seq<Uuid> {
    gaps.filter(lacking(from, to)).map_values(|g: PaneGap| g.pane_id)
}

/// What a longer list of gaps adds to the panes that lack a range.
proof fn lemma_panes_lacking(gaps: Seq<PaneGap>, from: UnixMs, to: UnixMs)
    requires
        gaps.len() > 0,
    ensures
        panes_lacking(gaps, from, to) == if lacking(from, to)(gaps.last()) {
            panes_lacking(gaps.drop_last(), from, to).push(gaps.last().pane_id)
        } else {
            panes_lacking(gaps.drop_last(), from, to)
        },
{
    reveal(Seq::filter);
    let kept = gaps.drop_last().filter(lacking(from, to));
    let id = |g: PaneGap| g.pane_id;
    if lacking(from, to)(gaps.last()) {
        assert(kept.push(gaps.last()).map_values(id) =~= kept.map_values(id).push(
            gaps.last().pane_id,
        ));
    }
}

/// Panes that lack the same range share one request, and no others do: each range that some pane
/// lacks has one group, and the group names the panes that lack it, in their order.
pub proof fn law_panes_share_requests(gaps: Seq<PaneGap>)
    ensures
        forall|i: int|
            0 <= i < grouped(gaps).len() ==> (#[trigger] grouped(gaps)[i]).pane_ids
                == panes_lacking(gaps, grouped(gaps)[i].from, grouped(gaps)[i].to),
        forall|i: int, j: int|
            0 <= i < j < grouped(gaps).len() ==> !((#[trigger] grouped(gaps)[i]).from == (
            #[trigger] grouped(gaps)[j]).from && grouped(gaps)[i].to == grouped(gaps)[j].to),
        forall|k: int|
            0 <= k < gaps.len() ==> group_place(
                grouped(gaps),
                (#[trigger] gaps[k]).from,
                gaps[k].to,
            ) < grouped(gaps).len(),
    decreases gaps.len(),
{
    if gaps.len() > 0 {
        let front = gaps.drop_last();
        let last = gaps.last();
        law_panes_share_requests(front);
        let old_groups = grouped(front);
        let groups = grouped(gaps);
        lemma_group_place(old_groups, last.from, last.to);
        let p = group_place(old_groups, last.from, last.to);
        assert(groups == with_gap(old_groups, last));
        if p == old_groups.len() {
            // No earlier gap has this range.
            assert(panes_lacking(front, last.from, last.to).len() == 0) by {
                let kept = front.filter(lacking(last.from, last.to));
                if kept.len() > 0 {
                    front.lemma_filter_pred(lacking(last.from, last.to), 0);
                    assert(kept.contains(kept[0]));
                    front.lemma_filter_contains_rev(lacking(last.from, last.to), kept[0]);
                    let k = front.index_of(kept[0]);
                    assert(front[k] == kept[0]);
                    assert(group_place(old_groups, front[k].from, front[k].to) < old_groups.len());
                }
            }
        }
        assert forall|i: int| 0 <= i < groups.len() implies (#[trigger] groups[i]).pane_ids
            == panes_lacking(gaps, groups[i].from, groups[i].to) by {
            lemma_panes_lacking(gaps, groups[i].from, groups[i].to);
            if i < old_groups.len() {
                assert(old_groups[i].from == groups[i].from && old_groups[i].to == groups[i].to);
                if i != p {
                    assert(!(groups[i].from == last.from && groups[i].to == last.to)) by {
                        if p < old_groups.len() {
                            if i < p {
                                assert(!(old_groups[i].from == old_groups[p].from
                                    && old_groups[i].to == old_groups[p].to));
                            } else {
                                assert(!(old_groups[p].from == old_groups[i].from
                                    && old_groups[p].to == old_groups[i].to));
                            }
                        }
                    }
                }
            } else {
                assert(panes_lacking(front, last.from, last.to) =~= Seq::empty());
                assert(seq![last.pane_id] =~= Seq::<Uuid>::empty().push(last.pane_id));
            }
        }
        assert forall|i: int, j: int| 0 <= i < j < groups.len() implies !((
        #[trigger] groups[i]).from == (#[trigger] groups[j]).from && groups[i].to == groups[j].to) by {
            assert(old_groups[i].from == groups[i].from && old_groups[i].to == groups[i].to);
            if j < old_groups.len() {
                assert(old_groups[j].from == groups[j].from && old_groups[j].to == groups[j].to);
            }
        }
        assert forall|k: int| 0 <= k < gaps.len() implies group_place(
            groups,
            (#[trigger] gaps[k]).from,
            gaps[k].to,
        ) < groups.len() by {
            let g = gaps[k];
            lemma_group_place(groups, g.from, g.to);
            let q = if k == gaps.len() - 1 {
                p
            } else {
                assert(front[k] == g);
                lemma_group_place(old_groups, g.from, g.to);
                group_place(old_groups, g.from, g.to)
            };
            assert(groups[q].from == g.from && groups[q].to == g.to);
        }
    }
}

/// A loss leaves a hole in exactly those streams that are lost, are no order books and ever
/// brought something, and each is handed out once.
pub proof fn law_lost_streams(streams: Seq<StreamView>, last_live: Map<StreamView, UnixMs>)
    ensures
        lost_streams(streams, last_live).no_duplicates(),
        forall|s: StreamView|
            #![trigger lost_streams(streams, last_live).contains(s)]
            lost_streams(streams, last_live).contains(s) <==> streams.contains(s) && s !is Depth
                && last_live.contains_key(s),
    decreases streams.len(),
{
    if streams.len() > 0 {
        let front = streams.drop_last();
        law_lost_streams(front, last_live);
        let had = lost_streams(front, last_live);
        let out = lost_streams(streams, last_live);
        let last = streams.last();
        assert forall|s: StreamView|
            #![trigger out.contains(s)]
            out.contains(s) <==> streams.contains(s) && s !is Depth && last_live.contains_key(s) by {
            assert(had.contains(s) <==> front.contains(s) && s !is Depth
                && last_live.contains_key(s));
            assert(streams.contains(s) <==> front.contains(s) || s == last) by {
                if front.contains(s) {
                    assert(streams[front.index_of(s)] == s);
                }
                assert(streams[streams.len() - 1] == last);
                if streams.contains(s) && s != last {
                    assert(front[streams.index_of(s)] == s);
                }
            }
            if out != had {
                assert(out == had.push(last));
                assert(out[had.len() as int] == last);
                if had.contains(s) {
                    assert(out[had.index_of(s)] == s);
                }
                if out.contains(s) && s != last {
                    assert(had[out.index_of(s)] == s);
                }
            }
        }
    }
}

/// What is taken stays taken when groups are taken up, and each group's range is taken then.
proof fn lemma_queueing_takes(
    pending: Seq<PendingView>,
    stream: StreamView,
    groups: Seq<GroupView>,
    now: u64,
    i: int,
)
    requires
        0 <= i < groups.len(),
        groups[i].from.0 <= groups[i].to.0,
    ensures
        taken(queueing(pending, stream, groups, now).0, stream, groups[i].from, groups[i].to),
    decreases groups.len(),
{
    let front = queueing(pending, stream, groups.drop_last(), now).0;
    let out = queueing(pending, stream, groups, now).0;
    let g = groups[i];
    if i < groups.len() - 1 {
        assert(groups.drop_last()[i] == g);
        lemma_queueing_takes(pending, stream, groups.drop_last(), now, i);
        let k = choose|k: int|
            0 <= k < front.len() && (#[trigger] front[k]).touches(stream, g.from, g.to);
        assert(out[k] == front[k]);
    } else if !taken(front, stream, g.from, g.to) {
        assert(out[front.len() as int].touches(stream, g.from, g.to));
    }
}

/// Whatever a pane lacks is being fetched, at least in part, once it was taken up.
pub proof fn law_gaps_are_taken_up(pending: Seq<PendingView>, lack: GapsView, now: u64, k: int)
    requires
        lack.stream !is Depth,
        0 <= k < lack.gaps.len(),
        lack.gaps[k].from.0 <= lack.gaps[k].to.0,
    ensures
        taken(
            filling(pending, lack, now).0,
            lack.stream,
            lack.gaps[k].from,
            lack.gaps[k].to,
        ),
{
    let g = lack.gaps[k];
    let groups = grouped(lack.gaps);
    law_panes_share_requests(lack.gaps);
    lemma_group_place(groups, g.from, g.to);
    lemma_queueing_takes(pending, lack.stream, groups, now, group_place(groups, g.from, g.to));
}

/// A hole is filled when it is a second long or longer, up to a quarter of an hour of it.
pub proof fn law_holes_are_filled(stream: StreamView, t: UnixMs, now: UnixMs)
    requires
        stream !is Depth,
        t.0 < now.0,
    ensures
        now.0 - t.0 <= 1_000 ==> decided(stream, Some(t), now) is GapTooSmall,
        1_000 < now.0 - t.0 <= 900_001 ==> decided(stream, Some(t), now) == (
        BackfillDecision::Fetch { from: UnixMs((t.0 + 1) as u64), to: now, capped: false }),
        now.0 - t.0 > 900_001 ==> decided(stream, Some(t), now) == (BackfillDecision::Fetch {
            from: UnixMs((now.0 - 900_000) as u64),
            to: now,
            capped: true,
        }),
        decided(stream, None, now) is NoLastSeen,
{
}

/// A pane lacks all of a window of candles, and of trades what it has not. A pane that does not
/// show the stream, or cannot take what is fetched, lacks nothing.
pub proof fn law_panes_lack_what_they_show(
    w: WindowView,
    pane: Uuid,
    shows: bool,
    supports: bool,
    a: UnixMs,
    b: UnixMs,
)
    ensures
        shows && supports && w.stream is Kline ==> forall|m: Option<(UnixMs, UnixMs)>| #[trigger]
            lacked(w, pane, shows, supports, m) == Some(
                PaneGap { pane_id: pane, from: w.from, to: w.to },
            ),
        shows && supports && w.stream is Trades ==> lacked(w, pane, shows, supports, Some((a, b)))
            == Some(PaneGap { pane_id: pane, from: a, to: b }) && lacked(
            w,
            pane,
            shows,
            supports,
            None,
        ) is None,
        !(shows && supports) || w.stream is Depth ==> forall|m: Option<(UnixMs, UnixMs)>| #[trigger]
            lacked(w, pane, shows, supports, m) is None,
{
}

/// What is asked for a group of panes is the range that they lack, for all of them.
pub proof fn law_groups_ask_for_what_they_lack(stream: StreamView, g: GroupView)
    requires
        g.pane_ids.len() > 0,
    ensures
        asking(stream, g).pane_ids == g.pane_ids,
        asking(stream, g).pane_id == g.pane_ids[0],
        asking(stream, g).stream == stream,
        stream is Trades ==> asking(stream, g).fetch == FetchRange::Trades(g.from, g.to),
        stream is Kline ==> asking(stream, g).fetch == FetchRange::Kline(g.from, g.to),
{
}

/// The last record of a stream is the latest one that came; other streams are left alone.
pub proof fn law_latest_record_counts(
    b: BackfillsView,
    stream: StreamView,
    t: UnixMs,
    other: StreamView,
)
    requires
        other != stream,
    ensures
        ({
            let after = b.seeing(stream, t);
            &&& after.last_live.contains_key(stream)
            &&& after.last_live[stream].0 >= t.0
            &&& !b.last_live.contains_key(stream) ==> after.last_live[stream] == t
            &&& b.last_live.contains_key(stream) ==> after.last_live[stream].0
                >= b.last_live[stream].0 && (after.last_live[stream] == t || after.last_live[stream]
                == b.last_live[stream])
            &&& after.last_live.contains_key(other) <==> b.last_live.contains_key(other)
            &&& b.last_live.contains_key(other) ==> after.last_live[other] == b.last_live[other]
            &&& after.pending == b.pending && after.disconnect == b.disconnect
        }),
{
}

/// A fetch keeps others out for a minute.
pub proof fn law_fetches_last_a_minute(p: PendingView, now: u64)
    ensures
        lasting(now)(p) <==> now < p.since + 60_000,
{
}

proof fn lemma_queueing_asks(
    pending: Seq<PendingView>,
    stream: StreamView,
    groups: Seq<GroupView>,
    now: u64,
    i: int,
)
    requires
        0 <= i < groups.len(),
        !taken(pending, stream, groups[i].from, groups[i].to),
        forall|j: int|
            0 <= j < groups.len() && j != i ==> !((#[trigger] groups[j]).from.0 <= groups[i].to.0
                && groups[j].to.0 >= groups[i].from.0),
    ensures
        queueing(pending, stream, groups, now).1.contains(groups[i]),
        forall|k: int|
            0 <= k < queueing(pending, stream, groups, now).0.len() ==> pending.contains(
                #[trigger] queueing(pending, stream, groups, now).0[k],
            ) || exists|j: int|
                0 <= j < groups.len() && (#[trigger] groups[j]).from == queueing(
                    pending,
                    stream,
                    groups,
                    now,
                ).0[k].from && groups[j].to == queueing(pending, stream, groups, now).0[k].to,
    decreases groups.len(),
{
    lemma_queueing_origin(pending, stream, groups, now);
    let few = groups.drop_last();
    let front = queueing(pending, stream, few, now);
    let g = groups.last();
    let out = queueing(pending, stream, groups, now);
    let n = groups.len() - 1;
    assert(groups[n] == g);
    if i < n {
        assert(few[i] == groups[i]);
        assert forall|j: int| 0 <= j < few.len() && j != i implies !((#[trigger] few[j]).from.0
            <= few[i].to.0 && few[j].to.0 >= few[i].from.0) by {
            assert(few[j] == groups[j]);
        }
        lemma_queueing_asks(pending, stream, few, now, i);
        let k = choose|k: int| 0 <= k < front.1.len() && front.1[k] == groups[i];
        assert(out.1[k] == groups[i]);
    } else {
        lemma_queueing_origin(pending, stream, few, now);
        if taken(front.0, stream, g.from, g.to) {
            let k = choose|k: int|
                0 <= k < front.0.len() && (#[trigger] front.0[k]).touches(stream, g.from, g.to);
            if pending.contains(front.0[k]) {
                let m = choose|m: int| 0 <= m < pending.len() && pending[m] == front.0[k];
                assert(pending[m].touches(stream, g.from, g.to));
                assert(false);
            } else {
                let j = choose|j: int|
                    0 <= j < few.len() && (#[trigger] few[j]).from == front.0[k].from && few[j].to
                        == front.0[k].to;
                assert(groups[j] == few[j]);
                assert(false);
            }
        }
        assert(out.1[front.1.len() as int] == g);
    }
}

proof fn lemma_queueing_origin(
    pending: Seq<PendingView>,
    stream: StreamView,
    groups: Seq<GroupView>,
    now: u64,
)
    ensures
        forall|k: int|
            0 <= k < queueing(pending, stream, groups, now).0.len() ==> pending.contains(
                #[trigger] queueing(pending, stream, groups, now).0[k],
            ) || exists|j: int|
                0 <= j < groups.len() && (#[trigger] groups[j]).from == queueing(
                    pending,
                    stream,
                    groups,
                    now,
                ).0[k].from && groups[j].to == queueing(pending, stream, groups, now).0[k].to,
    decreases groups.len(),
{
    let out = queueing(pending, stream, groups, now).0;
    if groups.len() > 0 {
        let few = groups.drop_last();
        lemma_queueing_origin(pending, stream, few, now);
        let front = queueing(pending, stream, few, now).0;
        assert forall|k: int| 0 <= k < out.len() implies pending.contains(#[trigger] out[k])
            || exists|j: int|
            0 <= j < groups.len() && (#[trigger] groups[j]).from == out[k].from && groups[j].to
                == out[k].to by {
            if k < front.len() {
                assert(out[k] == front[k]);
                if !pending.contains(front[k]) {
                    let j = choose|j: int|
                        0 <= j < few.len() && (#[trigger] few[j]).from == front[k].from
                            && few[j].to == front[k].to;
                    assert(groups[j] == few[j]);
                }
            } else {
                assert(groups[groups.len() - 1].from == out[k].from);
            }
        }
    } else {
        assert forall|k: int| 0 <= k < out.len() implies pending.contains(#[trigger] out[k]) by {
            assert(pending[k] == out[k]);
        }
    }
}

/// A hole is asked for in full, for each pane that lacks it, where no fetch touches it and no pane
/// lacks another range that touches it.
pub proof fn law_free_holes_are_asked_for(
    pending: Seq<PendingView>,
    lack: GapsView,
    now: u64,
    k: int,
)
    requires
        lack.stream !is Depth,
        0 <= k < lack.gaps.len(),
        forall|i: int|
            0 <= i < pending.len() ==> !((#[trigger] pending[i]).stream == lack.stream
                && pending[i].from.0 <= lack.gaps[k].to.0 && pending[i].to.0
                >= lack.gaps[k].from.0),
        forall|j: int|
            0 <= j < lack.gaps.len() ==> ((#[trigger] lack.gaps[j]).from == lack.gaps[k].from
                && lack.gaps[j].to == lack.gaps[k].to) || !(lack.gaps[j].from.0
                <= lack.gaps[k].to.0 && lack.gaps[j].to.0 >= lack.gaps[k].from.0),
    ensures
        exists|i: int|
            0 <= i < filling(pending, lack, now).1.len() && (#[trigger] filling(
                pending,
                lack,
                now,
            ).1[i]).stream == lack.stream && filling(pending, lack, now).1[i].pane_ids
                == panes_lacking(lack.gaps, lack.gaps[k].from, lack.gaps[k].to) && filling(
                pending,
                lack,
                now,
            ).1[i].fetch == (if lack.stream is Trades {
                FetchRange::Trades(lack.gaps[k].from, lack.gaps[k].to)
            } else {
                FetchRange::Kline(lack.gaps[k].from, lack.gaps[k].to)
            }),
{
    let g = lack.gaps[k];
    let groups = grouped(lack.gaps);
    law_panes_share_requests(lack.gaps);
    lemma_group_place(groups, g.from, g.to);
    let p = group_place(groups, g.from, g.to);
    assert(p < groups.len());
    assert(!taken(pending, lack.stream, g.from, g.to));
    assert forall|j: int| 0 <= j < groups.len() && j != p implies !((#[trigger] groups[j]).from.0
        <= groups[p].to.0 && groups[j].to.0 >= groups[p].from.0) by {
        lemma_group_origin(lack.gaps, j);
        let m = choose|m: int|
            0 <= m < lack.gaps.len() && (#[trigger] lack.gaps[m]).from == groups[j].from
                && lack.gaps[m].to == groups[j].to;
        if j < p {
            assert(!(groups[j].from == groups[p].from && groups[j].to == groups[p].to));
        } else {
            assert(!(groups[p].from == groups[j].from && groups[p].to == groups[j].to));
        }
    }
    lemma_queueing_asks(pending, lack.stream, groups, now, p);
    let q = queueing(pending, lack.stream, groups, now);
    let i = choose|i: int| 0 <= i < q.1.len() && q.1[i] == groups[p];
    let asks = filling(pending, lack, now).1;
    assert(asks[i] == asking(lack.stream, groups[p]));
    assert(groups[p].pane_ids == panes_lacking(lack.gaps, g.from, g.to));
}

proof fn lemma_group_origin(gaps: Seq<PaneGap>, j: int)
    requires
        0 <= j < grouped(gaps).len(),
    ensures
        exists|m: int|
            0 <= m < gaps.len() && (#[trigger] gaps[m]).from == grouped(gaps)[j].from && gaps[m].to
                == grouped(gaps)[j].to,
    decreases gaps.len(),
{
    let front = gaps.drop_last();
    let last = gaps.last();
    let had = grouped(front);
    lemma_group_place(had, last.from, last.to);
    assert(grouped(gaps) == with_gap(had, last));
    if j < had.len() {
        lemma_group_origin(front, j);
        let m = choose|m: int|
            0 <= m < front.len() && (#[trigger] front[m]).from == had[j].from && front[m].to
                == had[j].to;
        assert(gaps[m] == front[m]);
    } else {
        assert(gaps[gaps.len() - 1] == last);
    }
}

/// The windows to be filled are those of the streams that are asked about, that are no order books
/// and that have been silent for more than a second: from behind the last record, at most a quarter
/// of an hour, until now.
pub proof fn law_silent_streams_get_windows(
    streams: Seq<StreamView>,
    last_live: Map<StreamView, UnixMs>,
    now: UnixMs,
    w: WindowView,
)
    ensures
        streams.filter_map(window_of(last_live, now)).contains(w) <==> {
            &&& streams.contains(w.stream)
            &&& w.stream !is Depth
            &&& last_live.contains_key(w.stream)
            &&& now.0 - last_live[w.stream].0 > 1_000
            &&& w.to == now
            &&& w.from.0 == if now.0 - last_live[w.stream].0 <= 900_001 {
                last_live[w.stream].0 + 1
            } else {
                now.0 - 900_000
            }
        },
{
    let f = window_of(last_live, now);
    let out = streams.filter_map(f);
    if out.contains(w) {
        streams.lemma_filter_map_contains(f, w);
        let s = choose|s: StreamView| #[trigger] streams.contains(s) && f(s) == Some(w);
        assert(s == w.stream);
    }
    if streams.contains(w.stream) && w.stream !is Depth && last_live.contains_key(w.stream) && now.0
        - last_live[w.stream].0 > 1_000 && w.to == now && w.from.0 == (if now.0
        - last_live[w.stream].0 <= 900_001 {
        last_live[w.stream].0 + 1
    } else {
        now.0 - 900_000
    }) {
        let i = choose|i: int| 0 <= i < streams.len() && streams[i] == w.stream;
        assert(f(streams[i]) == Some(w));
        crate::seqs::lemma_filter_map_has(streams, f, i);
    }
}

/// A fetch that ended is no longer known, and all others still are.
pub proof fn law_only_the_ended_fetch_goes(
    pending: Seq<PendingView>,
    stream: StreamView,
    from: UnixMs,
    to: UnixMs,
    p: PendingView,
)
    ensures
        pending.filter(differing(stream, from, to)).contains(p) <==> pending.contains(p) && !(
        p.stream == stream && p.from == from && p.to == to),
{
    let q = differing(stream, from, to);
    let out = pending.filter(q);
    if out.contains(p) {
        let k = choose|k: int| 0 <= k < out.len() && out[k] == p;
        pending.lemma_filter_pred(q, k);
        pending.lemma_filter_contains_rev(q, p);
    }
    if pending.contains(p) && q(p) {
        let k = choose|k: int| 0 <= k < pending.len() && pending[k] == p;
        pending.lemma_filter_contains(q, k);
    }
}

proof fn lemma_queueing_grows(
    pending: Seq<PendingView>,
    stream: StreamView,
    groups: Seq<GroupView>,
    now: u64,
    p: PendingView,
)
    requires
        pending.contains(p),
    ensures
        queueing(pending, stream, groups, now).0.contains(p),
    decreases groups.len(),
{
    if groups.len() > 0 {
        lemma_queueing_grows(pending, stream, groups.drop_last(), now, p);
        let front = queueing(pending, stream, groups.drop_last(), now).0;
        let out = queueing(pending, stream, groups, now).0;
        let k = choose|k: int| 0 <= k < front.len() && front[k] == p;
        assert(out[k] == p);
    }
}

/// Whatever a pane lacks of any of several streams is being fetched, at least in part, once all of
/// them were taken up.
pub proof fn law_each_stream_is_taken_up(
    pending: Seq<PendingView>,
    lacks: Seq<GapsView>,
    now: u64,
    m: int,
    k: int,
)
    requires
        0 <= m < lacks.len(),
        lacks[m].stream !is Depth,
        0 <= k < lacks[m].gaps.len(),
        lacks[m].gaps[k].from.0 <= lacks[m].gaps[k].to.0,
    ensures
        exists|i: int|
            0 <= i < filling_each(pending, lacks, now).0.len() && (#[trigger] filling_each(
                pending,
                lacks,
                now,
            ).0[i]).stream == lacks[m].stream && filling_each(pending, lacks, now).0[i].from.0
                <= lacks[m].gaps[k].to.0 && filling_each(pending, lacks, now).0[i].to.0
                >= lacks[m].gaps[k].from.0,
    decreases lacks.len(),
{
    let few = lacks.drop_last();
    let front = filling_each(pending, few, now).0;
    let last = lacks.last();
    let out = filling_each(pending, lacks, now).0;
    let g = lacks[m].gaps[k];
    assert(out == filling(front, last, now).0);
    if m < few.len() {
        assert(few[m] == lacks[m]);
        law_each_stream_is_taken_up(pending, few, now, m, k);
        let i = choose|i: int|
            0 <= i < front.len() && (#[trigger] front[i]).stream == lacks[m].stream
                && front[i].from.0 <= g.to.0 && front[i].to.0 >= g.from.0;
        let p = front[i];
        assert(front.contains(p));
        if last.stream !is Depth {
            lemma_queueing_grows(front, last.stream, grouped(last.gaps), now, p);
        }
        assert(out.contains(p));
        let j = choose|j: int| 0 <= j < out.len() && out[j] == p;
        assert(out[j].stream == lacks[m].stream);
    } else {
        law_gaps_are_taken_up(front, last, now, k);
        let j = choose|j: int|
            0 <= j < out.len() && (#[trigger] out[j]).touches(last.stream, g.from, g.to);
        assert(out[j].stream == lacks[m].stream);
    }
}

} // verus!
