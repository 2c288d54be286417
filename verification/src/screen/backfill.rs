//! Filling the holes that a lost connection leaves in live data.
//!
//! The hole is not known when the connection is lost, as the last record came an instant before.
//! So the loss is written down, and the ranges to fetch are found when the connection is back.

use vstd::prelude::*;
use crate::connector::fetcher::{stream_views, FetchRange};
use crate::ids::Uuid;
use crate::keyed::KeyedList;
use crate::market::{StreamKind, StreamView};
use crate::seqs::{copy_rows, lemma_filter_take};
use crate::time::{later, UnixMs};

verus! {

/// The smallest hole worth a request, in milliseconds.
pub const MIN_BACKFILL_GAP_MS: u64 = 1_000;

/// The longest range that is fetched of its own accord, in milliseconds.
pub const MAX_BACKFILL_RANGE_MS: u64 = 900_000;

/// How long a request keeps others of its range out, in milliseconds.
pub const PENDING_EXPIRY_MS: u64 = 60_000;

/// What is done about one stream.
#[derive(Debug, Clone, Copy, PartialEq, Eq, Structural)]
pub enum BackfillDecision {
    /// Order books are snapshots, which leave no holes.
    DepthNotSupported,
    /// Nothing ever came.
    NoLastSeen,
    /// The hole is too small.
    GapTooSmall,
    /// This range is to be fetched. It is capped when the hole is longer.
    Fetch { from: UnixMs, to: UnixMs, capped: bool },
}

/// What is done at time `now` about a stream whose last record came at `last`.
pub open spec fn decided(
    stream: StreamView,
    last: Option<UnixMs>,
    now: UnixMs,
) -> BackfillDecision {
    if stream is Depth {
        BackfillDecision::DepthNotSupported
    } else {
        match last {
            None => BackfillDecision::NoLastSeen,
            Some(t) => if now.0 - t.0 - 1 < MIN_BACKFILL_GAP_MS {
                BackfillDecision::GapTooSmall
            } else if now.0 - t.0 - 1 > MAX_BACKFILL_RANGE_MS {
                BackfillDecision::Fetch {
                    from: UnixMs((now.0 - MAX_BACKFILL_RANGE_MS) as u64),
                    to: now,
                    capped: true,
                }
            } else {
                BackfillDecision::Fetch { from: UnixMs((t.0 + 1) as u64), to: now, capped: false }
            },
        }
    }
}

/// What is done at time `now` about a stream whose last record came at `last`.
pub fn decide_backfill(
    stream: &StreamKind,
    last: Option<UnixMs>,
    now: UnixMs,
) -> (d: BackfillDecision)
    ensures
        d == decided(stream@, last, now),
{
    if let StreamKind::Depth { .. } = stream {
        return BackfillDecision::DepthNotSupported;
    }
    let last_t = match last {
        Some(t) => t,
        None => return BackfillDecision::NoLastSeen,
    };
    let full_from = last_t.saturating_add(1);
    let gap_ms: u64 = now.saturating_diff(full_from);
    if gap_ms < MIN_BACKFILL_GAP_MS {
        BackfillDecision::GapTooSmall
    } else if gap_ms > MAX_BACKFILL_RANGE_MS {
        BackfillDecision::Fetch {
            from: now.saturating_sub(MAX_BACKFILL_RANGE_MS),
            to: now,
            capped: true,
        }
    } else {
        BackfillDecision::Fetch { from: full_from, to: now, capped: false }
    }
}

/// What fetches a range of a stream. Order books cannot be fetched.
pub open spec fn fetch_of(stream: StreamView, from: UnixMs, to: UnixMs) -> Option<FetchRange> {
    match stream {
        StreamView::Trades { .. } => Some(FetchRange::Trades(from, to)),
        StreamView::Kline { .. } => Some(FetchRange::Kline(from, to)),
        StreamView::Depth { .. } => None,
    }
}

/// What fetches a range of a stream.
pub fn backfill_fetch(stream: &StreamKind, from: UnixMs, to: UnixMs) -> (f: Option<FetchRange>)
    ensures
        f == fetch_of(stream@, from, to),
{
    match stream {
        StreamKind::Trades { .. } => Some(FetchRange::Trades(from, to)),
        StreamKind::Kline { .. } => Some(FetchRange::Kline(from, to)),
        StreamKind::Depth { .. } => None,
    }
}

/// A range of a stream that is to be fetched.
#[derive(Debug)]
pub struct BackfillWindow {
    pub stream: StreamKind,
    pub from: UnixMs,
    pub to: UnixMs,
}

/// A range of a stream that is to be fetched, as a value.
#[verifier::ext_equal]
pub struct WindowView {
    pub stream: StreamView,
    pub from: UnixMs,
    pub to: UnixMs,
}

impl View for BackfillWindow {
    type V = WindowView;

    open spec fn view(&self) -> WindowView {
        WindowView { stream: self.stream@, from: self.from, to: self.to }
    }
}

/// What several windows denote.
pub open spec fn window_views(s: Seq<BackfillWindow>) -> Seq<WindowView> {
    s.map_values(|w: BackfillWindow| w@)
}

/// What a pane lacks.
#[derive(Debug, Clone, Copy, PartialEq, Eq, Structural)]
pub struct PaneGap {
    pub pane_id: Uuid,
    pub from: UnixMs,
    pub to: UnixMs,
}

/// What a pane lacks of a window. `shows` says whether it shows the stream, `supports` whether it
/// can take what is fetched, and `missing` which of the trades it has not.
pub open spec fn lacked(
    w: WindowView,
    pane_id: Uuid,
    shows: bool,
    supports: bool,
    missing: Option<(UnixMs, UnixMs)>,
) -> Option<PaneGap> {
    if !shows || !supports {
        None
    } else {
        match w.stream {
            StreamView::Trades { .. } => match missing {
                Some((from, to)) => Some(PaneGap { pane_id, from, to }),
                None => None,
            },
            StreamView::Kline { .. } => Some(PaneGap { pane_id, from: w.from, to: w.to }),
            StreamView::Depth { .. } => None,
        }
    }
}

impl BackfillWindow {
    /// What a pane lacks of this window. Candles are fetched whole, of trades only those that the
    /// pane has not.
    pub fn pane_gap(
        &self,
        pane_id: Uuid,
        shows: bool,
        supports: bool,
        missing: Option<(UnixMs, UnixMs)>,
    ) -> (gap: Option<PaneGap>)
        ensures
            gap == lacked(self@, pane_id, shows, supports, missing),
    {
        if !shows || !supports {
            return None;
        }
        match &self.stream {
            StreamKind::Trades { .. } => match missing {
                Some((from, to)) => Some(PaneGap { pane_id, from, to }),
                None => None,
            },
            StreamKind::Kline { .. } => Some(PaneGap { pane_id, from: self.from, to: self.to }),
            StreamKind::Depth { .. } => None,
        }
    }
}

/// The panes that lack one range.
#[derive(Debug)]
pub struct GapGroup {
    pub from: UnixMs,
    pub to: UnixMs,
    pub pane_ids: Vec<Uuid>,
}

/// The panes that lack one range, as a value.
#[verifier::ext_equal]
pub struct GroupView {
    pub from: UnixMs,
    pub to: UnixMs,
    pub pane_ids: Seq<Uuid>,
}

impl View for GapGroup {
    type V = GroupView;

    open spec fn view(&self) -> GroupView {
        GroupView { from: self.from, to: self.to, pane_ids: self.pane_ids@ }
    }
}

/// What several groups denote.
pub open spec fn group_views(s: Seq<GapGroup>) -> Seq<GroupView> {
    s.map_values(|g: GapGroup| g@)
}

/// True for what lacks the range from `from` to `to`.
pub open spec fn lacking(from: UnixMs, to: UnixMs) -> spec_fn(PaneGap) -> bool {
    |g: PaneGap| g.from == from && g.to == to
}

/// The place of the group of a range. It is the number of groups when there is none.
pub open spec fn group_place(groups: Seq<GroupView>, from: UnixMs, to: UnixMs) -> int
    decreases groups.len(),
{
    if groups.len() == 0 || (groups[0].from == from && groups[0].to == to) {
        0
    } else {
        1 + group_place(groups.skip(1), from, to)
    }
}

/// The groups with one more pane.
pub open spec fn with_gap(groups: Seq<GroupView>, gap: PaneGap) -> Seq<GroupView> {
    let i = group_place(groups, gap.from, gap.to);
    if i < groups.len() {
        groups.update(
            i,
            GroupView { pane_ids: groups[i].pane_ids.push(gap.pane_id), ..groups[i] },
        )
    } else {
        groups.push(GroupView { from: gap.from, to: gap.to, pane_ids: seq![gap.pane_id] })
    }
}

/// The panes grouped by what they lack, in the order in which the ranges come up.
pub open spec fn grouped(gaps: Seq<PaneGap>) -> Seq<GroupView>
    decreases gaps.len(),
{
    if gaps.len() == 0 {
        Seq::empty()
    } else {
        with_gap(grouped(gaps.drop_last()), gaps.last())
    }
}

/// The place of a group lies within the groups or right behind them, and nothing before it is the
/// group of that range.
pub proof fn lemma_group_place(groups: Seq<GroupView>, from: UnixMs, to: UnixMs)
    ensures
        0 <= group_place(groups, from, to) <= groups.len(),
        forall|j: int|
            0 <= j < group_place(groups, from, to) ==> !((#[trigger] groups[j]).from == from
                && groups[j].to == to),
        group_place(groups, from, to) < groups.len() ==> groups[group_place(groups, from, to)].from
            == from && groups[group_place(groups, from, to)].to == to,
    decreases groups.len(),
{
    if groups.len() == 0 || (groups[0].from == from && groups[0].to == to) {
    } else {
        let rest = groups.skip(1);
        lemma_group_place(rest, from, to);
        assert forall|j: int| 0 <= j < group_place(groups, from, to) implies !((
        #[trigger] groups[j]).from == from && groups[j].to == to) by {
            if j > 0 {
                assert(rest[j - 1] == groups[j]);
            }
        }
        let p = group_place(rest, from, to);
        if p < rest.len() {
            assert(rest[p] == groups[p + 1]);
        }
    }
}

/// The first place whose group has the range is the place of the group.
proof fn lemma_group_found(groups: Seq<GroupView>, from: UnixMs, to: UnixMs, i: int)
    requires
        0 <= i <= groups.len(),
        forall|j: int| 0 <= j < i ==> !((#[trigger] groups[j]).from == from && groups[j].to == to),
        i < groups.len() ==> groups[i].from == from && groups[i].to == to,
    ensures
        group_place(groups, from, to) == i,
{
    lemma_group_place(groups, from, to);
    let p = group_place(groups, from, to);
    if p < i {
        assert(groups[p].from == from);
    } else if i < p {
        assert(groups[i].from == from);
    }
}

/// The panes grouped by what they lack.
pub fn group_gaps(gaps: &[PaneGap]) -> (groups: Vec<GapGroup>)
    ensures
        group_views(groups@) == grouped(gaps@),
{
    let mut groups: Vec<GapGroup> = Vec::new();
    let mut i: usize = 0;
    assert(gaps@.take(0) =~= Seq::empty());
    assert(group_views(groups@) =~= Seq::empty());
    while i < gaps.len()
        invariant
            i <= gaps@.len(),
            group_views(groups@) == grouped(gaps@.take(i as int)),
        decreases gaps@.len() - i,
    {
        let gap = gaps[i];
        let ghost before = group_views(groups@);
        let mut p: usize = 0;
        while p < groups.len() && !(groups[p].from == gap.from && groups[p].to == gap.to)
            invariant
                p <= groups@.len(),
                before == group_views(groups@),
                forall|j: int|
                    0 <= j < p ==> !((#[trigger] before[j]).from == gap.from && before[j].to
                        == gap.to),
            decreases groups@.len() - p,
        {
            assert(before[p as int] == groups@[p as int]@);
            p += 1;
        }
        proof {
            if p < groups@.len() {
                assert(before[p as int] == groups@[p as int]@);
            }
            lemma_group_found(before, gap.from, gap.to, p as int);
        }
        if p < groups.len() {
            let ghost g0 = groups@[p as int]@;
            let mut ids: Vec<Uuid> = copy_rows(groups[p].pane_ids.as_slice());
            ids.push(gap.pane_id);
            groups.set(p, GapGroup { from: gap.from, to: gap.to, pane_ids: ids });
            assert(before[p as int] == g0);
            assert(group_views(groups@) =~= before.update(
                p as int,
                GroupView { pane_ids: g0.pane_ids.push(gap.pane_id), ..g0 },
            ));
        } else {
            let mut ids: Vec<Uuid> = Vec::new();
            ids.push(gap.pane_id);
            assert(ids@ =~= seq![gap.pane_id]);
            groups.push(GapGroup { from: gap.from, to: gap.to, pane_ids: ids });
            assert(group_views(groups@) =~= before.push(
                GroupView { from: gap.from, to: gap.to, pane_ids: seq![gap.pane_id] },
            ));
        }
        assert(group_views(groups@) == with_gap(before, gap));
        let ghost next = gaps@.take(i as int + 1);
        assert(next.drop_last() =~= gaps@.take(i as int));
        assert(next.last() == gap);
        i += 1;
    }
    assert(gaps@.take(i as int) =~= gaps@);
    groups
}

/// A range of a stream that is being fetched.
#[derive(Debug)]
pub struct PendingBackfill {
    pub stream: StreamKind,
    pub from: UnixMs,
    pub to: UnixMs,
    /// When it was asked for, in milliseconds of some clock.
    pub since: u64,
}

/// A range of a stream that is being fetched, as a value.
#[verifier::ext_equal]
pub struct PendingView {
    pub stream: StreamView,
    pub from: UnixMs,
    pub to: UnixMs,
    pub since: u64,
}

impl View for PendingBackfill {
    type V = PendingView;

    open spec fn view(&self) -> PendingView {
        PendingView { stream: self.stream@, from: self.from, to: self.to, since: self.since }
    }
}

/// What several fetches denote.
pub open spec fn pending_views(s: Seq<PendingBackfill>) -> Seq<PendingView> {
    s.map_values(|p: PendingBackfill| p@)
}

impl PendingView {
    /// True when the fetch touches a range of a stream, ends included.
    pub open spec fn touches(self, stream: StreamView, from: UnixMs, to: UnixMs) -> bool {
        self.stream == stream && self.from.0 <= to.0 && self.to.0 >= from.0
    }
}

/// True when a fetch touches a range of a stream.
pub open spec fn taken(
    pending: Seq<PendingView>,
    stream: StreamView,
    from: UnixMs,
    to: UnixMs,
) -> bool {
    exists|i: int| 0 <= i < pending.len() && (#[trigger] pending[i]).touches(stream, from, to)
}

/// True for a fetch that at time `now` still keeps others out.
pub open spec fn lasting(now: u64) -> spec_fn(PendingView) -> bool {
    |p: PendingView| now - p.since < PENDING_EXPIRY_MS
}

/// True for a fetch of another range.
pub open spec fn differing(stream: StreamView, from: UnixMs, to: UnixMs) -> spec_fn(
    PendingView,
) -> bool {
    |p: PendingView| !(p.stream == stream && p.from == from && p.to == to)
}

/// What is fetched, and what of the groups of a stream is asked for, after one group after the
/// other was taken up. A group is left out when its range is being fetched already.
pub open spec fn queueing(
    pending: Seq<PendingView>,
    stream: StreamView,
    groups: Seq<GroupView>,
    now: u64,
) -> (Seq<PendingView>, Seq<GroupView>)
    decreases groups.len(),
{
    if groups.len() == 0 {
        (pending, Seq::empty())
    } else {
        let front = queueing(pending, stream, groups.drop_last(), now);
        let g = groups.last();
        if taken(front.0, stream, g.from, g.to) {
            front
        } else {
            (
                front.0.push(PendingView { stream, from: g.from, to: g.to, since: now }),
                front.1.push(g),
            )
        }
    }
}

/// A request that fills a hole for some panes.
#[derive(Debug)]
pub struct BackfillRequest {
    pub req_id: Uuid,
    /// The pane in whose name it is made: the first of the panes.
    pub pane_id: Uuid,
    pub pane_ids: Vec<Uuid>,
    pub stream: StreamKind,
    pub fetch: FetchRange,
}

/// What a request asks for, whatever its identifier is.
#[verifier::ext_equal]
pub struct AskView {
    pub pane_id: Uuid,
    pub pane_ids: Seq<Uuid>,
    pub stream: StreamView,
    pub fetch: FetchRange,
}

impl View for BackfillRequest {
    type V = AskView;

    open spec fn view(&self) -> AskView {
        AskView {
            pane_id: self.pane_id,
            pane_ids: self.pane_ids@,
            stream: self.stream@,
            fetch: self.fetch,
        }
    }
}

/// What several requests ask for.
pub open spec fn ask_views(s: Seq<BackfillRequest>) -> Seq<AskView> {
    s.map_values(|r: BackfillRequest| r@)
}

/// What is asked for a group of panes.
pub open spec fn asking(stream: StreamView, g: GroupView) -> AskView {
    AskView {
        pane_id: g.pane_ids[0],
        pane_ids: g.pane_ids,
        stream,
        fetch: fetch_of(stream, g.from, g.to)->Some_0,
    }
}

/// What is asked for several groups of panes.
pub open spec fn asking_each(stream: StreamView, groups: Seq<GroupView>) -> Seq<AskView> {
    Seq::new(groups.len(), |i: int| asking(stream, groups[i]))
}

/// What the panes lack of one stream.
#[derive(Debug)]
pub struct StreamGaps {
    pub stream: StreamKind,
    pub gaps: Vec<PaneGap>,
}

/// What the panes lack of one stream, as a value.
#[verifier::ext_equal]
pub struct GapsView {
    pub stream: StreamView,
    pub gaps: Seq<PaneGap>,
}

impl View for StreamGaps {
    type V = GapsView;

    open spec fn view(&self) -> GapsView {
        GapsView { stream: self.stream@, gaps: self.gaps@ }
    }
}

/// What several lists of gaps denote.
pub open spec fn gaps_views(s: Seq<StreamGaps>) -> Seq<GapsView> {
    s.map_values(|g: StreamGaps| g@)
}

/// What is fetched and what is asked for after the gaps of one stream were taken up.
pub open spec fn filling(pending: Seq<PendingView>, lack: GapsView, now: u64) -> (
    Seq<PendingView>,
    Seq<AskView>,
) {
    if lack.stream is Depth {
        (pending, Seq::empty())
    } else {
        let q = queueing(pending, lack.stream, grouped(lack.gaps), now);
        (q.0, asking_each(lack.stream, q.1))
    }
}

/// What is fetched and what is asked for after the gaps of several streams were taken up.
pub open spec fn filling_each(pending: Seq<PendingView>, lacks: Seq<GapsView>, now: u64) -> (
    Seq<PendingView>,
    Seq<AskView>,
)
    decreases lacks.len(),
{
    if lacks.len() == 0 {
        (pending, Seq::empty())
    } else {
        let front = filling_each(pending, lacks.drop_last(), now);
        let last = filling(front.0, lacks.last(), now);
        (last.0, front.1 + last.1)
    }
}

/// A lost connection.
struct PendingDisconnect {
    disconnected_at: UnixMs,
    /// When the last record of each lost stream came.
    stream_last_seen: KeyedList<StreamKind, UnixMs>,
}

/// A lost connection as a value.
#[verifier::ext_equal]
pub struct DisconnectView {
    pub disconnected_at: UnixMs,
    /// The lost streams of which something came, each once.
    pub streams: Seq<StreamView>,
    pub last_seen: Map<StreamView, UnixMs>,
}

impl PendingDisconnect {
    closed spec fn view(self) -> DisconnectView {
        DisconnectView {
            disconnected_at: self.disconnected_at,
            streams: self.stream_last_seen.order(),
            last_seen: self.stream_last_seen@,
        }
    }
}

/// The streams that leave a hole, each once: no order books, and only those of which something
/// came.
pub open spec fn lost_streams(streams: Seq<StreamView>, last_live: Map<StreamView, UnixMs>) -> Seq<
    StreamView,
>
    decreases streams.len(),
{
    if streams.len() == 0 {
        Seq::empty()
    } else {
        let front = lost_streams(streams.drop_last(), last_live);
        let s = streams.last();
        if s !is Depth && last_live.contains_key(s) && !front.contains(s) {
            front.push(s)
        } else {
            front
        }
    }
}

/// What keeps live data whole: the time of the last record of each stream, what is being fetched
/// to fill holes, and the last loss of the connection.
pub struct Backfills {
    last_live_t: KeyedList<StreamKind, UnixMs>,
    pending: Vec<PendingBackfill>,
    disconnect: Option<PendingDisconnect>,
}

/// The state as a value.
#[verifier::ext_equal]
pub struct BackfillsView {
    pub last_live: Map<StreamView, UnixMs>,
    pub pending: Seq<PendingView>,
    pub disconnect: Option<DisconnectView>,
}

impl View for Backfills {
    type V = BackfillsView;

    closed spec fn view(&self) -> BackfillsView {
        BackfillsView {
            last_live: self.last_live_t@,
            pending: pending_views(self.pending@),
            disconnect: match self.disconnect {
                Some(d) => Some(d.view()),
                None => None,
            },
        }
    }
}

/// The window of a stream, if there is a hole to fill.
pub open spec fn window_of(last_live: Map<StreamView, UnixMs>, now: UnixMs) -> spec_fn(
    StreamView,
) -> Option<WindowView> {
    |s: StreamView|
        match decided(
            s,
            if last_live.contains_key(s) {
                Some(last_live[s])
            } else {
                None
            },
            now,
        ) {
            BackfillDecision::Fetch { from, to, .. } => Some(WindowView { stream: s, from, to }),
            _ => None,
        }
}

impl BackfillsView {
    /// Nothing came, nothing is fetched, nothing was lost.
    pub open spec fn fresh() -> BackfillsView {
        BackfillsView { last_live: Map::empty(), pending: Seq::empty(), disconnect: None }
    }

    /// The state after a record of a stream came.
    pub open spec fn seeing(self, stream: StreamView, t: UnixMs) -> BackfillsView {
        BackfillsView {
            last_live: self.last_live.insert(
                stream,
                if self.last_live.contains_key(stream) {
                    later(self.last_live[stream], t)
                } else {
                    t
                },
            ),
            ..self
        }
    }

    /// True when no two fetches of a stream touch.
    pub open spec fn apart(self) -> bool {
        pending_apart(self.pending)
    }
}

/// True when no two fetches of a stream touch.
pub open spec fn pending_apart(pending: Seq<PendingView>) -> bool {
    forall|i: int, j: int|
        0 <= i < j < pending.len() ==> !(#[trigger] pending[i]).touches(
            (#[trigger] pending[j]).stream,
            pending[j].from,
            pending[j].to,
        )
}

impl Backfills {
    /// Nothing came, nothing is fetched, nothing was lost.
    pub fn new() -> (b: Self)
        ensures
            b@ == BackfillsView::fresh(),
    {
        let b = Backfills { last_live_t: KeyedList::new(), pending: Vec::new(), disconnect: None };
        assert(b@ =~= BackfillsView::fresh());
        b
    }

    /// When the last record of a stream came.
    pub fn last_live(&self, stream: &StreamKind) -> (t: Option<UnixMs>)
        ensures
            t == if self@.last_live.contains_key(stream@) {
                Some(self@.last_live[stream@])
            } else {
                None::<UnixMs>
            },
    {
        match self.last_live_t.get(stream) {
            Some(t) => Some(*t),
            None => None,
        }
    }

    /// True when nothing is being fetched.
    pub fn is_idle(&self) -> (r: bool)
        ensures
            r == (self@.pending.len() == 0),
    {
        self.pending.len() == 0
    }

    /// The number of ranges that are being fetched.
    pub fn pending_count(&self) -> (n: usize)
        ensures
            n == self@.pending.len(),
    {
        self.pending.len()
    }

    /// A record of a stream came. A record that is older than the last one changes nothing.
    pub fn note_live(&mut self, stream: &StreamKind, t: UnixMs)
        ensures
            final(self)@ == old(self)@.seeing(stream@, t),
    {
        let newer = match self.last_live(stream) {
            Some(prev) => t.0 > prev.0,
            None => true,
        };
        if newer {
            self.last_live_t.insert(stream.clone(), t);
        }
        assert(self@.last_live =~= old(self)@.seeing(stream@, t).last_live);
    }

    /// True when a fetch touches a range of a stream.
    pub fn is_pending(&self, stream: &StreamKind, from: UnixMs, to: UnixMs) -> (r: bool)
        ensures
            r == taken(self@.pending, stream@, from, to),
    {
        let mut i: usize = 0;
        while i < self.pending.len()
            invariant
                i <= self.pending@.len(),
                forall|j: int|
                    0 <= j < i ==> !(#[trigger] self@.pending[j]).touches(stream@, from, to),
            decreases self.pending@.len() - i,
        {
            let p = &self.pending[i];
            assert(self@.pending[i as int] == p@);
            if p.stream.same(stream) && p.from.0 <= to.0 && p.to.0 >= from.0 {
                return true;
            }
            i += 1;
        }
        false
    }

    /// Forgets the fetches that are too old to keep others out.
    pub fn prune(&mut self, now: u64)
        ensures
            final(self)@ == (BackfillsView {
                pending: old(self)@.pending.filter(lasting(now)),
                ..old(self)@
            }),
    {
        let ghost views = self@.pending;
        let ghost p = lasting(now);
        let mut kept: Vec<PendingBackfill> = Vec::new();
        let mut i: usize = 0;
        proof {
            reveal(Seq::filter);
            assert(views.take(0).filter(p) =~= Seq::empty());
        }
        assert(pending_views(kept@) =~= Seq::empty());
        while i < self.pending.len()
            invariant
                i <= self.pending@.len(),
                views == pending_views(self.pending@),
                p == lasting(now),
                pending_views(kept@) == views.take(i as int).filter(p),
            decreases self.pending@.len() - i,
        {
            let e = &self.pending[i];
            assert(views[i as int] == e@);
            proof {
                lemma_filter_take(views, i as int, p);
            }
            let age: u64 = if now >= e.since {
                now - e.since
            } else {
                0
            };
            if age < PENDING_EXPIRY_MS {
                let copy = PendingBackfill {
                    stream: e.stream.clone(),
                    from: e.from,
                    to: e.to,
                    since: e.since,
                };
                let ghost before = pending_views(kept@);
                kept.push(copy);
                assert(pending_views(kept@) =~= before.push(e@));
            }
            i += 1;
        }
        assert(views.take(i as int) =~= views);
        self.pending = kept;
        assert(self@ =~= (BackfillsView {
            pending: old(self)@.pending.filter(lasting(now)),
            ..old(self)@
        }));
    }

    /// A fetch has ended: its range may be fetched again.
    pub fn clear_pending_backfill(&mut self, stream: &StreamKind, fetch: FetchRange)
        ensures
            final(self)@ == (BackfillsView {
                pending: old(self)@.pending.filter(
                    differing(stream@, fetch.bounds().0, fetch.bounds().1),
                ),
                ..old(self)@
            }),
    {
        let (from, to) = fetch.ends();
        let ghost views = self@.pending;
        let ghost p = differing(stream@, from, to);
        let mut kept: Vec<PendingBackfill> = Vec::new();
        let mut i: usize = 0;
        proof {
            reveal(Seq::filter);
            assert(views.take(0).filter(p) =~= Seq::empty());
        }
        assert(pending_views(kept@) =~= Seq::empty());
        while i < self.pending.len()
            invariant
                i <= self.pending@.len(),
                views == pending_views(self.pending@),
                p == differing(stream@, from, to),
                pending_views(kept@) == views.take(i as int).filter(p),
            decreases self.pending@.len() - i,
        {
            let e = &self.pending[i];
            assert(views[i as int] == e@);
            proof {
                lemma_filter_take(views, i as int, p);
            }
            if !(e.stream.same(stream) && e.from == from && e.to == to) {
                let copy = PendingBackfill {
                    stream: e.stream.clone(),
                    from: e.from,
                    to: e.to,
                    since: e.since,
                };
                let ghost before = pending_views(kept@);
                kept.push(copy);
                assert(pending_views(kept@) =~= before.push(e@));
            }
            i += 1;
        }
        assert(views.take(i as int) =~= views);
        self.pending = kept;
        assert(self@ =~= (BackfillsView {
            pending: old(self)@.pending.filter(differing(stream@, from, to)),
            ..old(self)@
        }));
    }

    /// The windows to be filled at time `now`, after the fetches that are too old were forgotten.
    /// `clock` is the time of the clock that ages the fetches.
    pub fn open_backfill(
        &mut self,
        streams: &[StreamKind],
        now: UnixMs,
        clock: u64,
    ) -> (windows: Vec<BackfillWindow>)
        ensures
            window_views(windows@) == stream_views(streams@).filter_map(
                window_of(old(self)@.last_live, now),
            ),
            final(self)@ == (BackfillsView {
                pending: old(self)@.pending.filter(lasting(clock)),
                ..old(self)@
            }),
    {
        self.prune(clock);
        let ghost views = stream_views(streams@);
        let ghost f = window_of(self@.last_live, now);
        let mut out: Vec<BackfillWindow> = Vec::new();
        let mut i: usize = 0;
        proof {
            reveal(Seq::filter_map);
            assert(views.take(0).filter_map(f) =~= Seq::empty());
        }
        assert(window_views(out@) =~= Seq::empty());
        while i < streams.len()
            invariant
                i <= streams@.len(),
                views == stream_views(streams@),
                f == window_of(self@.last_live, now),
                window_views(out@) == views.take(i as int).filter_map(f),
            decreases streams@.len() - i,
        {
            let stream = &streams[i];
            assert(views[i as int] == stream@);
            proof {
                crate::seqs::lemma_filter_map_take(views, i as int, f);
            }
            let last = self.last_live(stream);
            if let BackfillDecision::Fetch { from, to, .. } = decide_backfill(stream, last, now) {
                let ghost before = window_views(out@);
                out.push(BackfillWindow { stream: stream.clone(), from, to });
                assert(window_views(out@) =~= before.push(
                    WindowView { stream: stream@, from, to },
                ));
            }
            i += 1;
        }
        assert(views.take(i as int) =~= views);
        out
    }

    /// Asks for what the panes lack of one stream. Panes that lack the same range share a request,
    /// and a range that is being fetched already is not asked for.
    fn fill_stream(&mut self, lack: &StreamGaps, clock: u64, out: &mut Vec<BackfillRequest>)
        ensures
            final(self)@ == (BackfillsView {
                pending: filling(old(self)@.pending, lack@, clock).0,
                ..old(self)@
            }),
            ask_views(final(out)@) == ask_views(old(out)@) + filling(
                old(self)@.pending,
                lack@,
                clock,
            ).1,
    {
        let ghost before = self@;
        let ghost stream = lack.stream@;
        let ghost had = ask_views(out@);
        if let StreamKind::Depth { .. } = &lack.stream {
            assert(had + Seq::empty() =~= had);
            return ;
        }
        let groups = group_gaps(lack.gaps.as_slice());
        let ghost views = group_views(groups@);
        let ghost mut asked: Seq<GroupView> = Seq::empty();
        let mut i: usize = 0;
        assert(views.take(0) =~= Seq::empty());
        assert(asking_each(stream, asked) =~= Seq::empty());
        assert(had + Seq::empty() =~= had);
        assert(self@ =~= (BackfillsView { pending: before.pending, ..before }));
        while i < groups.len()
            invariant
                i <= groups@.len(),
                stream == lack.stream@,
                stream !is Depth,
                views == group_views(groups@),
                views == grouped(lack.gaps@),
                queueing(before.pending, stream, views.take(i as int), clock) == (
                    self@.pending,
                    asked,
                ),
                self@ == (BackfillsView { pending: self@.pending, ..before }),
                ask_views(out@) == had + asking_each(stream, asked),
            decreases groups@.len() - i,
        {
            let g = &groups[i];
            let ghost next = views.take(i as int + 1);
            assert(next.drop_last() =~= views.take(i as int));
            assert(next.last() == g@);
            proof {
                lemma_groups_hold_panes(lack.gaps@);
                assert(views[i as int] == g@);
            }
            if !self.is_pending(&lack.stream, g.from, g.to) {
                let ghost p0 = self@.pending;
                let fetch = match backfill_fetch(&lack.stream, g.from, g.to) {
                    Some(fetch) => fetch,
                    None => {
                        assert(false);
                        return ;
                    },
                };
                self.pending.push(
                    PendingBackfill {
                        stream: lack.stream.clone(),
                        from: g.from,
                        to: g.to,
                        since: clock,
                    },
                );
                assert(self@.pending =~= p0.push(
                    PendingView { stream, from: g.from, to: g.to, since: clock },
                ));
                let ghost out0 = ask_views(out@);
                let ghost asked0 = asked;
                out.push(
                    BackfillRequest {
                        req_id: Uuid::new_v4(),
                        pane_id: g.pane_ids[0],
                        pane_ids: copy_rows(g.pane_ids.as_slice()),
                        stream: lack.stream.clone(),
                        fetch,
                    },
                );
                proof {
                    asked = asked.push(g@);
                }
                assert(ask_views(out@) =~= out0.push(asking(stream, g@)));
                assert(asking_each(stream, asked) =~= asking_each(stream, asked0).push(
                    asking(stream, g@),
                ));
                assert(had + asking_each(stream, asked) =~= out0.push(asking(stream, g@)));
                assert(self@ =~= (BackfillsView { pending: self@.pending, ..before }));
            }
            i += 1;
        }
        assert(views.take(i as int) =~= views);
    }

    /// Asks for what the panes lack, stream by stream. `clock` is the time of the clock that ages
    /// the fetches.
    pub fn backfill_disconnected_streams(
        &mut self,
        lacks: &[StreamGaps],
        clock: u64,
    ) -> (requests: Vec<BackfillRequest>)
        ensures
            final(self)@ == (BackfillsView {
                pending: filling_each(old(self)@.pending, gaps_views(lacks@), clock).0,
                ..old(self)@
            }),
            ask_views(requests@) == filling_each(
                old(self)@.pending,
                gaps_views(lacks@),
                clock,
            ).1,
    {
        let ghost before = self@;
        let ghost views = gaps_views(lacks@);
        let mut out: Vec<BackfillRequest> = Vec::new();
        let mut i: usize = 0;
        assert(views.take(0) =~= Seq::empty());
        assert(ask_views(out@) =~= Seq::empty());
        assert(self@ =~= (BackfillsView { pending: before.pending, ..before }));
        while i < lacks.len()
            invariant
                i <= lacks@.len(),
                views == gaps_views(lacks@),
                filling_each(before.pending, views.take(i as int), clock) == (
                    self@.pending,
                    ask_views(out@),
                ),
                self@ == (BackfillsView { pending: self@.pending, ..before }),
            decreases lacks@.len() - i,
        {
            let ghost next = views.take(i as int + 1);
            assert(next.drop_last() =~= views.take(i as int));
            assert(next.last() == lacks@[i as int]@);
            self.fill_stream(&lacks[i], clock, &mut out);
            i += 1;
        }
        assert(views.take(i as int) =~= views);
        out
    }

    /// The connection to some streams is lost. What they leave open is found out when it is back.
    pub fn record_pending_disconnect_gaps(
        &mut self,
        streams: &[StreamKind],
        disconnected_at: UnixMs,
    )
        ensures
            final(self)@.last_live == old(self)@.last_live,
            final(self)@.pending == old(self)@.pending,
            final(self)@.disconnect matches Some(d) && d.disconnected_at == disconnected_at
                && d.streams == lost_streams(stream_views(streams@), old(self)@.last_live)
                && d.last_seen == old(self)@.last_live.restrict(d.streams.to_set()),
    {
        let ghost views = stream_views(streams@);
        let ghost last_live = self@.last_live;
        let mut seen: KeyedList<StreamKind, UnixMs> = KeyedList::new();
        let mut i: usize = 0;
        assert(views.take(0) =~= Seq::empty());
        assert(seen@ =~= last_live.restrict(seen.order().to_set()));
        while i < streams.len()
            invariant
                i <= streams@.len(),
                views == stream_views(streams@),
                last_live == self@.last_live,
                self@ == old(self)@,
                seen.order() == lost_streams(views.take(i as int), last_live),
                seen@ == last_live.restrict(seen.order().to_set()),
            decreases streams@.len() - i,
        {
            let stream = &streams[i];
            let ghost next = views.take(i as int + 1);
            assert(next.drop_last() =~= views.take(i as int));
            assert(next.last() == stream@);
            let ghost order0 = seen.order();
            let depth = matches!(stream, StreamKind::Depth { .. });
            if !depth {
                if let Some(last_t) = self.last_live(stream) {
                    let n: usize = seen.len();
                    seen.insert(stream.clone(), last_t);
                    proof {
                        let k = stream@;
                        let kept = last_live.restrict(order0.to_set());
                        assert(order0.to_set().contains(k) <==> order0.contains(k));
                        assert(kept.contains_key(k) <==> order0.contains(k));
                        if !order0.contains(k) {
                            lemma_to_set_push(order0, k);
                            assert(seen.order() == order0.push(k));
                        } else {
                            assert(seen.order() == order0);
                        }
                        assert(seen@ =~= last_live.restrict(seen.order().to_set()));
                    }
                }
            }
            i += 1;
        }
        assert(views.take(i as int) =~= views);
        let d = PendingDisconnect { disconnected_at, stream_last_seen: seen };
        assert(d.view().streams == seen.order());
        self.disconnect = Some(d);
    }

    /// The connection is back: hands out the streams that it had lost, once.
    pub fn take_lost_streams(&mut self) -> (streams: Vec<StreamKind>)
        ensures
            stream_views(streams@) == match old(self)@.disconnect {
                Some(d) => d.streams,
                None => Seq::empty(),
            },
            final(self)@ == (BackfillsView { disconnect: None, ..old(self)@ }),
    {
        let ghost before = self@;
        let taken = self.disconnect.take();
        assert(self@ =~= (BackfillsView { disconnect: None, ..before }));
        let mut out: Vec<StreamKind> = Vec::new();
        assert(stream_views(out@) =~= Seq::empty());
        if let Some(d) = taken {
            let n: usize = d.stream_last_seen.len();
            let ghost order = d.stream_last_seen.order();
            let mut i: usize = 0;
            while i < n
                invariant
                    i <= n,
                    n == order.len(),
                    order == d.stream_last_seen.order(),
                    stream_views(out@) == order.take(i as int),
                decreases n - i,
            {
                let s = d.stream_last_seen.key_at(i);
                let ghost had = stream_views(out@);
                out.push(s.clone());
                assert(stream_views(out@) =~= had.push(s@));
                assert(order.take(i as int + 1) =~= order.take(i as int).push(s@));
                i += 1;
            }
            assert(order.take(n as int) =~= order);
        }
        out
    }

    /// The connection is back at time `now`: the windows to be filled, of the streams that were
    /// lost. `clock` is the time of the clock that ages the fetches.
    pub fn execute_reconnect_backfill(&mut self, now: UnixMs, clock: u64) -> (windows: Vec<
        BackfillWindow,
    >)
        ensures
            match old(self)@.disconnect {
                Some(d) if d.streams.len() > 0 => {
                    &&& window_views(windows@) == d.streams.filter_map(
                        window_of(old(self)@.last_live, now),
                    )
                    &&& final(self)@ == (BackfillsView {
                        pending: old(self)@.pending.filter(lasting(clock)),
                        disconnect: None,
                        ..old(self)@
                    })
                },
                _ => windows@.len() == 0 && final(self)@ == (BackfillsView {
                    disconnect: None,
                    ..old(self)@
                }),
            },
    {
        let streams = self.take_lost_streams();
        if streams.len() == 0 {
            return Vec::new();
        }
        self.open_backfill(streams.as_slice(), now, clock)
    }
}

impl Default for Backfills {
    fn default() -> (b: Self)
        ensures
            b@ == BackfillsView::fresh(),
    {
        Backfills::new()
    }
}

/// The elements of a longer sequence.
proof fn lemma_to_set_push(s: Seq<StreamView>, k: StreamView)
    ensures
        s.push(k).to_set() == s.to_set().insert(k),
{
    assert forall|x: StreamView| #[trigger]
        s.push(k).to_set().contains(x) <==> s.to_set().insert(k).contains(x) by {
        if s.contains(x) {
            assert(s.push(k)[s.index_of(x)] == x);
        }
        assert(s.push(k)[s.len() as int] == k);
    }
    assert(s.push(k).to_set() =~= s.to_set().insert(k));
}

/// Each group has a pane.
proof fn lemma_groups_hold_panes(gaps: Seq<PaneGap>)
    ensures
        forall|i: int| 0 <= i < grouped(gaps).len() ==> (#[trigger] grouped(gaps)[i]).pane_ids.len() > 0,
    decreases gaps.len(),
{
    if gaps.len() > 0 {
        lemma_groups_hold_panes(gaps.drop_last());
        lemma_group_place(grouped(gaps.drop_last()), gaps.last().from, gaps.last().to);
    }
}

} // verus!
