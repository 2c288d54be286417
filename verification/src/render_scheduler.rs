//! Which panes are to be drawn, and when.
//!
//! A pane is drawn only after it changed, and the less often the less of it is seen.

use vstd::prelude::*;
use vstd::string::*;
use crate::id_table::{ids_distinct, lemma_lookup_at, lookup, put, without, IdTable};
use crate::ids::Uuid;
use crate::seqs::{lemma_filter_map_has, lemma_filter_map_take};
use crate::text::{decimal, push_decimal};

verus! {

/// Nanoseconds of a second.
pub const SECOND_NS: u64 = 1_000_000_000;

/// The state of a pane: whether it changed since it was drawn, when that was, how much of it is
/// seen, and the shortest time between two frames. Times are in nanoseconds of some clock.
#[derive(Debug, Clone, Copy, PartialEq, Eq, Structural)]
pub struct PaneRenderState {
    pub dirty: bool,
    pub last_rendered: Option<u64>,
    pub visible: bool,
    pub focused: bool,
    pub render_interval: u64,
}

/// A pane that was not drawn yet.
pub open spec fn undrawn() -> PaneRenderState {
    PaneRenderState {
        dirty: true,
        last_rendered: None,
        visible: true,
        focused: false,
        render_interval: 16_000_000,
    }
}

impl Default for PaneRenderState {
    fn default() -> (s: Self)
        ensures
            s == undrawn(),
    {
        PaneRenderState {
            dirty: true,
            last_rendered: None,
            visible: true,
            focused: false,
            render_interval: 16_000_000,
        }
    }
}

/// How much a pane matters.
#[derive(Debug, Clone, Copy, PartialEq, Eq, PartialOrd, Ord, Structural)]
pub enum RenderPriority {
    /// The user works in it.
    Active,
    /// The user sees it.
    Visible,
    /// It is out of sight.
    Background,
}

/// The panes and how often each kind of them is drawn, in frames per second.
pub struct DirtyScheduler {
    pane_states: IdTable<PaneRenderState>,
    active_fps: u32,
    visible_fps: u32,
    background_fps: u32,
}

/// The panes, in the order in which they came.
pub type Panes = Seq<(Uuid, PaneRenderState)>;

impl View for DirtyScheduler {
    type V = Panes;

    closed spec fn view(&self) -> Panes {
        self.pane_states@
    }
}

/// The shortest time between two frames of a pane.
pub open spec fn interval(
    focused: bool,
    visible: bool,
    active_fps: u32,
    visible_fps: u32,
    background_fps: u32,
) -> int {
    SECOND_NS as int / (if focused {
        active_fps as int
    } else if visible {
        visible_fps as int
    } else {
        background_fps as int
    })
}

/// A pane after the focus or its visibility changed.
pub open spec fn retimed(s: PaneRenderState) -> PaneRenderState {
    PaneRenderState { render_interval: interval(s.focused, s.visible, 60, 30, 5) as u64, ..s }
}

/// True when a pane is to be drawn at time `now`: it changed, and was not drawn a short while ago.
pub open spec fn due(s: PaneRenderState, now: u64) -> bool {
    s.dirty && match s.last_rendered {
        Some(last) => if now >= last {
            now - last >= s.render_interval
        } else {
            s.render_interval == 0
        },
        None => true,
    }
}

/// The panes with another state for one of them, if it is there.
pub open spec fn changed(panes: Panes, id: Uuid, s: PaneRenderState) -> Panes {
    if lookup(panes, id) is Some {
        put(panes, id, s)
    } else {
        panes
    }
}

/// All panes, changed.
pub open spec fn all_dirty(panes: Panes) -> Panes {
    panes.map_values(
        |row: (Uuid, PaneRenderState)| (row.0, PaneRenderState { dirty: true, ..row.1 }),
    )
}

/// The panes to be drawn at time `now`.
pub open spec fn to_render(panes: Panes, now: u64) -> Seq<Uuid> {
    panes.filter_map(
        |row: (Uuid, PaneRenderState)|
            if due(row.1, now) {
                Some(row.0)
            } else {
                None
            },
    )
}

/// How many panes have a property.
pub open spec fn tally(panes: Panes, p: spec_fn(PaneRenderState) -> bool) -> nat
    decreases panes.len(),
{
    if panes.len() == 0 {
        0
    } else {
        tally(panes.drop_last(), p) + if p(panes.last().1) {
            1nat
        } else {
            0nat
        }
    }
}

/// The shortest time between two frames of a pane, in nanoseconds.
pub fn compute_interval(
    focused: bool,
    visible: bool,
    active_fps: u32,
    visible_fps: u32,
    background_fps: u32,
) -> (ns: u64)
    requires
        focused ==> active_fps > 0,
        !focused && visible ==> visible_fps > 0,
        !focused && !visible ==> background_fps > 0,
    ensures
        ns == interval(focused, visible, active_fps, visible_fps, background_fps),
{
    if focused {
        SECOND_NS / active_fps as u64
    } else if visible {
        SECOND_NS / visible_fps as u64
    } else {
        SECOND_NS / background_fps as u64
    }
}

fn is_due(s: &PaneRenderState, now: u64) -> (r: bool)
    ensures
        r == due(*s, now),
{
    if !s.dirty {
        return false;
    }
    match s.last_rendered {
        Some(last) => now.saturating_sub(last) >= s.render_interval,
        None => true,
    }
}

/// How many panes there are, and how many of them changed, are seen and have the focus.
#[derive(Debug, Clone, Copy, PartialEq, Eq, Structural)]
pub struct SchedulerStats {
    pub total_panes: usize,
    pub dirty_panes: usize,
    pub visible_panes: usize,
    pub focused_panes: usize,
}

impl SchedulerStats {
    /// The numbers as text.
    pub fn display(&self) -> (s: String)
        ensures
            s@ == "panes="@ + decimal(self.total_panes as nat) + " dirty="@ + decimal(
                self.dirty_panes as nat,
            ) + " visible="@ + decimal(self.visible_panes as nat) + " focused="@ + decimal(
                self.focused_panes as nat,
            ),
    {
        let mut s = String::from_str("panes=");
        push_decimal(&mut s, self.total_panes as u64);
        s.append(" dirty=");
        push_decimal(&mut s, self.dirty_panes as u64);
        s.append(" visible=");
        push_decimal(&mut s, self.visible_panes as u64);
        s.append(" focused=");
        push_decimal(&mut s, self.focused_panes as u64);
        s
    }
}

impl Default for DirtyScheduler {
    fn default() -> (s: Self)
        ensures
            s@ == Panes::empty(),
            s.wf(),
    {
        DirtyScheduler::new()
    }
}

impl DirtyScheduler {
    /// True when panes are drawn as often as they should be.
    pub closed spec fn wf(self) -> bool {
        self.active_fps == 60 && self.visible_fps == 30 && self.background_fps == 5
    }

    /// A scheduler without panes.
    pub fn new() -> (s: Self)
        ensures
            s@ == Panes::empty(),
            s.wf(),
    {
        DirtyScheduler {
            pane_states: IdTable::new(),
            active_fps: 60,
            visible_fps: 30,
            background_fps: 5,
        }
    }

    fn state_of(&self, pane_id: Uuid) -> (s: Option<PaneRenderState>)
        ensures
            s == lookup(self@, pane_id),
    {
        match self.pane_states.get(pane_id) {
            Some(s) => Some(*s),
            None => None,
        }
    }

    fn set_state(&mut self, pane_id: Uuid, s: PaneRenderState)
        ensures
            final(self)@ == put(old(self)@, pane_id, s),
            old(self).wf() ==> final(self).wf(),
    {
        self.pane_states.insert(pane_id, s);
    }

    /// Adds a pane, if it is new.
    pub fn register_pane(&mut self, pane_id: Uuid)
        requires
            old(self).wf(),
        ensures
            final(self)@ == if lookup(old(self)@, pane_id) is None {
                put(old(self)@, pane_id, undrawn())
            } else {
                old(self)@
            },
            final(self).wf(),
    {
        if self.state_of(pane_id).is_none() {
            self.set_state(pane_id, PaneRenderState::default());
        }
    }

    /// Removes a pane.
    pub fn unregister_pane(&mut self, pane_id: &Uuid)
        requires
            old(self).wf(),
        ensures
            final(self)@ == without(old(self)@, *pane_id),
            final(self).wf(),
    {
        self.pane_states.remove(*pane_id);
    }

    /// Notes that a pane changed.
    pub fn mark_dirty(&mut self, pane_id: &Uuid)
        requires
            old(self).wf(),
        ensures
            final(self)@ == changed(
                old(self)@,
                *pane_id,
                (PaneRenderState { dirty: true, ..lookup(old(self)@, *pane_id)->Some_0 }),
            ),
            final(self).wf(),
    {
        if let Some(state) = self.state_of(*pane_id) {
            self.set_state(
                *pane_id,
                PaneRenderState {
                    dirty: true,
                    last_rendered: state.last_rendered,
                    visible: state.visible,
                    focused: state.focused,
                    render_interval: state.render_interval,
                },
            );
        }
    }

    /// Notes that all panes changed.
    pub fn mark_all_dirty(&mut self)
        requires
            old(self).wf(),
        ensures
            final(self)@ == all_dirty(old(self)@),
            final(self).wf(),
    {
        let ghost before = self@;
        let n: usize = self.pane_states.len();
        let mut i: usize = 0;
        while i < n
            invariant
                n == self@.len(),
                self@.len() == before.len(),
                ids_distinct(self@),
                self.wf(),
                i <= n,
                forall|k: int|
                    0 <= k < n ==> #[trigger] self@[k] == if k < i {
                        (before[k].0, PaneRenderState { dirty: true, ..before[k].1 })
                    } else {
                        before[k]
                    },
            decreases n - i,
        {
            let id = self.pane_states.id_at(i);
            let ghost rows = self@;
            proof {
                assert(rows[i as int] == before[i as int]);
                lemma_lookup_at(rows, i as int);
            }
            self.mark_dirty(&id);
            proof {
                lemma_put_here(
                    rows,
                    i as int,
                    PaneRenderState { dirty: true, ..before[i as int].1 },
                );
            }
            i += 1;
        }
        assert(self@ =~= all_dirty(before));
    }

    /// Notes whether a pane is seen.
    pub fn set_visible(&mut self, pane_id: &Uuid, visible: bool)
        requires
            old(self).wf(),
        ensures
            final(self)@ == changed(
                old(self)@,
                *pane_id,
                retimed(
                    (PaneRenderState { visible, ..lookup(old(self)@, *pane_id)->Some_0 }),
                ),
            ),
            final(self).wf(),
    {
        if let Some(state) = self.state_of(*pane_id) {
            let render_interval = compute_interval(
                state.focused,
                visible,
                self.active_fps,
                self.visible_fps,
                self.background_fps,
            );
            self.set_state(
                *pane_id,
                PaneRenderState {
                    dirty: state.dirty,
                    last_rendered: state.last_rendered,
                    visible,
                    focused: state.focused,
                    render_interval,
                },
            );
        }
    }

    /// Notes whether a pane has the focus.
    pub fn set_focused(&mut self, pane_id: &Uuid, focused: bool)
        requires
            old(self).wf(),
        ensures
            final(self)@ == changed(
                old(self)@,
                *pane_id,
                retimed(
                    (PaneRenderState { focused, ..lookup(old(self)@, *pane_id)->Some_0 }),
                ),
            ),
            final(self).wf(),
    {
        if let Some(state) = self.state_of(*pane_id) {
            let render_interval = compute_interval(
                focused,
                state.visible,
                self.active_fps,
                self.visible_fps,
                self.background_fps,
            );
            self.set_state(
                *pane_id,
                PaneRenderState {
                    dirty: state.dirty,
                    last_rendered: state.last_rendered,
                    visible: state.visible,
                    focused,
                    render_interval,
                },
            );
        }
    }

    /// How much a pane matters.
    pub fn priority(&self, pane_id: &Uuid) -> (p: RenderPriority)
        ensures
            p == match lookup(self@, *pane_id) {
                Some(s) => if s.focused {
                    RenderPriority::Active
                } else if s.visible {
                    RenderPriority::Visible
                } else {
                    RenderPriority::Background
                },
                None => RenderPriority::Background,
            },
    {
        match self.state_of(*pane_id) {
            Some(state) => if state.focused {
                RenderPriority::Active
            } else if state.visible {
                RenderPriority::Visible
            } else {
                RenderPriority::Background
            },
            None => RenderPriority::Background,
        }
    }

    /// True when a pane is to be drawn at time `now`.
    pub fn should_render(&self, pane_id: &Uuid, now: u64) -> (r: bool)
        ensures
            r == (lookup(self@, *pane_id) matches Some(s) && due(s, now)),
    {
        match self.state_of(*pane_id) {
            Some(state) => is_due(&state, now),
            None => false,
        }
    }

    /// The panes to be drawn at time `now`.
    pub fn panes_to_render(&self, now: u64) -> (r: Vec<Uuid>)
        ensures
            r@ == to_render(self@, now),
    {
        let n: usize = self.pane_states.len();
        let mut out: Vec<Uuid> = Vec::new();
        let mut i: usize = 0;
        let ghost f = |row: (Uuid, PaneRenderState)|
            if due(row.1, now) {
                Some(row.0)
            } else {
                None
            };
        proof {
            reveal(Seq::filter_map);
            assert(self@.take(0).filter_map(f) =~= Seq::empty());
        }
        while i < n
            invariant
                n == self@.len(),
                i <= n,
                f == (|row: (Uuid, PaneRenderState)|
                    if due(row.1, now) {
                        Some(row.0)
                    } else {
                        None
                    }),
                out@ == self@.take(i as int).filter_map(f),
            decreases n - i,
        {
            proof {
                lemma_filter_map_take(self@, i as int, f);
            }
            if is_due(self.pane_states.value_at(i), now) {
                out.push(self.pane_states.id_at(i));
            }
            i += 1;
        }
        assert(self@.take(i as int) =~= self@);
        out
    }

    /// Notes that a pane was drawn at time `now`.
    pub fn mark_rendered(&mut self, pane_id: &Uuid, now: u64)
        requires
            old(self).wf(),
        ensures
            final(self)@ == changed(
                old(self)@,
                *pane_id,
                (PaneRenderState {
                    dirty: false,
                    last_rendered: Some(now),
                    ..lookup(old(self)@, *pane_id)->Some_0
                }),
            ),
            final(self).wf(),
    {
        if let Some(state) = self.state_of(*pane_id) {
            self.set_state(
                *pane_id,
                PaneRenderState {
                    dirty: false,
                    last_rendered: Some(now),
                    visible: state.visible,
                    focused: state.focused,
                    render_interval: state.render_interval,
                },
            );
        }
    }

    /// How many panes there are, and how many of them changed, are seen and have the focus.
    pub fn stats(&self) -> (s: SchedulerStats)
        ensures
            s.total_panes == self@.len(),
            s.dirty_panes == tally(self@, |p: PaneRenderState| p.dirty),
            s.visible_panes == tally(self@, |p: PaneRenderState| p.visible),
            s.focused_panes == tally(self@, |p: PaneRenderState| p.focused),
    {
        let n: usize = self.pane_states.len();
        let mut s = SchedulerStats {
            total_panes: n,
            dirty_panes: 0,
            visible_panes: 0,
            focused_panes: 0,
        };
        let mut i: usize = 0;
        assert(self@.take(0) =~= Seq::empty());
        while i < n
            invariant
                n == self@.len(),
                i <= n,
                s.total_panes == n,
                s.dirty_panes <= i,
                s.visible_panes <= i,
                s.focused_panes <= i,
                s.dirty_panes == tally(self@.take(i as int), |p: PaneRenderState| p.dirty),
                s.visible_panes == tally(self@.take(i as int), |p: PaneRenderState| p.visible),
                s.focused_panes == tally(self@.take(i as int), |p: PaneRenderState| p.focused),
            decreases n - i,
        {
            let state = self.pane_states.value_at(i);
            s = SchedulerStats {
                total_panes: n,
                dirty_panes: if state.dirty {
                    s.dirty_panes + 1
                } else {
                    s.dirty_panes
                },
                visible_panes: if state.visible {
                    s.visible_panes + 1
                } else {
                    s.visible_panes
                },
                focused_panes: if state.focused {
                    s.focused_panes + 1
                } else {
                    s.focused_panes
                },
            };
            i += 1;
            assert(self@.take(i as int).drop_last() =~= self@.take(i - 1));
            assert(self@.take(i as int).last() == self@[i - 1]);
        }
        assert(self@.take(i as int) =~= self@);
        s
    }
}

proof fn lemma_put_here(rows: Panes, i: int, s: PaneRenderState)
    requires
        ids_distinct(rows),
        0 <= i < rows.len(),
    ensures
        put(rows, rows[i].0, s) == rows.update(i, (rows[i].0, s)),
        ids_distinct(rows.update(i, (rows[i].0, s))),
{
    lemma_lookup_at(rows, i);
    let id = rows[i].0;
    let out = put(rows, id, s);
    assert forall|k: int| 0 <= k < rows.len() implies out[k] == rows.update(i, (id, s))[k] by {
        if k != i {
            if k < i {
                assert(rows[k].0 != rows[i].0);
            } else {
                assert(rows[i].0 != rows[k].0);
            }
        }
    }
    assert(out =~= rows.update(i, (id, s)));
    let upd = rows.update(i, (id, s));
    assert forall|a: int, b: int| 0 <= a < b < upd.len() implies (#[trigger] upd[a]).0 != (
    #[trigger] upd[b]).0 by {
        assert(rows[a].0 != rows[b].0);
    }
}

/// A pane that was drawn is not drawn again before it changed.
pub proof fn law_drawn_pane_rests(s: PaneRenderState, drawn: u64, now: u64)
    ensures
        !due(PaneRenderState { dirty: false, last_rendered: Some(drawn), ..s }, now),
{
}

/// A pane that goes on changing is drawn at most once in its interval, and at the latest when the
/// interval is over.
pub proof fn law_drawn_once_per_interval(s: PaneRenderState, drawn: u64, now: u64)
    requires
        drawn <= now,
    ensures
        due(PaneRenderState { dirty: true, last_rendered: Some(drawn), ..s }, now) <==> now - drawn
            >= s.render_interval,
{
}

/// The more of a pane is seen, the more often it may be drawn.
pub proof fn law_seen_panes_are_drawn_more_often(s: PaneRenderState)
    ensures
        retimed(PaneRenderState { focused: true, ..s }).render_interval < retimed(
            PaneRenderState { focused: false, visible: true, ..s },
        ).render_interval,
        retimed(PaneRenderState { focused: false, visible: true, ..s }).render_interval < retimed(
            PaneRenderState { focused: false, visible: false, ..s },
        ).render_interval,
{
}

/// A pane is drawn exactly when it changed and was not drawn within its interval.
pub proof fn law_changed_panes_are_drawn(panes: Panes, now: u64, id: Uuid)
    ensures
        to_render(panes, now).contains(id) <==> exists|i: int|
            0 <= i < panes.len() && (#[trigger] panes[i]).0 == id && panes[i].1.dirty && (
            panes[i].1.last_rendered matches Some(last) ==> (if last <= now {
                now - last
            } else {
                0
            }) >= panes[i].1.render_interval),
{
    let f = |row: (Uuid, PaneRenderState)|
        if due(row.1, now) {
            Some(row.0)
        } else {
            None
        };
    let out = to_render(panes, now);
    assert(out == panes.filter_map(f));
    if out.contains(id) {
        panes.lemma_filter_map_contains(f, id);
        let row = choose|row: (Uuid, PaneRenderState)| #[trigger]
            panes.contains(row) && f(row) == Some(id);
        let i = choose|i: int| 0 <= i < panes.len() && panes[i] == row;
        assert(panes[i].0 == id);
    }
    if exists|i: int|
        0 <= i < panes.len() && (#[trigger] panes[i]).0 == id && panes[i].1.dirty && (
        panes[i].1.last_rendered matches Some(last) ==> (if last <= now {
            now - last
        } else {
            0
        }) >= panes[i].1.render_interval) {
        let i = choose|i: int|
            0 <= i < panes.len() && (#[trigger] panes[i]).0 == id && panes[i].1.dirty && (
            panes[i].1.last_rendered matches Some(last) ==> (if last <= now {
                now - last
            } else {
                0
            }) >= panes[i].1.render_interval);
        assert(f(panes[i]) == Some(id));
        lemma_filter_map_has(panes, f, i);
    }
}

/// The pane in focus is drawn up to sixty times a second, others that are seen thirty times, and
/// those that are not seen five times.
pub proof fn law_frames_per_second(s: PaneRenderState)
    ensures
        retimed(s) == (PaneRenderState { render_interval: retimed(s).render_interval, ..s }),
        s.focused ==> 60 * retimed(s).render_interval <= 1_000_000_000 < 60 * (retimed(
            s,
        ).render_interval + 1),
        !s.focused && s.visible ==> 30 * retimed(s).render_interval <= 1_000_000_000 < 30 * (
        retimed(s).render_interval + 1),
        !s.focused && !s.visible ==> 5 * retimed(s).render_interval == 1_000_000_000,
{
}

/// When everything changed, each pane has changed, and nothing else of any pane has.
pub proof fn law_all_panes_change(panes: Panes)
    ensures
        all_dirty(panes).len() == panes.len(),
        forall|i: int|
            0 <= i < panes.len() ==> (#[trigger] all_dirty(panes)[i]).0 == panes[i].0 && all_dirty(
                panes,
            )[i].1 == (PaneRenderState { dirty: true, ..panes[i].1 }),
{
}

/// A change to one pane is seen at that pane, if it is there, and at no other.
pub proof fn law_other_panes_rest(panes: Panes, id: Uuid, s: PaneRenderState, other: Uuid)
    requires
        ids_distinct(panes),
        other != id,
    ensures
        lookup(panes, id) is Some ==> lookup(changed(panes, id, s), id) == Some(s),
        lookup(panes, id) is None ==> changed(panes, id, s) == panes,
        lookup(changed(panes, id, s), other) == lookup(panes, other),
{
    crate::market_data::coordinator::lemma_put_lookup(panes, id, s);
    crate::market_data::runtime::laws::lemma_put_other(panes, id, s, other);
}

/// A tally counts the panes with a property, each once.
pub proof fn law_tally_counts_panes(panes: Panes, p: spec_fn(PaneRenderState) -> bool)
    ensures
        tally(panes, p) == panes.filter(|row: (Uuid, PaneRenderState)| p(row.1)).len(),
    decreases panes.len(),
{
    reveal(Seq::filter);
    if panes.len() > 0 {
        law_tally_counts_panes(panes.drop_last(), p);
    }
}

} // verus!
