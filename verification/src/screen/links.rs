//! Panes that show the same ticker, and which panes an action of the user reaches.

use vstd::prelude::*;
use crate::connector::fetcher::{stream_of, stream_views};
use crate::ids::Uuid;
use crate::market::{StreamKind, StreamView, TickerInfo, TickerView};
use crate::seqs::lemma_filter_map_take;

verus! {

/// A group of panes that show the same ticker.
#[derive(Debug, Clone, Copy, PartialEq, Eq, Structural)]
pub struct LinkGroup(pub u8);

/// A pane, its group and its ticker.
#[derive(Debug)]
pub struct LinkedPane {
    pub pane_id: Uuid,
    pub group: Option<LinkGroup>,
    pub ticker: Option<TickerInfo>,
}

/// A pane, its group and its ticker, as a value.
#[verifier::ext_equal]
pub struct LinkedView {
    pub pane_id: Uuid,
    pub group: Option<LinkGroup>,
    pub ticker: Option<TickerView>,
}

/// What an optional ticker denotes.
pub open spec fn shown(t: Option<TickerInfo>) -> Option<TickerView> {
    match t {
        Some(info) => Some(info@),
        None => None,
    }
}

impl View for LinkedPane {
    type V = LinkedView;

    open spec fn view(&self) -> LinkedView {
        LinkedView { pane_id: self.pane_id, group: self.group, ticker: shown(self.ticker) }
    }
}

/// What several panes denote.
pub open spec fn linked_views(s: Seq<LinkedPane>) -> Seq<LinkedView> {
    s.map_values(|p: LinkedPane| p@)
}

/// The ticker of a group: that of its first pane, other than `joining`, which shows one.
pub open spec fn group_ticker(panes: Seq<LinkedView>, joining: Uuid, group: LinkGroup) -> Option<
    TickerView,
>
    decreases panes.len(),
{
    if panes.len() == 0 {
        None
    } else if panes[0].pane_id != joining && panes[0].group == Some(group) && panes[0].ticker is Some {
        panes[0].ticker
    } else {
        group_ticker(panes.skip(1), joining, group)
    }
}

/// The ticker that a pane takes over when it joins a group, if the group has one and the pane does
/// not show it already.
pub open spec fn taken_over(
    panes: Seq<LinkedView>,
    joining: Uuid,
    group: LinkGroup,
    own: Option<TickerView>,
) -> Option<TickerView> {
    match group_ticker(panes, joining, group) {
        Some(t) if own != Some(t) => Some(t),
        _ => None,
    }
}

/// True when both are the same ticker, or both are none.
pub fn same_ticker(a: &Option<TickerInfo>, b: &Option<TickerInfo>) -> (same: bool)
    ensures
        same == (shown(*a) == shown(*b)),
{
    match (a, b) {
        (Some(x), Some(y)) => x.ticker.same(&y.ticker),
        (None, None) => true,
        _ => false,
    }
}

/// The ticker that the pane `joining`, which shows `own`, takes over when it joins a group.
pub fn ticker_of_group(
    panes: &[LinkedPane],
    joining: Uuid,
    group: LinkGroup,
    own: &Option<TickerInfo>,
) -> (ticker: Option<TickerInfo>)
    ensures
        shown(ticker) == taken_over(linked_views(panes@), joining, group, shown(*own)),
{
    let ghost views = linked_views(panes@);
    let mut i: usize = 0;
    assert(views.skip(0) =~= views);
    while i < panes.len()
        invariant
            i <= panes@.len(),
            views == linked_views(panes@),
            group_ticker(views, joining, group) == group_ticker(
                views.skip(i as int),
                joining,
                group,
            ),
        decreases panes@.len() - i,
    {
        let p = &panes[i];
        let ghost rest = views.skip(i as int);
        assert(rest[0] == p@);
        assert(rest.skip(1) =~= views.skip(i as int + 1));
        if p.pane_id != joining && p.group == Some(group) && p.ticker.is_some() {
            if same_ticker(own, &p.ticker) {
                return None;
            }
            return match &p.ticker {
                Some(t) => Some(t.clone()),
                None => None,
            };
        }
        i += 1;
    }
    assert(views.skip(i as int) =~= Seq::empty());
    None
}

/// The pane, when it is in a group.
pub open spec fn member_of(group: LinkGroup) -> spec_fn(LinkedView) -> Option<Uuid> {
    |p: LinkedView|
        if p.group == Some(group) {
            Some(p.pane_id)
        } else {
            None
        }
}

/// The panes of a group, in their order.
pub fn panes_in_group(panes: &[LinkedPane], group: LinkGroup) -> (ids: Vec<Uuid>)
    ensures
        ids@ == linked_views(panes@).filter_map(member_of(group)),
{
    let ghost views = linked_views(panes@);
    let ghost f = member_of(group);
    let mut out: Vec<Uuid> = Vec::new();
    let mut i: usize = 0;
    proof {
        reveal(Seq::filter_map);
        assert(views.take(0).filter_map(f) =~= Seq::empty());
    }
    while i < panes.len()
        invariant
            i <= panes@.len(),
            views == linked_views(panes@),
            f == member_of(group),
            out@ == views.take(i as int).filter_map(f),
        decreases panes@.len() - i,
    {
        assert(views[i as int] == panes@[i as int]@);
        proof {
            lemma_filter_map_take(views, i as int, f);
        }
        if panes[i].group == Some(group) {
            out.push(panes[i].pane_id);
        }
        i += 1;
    }
    assert(views.take(i as int) =~= views);
    out
}

/// True when a pane leaves its group because it is given another ticker.
pub fn leaves_group(previous: &Option<TickerInfo>, next: &TickerInfo) -> (leaves: bool)
    ensures
        leaves == (shown(*previous) is Some && shown(*previous) != Some(next@)),
{
    match previous {
        Some(t) => !t.ticker.same(&next.ticker),
        None => false,
    }
}

/// The first stream of candles.
pub open spec fn first_candles(streams: Seq<StreamView>) -> Option<StreamView>
    decreases streams.len(),
{
    if streams.len() == 0 {
        None
    } else if streams[0] is Kline {
        Some(streams[0])
    } else {
        first_candles(streams.skip(1))
    }
}

/// The stream whose history is fetched when a pane gets new streams: the first one of candles.
pub fn history_stream(streams: &[StreamKind]) -> (s: Option<StreamKind>)
    ensures
        stream_of(s) == first_candles(stream_views(streams@)),
{
    let ghost views = stream_views(streams@);
    let mut i: usize = 0;
    assert(views.skip(0) =~= views);
    while i < streams.len()
        invariant
            i <= streams@.len(),
            views == stream_views(streams@),
            first_candles(views) == first_candles(views.skip(i as int)),
        decreases streams@.len() - i,
    {
        let ghost rest = views.skip(i as int);
        assert(rest[0] == streams@[i as int]@);
        assert(rest.skip(1) =~= views.skip(i as int + 1));
        if let StreamKind::Kline { .. } = &streams[i] {
            return Some(streams[i].clone());
        }
        i += 1;
    }
    assert(views.skip(i as int) =~= Seq::empty());
    None
}

/// What a new ticker is given to.
#[derive(Debug, Clone, Copy, PartialEq, Eq, Structural)]
pub enum SwitchTarget {
    /// All panes of a group.
    Group(LinkGroup),
    /// The pane that has the focus.
    FocusedPane,
    /// Nothing: the pane that has the focus is gone.
    PaneGone,
    /// Nothing: no pane has the focus.
    NoFocus,
}

/// What a new ticker is given to. `focus` tells of the pane that has the focus whether it exists
/// and its group.
pub fn switch_target(focus: Option<Option<Option<LinkGroup>>>) -> (t: SwitchTarget)
    ensures
        t == match focus {
            None => SwitchTarget::NoFocus,
            Some(None) => SwitchTarget::PaneGone,
            Some(Some(None)) => SwitchTarget::FocusedPane,
            Some(Some(Some(group))) => SwitchTarget::Group(group),
        },
{
    match focus {
        None => SwitchTarget::NoFocus,
        Some(None) => SwitchTarget::PaneGone,
        Some(Some(None)) => SwitchTarget::FocusedPane,
        Some(Some(Some(group))) => SwitchTarget::Group(group),
    }
}

impl SwitchTarget {
    /// What the user is told when nothing gets the ticker.
    pub fn warning(self) -> (w: Option<&'static str>)
        ensures
            match self {
                SwitchTarget::PaneGone => w matches Some(s) && s@
                    == "Couldn't get focused pane's content"@,
                SwitchTarget::NoFocus => w matches Some(s) && s@
                    == "No link group or focused pane found"@,
                _ => w is None,
            },
    {
        match self {
            SwitchTarget::PaneGone => Some("Couldn't get focused pane's content"),
            SwitchTarget::NoFocus => Some("No link group or focused pane found"),
            _ => None,
        }
    }
}

/// True when a pane is kept up to date: all panes are, but only the maximized one if there is one.
pub fn is_ticked(maximized: Option<Uuid>, pane_id: Uuid) -> (r: bool)
    ensures
        r == (maximized matches Some(m) ==> m == pane_id),
{
    match maximized {
        Some(m) => m == pane_id,
        None => true,
    }
}

/// A pane that has joined a group shows the ticker of the group, whatever it showed before: it
/// takes over another ticker exactly when the group has one that it does not show.
pub proof fn law_group_shows_one_ticker(
    panes: Seq<LinkedView>,
    joining: Uuid,
    group: LinkGroup,
    own: Option<TickerView>,
)
    ensures
        group_ticker(panes, joining, group) matches Some(t) ==> (match taken_over(
            panes,
            joining,
            group,
            own,
        ) {
            Some(new) => new == t,
            None => own == Some(t),
        }),
        group_ticker(panes, joining, group) is None ==> taken_over(
            panes,
            joining,
            group,
            own,
        ) is None,
{
}

/// The ticker of a group is that of a pane of the group, other than the one that joins, and no
/// pane before it shows one. A group has none only where no such pane shows one.
pub proof fn law_first_ticker_of_a_group(panes: Seq<LinkedView>, joining: Uuid, group: LinkGroup)
    ensures
        match group_ticker(panes, joining, group) {
            Some(t) => exists|i: int|
                0 <= i < panes.len() && (#[trigger] panes[i]).pane_id != joining && panes[i].group
                    == Some(group) && panes[i].ticker == Some(t) && forall|j: int|
                    0 <= j < i ==> (#[trigger] panes[j]).pane_id == joining || panes[j].group
                        != Some(group) || panes[j].ticker is None,
            None => forall|i: int|
                0 <= i < panes.len() ==> (#[trigger] panes[i]).pane_id == joining || panes[i].group
                    != Some(group) || panes[i].ticker is None,
        },
    decreases panes.len(),
{
    if panes.len() > 0 && !(panes[0].pane_id != joining && panes[0].group == Some(group)
        && panes[0].ticker is Some) {
        let rest = panes.skip(1);
        law_first_ticker_of_a_group(rest, joining, group);
        match group_ticker(panes, joining, group) {
            Some(t) => {
                let i = choose|i: int|
                    0 <= i < rest.len() && (#[trigger] rest[i]).pane_id != joining && rest[i].group
                        == Some(group) && rest[i].ticker == Some(t) && forall|j: int|
                        0 <= j < i ==> (#[trigger] rest[j]).pane_id == joining || rest[j].group
                            != Some(group) || rest[j].ticker is None;
                assert(panes[i + 1] == rest[i]);
                assert forall|j: int| 0 <= j < i + 1 implies (#[trigger] panes[j]).pane_id
                    == joining || panes[j].group != Some(group) || panes[j].ticker is None by {
                    if j > 0 {
                        assert(rest[j - 1] == panes[j]);
                    }
                }
            },
            None => {
                assert forall|i: int| 0 <= i < panes.len() implies (#[trigger] panes[i]).pane_id
                    == joining || panes[i].group != Some(group) || panes[i].ticker is None by {
                    if i > 0 {
                        assert(rest[i - 1] == panes[i]);
                    }
                }
            },
        }
    }
}

/// The panes of a group are exactly those that are in it.
pub proof fn law_members_of_a_group(panes: Seq<LinkedView>, group: LinkGroup, id: Uuid)
    ensures
        panes.filter_map(member_of(group)).contains(id) <==> exists|i: int|
            0 <= i < panes.len() && (#[trigger] panes[i]).pane_id == id && panes[i].group == Some(
                group,
            ),
{
    let f = member_of(group);
    if panes.filter_map(f).contains(id) {
        panes.lemma_filter_map_contains(f, id);
        let p = choose|p: LinkedView| #[trigger] panes.contains(p) && f(p) == Some(id);
        let i = choose|i: int| 0 <= i < panes.len() && panes[i] == p;
        assert(panes[i].pane_id == id);
    }
    if exists|i: int|
        0 <= i < panes.len() && (#[trigger] panes[i]).pane_id == id && panes[i].group == Some(
            group,
        ) {
        let i = choose|i: int|
            0 <= i < panes.len() && (#[trigger] panes[i]).pane_id == id && panes[i].group == Some(
                group,
            );
        crate::seqs::lemma_filter_map_has(panes, f, i);
    }
}

} // verus!
