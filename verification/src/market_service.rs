//! The state of the connection to the exchanges, and what the backend tells the user interface.

use vstd::prelude::*;
use vstd::string::*;
use crate::keyed::{Identity, KeyedList};
use crate::market::{StreamKind, StreamView};
use crate::connector::fetcher::stream_views;
use crate::text::{decimal, push_decimal};
use crate::time::{clock_text, format_time_short, UnixMs};

verus! {

/// How long a connection may be incomplete before it counts as lost, in milliseconds. It keeps
/// short hiccups out of sight.
pub const OFFLINE_GRACE_MS: u64 = 1_500;

/// Pause between two diagnostic lines, in milliseconds.
pub const DIAGNOSTIC_INTERVAL_MS: u64 = 30_000;

/// The phase of the connection.
#[derive(Debug, Clone, Copy, PartialEq, Eq, Structural)]
pub enum ConnectivityPhase {
    Connecting,
    Online,
    Offline,
}

/// A change of the phase that matters.
#[derive(Debug, Clone, Copy, PartialEq, Eq, Structural)]
pub enum ConnectivityTransition {
    /// Nothing that matters changed.
    Unchanged,
    /// The connection counts as lost.
    WentOffline,
    /// The connection is complete again.
    Restored,
}

impl Identity for StreamKind {
    fn same_as(&self, other: &Self) -> (same: bool) {
        self.same(other)
    }
}

/// The streams of a list.
pub open spec fn streams_in(s: Seq<StreamKind>) -> Set<StreamView> {
    stream_views(s).to_set()
}

/// What an optional text denotes.
pub open spec fn reason_of(s: Option<String>) -> Option<Seq<char>> {
    match s {
        Some(t) => Some(t@),
        None => None,
    }
}

/// The connection, made up of all subscriptions. It is complete only when each stream that is
/// expected is connected.
pub struct MarketConnectivity {
    expected: KeyedList<StreamKind, ()>,
    connected: KeyedList<StreamKind, ()>,
    phase: ConnectivityPhase,
    incomplete_since: Option<u64>,
    last_reason: Option<String>,
    had_online_disconnect: bool,
}

/// The state of the connection as a value.
#[verifier::ext_equal]
pub struct ConnectivityView {
    pub expected: Set<StreamView>,
    pub connected: Set<StreamView>,
    pub phase: ConnectivityPhase,
    /// Since when the connection is incomplete, in milliseconds of some clock.
    pub incomplete_since: Option<u64>,
    /// Why a stream was last lost.
    pub last_reason: Option<Seq<char>>,
    /// True when a stream was lost while the connection was complete.
    pub had_online_disconnect: bool,
}

impl View for MarketConnectivity {
    type V = ConnectivityView;

    closed spec fn view(&self) -> ConnectivityView {
        ConnectivityView {
            expected: self.expected@.dom(),
            connected: self.connected@.dom(),
            phase: self.phase,
            incomplete_since: self.incomplete_since,
            last_reason: reason_of(self.last_reason),
            had_online_disconnect: self.had_online_disconnect,
        }
    }
}

impl ConnectivityView {
    /// A connection of which nothing is known.
    pub open spec fn fresh() -> ConnectivityView {
        ConnectivityView {
            expected: Set::empty(),
            connected: Set::empty(),
            phase: ConnectivityPhase::Connecting,
            incomplete_since: None,
            last_reason: None,
            had_online_disconnect: false,
        }
    }

    /// True when each stream that is expected is connected.
    pub open spec fn complete(self) -> bool {
        self.expected.subset_of(self.connected)
    }

    /// True when the connection is incomplete at time `now` for longer than is tolerated.
    pub open spec fn lost(self, now: u64) -> bool {
        self.incomplete_since matches Some(since) && now - since >= OFFLINE_GRACE_MS
    }

    /// The connection at time `now`, and what changed.
    pub open spec fn evaluated(self, now: u64) -> (ConnectivityView, ConnectivityTransition) {
        if self.complete() {
            if self.phase is Offline || self.had_online_disconnect {
                (
                    ConnectivityView {
                        phase: ConnectivityPhase::Online,
                        incomplete_since: None,
                        had_online_disconnect: false,
                        last_reason: None,
                        ..self
                    },
                    ConnectivityTransition::Restored,
                )
            } else {
                (
                    ConnectivityView {
                        phase: ConnectivityPhase::Online,
                        incomplete_since: None,
                        ..self
                    },
                    ConnectivityTransition::Unchanged,
                )
            }
        } else {
            let timed = ConnectivityView {
                incomplete_since: match self.incomplete_since {
                    Some(since) => Some(since),
                    None => Some(now),
                },
                ..self
            };
            if self.phase is Offline {
                (timed, ConnectivityTransition::Unchanged)
            } else if timed.lost(now) {
                (
                    ConnectivityView { phase: ConnectivityPhase::Offline, ..timed },
                    ConnectivityTransition::WentOffline,
                )
            } else {
                (
                    ConnectivityView { phase: ConnectivityPhase::Connecting, ..timed },
                    ConnectivityTransition::Unchanged,
                )
            }
        }
    }

    /// The connection with another set of expected streams.
    pub open spec fn expecting(self, streams: Set<StreamView>) -> ConnectivityView {
        ConnectivityView {
            expected: streams,
            connected: self.connected.intersect(streams),
            ..self
        }
    }

    /// The connection after streams were connected.
    pub open spec fn connecting(self, streams: Set<StreamView>) -> ConnectivityView {
        ConnectivityView {
            expected: self.expected.union(streams),
            connected: self.connected.union(streams),
            ..self
        }
    }

    /// The connection after streams were lost.
    pub open spec fn losing(self, streams: Set<StreamView>, reason: Seq<char>) -> ConnectivityView {
        ConnectivityView {
            expected: self.expected.union(streams),
            connected: self.connected.difference(streams),
            last_reason: Some(reason),
            had_online_disconnect: self.had_online_disconnect || self.phase is Online,
            ..self
        }
    }
}

fn add_streams(set: &mut KeyedList<StreamKind, ()>, streams: &[StreamKind])
    ensures
        final(set)@.dom() == old(set)@.dom().union(streams_in(streams@)),
{
    let ghost before = set@.dom();
    let ghost views = stream_views(streams@);
    let mut i: usize = 0;
    proof {
        assert(views.take(0).to_set() =~= Set::empty());
        assert(before.union(views.take(0).to_set()) =~= before);
    }
    while i < streams.len()
        invariant
            i <= streams@.len(),
            views == stream_views(streams@),
            set@.dom() == before.union(views.take(i as int).to_set()),
        decreases streams@.len() - i,
    {
        set.insert(streams[i].clone(), ());
        i += 1;
        proof {
            lemma_to_set_step(views, i - 1);
            assert(set@.dom() =~= before.union(views.take(i as int).to_set()));
        }
    }
    assert(views.take(i as int) =~= views);
}

proof fn lemma_to_set_step(s: Seq<StreamView>, i: int)
    requires
        0 <= i < s.len(),
    ensures
        s.take(i + 1).to_set() == s.take(i).to_set().insert(s[i]),
{
    let front = s.take(i);
    let all = s.take(i + 1);
    assert(all =~= front.push(s[i]));
    assert forall|x: StreamView| all.to_set().contains(x) <==> front.to_set().insert(
        s[i],
    ).contains(x) by {
        if all.contains(x) {
            let k = choose|k: int| 0 <= k < all.len() && all[k] == x;
            if k < i {
                assert(front[k] == x);
            }
        }
        if front.contains(x) {
            let k = choose|k: int| 0 <= k < front.len() && front[k] == x;
            assert(all[k] == x);
        }
        assert(all[i] == s[i]);
    }
    assert(all.to_set() =~= front.to_set().insert(s[i]));
}

/// The members of one set that are in another one too.
fn common_streams(a: &KeyedList<StreamKind, ()>, b: &KeyedList<StreamKind, ()>) -> (r: KeyedList<
    StreamKind,
    (),
>)
    ensures
        r@.dom() == a@.dom().intersect(b@.dom()),
{
    let mut out: KeyedList<StreamKind, ()> = KeyedList::new();
    let n: usize = a.len();
    let mut i: usize = 0;
    assert(out@.dom() =~= a.order().take(0).to_set().intersect(b@.dom()));
    while i < n
        invariant
            n == a.order().len(),
            a.ordered(),
            i <= n,
            out@.dom() == a.order().take(i as int).to_set().intersect(b@.dom()),
        decreases n - i,
    {
        let k = a.key_at(i);
        if b.contains_key(k) {
            out.insert(k.clone(), ());
        }
        i += 1;
        proof {
            lemma_to_set_step(a.order(), i - 1);
            assert(out@.dom() =~= a.order().take(i as int).to_set().intersect(b@.dom()));
        }
    }
    proof {
        assert(a.order().take(i as int) =~= a.order());
        assert(a.order().to_set() =~= a@.dom());
    }
    out
}

/// True when each member of one set is in another one too.
fn all_in(a: &KeyedList<StreamKind, ()>, b: &KeyedList<StreamKind, ()>) -> (r: bool)
    ensures
        r == a@.dom().subset_of(b@.dom()),
{
    let n: usize = a.len();
    let mut i: usize = 0;
    while i < n
        invariant
            n == a.order().len(),
            a.ordered(),
            i <= n,
            forall|k: int| 0 <= k < i ==> b@.contains_key(#[trigger] a.order()[k]),
        decreases n - i,
    {
        let k = a.key_at(i);
        if !b.contains_key(k) {
            proof {
                assert(a.order().contains(k@));
                assert(a@.contains_key(k@));
            }
            return false;
        }
        i += 1;
    }
    proof {
        assert forall|x: StreamView| a@.dom().contains(x) implies b@.dom().contains(x) by {
            assert(a@.contains_key(x));
            assert(a.order().contains(x));
            let k = choose|k: int| 0 <= k < a.order().len() && a.order()[k] == x;
            assert(b@.contains_key(a.order()[k]));
        }
    }
    true
}

impl Default for MarketConnectivity {
    fn default() -> (c: Self)
        ensures
            c@ == ConnectivityView::fresh(),
    {
        MarketConnectivity::new()
    }
}

impl MarketConnectivity {
    /// A connection of which nothing is known.
    pub fn new() -> (c: Self)
        ensures
            c@ == ConnectivityView::fresh(),
    {
        let c = MarketConnectivity {
            expected: KeyedList::new(),
            connected: KeyedList::new(),
            phase: ConnectivityPhase::Connecting,
            incomplete_since: None,
            last_reason: None,
            had_online_disconnect: false,
        };
        assert(c@ =~= ConnectivityView::fresh());
        c
    }

    fn evaluate(&mut self, now: u64) -> (t: ConnectivityTransition)
        ensures
            (final(self)@, t) == old(self)@.evaluated(now),
    {
        if all_in(&self.expected, &self.connected) {
            self.incomplete_since = None;
            let restored = self.phase == ConnectivityPhase::Offline || self.had_online_disconnect;
            self.phase = ConnectivityPhase::Online;
            if restored {
                self.had_online_disconnect = false;
                self.last_reason = None;
                ConnectivityTransition::Restored
            } else {
                ConnectivityTransition::Unchanged
            }
        } else {
            let since: u64 = match self.incomplete_since {
                Some(since) => since,
                None => now,
            };
            self.incomplete_since = Some(since);
            if self.phase == ConnectivityPhase::Offline {
                return ConnectivityTransition::Unchanged;
            }
            if now >= since && now - since >= OFFLINE_GRACE_MS {
                self.phase = ConnectivityPhase::Offline;
                ConnectivityTransition::WentOffline
            } else {
                self.phase = ConnectivityPhase::Connecting;
                ConnectivityTransition::Unchanged
            }
        }
    }

    /// Takes over the streams that the user interface needs at time `now`.
    pub fn sync_expected(&mut self, streams: &[StreamKind], now: u64) -> (t: ConnectivityTransition)
        ensures
            (final(self)@, t) == old(self)@.expecting(streams_in(streams@)).evaluated(now),
    {
        let ghost before = self@;
        let mut expected: KeyedList<StreamKind, ()> = KeyedList::new();
        add_streams(&mut expected, streams);
        self.connected = common_streams(&self.connected, &expected);
        self.expected = expected;
        proof {
            assert(Set::<StreamView>::empty().union(streams_in(streams@)) =~= streams_in(streams@));
            assert(self@ =~= before.expecting(streams_in(streams@)));
        }
        self.evaluate(now)
    }

    /// Notes that streams were connected at time `now`.
    pub fn record_connected(
        &mut self,
        streams: &[StreamKind],
        now: u64,
    ) -> (t: ConnectivityTransition)
        ensures
            (final(self)@, t) == old(self)@.connecting(streams_in(streams@)).evaluated(now),
    {
        let ghost before = self@;
        add_streams(&mut self.expected, streams);
        add_streams(&mut self.connected, streams);
        assert(self@ =~= before.connecting(streams_in(streams@)));
        self.evaluate(now)
    }

    /// Notes that streams were lost at time `now`.
    pub fn record_disconnected(
        &mut self,
        streams: &[StreamKind],
        reason: String,
        now: u64,
    ) -> (t: ConnectivityTransition)
        ensures
            (final(self)@, t) == old(self)@.losing(streams_in(streams@), reason@).evaluated(now),
    {
        let ghost before = self@;
        if self.phase == ConnectivityPhase::Online {
            self.had_online_disconnect = true;
        }
        add_streams(&mut self.expected, streams);
        let ghost views = stream_views(streams@);
        let ghost held = self.connected@.dom();
        let ghost grown = self@;
        let mut i: usize = 0;
        proof {
            assert(views.take(0).to_set() =~= Set::empty());
            assert(held.difference(views.take(0).to_set()) =~= held);
        }
        while i < streams.len()
            invariant
                i <= streams@.len(),
                views == stream_views(streams@),
                self.connected@.dom() == held.difference(views.take(i as int).to_set()),
                self@ == (ConnectivityView { connected: self.connected@.dom(), ..grown }),
            decreases streams@.len() - i,
        {
            self.connected.remove(&streams[i]);
            i += 1;
            proof {
                lemma_to_set_step(views, i - 1);
                assert(self.connected@.dom() =~= held.difference(views.take(i as int).to_set()));
            }
        }
        assert(views.take(i as int) =~= views);
        self.last_reason = Some(reason);
        assert(self@ =~= before.losing(streams_in(streams@), reason@));
        self.evaluate(now)
    }

    /// Lets time go on to `now`, without any event.
    pub fn tick(&mut self, now: u64) -> (t: ConnectivityTransition)
        ensures
            (final(self)@, t) == old(self)@.evaluated(now),
    {
        self.evaluate(now)
    }

    /// True when the connection is complete.
    pub fn is_online(&self) -> (r: bool)
        ensures
            r == (self@.phase is Online),
    {
        self.phase == ConnectivityPhase::Online
    }

    /// True when the user is told that the connection is lost.
    pub fn overlay_visible(&self) -> (r: bool)
        ensures
            r == (self@.phase is Offline),
    {
        self.phase == ConnectivityPhase::Offline
    }

    /// How many of the expected streams are connected.
    pub fn connected_count(&self) -> (n: usize)
        ensures
            n == self@.connected.intersect(self@.expected).len(),
    {
        common_streams(&self.connected, &self.expected).len()
    }

    /// How many streams are expected.
    pub fn expected_count(&self) -> (n: usize)
        ensures
            n == self@.expected.len(),
    {
        self.expected.len()
    }

    /// Why a stream was last lost.
    pub fn last_reason(&self) -> (r: Option<&str>)
        ensures
            match r {
                Some(s) => self@.last_reason == Some(s@),
                None => self@.last_reason is None,
            },
    {
        match &self.last_reason {
            Some(s) => Some(s.as_str()),
            None => None,
        }
    }
}

/// The connection counts as lost only after it was incomplete for as long as is tolerated, and
/// only then. While it counts as lost, something that is expected is not connected.
pub proof fn law_offline_after_grace(v: ConnectivityView, now: u64)
    ensures
        v.evaluated(now).1 is WentOffline <==> !v.complete() && !(v.phase is Offline) && v.lost(now),
        v.evaluated(now).0.phase is Offline ==> !v.complete(),
        v.evaluated(now).0.phase is Online <==> v.complete(),
        v.evaluated(now).0.phase is Online ==> v.evaluated(now).0.incomplete_since is None,
{
}

/// The connection is restored only when each expected stream is connected, after it counted as
/// lost or a stream was lost while it was complete. It is restored once.
pub proof fn law_restored_once(v: ConnectivityView, now: u64, later: u64)
    ensures
        v.evaluated(now).1 is Restored <==> v.complete() && (v.phase is Offline
            || v.had_online_disconnect),
        v.evaluated(now).1 is Restored ==> v.evaluated(now).0.evaluated(later).1 is Unchanged,
{
}

/// A stream that is connected does not hide that others are lost: the connection counts as lost
/// on until all expected streams are connected.
pub proof fn law_one_stream_hides_nothing(
    v: ConnectivityView,
    streams: Set<StreamView>,
    missing: StreamView,
    now: u64,
)
    requires
        v.phase is Offline,
        v.expected.contains(missing),
        !v.connected.contains(missing),
        !streams.contains(missing),
    ensures
        v.connecting(streams).evaluated(now).0.phase is Offline,
{
    let after = v.connecting(streams);
    assert(after.expected.contains(missing));
    assert(!after.connected.contains(missing));
    assert(!after.complete());
}

/// A stream that is no longer needed cannot keep the connection lost.
pub proof fn law_removed_streams_do_not_matter(
    v: ConnectivityView,
    streams: Set<StreamView>,
    now: u64,
)
    requires
        streams.subset_of(v.connected),
    ensures
        v.expecting(streams).evaluated(now).0.phase is Online,
{
    assert(v.expecting(streams).complete());
}

/// What the backend tells the user interface.
#[derive(Debug, Clone, Copy, PartialEq, Eq, Structural)]
pub struct MarketStore {
    last_ws_event_at: u64,
    queued_events: u64,
    ui_focused: bool,
    streams_connected: bool,
}

/// What the backend tells, as a value.
#[verifier::ext_equal]
pub struct MarketStoreView {
    /// When an exchange last sent something, in milliseconds since the epoch.
    pub last_ws_event_at: u64,
    /// How many events the user interface has not seen yet.
    pub queued_events: u64,
    pub ui_focused: bool,
    pub streams_connected: bool,
}

impl View for MarketStore {
    type V = MarketStoreView;

    closed spec fn view(&self) -> MarketStoreView {
        MarketStoreView {
            last_ws_event_at: self.last_ws_event_at,
            queued_events: self.queued_events,
            ui_focused: self.ui_focused,
            streams_connected: self.streams_connected,
        }
    }
}

impl Default for MarketStore {
    fn default() -> (s: Self)
        ensures
            s@ == (MarketStoreView {
                last_ws_event_at: 0,
                queued_events: 0,
                ui_focused: true,
                streams_connected: false,
            }),
    {
        MarketStore::new()
    }
}

impl MarketStore {
    /// Nothing happened yet.
    pub fn new() -> (s: Self)
        ensures
            s@ == (MarketStoreView {
                last_ws_event_at: 0,
                queued_events: 0,
                ui_focused: true,
                streams_connected: false,
            }),
    {
        MarketStore {
            last_ws_event_at: 0,
            queued_events: 0,
            ui_focused: true,
            streams_connected: false,
        }
    }

    /// Notes that an exchange sent something at a time.
    pub fn record_ws_event_at(&mut self, now: UnixMs)
        ensures
            final(self)@ == (MarketStoreView { last_ws_event_at: now.0, ..old(self)@ }),
    {
        self.last_ws_event_at = now.0;
    }

    /// Notes that an exchange sent something.
    pub fn record_ws_event(&mut self)
        ensures
            exists|now: u64|
                final(self)@ == #[trigger] seen_at(old(self)@, now),
    {
        let now = UnixMs::now();
        self.record_ws_event_at(now);
        assert(self@ == seen_at(old(self)@, now.0));
    }

    /// When an exchange last sent something.
    pub fn last_ws_event_at(&self) -> (ms: u64)
        ensures
            ms == self@.last_ws_event_at,
    {
        self.last_ws_event_at
    }

    /// Counts an event that the user interface has not seen yet. The count starts over after its
    /// largest value.
    pub fn enqueue_event(&mut self)
        ensures
            final(self)@ == (MarketStoreView {
                queued_events: if old(self)@.queued_events == u64::MAX {
                    0
                } else {
                    (old(self)@.queued_events + 1) as u64
                },
                ..old(self)@
            }),
    {
        self.queued_events = if self.queued_events == u64::MAX {
            0
        } else {
            self.queued_events + 1
        };
    }

    /// The user interface has seen all events; how many they were.
    pub fn drain_events(&mut self) -> (n: u64)
        ensures
            n == old(self)@.queued_events,
            final(self)@ == (MarketStoreView { queued_events: 0, ..old(self)@ }),
    {
        let n: u64 = self.queued_events;
        self.queued_events = 0;
        n
    }

    /// How many events the user interface has not seen yet.
    pub fn queued_events(&self) -> (n: u64)
        ensures
            n == self@.queued_events,
    {
        self.queued_events
    }

    /// Notes whether the user interface has the focus.
    pub fn set_ui_focused(&mut self, focused: bool)
        ensures
            final(self)@ == (MarketStoreView { ui_focused: focused, ..old(self)@ }),
    {
        self.ui_focused = focused;
    }

    /// True when the user interface has the focus.
    pub fn is_ui_focused(&self) -> (r: bool)
        ensures
            r == self@.ui_focused,
    {
        self.ui_focused
    }

    /// Notes whether the streams are connected.
    pub fn set_streams_connected(&mut self, connected: bool)
        ensures
            final(self)@ == (MarketStoreView { streams_connected: connected, ..old(self)@ }),
    {
        self.streams_connected = connected;
    }

    /// True when the streams are connected.
    pub fn is_streams_connected(&self) -> (r: bool)
        ensures
            r == self@.streams_connected,
    {
        self.streams_connected
    }
}

/// What the backend tells after an exchange sent something at a time.
pub open spec fn seen_at(s: MarketStoreView, now: u64) -> MarketStoreView {
    MarketStoreView { last_ws_event_at: now, ..s }
}

/// Yes or no.
pub open spec fn truth(b: bool) -> Seq<char> {
    if b {
        "true"@
    } else {
        "false"@
    }
}

fn push_truth(out: &mut String, b: bool)
    ensures
        final(out)@ == old(out)@ + truth(b),
{
    if b {
        out.append("true");
    } else {
        out.append("false");
    }
}

impl MarketStoreView {
    /// The diagnostic line.
    pub open spec fn line(self) -> Seq<char> {
        "MARKET BackendAlive | last_ws_event="@ + (if self.last_ws_event_at > 0 {
            clock_text(self.last_ws_event_at as nat)
        } else {
            "-"@
        }) + " queued_events="@ + decimal(self.queued_events as nat) + " ui_focused="@ + truth(
            self.ui_focused,
        ) + " streams_connected="@ + truth(self.streams_connected)
    }
}

/// When to write a diagnostic line, and what it says.
pub struct MarketDiagnostics {
    last_diagnostic_log: u64,
}

impl View for MarketDiagnostics {
    type V = u64;

    closed spec fn view(&self) -> u64 {
        self.last_diagnostic_log
    }
}

impl MarketDiagnostics {
    /// The first line is due half a minute after time `now`, in milliseconds of some clock.
    pub fn new(now: u64) -> (d: Self)
        ensures
            d@ == now,
    {
        MarketDiagnostics { last_diagnostic_log: now }
    }

    /// The diagnostic line, where one is due at time `now`.
    pub fn maybe_log(&mut self, store: &MarketStore, now: u64) -> (line: Option<String>)
        ensures
            match line {
                Some(s) => now - old(self)@ >= DIAGNOSTIC_INTERVAL_MS && s@ == store@.line()
                    && final(self)@ == now,
                None => now - old(self)@ < DIAGNOSTIC_INTERVAL_MS && final(self)@ == old(self)@,
            },
    {
        if now.saturating_sub(self.last_diagnostic_log) < DIAGNOSTIC_INTERVAL_MS {
            return None;
        }
        let mut s = String::from_str("MARKET BackendAlive | last_ws_event=");
        let last: u64 = store.last_ws_event_at();
        if last > 0 {
            s.append(format_time_short(UnixMs(last)).as_str());
        } else {
            s.append("-");
        }
        s.append(" queued_events=");
        push_decimal(&mut s, store.queued_events());
        s.append(" ui_focused=");
        push_truth(&mut s, store.is_ui_focused());
        s.append(" streams_connected=");
        push_truth(&mut s, store.is_streams_connected());
        self.last_diagnostic_log = now;
        Some(s)
    }

    /// The line that says how far the user interface lags behind, where it does.
    pub fn log_ui_lag(
        &self,
        store: &MarketStore,
        store_latest: u64,
        ui_latest: u64,
    ) -> (line: Option<String>)
        ensures
            match line {
                Some(s) => ui_latest < store_latest && s@ == "MARKET UiLag | queued_events="@
                    + decimal(store@.queued_events as nat) + " store_latest="@ + decimal(
                    store_latest as nat,
                ) + " ui_latest="@ + decimal(ui_latest as nat),
                None => ui_latest >= store_latest,
            },
    {
        if ui_latest >= store_latest {
            return None;
        }
        let mut s = String::from_str("MARKET UiLag | queued_events=");
        push_decimal(&mut s, store.queued_events());
        s.append(" store_latest=");
        push_decimal(&mut s, store_latest);
        s.append(" ui_latest=");
        push_decimal(&mut s, ui_latest);
        Some(s)
    }
}

/// The connection counts as lost once an expected stream has been missing for a second and a half,
/// and not before. Until then it counts as being made.
pub proof fn law_lost_after_a_while(
    v: ConnectivityView,
    missing: StreamView,
    since: u64,
    now: u64,
)
    requires
        v.expected.contains(missing),
        !v.connected.contains(missing),
        !(v.phase is Offline),
        v.incomplete_since is None,
        since <= now,
    ensures
        v.evaluated(since).1 is Unchanged,
        v.evaluated(since).0.phase is Connecting,
        v.evaluated(since).0.incomplete_since == Some(since),
        now - since >= 1_500 <==> v.evaluated(since).0.evaluated(now).1 is WentOffline,
        now - since >= 1_500 <==> v.evaluated(since).0.evaluated(now).0.phase is Offline,
        now - since < 1_500 ==> v.evaluated(since).0.evaluated(now).0.phase is Connecting,
        v.evaluated(since).0.expected == v.expected,
        v.evaluated(since).0.connected == v.connected,
{
    assert(!v.complete());
    let mid = v.evaluated(since).0;
    assert(mid.expected.contains(missing) && !mid.connected.contains(missing));
    assert(!mid.complete());
}

/// Streams that connect are expected and connected; streams that are lost are expected and not
/// connected; of the streams that are no longer expected, none counts. Others are left as they are.
pub proof fn law_streams_come_and_go(
    v: ConnectivityView,
    streams: Set<StreamView>,
    reason: Seq<char>,
    x: StreamView,
)
    ensures
        v.connecting(streams).expected.contains(x) <==> v.expected.contains(x) || streams.contains(
            x,
        ),
        v.connecting(streams).connected.contains(x) <==> v.connected.contains(x)
            || streams.contains(x),
        v.losing(streams, reason).expected.contains(x) <==> v.expected.contains(x)
            || streams.contains(x),
        v.losing(streams, reason).connected.contains(x) <==> v.connected.contains(x)
            && !streams.contains(x),
        v.losing(streams, reason).last_reason == Some(reason),
        v.losing(streams, reason).had_online_disconnect <==> v.had_online_disconnect
            || v.phase is Online,
        v.expecting(streams).expected.contains(x) <==> streams.contains(x),
        v.expecting(streams).connected.contains(x) <==> v.connected.contains(x)
            && streams.contains(x),
        v.connecting(streams).phase == v.phase && v.losing(streams, reason).phase == v.phase
            && v.expecting(streams).phase == v.phase,
{
}

/// The connection is complete exactly when no expected stream is missing.
pub proof fn law_complete_without_a_gap(v: ConnectivityView)
    ensures
        v.complete() <==> forall|x: StreamView| #[trigger]
            v.expected.contains(x) ==> v.connected.contains(x),
{
}

} // verus!
