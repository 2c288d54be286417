//! Live data on its way into the market data layer.
//!
//! Records of a live subscription go into the same store as fetched history, and on to the cache.
//! They never count as coverage: a live subscription can have gaps.

use vstd::prelude::*;
use crate::keyed::KeyedList;
use crate::market::{Kline, StreamKind, Trade};
use crate::market_data::bridge::{key_streamed, stream_kind_to_key};
use crate::market_data::coverage::clamp_usize;
use crate::market_data::key::{key_of, KeyView, MarketDataKey};
use crate::market_data::series::Timed;
use crate::market_data::store::{lists_keys, MarketDataStore};
use crate::seqs::copy_rows;
use crate::time::{later, UnixMs};

verus! {

/// What was seen of one live stream.
#[derive(Debug, Clone, Copy, PartialEq, Eq, Structural)]
pub struct StreamLiveState {
    pub last_trade_time: Option<UnixMs>,
    pub last_kline_time: Option<UnixMs>,
    pub trade_count: usize,
    pub kline_count: usize,
}

/// A stream of which nothing was seen.
pub open spec fn unseen() -> StreamLiveState {
    StreamLiveState { last_trade_time: None, last_kline_time: None, trade_count: 0, kline_count: 0 }
}

/// The latest of a time and the times of some records.
pub open spec fn latest_seen<T: Timed>(before: Option<UnixMs>, s: Seq<T>) -> Option<UnixMs>
    decreases s.len(),
{
    if s.len() == 0 {
        before
    } else {
        match latest_seen(before, s.drop_last()) {
            Some(t) => Some(later(t, s.last().at())),
            None => Some(s.last().at()),
        }
    }
}

fn latest_time<T: Timed>(before: Option<UnixMs>, rows: &[T]) -> (t: Option<UnixMs>)
    ensures
        t == latest_seen(before, rows@),
{
    let mut latest = before;
    let mut i: usize = 0;
    assert(rows@.take(0) =~= Seq::<T>::empty());
    while i < rows.len()
        invariant
            i <= rows@.len(),
            latest == latest_seen(before, rows@.take(i as int)),
        decreases rows@.len() - i,
    {
        let t = rows[i].time();
        latest = match latest {
            Some(l) => Some(l.later_of(t)),
            None => Some(t),
        };
        i += 1;
        assert(rows@.take(i as int).drop_last() =~= rows@.take(i - 1));
        assert(rows@.take(i as int).last() == rows@[i - 1]);
    }
    assert(rows@.take(i as int) =~= rows@);
    latest
}

/// Routes live records into the store and gathers those that are due for the cache.
pub struct LiveDataAdapter {
    stream_state: KeyedList<MarketDataKey, StreamLiveState>,
    persist_to_cache: bool,
    persist_batch_size: usize,
    pending_trades: KeyedList<MarketDataKey, Vec<Trade>>,
}

/// The state of an adapter as a value.
#[verifier::ext_equal]
pub struct LiveView {
    pub streams: Map<KeyView, StreamLiveState>,
    pub pending: Map<KeyView, Seq<Trade>>,
    pub persist: bool,
    pub batch_size: usize,
}

spec fn batches_of(m: Map<KeyView, Vec<Trade>>) -> Map<KeyView, Seq<Trade>> {
    m.map_values(|v: Vec<Trade>| v@)
}

impl View for LiveDataAdapter {
    type V = LiveView;

    closed spec fn view(&self) -> LiveView {
        LiveView {
            streams: self.stream_state@,
            pending: batches_of(self.pending_trades@),
            persist: self.persist_to_cache,
            batch_size: self.persist_batch_size,
        }
    }
}

/// What was seen of a stream.
pub open spec fn seen_of(streams: Map<KeyView, StreamLiveState>, key: KeyView) -> StreamLiveState {
    if streams.contains_key(key) {
        streams[key]
    } else {
        unseen()
    }
}

/// The trades of a stream that wait for the cache.
pub open spec fn waiting(pending: Map<KeyView, Seq<Trade>>, key: KeyView) -> Seq<Trade> {
    if pending.contains_key(key) {
        pending[key]
    } else {
        Seq::empty()
    }
}

impl LiveView {
    /// An adapter that has seen nothing.
    pub open spec fn fresh(persist: bool, batch_size: usize) -> LiveView {
        LiveView { streams: Map::empty(), pending: Map::empty(), persist, batch_size }
    }

    /// The adapter after live trades, and the batch that is then due for the cache.
    pub open spec fn with_trades(self, key: KeyView, trades: Seq<Trade>, cache_open: bool) -> (
        LiveView,
        Option<Seq<Trade>>,
    ) {
        if trades.len() == 0 {
            (self, None)
        } else {
            let before = seen_of(self.streams, key);
            let streams = self.streams.insert(
                key,
                StreamLiveState {
                    last_trade_time: latest_seen(before.last_trade_time, trades),
                    trade_count: clamp_usize((before.trade_count + trades.len()) as nat),
                    ..before
                },
            );
            let all = waiting(self.pending, key) + trades;
            if !self.persist {
                (LiveView { streams, ..self }, None)
            } else if all.len() >= self.batch_size && cache_open {
                (
                    LiveView { streams, pending: self.pending.insert(key, Seq::empty()), ..self },
                    Some(all),
                )
            } else {
                (LiveView { streams, pending: self.pending.insert(key, all), ..self }, None)
            }
        }
    }

    /// The adapter after live candles.
    pub open spec fn with_klines(self, key: KeyView, klines: Seq<Kline>) -> LiveView {
        if klines.len() == 0 {
            self
        } else {
            let before = seen_of(self.streams, key);
            LiveView {
                streams: self.streams.insert(
                    key,
                    StreamLiveState {
                        last_kline_time: latest_seen(before.last_kline_time, klines),
                        kline_count: clamp_usize((before.kline_count + klines.len()) as nat),
                        ..before
                    },
                ),
                ..self
            }
        }
    }
}

/// What several batches denote.
pub open spec fn batch_views(s: Seq<(MarketDataKey, Vec<Trade>)>) -> Seq<(KeyView, Seq<Trade>)> {
    s.map_values(|b: (MarketDataKey, Vec<Trade>)| (b.0@, b.1@))
}

/// True when the batches are those that wait, one for each stream and none of them empty.
pub open spec fn empties(
    batches: Seq<(KeyView, Seq<Trade>)>,
    pending: Map<KeyView, Seq<Trade>>,
) -> bool {
    &&& forall|i: int, j: int|
        0 <= i < j < batches.len() ==> (#[trigger] batches[i]).0 != (#[trigger] batches[j]).0
    &&& forall|i: int|
        0 <= i < batches.len() ==> pending.contains_key((#[trigger] batches[i]).0)
            && pending[batches[i].0] == batches[i].1 && batches[i].1.len() > 0
    &&& forall|k: KeyView| #[trigger]
        pending.contains_key(k) && pending[k].len() > 0 ==> exists|i: int|
            0 <= i < batches.len() && (#[trigger] batches[i]).0 == k
}

impl Default for LiveDataAdapter {
    fn default() -> (a: Self)
        ensures
            a@ == LiveView::fresh(true, 100),
    {
        LiveDataAdapter::new()
    }
}

impl LiveDataAdapter {
    /// An adapter that hands trades on to the cache in batches of a hundred.
    pub fn new() -> (a: Self)
        ensures
            a@ == LiveView::fresh(true, 100),
    {
        LiveDataAdapter::with_persistence(true, 100)
    }

    /// An adapter that hands trades on to the cache in batches of `batch_size`, if at all.
    pub fn with_persistence(persist: bool, batch_size: usize) -> (a: Self)
        ensures
            a@ == LiveView::fresh(persist, batch_size),
    {
        let a = LiveDataAdapter {
            stream_state: KeyedList::new(),
            persist_to_cache: persist,
            persist_batch_size: batch_size,
            pending_trades: KeyedList::new(),
        };
        assert(a@ =~= LiveView::fresh(persist, batch_size));
        a
    }

    fn state_of(&self, key: &MarketDataKey) -> (s: StreamLiveState)
        ensures
            s == seen_of(self@.streams, key@),
    {
        match self.stream_state.get(key) {
            Some(s) => *s,
            None => StreamLiveState {
                last_trade_time: None,
                last_kline_time: None,
                trade_count: 0,
                kline_count: 0,
            },
        }
    }

    /// Takes in live trades. The batch that is then due for the cache, where the cache is open,
    /// is handed back.
    pub fn ingest_trades(
        &mut self,
        key: &MarketDataKey,
        trades: &[Trade],
        store: &mut MarketDataStore,
        cache_open: bool,
    ) -> (due: Option<Vec<Trade>>)
        ensures
            final(store)@ == old(store)@.with_trades(key@, trades@),
            final(self)@ == old(self)@.with_trades(key@, trades@, cache_open).0,
            match due {
                Some(b) => old(self)@.with_trades(key@, trades@, cache_open).1 == Some(b@),
                None => old(self)@.with_trades(key@, trades@, cache_open).1 is None,
            },
    {
        store.insert_trades(key, trades);
        if trades.len() == 0 {
            return None;
        }
        let ghost before = self@;
        let state = self.state_of(key);
        self.stream_state.insert(
            key.clone(),
            StreamLiveState {
                last_trade_time: latest_time(state.last_trade_time, trades),
                last_kline_time: state.last_kline_time,
                trade_count: state.trade_count.saturating_add(trades.len()),
                kline_count: state.kline_count,
            },
        );
        if !self.persist_to_cache {
            assert(self@ =~= before.with_trades(key@, trades@, cache_open).0);
            return None;
        }
        let mut all: Vec<Trade> = match self.pending_trades.get(key) {
            Some(waiting) => copy_rows(waiting),
            None => Vec::new(),
        };
        let mut more = copy_rows(trades);
        all.append(&mut more);
        assert(all@ =~= waiting(before.pending, key@) + trades@);
        if all.len() >= self.persist_batch_size && cache_open {
            let none: Vec<Trade> = Vec::new();
            self.pending_trades.insert(key.clone(), none);
            assert(self@ =~= before.with_trades(key@, trades@, cache_open).0);
            Some(all)
        } else {
            self.pending_trades.insert(key.clone(), all);
            assert(self@ =~= before.with_trades(key@, trades@, cache_open).0);
            None
        }
    }

    /// Takes in live candles. True when they are due for the cache, which is at once, where it
    /// is open.
    pub fn ingest_klines(
        &mut self,
        key: &MarketDataKey,
        klines: &[Kline],
        store: &mut MarketDataStore,
        cache_open: bool,
    ) -> (due: bool)
        ensures
            final(store)@ == old(store)@.with_klines(key@, klines@),
            final(self)@ == old(self)@.with_klines(key@, klines@),
            due == (klines@.len() > 0 && old(self)@.persist && cache_open),
    {
        store.insert_klines(key, klines);
        if klines.len() == 0 {
            return false;
        }
        let ghost before = self@;
        let state = self.state_of(key);
        self.stream_state.insert(
            key.clone(),
            StreamLiveState {
                last_trade_time: state.last_trade_time,
                last_kline_time: latest_time(state.last_kline_time, klines),
                trade_count: state.trade_count,
                kline_count: state.kline_count.saturating_add(klines.len()),
            },
        );
        assert(self@ =~= before.with_klines(key@, klines@));
        self.persist_to_cache && cache_open
    }

    /// Hands out all trades that wait for the cache. They are lost where the cache is not open.
    pub fn flush_pending(&mut self, cache_open: bool) -> (batches: Vec<(MarketDataKey, Vec<Trade>)>)
        ensures
            final(self)@ == if old(self)@.persist {
                LiveView { pending: Map::empty(), ..old(self)@ }
            } else {
                old(self)@
            },
            old(self)@.persist && cache_open ==> empties(
                batch_views(batches@),
                old(self)@.pending,
            ),
            !old(self)@.persist || !cache_open ==> batches@.len() == 0,
    {
        let mut batches: Vec<(MarketDataKey, Vec<Trade>)> = Vec::new();
        if !self.persist_to_cache {
            return batches;
        }
        let ghost before = self@;
        if cache_open {
            let n: usize = self.pending_trades.len();
            let mut i: usize = 0;
            while i < n
                invariant
                    n == self.pending_trades.order().len(),
                    self.pending_trades.ordered(),
                    self@ == before,
                    i <= n,
                    forall|a: int, b: int|
                        0 <= a < b < batches@.len() ==> (#[trigger] batches@[a]).0@ != (
                        #[trigger] batches@[b]).0@,
                    forall|a: int|
                        0 <= a < batches@.len() ==> self@.pending.contains_key(
                            (#[trigger] batches@[a]).0@,
                        ) && self@.pending[batches@[a].0@] == batches@[a].1@ && batches@[a].1@.len()
                            > 0 && self.pending_trades.order().take(i as int).contains(
                            batches@[a].0@,
                        ),
                    forall|a: int|
                        0 <= a < i && self@.pending[#[trigger] self.pending_trades.order()[a]].len()
                            > 0 ==> exists|b: int|
                            0 <= b < batches@.len() && (#[trigger] batches@[b]).0@
                                == self.pending_trades.order()[a],
                decreases n - i,
            {
                let trades = self.pending_trades.value_at(i);
                let ghost order = self.pending_trades.order();
                let ghost shown = batches@;
                let ghost key = order[i as int];
                assert(!order.take(i as int).contains(key)) by {
                    if order.take(i as int).contains(key) {
                        let k = choose|k: int| 0 <= k < i && order.take(i as int)[k] == key;
                        assert(order[k] == order[i as int]);
                    }
                }
                assert forall|a: int| 0 <= a < shown.len() implies order.take(i + 1).contains(
                    (#[trigger] shown[a]).0@,
                ) by {
                    let k = choose|k: int|
                        0 <= k < i && order.take(i as int)[k] == shown[a].0@;
                    assert(order.take(i + 1)[k] == shown[a].0@);
                }
                assert(order.take(i + 1)[i as int] == key);
                if trades.len() > 0 {
                    let k = self.pending_trades.key_at(i).clone();
                    batches.push((k, copy_rows(trades)));
                    assert forall|a: int|
                        0 <= a < i + 1 && self@.pending[#[trigger] order[a]].len() > 0 implies exists|
                        b: int,
                    |
                        0 <= b < batches@.len() && (#[trigger] batches@[b]).0@ == order[a] by {
                        if a < i {
                            let b = choose|b: int|
                                0 <= b < shown.len() && (#[trigger] shown[b]).0@ == order[a];
                            assert(batches@[b] == shown[b]);
                        } else {
                            assert(batches@[shown.len() as int].0@ == order[a]);
                        }
                    }
                }
                i += 1;
            }
            proof {
                let order = self.pending_trades.order();
                let views = batch_views(batches@);
                assert forall|k: KeyView| #[trigger]
                    before.pending.contains_key(k) && before.pending[k].len() > 0 implies exists|
                    i: int,
                |
                    0 <= i < views.len() && (#[trigger] views[i]).0 == k by {
                    assert(self.pending_trades@.contains_key(k));
                    assert(order.contains(k));
                    let a = choose|a: int| 0 <= a < order.len() && order[a] == k;
                    assert(before.pending[order[a]].len() > 0);
                    let b = choose|b: int|
                        0 <= b < batches@.len() && (#[trigger] batches@[b]).0@ == order[a];
                    assert(views[b].0 == k);
                }
                assert forall|i: int, j: int| 0 <= i < j < views.len() implies (
                #[trigger] views[i]).0 != (#[trigger] views[j]).0 by {
                    assert(batches@[i].0@ != batches@[j].0@);
                }
                assert forall|i: int| 0 <= i < views.len() implies before.pending.contains_key(
                    (#[trigger] views[i]).0,
                ) && before.pending[views[i].0] == views[i].1 && views[i].1.len() > 0 by {
                    assert(views[i].0 == batches@[i].0@);
                }
            }
        }
        self.pending_trades.clear();
        assert(self@ =~= (LiveView { pending: Map::empty(), ..before }));
        batches
    }

    /// The time of the last live trade of a stream.
    pub fn last_trade_time(&self, key: &MarketDataKey) -> (t: Option<UnixMs>)
        ensures
            t == seen_of(self@.streams, key@).last_trade_time,
    {
        self.state_of(key).last_trade_time
    }

    /// The time of the last live candle of a stream.
    pub fn last_kline_time(&self, key: &MarketDataKey) -> (t: Option<UnixMs>)
        ensures
            t == seen_of(self@.streams, key@).last_kline_time,
    {
        self.state_of(key).last_kline_time
    }

    /// How many live trades of a stream came in.
    pub fn trade_count(&self, key: &MarketDataKey) -> (n: usize)
        ensures
            n == seen_of(self@.streams, key@).trade_count,
    {
        self.state_of(key).trade_count
    }

    /// How many live candles of a stream came in.
    pub fn kline_count(&self, key: &MarketDataKey) -> (n: usize)
        ensures
            n == seen_of(self@.streams, key@).kline_count,
    {
        self.state_of(key).kline_count
    }

    /// True when something came in for a stream.
    pub fn has_live_data(&self, key: &MarketDataKey) -> (r: bool)
        ensures
            r == self@.streams.contains_key(key@),
    {
        self.stream_state.contains_key(key)
    }

    /// The streams for which something came in.
    pub fn live_keys(&self) -> (r: Vec<MarketDataKey>)
        ensures
            lists_keys(r@.map_values(|k: MarketDataKey| k@), self@.streams),
    {
        let n: usize = self.stream_state.len();
        let mut out: Vec<MarketDataKey> = Vec::new();
        let mut i: usize = 0;
        while i < n
            invariant
                n == self.stream_state.order().len(),
                self.stream_state.ordered(),
                i <= n,
                out@.len() == i,
                forall|a: int|
                    0 <= a < i ==> (#[trigger] out@[a])@ == self.stream_state.order()[a],
            decreases n - i,
        {
            out.push(self.stream_state.key_at(i).clone());
            i += 1;
        }
        assert(out@.map_values(|k: MarketDataKey| k@) =~= self.stream_state.order());
        out
    }

    /// Forgets a stream.
    pub fn clear_key(&mut self, key: &MarketDataKey)
        ensures
            final(self)@ == (LiveView {
                streams: old(self)@.streams.remove(key@),
                pending: old(self)@.pending.remove(key@),
                ..old(self)@
            }),
    {
        let ghost before = self@;
        self.stream_state.remove(key);
        self.pending_trades.remove(key);
        assert(self@ =~= (LiveView {
            streams: before.streams.remove(key@),
            pending: before.pending.remove(key@),
            ..before
        }));
    }

    /// Forgets all streams.
    pub fn clear_all(&mut self)
        ensures
            final(self)@ == LiveView::fresh(old(self)@.persist, old(self)@.batch_size),
    {
        let ghost before = self@;
        self.stream_state.clear();
        self.pending_trades.clear();
        assert(self@ =~= LiveView::fresh(before.persist, before.batch_size));
    }
}

/// The market data stream behind a live subscription. The order book has none.
pub fn stream_to_live_key(stream: &StreamKind) -> (k: Option<MarketDataKey>)
    ensures
        key_of(k) == key_streamed(stream@),
{
    stream_kind_to_key(stream)
}

/// The latest of a time and the times of some records is one of them, and none of them is later.
pub proof fn law_latest_is_the_maximum<T: Timed>(before: Option<UnixMs>, s: Seq<T>)
    ensures
        latest_seen(before, s) is None <==> before is None && s.len() == 0,
        latest_seen(before, s) matches Some(t) ==> {
            &&& before matches Some(b) ==> b.0 <= t.0
            &&& forall|i: int| 0 <= i < s.len() ==> (#[trigger] s[i]).at().0 <= t.0
            &&& before == Some(t) || exists|i: int| 0 <= i < s.len() && (#[trigger] s[i]).at() == t
        },
    decreases s.len(),
{
    if s.len() > 0 {
        let front = s.drop_last();
        law_latest_is_the_maximum(before, front);
        let t = latest_seen(before, s)->Some_0;
        assert(s[s.len() - 1] == s.last());
        if let Some(u) = latest_seen(before, front) {
            assert forall|i: int| 0 <= i < s.len() implies (#[trigger] s[i]).at().0 <= t.0 by {
                if i < front.len() {
                    assert(front[i] == s[i]);
                }
            }
            if t == u && before != Some(u) {
                let i = choose|i: int| 0 <= i < front.len() && (#[trigger] front[i]).at() == u;
                assert(s[i] == front[i]);
            }
        } else {
            assert forall|i: int| 0 <= i < s.len() implies (#[trigger] s[i]).at().0 <= t.0 by {
                assert(i == s.len() - 1);
            }
        }
    }
}

/// No live trade is lost on its way to the cache: what waited and what came in is either handed
/// over or waits, in the order in which it came. It is handed over as soon as there is a batch of
/// it and the cache is open. Other streams are left as they are.
pub proof fn law_live_trades_are_kept(
    v: LiveView,
    key: KeyView,
    trades: Seq<Trade>,
    cache_open: bool,
    other: KeyView,
)
    requires
        other != key,
    ensures
        ({
            let (after, due) = v.with_trades(key, trades, cache_open);
            let all = waiting(v.pending, key) + trades;
            &&& v.persist && trades.len() > 0 && all.len() >= v.batch_size && cache_open ==> due
                == Some(all) && waiting(after.pending, key).len() == 0
            &&& v.persist && trades.len() > 0 && !(all.len() >= v.batch_size && cache_open)
                ==> due is None && waiting(after.pending, key) == all
            &&& !v.persist || trades.len() == 0 ==> due is None && after.pending == v.pending
            &&& waiting(after.pending, other) == waiting(v.pending, other)
            &&& seen_of(after.streams, other) == seen_of(v.streams, other)
            &&& after.persist == v.persist && after.batch_size == v.batch_size
        }),
{
}

/// What is known of a live stream is how many records came and the latest of their times.
pub proof fn law_live_records_are_counted(
    v: LiveView,
    key: KeyView,
    trades: Seq<Trade>,
    klines: Seq<Kline>,
    cache_open: bool,
    other: KeyView,
)
    requires
        other != key,
    ensures
        ({
            let before = seen_of(v.streams, key);
            let a = seen_of(v.with_trades(key, trades, cache_open).0.streams, key);
            let b = seen_of(v.with_klines(key, klines).streams, key);
            &&& before.trade_count + trades.len() <= usize::MAX ==> a.trade_count
                == before.trade_count + trades.len()
            &&& before.kline_count + klines.len() <= usize::MAX ==> b.kline_count
                == before.kline_count + klines.len()
            &&& a.last_trade_time == latest_seen(before.last_trade_time, trades)
            &&& b.last_kline_time == latest_seen(before.last_kline_time, klines)
            &&& a.kline_count == before.kline_count && a.last_kline_time == before.last_kline_time
            &&& b.trade_count == before.trade_count && b.last_trade_time == before.last_trade_time
            &&& seen_of(v.with_klines(key, klines).streams, other) == seen_of(v.streams, other)
            &&& v.with_klines(key, klines).pending == v.pending
        }),
{
}

/// What is handed out when the cache is written is all that waits: each stream of which trades
/// wait has one batch with all of them, and no other one has any.
pub proof fn law_all_that_waits_is_handed_out(
    batches: Seq<(KeyView, Seq<Trade>)>,
    pending: Map<KeyView, Seq<Trade>>,
    key: KeyView,
)
    requires
        empties(batches, pending),
    ensures
        waiting(pending, key).len() > 0 <==> exists|i: int|
            0 <= i < batches.len() && (#[trigger] batches[i]).0 == key,
        forall|i: int|
            0 <= i < batches.len() && (#[trigger] batches[i]).0 == key ==> batches[i].1 == waiting(
                pending,
                key,
            ),
        forall|i: int, j: int|
            0 <= i < j < batches.len() ==> !((#[trigger] batches[i]).0 == key && (
            #[trigger] batches[j]).0 == key),
{
    if waiting(pending, key).len() > 0 {
        assert(pending.contains_key(key) && pending[key].len() > 0);
    }
}

} // verus!
