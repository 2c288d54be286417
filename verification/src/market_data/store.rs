//! Raw market data in memory.

use vstd::prelude::*;
use vstd::string::*;
use crate::keyed::KeyedList;
use crate::market::{Kline, OpenInterest, Trade};
use crate::market_data::coverage::clamp_usize;
use crate::market_data::key::{KeyView, MarketDataKey};
use crate::market_data::range::MarketDataRange;
use crate::market_data::series::{
    keep_newest, newest, select, upsert_all, upserted_all, within, Timed,
};
use crate::text::{decimal, push_decimal};
use crate::time::UnixMs;

verus! {

/// Trades kept for each stream.
pub const MAX_TRADES_PER_KEY: usize = 50_000;

/// Candles kept for each stream.
pub const MAX_KLINES_PER_KEY: usize = 10_000;

/// Open interest readings kept for each stream.
pub const MAX_OI_PER_KEY: usize = 10_000;

/// The streams of one kind of record.
pub type Tables<T> = Map<KeyView, Seq<T>>;

/// The records of a stream.
pub open spec fn rows_at<T>(m: Tables<T>, key: KeyView) -> Seq<T> {
    if m.contains_key(key) {
        m[key]
    } else {
        Seq::empty()
    }
}

/// `m` with the records of `xs` in the stream `key`, of which the newest `cap` stay.
pub open spec fn with_records<T: Timed>(m: Tables<T>, key: KeyView, xs: Seq<T>, cap: nat) -> Tables<
    T,
> {
    if xs.len() == 0 {
        m
    } else {
        m.insert(key, newest(upserted_all(rows_at(m, key), xs), cap))
    }
}

/// The values of the streams of one kind of record.
spec fn tables_of<T>(m: Map<KeyView, Vec<T>>) -> Tables<T> {
    m.map_values(|rows: Vec<T>| rows@)
}

/// The last timestamp of a sequence of records.
pub open spec fn last_time<T: Timed>(s: Seq<T>) -> Option<UnixMs> {
    if s.len() > 0 {
        Some(s.last().at())
    } else {
        None
    }
}

/// The first timestamp of a sequence of records.
pub open spec fn first_time<T: Timed>(s: Seq<T>) -> Option<UnixMs> {
    if s.len() > 0 {
        Some(s[0].at())
    } else {
        None
    }
}

/// The range from the first record to just behind the last.
pub open spec fn span_of<T: Timed>(s: Seq<T>) -> Option<MarketDataRange> {
    if s.len() > 0 {
        Some(
            MarketDataRange {
                from: s[0].at(),
                to: UnixMs(
                    if s.last().at().0 < u64::MAX {
                        (s.last().at().0 + 1) as u64
                    } else {
                        u64::MAX
                    },
                ),
            },
        )
    } else {
        None
    }
}

fn insert_records<T: Timed>(
    table: &mut KeyedList<MarketDataKey, Vec<T>>,
    key: &MarketDataKey,
    xs: &[T],
    cap: usize,
)
    ensures
        tables_of(final(table)@) == with_records(tables_of(old(table)@), key@, xs@, cap as nat),
{
    if xs.len() == 0 {
        return;
    }
    let ghost before = table@;
    let mut rows: Vec<T> = match table.remove(key) {
        Some(rows) => rows,
        None => Vec::new(),
    };
    assert(rows@ =~= rows_at(tables_of(before), key@));
    upsert_all(&mut rows, xs);
    keep_newest(&mut rows, cap);
    table.insert(key.clone(), rows);
    proof {
        assert(tables_of(table@) =~= with_records(tables_of(before), key@, xs@, cap as nat));
    }
}

fn rows_of<'a, T: Timed>(
    table: &'a KeyedList<MarketDataKey, Vec<T>>,
    key: &MarketDataKey,
) -> (r: Option<&'a Vec<T>>)
    ensures
        match r {
            Some(rows) => tables_of(table@).contains_key(key@) && rows@ == rows_at(
                tables_of(table@),
                key@,
            ),
            None => !tables_of(table@).contains_key(key@),
        },
{
    table.get(key)
}

fn query_records<T: Timed>(
    table: &KeyedList<MarketDataKey, Vec<T>>,
    key: &MarketDataKey,
    range: &MarketDataRange,
) -> (r: Vec<T>)
    ensures
        r@ == within(rows_at(tables_of(table@), key@), *range),
{
    match rows_of(table, key) {
        Some(rows) => select(rows, range),
        None => {
            let out: Vec<T> = Vec::new();
            assert(out@ =~= within(rows_at(tables_of(table@), key@), *range));
            out
        },
    }
}

fn last_of<T: Timed>(
    table: &KeyedList<MarketDataKey, Vec<T>>,
    key: &MarketDataKey,
) -> (t: Option<UnixMs>)
    ensures
        t == last_time(rows_at(tables_of(table@), key@)),
{
    match rows_of(table, key) {
        Some(rows) => {
            let n: usize = rows.len();
            if n > 0 {
                Some(rows[n - 1].time())
            } else {
                None
            }
        },
        None => None,
    }
}

fn first_of<T: Timed>(
    table: &KeyedList<MarketDataKey, Vec<T>>,
    key: &MarketDataKey,
) -> (t: Option<UnixMs>)
    ensures
        t == first_time(rows_at(tables_of(table@), key@)),
{
    match rows_of(table, key) {
        Some(rows) => {
            if rows.len() > 0 {
                Some(rows[0].time())
            } else {
                None
            }
        },
        None => None,
    }
}

fn span_in<T: Timed>(
    table: &KeyedList<MarketDataKey, Vec<T>>,
    key: &MarketDataKey,
) -> (r: Option<MarketDataRange>)
    ensures
        r == span_of(rows_at(tables_of(table@), key@)),
{
    match (first_of(table, key), last_of(table, key)) {
        (Some(first), Some(last)) => Some(
            MarketDataRange::new_unchecked(first, last.saturating_add(1)),
        ),
        _ => None,
    }
}

fn count_in<T: Timed>(
    table: &KeyedList<MarketDataKey, Vec<T>>,
    key: &MarketDataKey,
) -> (n: usize)
    ensures
        n == rows_at(tables_of(table@), key@).len(),
{
    match rows_of(table, key) {
        Some(rows) => rows.len(),
        None => 0,
    }
}

/// How many records the streams of `order` have together.
pub open spec fn summed_counts<T>(m: Tables<T>, order: Seq<KeyView>) -> nat
    decreases order.len(),
{
    if order.len() == 0 {
        0
    } else {
        summed_counts(m, order.drop_last()) + m[order.last()].len()
    }
}

fn total_in<T: Timed>(table: &KeyedList<MarketDataKey, Vec<T>>) -> (n: usize)
    ensures
        n == clamp_usize(summed_counts(tables_of(table@), table.order())),
        table.ordered(),
{
    let n: usize = table.len();
    let mut total: usize = 0;
    let mut i: usize = 0;
    while i < n
        invariant
            i <= n == table.order().len(),
            table.ordered(),
            total == clamp_usize(summed_counts(tables_of(table@), table.order().take(i as int))),
        decreases n - i,
    {
        let rows = table.value_at(i);
        proof {
            let next = table.order().take(i + 1);
            assert(next.drop_last() =~= table.order().take(i as int));
            assert(next.last() == table.order()[i as int]);
        }
        total = total.saturating_add(rows.len());
        i = i + 1;
    }
    assert(table.order().take(i as int) =~= table.order());
    total
}

fn keys_in<T: Timed>(table: &KeyedList<MarketDataKey, Vec<T>>) -> (r: Vec<MarketDataKey>)
    ensures
        r@.map_values(|k: MarketDataKey| k@) == table.order(),
        table.ordered(),
{
    let n: usize = table.len();
    let mut out: Vec<MarketDataKey> = Vec::new();
    let mut i: usize = 0;
    while i < n
        invariant
            i <= n == table.order().len(),
            table.ordered(),
            out@.map_values(|k: MarketDataKey| k@) == table.order().take(i as int),
        decreases n - i,
    {
        let ghost before = out@;
        let k = table.key_at(i).clone();
        out.push(k);
        assert(out@.map_values(|k: MarketDataKey| k@) =~= before.map_values(
            |k: MarketDataKey| k@,
        ).push(k@));
        assert(table.order().take(i + 1) =~= table.order().take(i as int).push(k@));
        i = i + 1;
    }
    assert(table.order().take(i as int) =~= table.order());
    out
}

/// A list names each key of a table once.
pub open spec fn lists_keys<V>(names: Seq<KeyView>, m: Map<KeyView, V>) -> bool {
    &&& names.no_duplicates()
    &&& forall|k: KeyView|
        #![trigger names.contains(k)]
        #![trigger m.contains_key(k)]
        names.contains(k) <==> m.contains_key(k)
}

/// Raw trades, candles and open interest of all streams.
pub struct MarketDataStore {
    trades: KeyedList<MarketDataKey, Vec<Trade>>,
    klines: KeyedList<MarketDataKey, Vec<Kline>>,
    open_interest: KeyedList<MarketDataKey, Vec<OpenInterest>>,
}

/// The contents of a store, as a value.
#[verifier::ext_equal]
pub struct StoreView {
    pub trades: Tables<Trade>,
    pub klines: Tables<Kline>,
    pub open_interest: Tables<OpenInterest>,
}

impl View for MarketDataStore {
    type V = StoreView;

    closed spec fn view(&self) -> StoreView {
        StoreView {
            trades: tables_of(self.trades@),
            klines: tables_of(self.klines@),
            open_interest: tables_of(self.open_interest@),
        }
    }
}

impl StoreView {
    /// The contents of an empty store.
    pub open spec fn empty() -> StoreView {
        StoreView { trades: Map::empty(), klines: Map::empty(), open_interest: Map::empty() }
    }

    /// The store with more trades.
    pub open spec fn with_trades(self, key: KeyView, xs: Seq<Trade>) -> StoreView {
        StoreView {
            trades: with_records(self.trades, key, xs, MAX_TRADES_PER_KEY as nat),
            ..self
        }
    }

    /// The store with more candles.
    pub open spec fn with_klines(self, key: KeyView, xs: Seq<Kline>) -> StoreView {
        StoreView {
            klines: with_records(self.klines, key, xs, MAX_KLINES_PER_KEY as nat),
            ..self
        }
    }

    /// The store with more open interest.
    pub open spec fn with_open_interest(self, key: KeyView, xs: Seq<OpenInterest>) -> StoreView {
        StoreView {
            open_interest: with_records(self.open_interest, key, xs, MAX_OI_PER_KEY as nat),
            ..self
        }
    }
}

impl Default for MarketDataStore {
    fn default() -> (s: Self)
        ensures
            s@ == StoreView::empty(),
    {
        MarketDataStore::new()
    }
}

impl MarketDataStore {
    /// An empty store.
    pub fn new() -> (s: Self)
        ensures
            s@ == StoreView::empty(),
    {
        let s = MarketDataStore {
            trades: KeyedList::new(),
            klines: KeyedList::new(),
            open_interest: KeyedList::new(),
        };
        assert(s@ =~= StoreView::empty());
        s
    }

    /// Inserts trades. For each timestamp the last one stays; the oldest go when there are too
    /// many.
    pub fn insert_trades(&mut self, key: &MarketDataKey, trades: &[Trade])
        ensures
            final(self)@ == old(self)@.with_trades(key@, trades@),
    {
        insert_records(&mut self.trades, key, trades, MAX_TRADES_PER_KEY);
    }

    /// Inserts candles. For each timestamp the last one stays; the oldest go when there are too
    /// many.
    pub fn insert_klines(&mut self, key: &MarketDataKey, klines: &[Kline])
        ensures
            final(self)@ == old(self)@.with_klines(key@, klines@),
    {
        insert_records(&mut self.klines, key, klines, MAX_KLINES_PER_KEY);
    }

    /// Inserts open interest. For each timestamp the last reading stays; the oldest go when
    /// there are too many.
    pub fn insert_open_interest(&mut self, key: &MarketDataKey, oi: &[OpenInterest])
        ensures
            final(self)@ == old(self)@.with_open_interest(key@, oi@),
    {
        insert_records(&mut self.open_interest, key, oi, MAX_OI_PER_KEY);
    }

    /// The trades of a range, the end excluded.
    pub fn query_trades(&self, key: &MarketDataKey, range: &MarketDataRange) -> (r: Vec<Trade>)
        ensures
            r@ == within(rows_at(self@.trades, key@), *range),
    {
        query_records(&self.trades, key, range)
    }

    /// The candles of a range, the end excluded.
    pub fn query_klines(&self, key: &MarketDataKey, range: &MarketDataRange) -> (r: Vec<Kline>)
        ensures
            r@ == within(rows_at(self@.klines, key@), *range),
    {
        query_records(&self.klines, key, range)
    }

    /// The open interest of a range, the end excluded.
    pub fn query_open_interest(&self, key: &MarketDataKey, range: &MarketDataRange) -> (r: Vec<
        OpenInterest,
    >)
        ensures
            r@ == within(rows_at(self@.open_interest, key@), *range),
    {
        query_records(&self.open_interest, key, range)
    }

    /// The timestamp of the latest trade.
    pub fn latest_trade_time(&self, key: &MarketDataKey) -> (t: Option<UnixMs>)
        ensures
            t == last_time(rows_at(self@.trades, key@)),
    {
        last_of(&self.trades, key)
    }

    /// The timestamp of the latest candle.
    pub fn latest_kline_time(&self, key: &MarketDataKey) -> (t: Option<UnixMs>)
        ensures
            t == last_time(rows_at(self@.klines, key@)),
    {
        last_of(&self.klines, key)
    }

    /// The timestamp of the latest open interest reading.
    pub fn latest_oi_time(&self, key: &MarketDataKey) -> (t: Option<UnixMs>)
        ensures
            t == last_time(rows_at(self@.open_interest, key@)),
    {
        last_of(&self.open_interest, key)
    }

    /// The timestamp of the earliest trade.
    pub fn earliest_trade_time(&self, key: &MarketDataKey) -> (t: Option<UnixMs>)
        ensures
            t == first_time(rows_at(self@.trades, key@)),
    {
        first_of(&self.trades, key)
    }

    /// The timestamp of the earliest candle.
    pub fn earliest_kline_time(&self, key: &MarketDataKey) -> (t: Option<UnixMs>)
        ensures
            t == first_time(rows_at(self@.klines, key@)),
    {
        first_of(&self.klines, key)
    }

    /// The number of trades of a stream.
    pub fn trade_count(&self, key: &MarketDataKey) -> (n: usize)
        ensures
            n == rows_at(self@.trades, key@).len(),
    {
        count_in(&self.trades, key)
    }

    /// The number of candles of a stream.
    pub fn kline_count(&self, key: &MarketDataKey) -> (n: usize)
        ensures
            n == rows_at(self@.klines, key@).len(),
    {
        count_in(&self.klines, key)
    }

    /// The number of open interest readings of a stream.
    pub fn oi_count(&self, key: &MarketDataKey) -> (n: usize)
        ensures
            n == rows_at(self@.open_interest, key@).len(),
    {
        count_in(&self.open_interest, key)
    }

    /// True when anything was stored for a stream.
    pub fn has_data(&self, key: &MarketDataKey) -> (r: bool)
        ensures
            r == (self@.trades.contains_key(key@) || self@.klines.contains_key(key@)
                || self@.open_interest.contains_key(key@)),
    {
        self.trades.contains_key(key) || self.klines.contains_key(key)
            || self.open_interest.contains_key(key)
    }

    /// The streams that have trades.
    pub fn trade_keys(&self) -> (r: Vec<MarketDataKey>)
        ensures
            lists_keys(r@.map_values(|k: MarketDataKey| k@), self@.trades),
    {
        keys_in(&self.trades)
    }

    /// The streams that have candles.
    pub fn kline_keys(&self) -> (r: Vec<MarketDataKey>)
        ensures
            lists_keys(r@.map_values(|k: MarketDataKey| k@), self@.klines),
    {
        keys_in(&self.klines)
    }

    /// The streams that have open interest.
    pub fn oi_keys(&self) -> (r: Vec<MarketDataKey>)
        ensures
            lists_keys(r@.map_values(|k: MarketDataKey| k@), self@.open_interest),
    {
        keys_in(&self.open_interest)
    }

    /// Forgets a stream.
    pub fn clear_key(&mut self, key: &MarketDataKey)
        ensures
            final(self)@ == (StoreView {
                trades: old(self)@.trades.remove(key@),
                klines: old(self)@.klines.remove(key@),
                open_interest: old(self)@.open_interest.remove(key@),
            }),
    {
        let ghost before = self@;
        self.trades.remove(key);
        self.klines.remove(key);
        self.open_interest.remove(key);
        assert(self@.trades =~= before.trades.remove(key@));
        assert(self@.klines =~= before.klines.remove(key@));
        assert(self@.open_interest =~= before.open_interest.remove(key@));
    }

    /// Forgets everything.
    pub fn clear_all(&mut self)
        ensures
            final(self)@ == StoreView::empty(),
    {
        self.trades.clear();
        self.klines.clear();
        self.open_interest.clear();
        assert(self@ =~= StoreView::empty());
    }

    /// The range of a stream's trades.
    pub fn trade_range(&self, key: &MarketDataKey) -> (r: Option<MarketDataRange>)
        ensures
            r == span_of(rows_at(self@.trades, key@)),
    {
        span_in(&self.trades, key)
    }

    /// The range of a stream's candles.
    pub fn kline_range(&self, key: &MarketDataKey) -> (r: Option<MarketDataRange>)
        ensures
            r == span_of(rows_at(self@.klines, key@)),
    {
        span_in(&self.klines, key)
    }

    /// How much the store holds.
    pub fn summary(&self) -> (s: StoreSummary)
        ensures
            sums_up_store(s, self@),
    {
        proof {
            assert(self@.trades.dom() =~= self.trades@.dom());
            assert(self@.klines.dom() =~= self.klines@.dom());
            assert(self@.open_interest.dom() =~= self.open_interest@.dom());
        }
        let total_trades = total_in(&self.trades);
        let total_klines = total_in(&self.klines);
        let total_oi = total_in(&self.open_interest);
        let s = StoreSummary {
            trade_keys: self.trades.len(),
            kline_keys: self.klines.len(),
            oi_keys: self.open_interest.len(),
            total_trades,
            total_klines,
            total_oi,
        };
        proof {
            assert(lists_keys(self.trades.order(), self@.trades));
            assert(lists_keys(self.klines.order(), self@.klines));
            assert(lists_keys(self.open_interest.order(), self@.open_interest));
        }
        s
    }
}

/// `total` is how many records all streams have together, at most the largest count.
pub open spec fn counts_all<T>(total: usize, m: Tables<T>) -> bool {
    exists|order: Seq<KeyView>|
        lists_keys(order, m) && total == clamp_usize(#[trigger] summed_counts(m, order))
}

proof fn lemma_summed_without<T>(m: Tables<T>, order: Seq<KeyView>, i: int)
    requires
        0 <= i < order.len(),
    ensures
        summed_counts(m, order) == summed_counts(m, order.remove(i)) + m[order[i]].len(),
    decreases order.len(),
{
    let front = order.drop_last();
    if i < order.len() - 1 {
        lemma_summed_without(m, front, i);
        assert(order.remove(i).drop_last() =~= front.remove(i));
        assert(order.remove(i).last() == order.last());
    } else {
        assert(order.remove(i) =~= front);
    }
}

proof fn lemma_summed_alike<T>(m: Tables<T>, a: Seq<KeyView>, b: Seq<KeyView>)
    requires
        a.no_duplicates(),
        b.no_duplicates(),
        forall|k: KeyView| #[trigger] a.contains(k) <==> b.contains(k),
    ensures
        summed_counts(m, a) == summed_counts(m, b),
    decreases a.len(),
{
    if a.len() == 0 {
        if b.len() > 0 {
            assert(b.contains(b[0]));
            assert(a.contains(b[0]));
        }
    } else {
        let last = a.last();
        let front = a.drop_last();
        assert(a.contains(a[a.len() - 1]));
        let i = choose|i: int| 0 <= i < b.len() && b[i] == last;
        let rest = b.remove(i);
        assert forall|x: int, y: int| 0 <= x < rest.len() && 0 <= y < rest.len() && x != y implies
            rest[x] != rest[y] by {
            let p = if x < i { x } else { x + 1 };
            let q = if y < i { y } else { y + 1 };
            assert(rest[x] == b[p] && rest[y] == b[q]);
        }
        assert forall|k: KeyView| #[trigger] front.contains(k) <==> rest.contains(k) by {
            if front.contains(k) {
                let x = choose|x: int| 0 <= x < front.len() && front[x] == k;
                assert(a[x] == k && k != last);
                assert(a.contains(k));
                let y = choose|y: int| 0 <= y < b.len() && b[y] == k;
                assert(rest[if y < i { y } else { y - 1 }] == k);
            }
            if rest.contains(k) {
                let y = choose|y: int| 0 <= y < rest.len() && rest[y] == k;
                assert(b[if y < i { y } else { y + 1 }] == k);
                assert(k != last);
                assert(b.contains(k));
                assert(a.contains(k));
                let x = choose|x: int| 0 <= x < a.len() && a[x] == k;
                assert(front[x] == k);
            }
        }
        lemma_summed_alike(m, front, rest);
        lemma_summed_without(m, b, i);
    }
}

/// How much a store holds does not depend on the order in which its streams are counted.
pub proof fn law_order_of_counting<T>(total: usize, m: Tables<T>, order: Seq<KeyView>)
    requires
        counts_all(total, m),
        lists_keys(order, m),
    ensures
        total == clamp_usize(summed_counts(m, order)),
{
    let other = choose|other: Seq<KeyView>|
        lists_keys(other, m) && total == clamp_usize(#[trigger] summed_counts(m, other));
    assert forall|k: KeyView| #[trigger] order.contains(k) <==> other.contains(k) by {
        assert(order.contains(k) <==> m.contains_key(k));
    }
    lemma_summed_alike(m, order, other);
}

/// The summary tells how much a store holds.
pub open spec fn sums_up_store(s: StoreSummary, v: StoreView) -> bool {
    &&& s.trade_keys == v.trades.len()
    &&& s.kline_keys == v.klines.len()
    &&& s.oi_keys == v.open_interest.len()
    &&& counts_all(s.total_trades, v.trades)
    &&& counts_all(s.total_klines, v.klines)
    &&& counts_all(s.total_oi, v.open_interest)
}

/// How much a store holds.
#[derive(Debug, Clone, Copy, PartialEq, Eq, Structural)]
pub struct StoreSummary {
    pub trade_keys: usize,
    pub kline_keys: usize,
    pub oi_keys: usize,
    pub total_trades: usize,
    pub total_klines: usize,
    pub total_oi: usize,
}

impl StoreSummary {
    /// The summary as text.
    pub open spec fn text(self) -> Seq<char> {
        "keys(trades="@ + decimal(self.trade_keys as nat) + ", klines="@ + decimal(
            self.kline_keys as nat,
        ) + ", oi="@ + decimal(self.oi_keys as nat) + ") records(trades="@ + decimal(
            self.total_trades as nat,
        ) + ", klines="@ + decimal(self.total_klines as nat) + ", oi="@ + decimal(
            self.total_oi as nat,
        ) + ")"@
    }

    /// The summary in one line of text.
    pub fn format(&self) -> (s: String)
        ensures
            s@ == self.text(),
    {
        let mut s = String::from_str("keys(trades=");
        push_decimal(&mut s, self.trade_keys as u64);
        s.append(", klines=");
        push_decimal(&mut s, self.kline_keys as u64);
        s.append(", oi=");
        push_decimal(&mut s, self.oi_keys as u64);
        s.append(") records(trades=");
        push_decimal(&mut s, self.total_trades as u64);
        s.append(", klines=");
        push_decimal(&mut s, self.total_klines as u64);
        s.append(", oi=");
        push_decimal(&mut s, self.total_oi as u64);
        s.append(")");
        s
    }
}

} // verus!
