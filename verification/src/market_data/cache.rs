//! What the files of the local cache hold, and what a query finds in them.
//!
//! Each stream has a directory with a file for each kind of record. Reading and writing the
//! files is left to the caller: this module says where they stand, what goes into them and what
//! comes out.

use vstd::prelude::*;
use vstd::string::*;
use crate::market::{Kline, OpenInterest, Trade, Volume};
use crate::market_data::key::{KeyView, MarketDataKey, MarketDataKind};
use crate::market_data::range::MarketDataRange;
use crate::market_data::series::{keep_newest, newest, record_at, rising, select, within, Timed};
use crate::seqs::copy_rows;
use crate::sorting::{inserted, is_ranked, lemma_sorted, sort_ranked, sorted_by_rank, Rank, Ranked};
use crate::time::UnixMs;

verus! {

/// Trades kept in a file.
pub const MAX_CACHED_TRADES: usize = 50_000;

/// Candles, or open interest readings, kept in a file.
pub const MAX_CACHED_KLINES: usize = 10_000;

/// A file that was not written to for longer than a day, in milliseconds, is not used.
pub const MAX_CACHE_AGE_MS: u64 = 86_400_000;

impl Rank for Trade {
    open spec fn rank(&self) -> int {
        self.time.0 as int
    }
}

impl Ranked for Trade {
    fn ranks_after(&self, other: &Self) -> (after: bool) {
        self.time.0 > other.time.0
    }
}

impl Rank for Kline {
    open spec fn rank(&self) -> int {
        self.time.0 as int
    }
}

impl Ranked for Kline {
    fn ranks_after(&self, other: &Self) -> (after: bool) {
        self.time.0 > other.time.0
    }
}

impl Rank for OpenInterest {
    open spec fn rank(&self) -> int {
        self.time.0 as int
    }
}

impl Ranked for OpenInterest {
    fn ranks_after(&self, other: &Self) -> (after: bool) {
        self.time.0 > other.time.0
    }
}

/// The records without those whose predecessor has the same time.
pub open spec fn one_per_time<T: Timed>(s: Seq<T>) -> Seq<T>
    decreases s.len(),
{
    if s.len() == 0 {
        s
    } else {
        let front = one_per_time(s.drop_last());
        if front.len() > 0 && front.last().at() == s.last().at() {
            front
        } else {
            front.push(s.last())
        }
    }
}

/// What a file holds after `new` was added to `old`: in order of time, the first record of each
/// time, and of these the newest.
pub open spec fn merged_rows<T: Timed + Rank>(old_rows: Seq<T>, new_rows: Seq<T>, cap: nat) -> Seq<
    T,
> {
    newest(one_per_time(sorted_by_rank(old_rows + new_rows)), cap)
}

fn drop_repeated_times<T: Timed>(rows: Vec<T>) -> (r: Vec<T>)
    ensures
        r@ == one_per_time(rows@),
{
    let mut out: Vec<T> = Vec::new();
    let mut i: usize = 0;
    assert(rows@.take(0) =~= Seq::<T>::empty());
    while i < rows.len()
        invariant
            i <= rows@.len(),
            out@ == one_per_time(rows@.take(i as int)),
        decreases rows@.len() - i,
    {
        let row = rows[i];
        let repeated = out.len() > 0 && out[out.len() - 1].time().0 == row.time().0;
        if !repeated {
            out.push(row);
        }
        i += 1;
        assert(rows@.take(i as int).drop_last() =~= rows@.take(i - 1));
        assert(rows@.take(i as int).last() == rows@[i - 1]);
    }
    assert(rows@.take(i as int) =~= rows@);
    out
}

fn merge_rows<T: Timed + Ranked>(old_rows: Vec<T>, new_rows: &[T], cap: usize) -> (r: Vec<T>)
    ensures
        r@ == merged_rows(old_rows@, new_rows@, cap as nat),
{
    let mut all = old_rows;
    let mut more = copy_rows(new_rows);
    all.append(&mut more);
    assert(all@ =~= old_rows@ + new_rows@);
    sort_ranked(&mut all);
    let mut kept = drop_repeated_times(all);
    keep_newest(&mut kept, cap);
    kept
}

/// What a file holds: the name of its stream, its records and when it was last written.
#[derive(Debug)]
pub struct CachedFile<T> {
    pub key_display: String,
    pub rows: Vec<T>,
    pub last_updated: u64,
}

/// What became of reading a file.
#[derive(Debug)]
pub enum CacheRead<T> {
    /// There is no such file.
    Absent,
    /// There is one, but it makes no sense.
    Unreadable,
    /// It was read.
    Found(CachedFile<T>),
}

impl<T> CacheRead<T> {
    /// The records that were read.
    pub open spec fn rows(self) -> Seq<T> {
        match self {
            CacheRead::Found(file) => file.rows@,
            _ => Seq::empty(),
        }
    }

    /// The records that a query at time `now` may use.
    pub open spec fn usable(self, now: u64) -> Seq<T> {
        match self {
            CacheRead::Found(file) if now - file.last_updated <= MAX_CACHE_AGE_MS => file.rows@,
            _ => Seq::empty(),
        }
    }
}

/// How the cache was used.
#[derive(Debug, Clone, Copy, PartialEq, Eq, Structural)]
pub struct CacheStats {
    pub reads: usize,
    pub writes: usize,
    pub hits: usize,
    pub misses: usize,
    pub errors: usize,
}

impl Default for CacheStats {
    fn default() -> (s: Self)
        ensures
            s == no_use(),
    {
        CacheStats { reads: 0, writes: 0, hits: 0, misses: 0, errors: 0 }
    }
}

/// A cache that was not used yet.
pub open spec fn no_use() -> CacheStats {
    CacheStats { reads: 0, writes: 0, hits: 0, misses: 0, errors: 0 }
}

/// One more, as far as the count goes.
pub open spec fn one_more(n: usize) -> usize {
    if n < usize::MAX {
        (n + 1) as usize
    } else {
        usize::MAX
    }
}

/// The counts after a query that found `found` records.
pub open spec fn counted<T>(stats: CacheStats, read: CacheRead<T>, found: nat) -> CacheStats {
    let read_once = CacheStats { reads: one_more(stats.reads), ..stats };
    if read is Unreadable {
        CacheStats { errors: one_more(stats.errors), ..read_once }
    } else if found == 0 {
        CacheStats { misses: one_more(stats.misses), ..read_once }
    } else {
        CacheStats { hits: one_more(stats.hits), ..read_once }
    }
}

/// A candle as the cache keeps it: of its volume only the total.
pub open spec fn flattened(k: Kline) -> Kline {
    Kline { volume: Volume::TotalOnly(k.volume.whole()), ..k }
}

/// The directory of a stream.
pub open spec fn directory(key: KeyView) -> Seq<char> {
    key.venue.name() + "_"@ + key.symbol + "_"@ + key.market_type.name()
}

/// The file for a kind of record.
pub open spec fn file_for(kind: MarketDataKind) -> Seq<char> {
    match kind {
        MarketDataKind::Trades => "trades.json"@,
        MarketDataKind::Klines { .. } => "klines.json"@,
        MarketDataKind::OpenInterest { .. } => "oi.json"@,
    }
}

/// The rules of the local cache, and how it was used.
pub struct LocalMarketCache {
    stats: CacheStats,
}

impl View for LocalMarketCache {
    type V = CacheStats;

    closed spec fn view(&self) -> CacheStats {
        self.stats
    }
}

impl LocalMarketCache {
    /// A cache that was not used yet.
    pub fn new() -> (c: Self)
        ensures
            c@ == no_use(),
    {
        LocalMarketCache { stats: CacheStats::default() }
    }

    /// How the cache was used.
    pub fn stats(&self) -> (s: &CacheStats)
        ensures
            *s == self@,
    {
        &self.stats
    }

    /// The directory of a stream.
    pub fn key_dir(key: &MarketDataKey) -> (s: String)
        ensures
            s@ == directory(key@),
    {
        let mut s = String::from_str(key.venue.display_name());
        s.append("_");
        s.append(key.symbol.as_str());
        s.append("_");
        s.append(key.market_type.display_name());
        s
    }

    /// The file for a kind of record.
    pub fn file_name(kind: MarketDataKind) -> (s: &'static str)
        ensures
            s@ == file_for(kind),
    {
        match kind {
            MarketDataKind::Trades => "trades.json",
            MarketDataKind::Klines { .. } => "klines.json",
            MarketDataKind::OpenInterest { .. } => "oi.json",
        }
    }

    fn merged_file<T: Timed + Ranked>(
        key: &MarketDataKey,
        file: CacheRead<T>,
        rows: &[T],
        cap: usize,
        now: u64,
    ) -> (f: CachedFile<T>)
        ensures
            f.rows@ == merged_rows(file.rows(), rows@, cap as nat),
            f.last_updated == now,
            f.key_display@ == match file {
                CacheRead::Found(old_file) => old_file.key_display@,
                _ => key@.display(),
            },
    {
        match file {
            CacheRead::Found(old_file) => CachedFile {
                key_display: old_file.key_display,
                rows: merge_rows(old_file.rows, rows, cap),
                last_updated: now,
            },
            _ => CachedFile {
                key_display: key.display_key(),
                rows: merge_rows(Vec::new(), rows, cap),
                last_updated: now,
            },
        }
    }

    /// The file of a stream after `trades` were added to it at time `now`.
    pub fn insert_trades(
        key: &MarketDataKey,
        file: CacheRead<Trade>,
        trades: &[Trade],
        now: u64,
    ) -> (f: CachedFile<Trade>)
        ensures
            f.rows@ == merged_rows(file.rows(), trades@, MAX_CACHED_TRADES as nat),
            f.last_updated == now,
            f.key_display@ == match file {
                CacheRead::Found(old_file) => old_file.key_display@,
                _ => key@.display(),
            },
    {
        LocalMarketCache::merged_file(key, file, trades, MAX_CACHED_TRADES, now)
    }

    /// The file of a stream after `klines` were added to it at time `now`.
    pub fn insert_klines(
        key: &MarketDataKey,
        file: CacheRead<Kline>,
        klines: &[Kline],
        now: u64,
    ) -> (f: CachedFile<Kline>)
        ensures
            f.rows@ == merged_rows(
                file.rows(),
                klines@.map_values(|k: Kline| flattened(k)),
                MAX_CACHED_KLINES as nat,
            ),
            f.last_updated == now,
            f.key_display@ == match file {
                CacheRead::Found(old_file) => old_file.key_display@,
                _ => key@.display(),
            },
    {
        let mut flat: Vec<Kline> = Vec::new();
        let mut i: usize = 0;
        while i < klines.len()
            invariant
                i <= klines@.len(),
                flat@.len() == i,
                forall|a: int| 0 <= a < i ==> #[trigger] flat@[a] == flattened(klines@[a]),
            decreases klines@.len() - i,
        {
            let k = klines[i];
            flat.push(
                Kline {
                    time: k.time,
                    open: k.open,
                    high: k.high,
                    low: k.low,
                    close: k.close,
                    volume: Volume::TotalOnly(k.volume.total()),
                },
            );
            i += 1;
        }
        assert(flat@ =~= klines@.map_values(|k: Kline| flattened(k)));
        LocalMarketCache::merged_file(key, file, &flat, MAX_CACHED_KLINES, now)
    }

    /// The file of a stream after readings were added to it at time `now`.
    pub fn insert_open_interest(
        key: &MarketDataKey,
        file: CacheRead<OpenInterest>,
        data: &[OpenInterest],
        now: u64,
    ) -> (f: CachedFile<OpenInterest>)
        ensures
            f.rows@ == merged_rows(file.rows(), data@, MAX_CACHED_KLINES as nat),
            f.last_updated == now,
            f.key_display@ == match file {
                CacheRead::Found(old_file) => old_file.key_display@,
                _ => key@.display(),
            },
    {
        LocalMarketCache::merged_file(key, file, data, MAX_CACHED_KLINES, now)
    }

    /// Counts an attempt to write a file, which failed where it could not be put into text.
    pub fn note_write(&mut self, encoded: bool)
        ensures
            final(self)@ == if encoded {
                CacheStats { writes: one_more(old(self)@.writes), ..old(self)@ }
            } else {
                CacheStats { errors: one_more(old(self)@.errors), ..old(self)@ }
            },
    {
        if encoded {
            self.stats.writes = self.stats.writes.saturating_add(1);
        } else {
            self.stats.errors = self.stats.errors.saturating_add(1);
        }
    }

    fn answer<T: Timed>(
        &mut self,
        file: CacheRead<T>,
        range: &MarketDataRange,
        now: u64,
    ) -> (r: Vec<T>)
        ensures
            r@ == within(file.usable(now), *range),
            final(self)@ == counted(old(self)@, file, r@.len()),
    {
        self.stats.reads = self.stats.reads.saturating_add(1);
        match file {
            CacheRead::Absent => {
                self.stats.misses = self.stats.misses.saturating_add(1);
                proof {
                    reveal(Seq::filter);
                }
                Vec::new()
            },
            CacheRead::Unreadable => {
                self.stats.errors = self.stats.errors.saturating_add(1);
                proof {
                    reveal(Seq::filter);
                }
                Vec::new()
            },
            CacheRead::Found(cached) => {
                if now.saturating_sub(cached.last_updated) > MAX_CACHE_AGE_MS {
                    self.stats.misses = self.stats.misses.saturating_add(1);
                    proof {
                        reveal(Seq::filter);
                    }
                    return Vec::new();
                }
                let result = select(&cached.rows, range);
                if result.len() == 0 {
                    self.stats.misses = self.stats.misses.saturating_add(1);
                } else {
                    self.stats.hits = self.stats.hits.saturating_add(1);
                }
                result
            },
        }
    }

    /// The trades of a range in a file that was read at time `now`.
    pub fn query_trades(
        &mut self,
        file: CacheRead<Trade>,
        range: &MarketDataRange,
        now: u64,
    ) -> (r: Vec<Trade>)
        ensures
            r@ == within(file.usable(now), *range),
            final(self)@ == counted(old(self)@, file, r@.len()),
    {
        self.answer(file, range, now)
    }

    /// The candles of a range in a file that was read at time `now`.
    pub fn query_klines(
        &mut self,
        file: CacheRead<Kline>,
        range: &MarketDataRange,
        now: u64,
    ) -> (r: Vec<Kline>)
        ensures
            r@ == within(file.usable(now), *range),
            final(self)@ == counted(old(self)@, file, r@.len()),
    {
        self.answer(file, range, now)
    }

    /// The readings of a range in a file that was read at time `now`.
    pub fn query_open_interest(
        &mut self,
        file: CacheRead<OpenInterest>,
        range: &MarketDataRange,
        now: u64,
    ) -> (r: Vec<OpenInterest>)
        ensures
            r@ == within(file.usable(now), *range),
            final(self)@ == counted(old(self)@, file, r@.len()),
    {
        self.answer(file, range, now)
    }
}

/// True when records are ranked by their time.
pub open spec fn ranked_by_time<T: Timed + Rank>() -> bool {
    forall|x: T| (#[trigger] x.rank()) == x.at().0
}

/// The first record of a time.
pub open spec fn first_at<T: Timed>(s: Seq<T>, t: UnixMs) -> Option<T>
    decreases s.len(),
{
    if s.len() == 0 {
        None
    } else {
        match first_at(s.drop_last(), t) {
            Some(x) => Some(x),
            None => if s.last().at() == t {
                Some(s.last())
            } else {
                None
            },
        }
    }
}

proof fn lemma_first_inserted<T: Timed + Rank>(s: Seq<T>, x: T, t: UnixMs)
    requires
        ranked_by_time::<T>(),
    ensures
        first_at(inserted(s, x), t) == first_at(s.push(x), t),
    decreases s.len(),
{
    assert(s.push(x).drop_last() =~= s);
    if s.len() > 0 && s.last().rank() > x.rank() {
        let dl = s.drop_last();
        lemma_first_inserted(dl, x, t);
        assert(dl.push(x).drop_last() =~= dl);
        let ins = inserted(dl, x);
        assert(inserted(s, x) == ins.push(s.last()));
        assert(ins.push(s.last()).drop_last() =~= ins);
        assert(ins.push(s.last()).last() == s.last());
        assert(first_at(ins, t) == match first_at(dl, t) {
            Some(y) => Some(y),
            None => if x.at() == t {
                Some(x)
            } else {
                None
            },
        });
        assert(first_at(s, t) == match first_at(dl, t) {
            Some(y) => Some(y),
            None => if s.last().at() == t {
                Some(s.last())
            } else {
                None
            },
        });
        assert(s.last().at() != x.at());
    }
}

proof fn lemma_first_sorted<T: Timed + Rank>(s: Seq<T>, t: UnixMs)
    requires
        ranked_by_time::<T>(),
    ensures
        first_at(sorted_by_rank(s), t) == first_at(s, t),
    decreases s.len(),
{
    if s.len() > 0 {
        let dl = s.drop_last();
        lemma_first_sorted(dl, t);
        lemma_first_inserted(sorted_by_rank(dl), s.last(), t);
        assert(sorted_by_rank(dl).push(s.last()).drop_last() =~= sorted_by_rank(dl));
    }
}

proof fn lemma_one_per_time<T: Timed + Rank>(s: Seq<T>, t: UnixMs)
    requires
        ranked_by_time::<T>(),
        is_ranked(s),
    ensures
        rising(one_per_time(s)),
        s.len() > 0 ==> one_per_time(s).len() > 0 && one_per_time(s).last().at() == s.last().at(),
        first_at(one_per_time(s), t) == first_at(s, t),
    decreases s.len(),
{
    if s.len() > 0 {
        let dl = s.drop_last();
        assert(is_ranked(dl)) by {
            assert forall|i: int, j: int| 0 <= i <= j < dl.len() implies (
            #[trigger] dl[i]).rank() <= (#[trigger] dl[j]).rank() by {
                assert(s[i].rank() <= s[j].rank());
            }
        }
        lemma_one_per_time(dl, t);
        let front = one_per_time(dl);
        if front.len() > 0 {
            assert(dl.len() > 0);
            assert(s[s.len() - 2].rank() <= s[s.len() - 1].rank());
            assert(dl.last() == s[s.len() - 2]);
            assert(dl.last().rank() == dl.last().at().0);
            assert(s.last().rank() == s.last().at().0);
        }
        if front.len() > 0 && front.last().at() == s.last().at() {
            lemma_first_found(dl);
        } else {
            assert(front.push(s.last()).drop_last() =~= front);
            assert forall|i: int, j: int|
                0 <= i < j < front.push(s.last()).len() implies (#[trigger] front.push(
                s.last(),
            )[i]).at().0 < (#[trigger] front.push(s.last())[j]).at().0 by {
                if j == front.len() {
                    if i < front.len() - 1 {
                        assert(front[i].at().0 < front[front.len() - 1].at().0);
                    }
                }
            }
        }
    }
}

proof fn lemma_first_found<T: Timed>(s: Seq<T>)
    ensures
        s.len() > 0 ==> first_at(s, s.last().at()) is Some,
{
}

proof fn lemma_first_place<T: Timed>(s: Seq<T>, t: UnixMs)
    ensures
        match first_at(s, t) {
            Some(x) => x.at() == t && s.contains(x),
            None => forall|i: int| 0 <= i < s.len() ==> (#[trigger] s[i]).at() != t,
        },
    decreases s.len(),
{
    if s.len() > 0 {
        let dl = s.drop_last();
        lemma_first_place(dl, t);
        match first_at(dl, t) {
            Some(x) => {
                let i = choose|i: int| 0 <= i < dl.len() && dl[i] == x;
                assert(s[i] == x);
            },
            None => {
                assert(s[s.len() - 1] == s.last());
                assert forall|i: int| 0 <= i < s.len() - 1 implies (#[trigger] s[i]).at() != t by {
                    assert(dl[i] == s[i]);
                }
            },
        }
    }
}

proof fn lemma_first_is_record<T: Timed>(s: Seq<T>, t: UnixMs)
    requires
        rising(s),
    ensures
        first_at(s, t) == record_at(s, t),
{
    lemma_first_place(s, t);
    match first_at(s, t) {
        Some(x) => {
            let i = choose|i: int| 0 <= i < s.len() && s[i] == x;
            assert(s[i].at() == t);
            let k = choose|k: int| 0 <= k < s.len() && (#[trigger] s[k]).at() == t;
            if i < k {
                assert(s[i].at().0 < s[k].at().0);
            } else if k < i {
                assert(s[k].at().0 < s[i].at().0);
            }
        },
        None => {},
    }
}

proof fn lemma_first_joined<T: Timed>(a: Seq<T>, b: Seq<T>, t: UnixMs)
    ensures
        first_at(a + b, t) == match first_at(a, t) {
            Some(x) => Some(x),
            None => first_at(b, t),
        },
    decreases b.len(),
{
    if b.len() == 0 {
        assert(a + b =~= a);
    } else {
        assert((a + b).drop_last() =~= a + b.drop_last());
        lemma_first_joined(a, b.drop_last(), t);
    }
}

proof fn lemma_first_within<T: Timed>(s: Seq<T>, range: MarketDataRange, t: UnixMs)
    requires
        range.covers(t.0 as int),
    ensures
        first_at(within(s, range), t) == first_at(s, t),
    decreases s.len(),
{
    reveal(Seq::filter);
    if s.len() > 0 {
        lemma_first_within(s.drop_last(), range, t);
        let w = within(s.drop_last(), range);
        assert(w.push(s.last()).drop_last() =~= w);
    }
}

/// A file stays in order of time, holds no two records of one time and keeps its size.
pub proof fn law_cached_rows_in_order<T: Timed + Rank>(
    old_rows: Seq<T>,
    new_rows: Seq<T>,
    cap: nat,
)
    requires
        ranked_by_time::<T>(),
    ensures
        rising(merged_rows(old_rows, new_rows, cap)),
        merged_rows(old_rows, new_rows, cap).len() <= cap,
{
    let all = sorted_by_rank(old_rows + new_rows);
    lemma_sorted(old_rows + new_rows);
    lemma_one_per_time(all, UnixMs(0));
    let kept = one_per_time(all);
    let out = merged_rows(old_rows, new_rows, cap);
    assert forall|i: int, j: int| 0 <= i < j < out.len() implies (#[trigger] out[i]).at().0 < (
    #[trigger] out[j]).at().0 by {
        let d = kept.len() - out.len();
        assert(out[i] == kept[i + d]);
        assert(out[j] == kept[j + d]);
    }
}

/// A read gives back what was written: as long as nothing had to go, a query finds at each time
/// of its range the record that the file held before, and where it held none, the first of those
/// that were added.
pub proof fn law_cached_rows_come_back<T: Timed + Rank>(
    old_rows: Seq<T>,
    new_rows: Seq<T>,
    cap: nat,
    range: MarketDataRange,
    t: UnixMs,
)
    requires
        ranked_by_time::<T>(),
        one_per_time(sorted_by_rank(old_rows + new_rows)).len() <= cap,
        range.covers(t.0 as int),
    ensures
        first_at(within(merged_rows(old_rows, new_rows, cap), range), t) == match first_at(
            old_rows,
            t,
        ) {
            Some(x) => Some(x),
            None => first_at(new_rows, t),
        },
        record_at(merged_rows(old_rows, new_rows, cap), t) == first_at(
            merged_rows(old_rows, new_rows, cap),
            t,
        ),
{
    lemma_sorted(old_rows + new_rows);
    lemma_one_per_time(sorted_by_rank(old_rows + new_rows), t);
    lemma_first_sorted(old_rows + new_rows, t);
    lemma_first_joined(old_rows, new_rows, t);
    lemma_first_within(merged_rows(old_rows, new_rows, cap), range, t);
    law_cached_rows_in_order(old_rows, new_rows, cap);
    lemma_first_is_record(merged_rows(old_rows, new_rows, cap), t);
}

/// Trades, candles and open interest are ranked by their time.
pub proof fn law_records_ranked_by_time()
    ensures
        ranked_by_time::<Trade>(),
        ranked_by_time::<Kline>(),
        ranked_by_time::<OpenInterest>(),
{
}

/// What was read of a file counts for a day after it was written, and not after.
pub proof fn law_cache_lasts_a_day(file: CachedFile<Trade>, now: u64)
    ensures
        now <= file.last_updated + 86_400_000 ==> CacheRead::Found(file).usable(now) == file.rows@,
        now > file.last_updated + 86_400_000 ==> CacheRead::Found(file).usable(now).len() == 0,
{
}

/// Each query counts once: as a hit where it found something, and else as a miss, or as an error
/// where the file cannot be read.
pub proof fn law_queries_are_counted(s: CacheStats, read: CacheRead<Trade>, found: nat)
    requires
        s.reads < usize::MAX && s.hits < usize::MAX && s.misses < usize::MAX && s.errors
            < usize::MAX,
    ensures
        ({
            let after = counted(s, read, found);
            &&& after.reads == s.reads + 1
            &&& after.writes == s.writes
            &&& after.errors == s.errors + if read is Unreadable {
                1int
            } else {
                0
            }
            &&& after.hits == s.hits + if !(read is Unreadable) && found > 0 {
                1int
            } else {
                0
            }
            &&& after.misses == s.misses + if !(read is Unreadable) && found == 0 {
                1int
            } else {
                0
            }
        }),
{
}

/// The cache keeps all of a candle but how its volume splits into bought and sold.
pub proof fn law_cached_candles(k: Kline)
    ensures
        flattened(k).time == k.time && flattened(k).open == k.open && flattened(k).high == k.high
            && flattened(k).low == k.low && flattened(k).close == k.close,
        flattened(k).volume.whole() == k.volume.whole(),
        flattened(flattened(k)) == flattened(k),
{
}

} // verus!
