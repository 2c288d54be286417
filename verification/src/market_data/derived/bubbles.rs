//! Volume bubbles: traded volume by candle and price level.

use rustc_hash::FxHashMap;
use vstd::prelude::*;
use crate::id_table::{fx_get, fx_insert, fx_new};
use crate::market::{Price, PriceStep, Qty, Trade};
use crate::market_data::range::floor_to;
use crate::seqs::lemma_filter_take;
use crate::sorting::{is_ranked, lemma_sorted, sort_ranked, sorted_by_rank, Rank, Ranked};
use crate::time::{earlier, later, UnixMs};

verus! {

/// The volume traded at one price level during one candle.
#[derive(Debug, Clone, Copy, PartialEq, Eq, Structural)]
pub struct BubbleCandidate {
    pub candle_time: UnixMs,
    pub price: Price,
    pub total_qty: Qty,
    pub buy_qty: Qty,
    pub sell_qty: Qty,
    pub delta_qty: Qty,
    pub trade_count: usize,
    pub first_time: Option<UnixMs>,
    pub last_time: Option<UnixMs>,
}

impl Rank for BubbleCandidate {
    open spec fn rank(&self) -> int {
        -self.total_qty.units
    }
}

impl Ranked for BubbleCandidate {
    fn ranks_after(&self, other: &Self) -> (after: bool) {
        self.total_qty.units < other.total_qty.units
    }
}

/// The largest volumes of one candle.
#[derive(Debug, PartialEq, Eq)]
pub struct BubbleVolumeSummary {
    pub candle_time: UnixMs,
    pub candidates: Vec<BubbleCandidate>,
}

/// The largest volumes of one candle, as a value.
#[verifier::ext_equal]
pub struct SummaryView {
    pub candle_time: UnixMs,
    pub candidates: Seq<BubbleCandidate>,
}

impl View for BubbleVolumeSummary {
    type V = SummaryView;

    open spec fn view(&self) -> SummaryView {
        SummaryView { candle_time: self.candle_time, candidates: self.candidates@ }
    }
}

impl Clone for BubbleVolumeSummary {
    fn clone(&self) -> (s: Self)
        ensures
            s@ == self@,
    {
        let mut candidates: Vec<BubbleCandidate> = Vec::new();
        let mut i: usize = 0;
        while i < self.candidates.len()
            invariant
                i <= self.candidates@.len(),
                candidates@ == self.candidates@.take(i as int),
            decreases self.candidates@.len() - i,
        {
            candidates.push(self.candidates[i]);
            assert(candidates@ =~= self.candidates@.take(i + 1));
            i = i + 1;
        }
        assert(candidates@ =~= self.candidates@);
        BubbleVolumeSummary { candle_time: self.candle_time, candidates }
    }
}

/// The values of a list of summaries.
pub open spec fn summary_views(s: Seq<BubbleVolumeSummary>) -> Seq<SummaryView> {
    s.map_values(|b: BubbleVolumeSummary| b@)
}

/// The start of the candle that a trade falls into.
pub open spec fn candle_of(t: Trade, timeframe_ms: u64) -> UnixMs {
    UnixMs(floor_to(t.time.0 as int, timeframe_ms as int) as u64)
}

/// A trade belongs to a price level of a candle.
pub open spec fn falls_into(
    t: Trade,
    timeframe_ms: u64,
    step: PriceStep,
    c: UnixMs,
    p: Price,
) -> bool {
    candle_of(t, timeframe_ms) == c && t.price.rounded(step) == p
}

/// The volume of a single trade.
pub open spec fn single(t: Trade, timeframe_ms: u64, step: PriceStep) -> BubbleCandidate {
    let buy = if t.is_sell {
        Qty { units: 0 }
    } else {
        t.qty
    };
    let sell = if t.is_sell {
        t.qty
    } else {
        Qty { units: 0 }
    };
    BubbleCandidate {
        candle_time: candle_of(t, timeframe_ms),
        price: t.price.rounded(step),
        total_qty: buy.sum(sell),
        buy_qty: buy,
        sell_qty: sell,
        delta_qty: buy.difference(sell),
        trade_count: 1,
        first_time: Some(t.time),
        last_time: Some(t.time),
    }
}

/// A level with one more trade.
pub open spec fn grown(b: BubbleCandidate, t: Trade) -> BubbleCandidate {
    let buy = if t.is_sell {
        b.buy_qty
    } else {
        b.buy_qty.sum(t.qty)
    };
    let sell = if t.is_sell {
        b.sell_qty.sum(t.qty)
    } else {
        b.sell_qty
    };
    BubbleCandidate {
        total_qty: buy.sum(sell),
        buy_qty: buy,
        sell_qty: sell,
        delta_qty: buy.difference(sell),
        trade_count: if b.trade_count < usize::MAX {
            (b.trade_count + 1) as usize
        } else {
            usize::MAX
        },
        first_time: match b.first_time {
            Some(f) => Some(earlier(f, t.time)),
            None => Some(t.time),
        },
        last_time: match b.last_time {
            Some(l) => Some(later(l, t.time)),
            None => Some(t.time),
        },
        ..b
    }
}

/// The place of a price level of a candle, or `rows.len()`.
pub open spec fn level_index(rows: Seq<BubbleCandidate>, c: UnixMs, p: Price) -> int
    decreases rows.len(),
{
    if rows.len() == 0 || (rows[0].candle_time == c && rows[0].price == p) {
        0
    } else {
        1 + level_index(rows.skip(1), c, p)
    }
}

/// The levels with one more trade.
pub open spec fn with_trade(
    rows: Seq<BubbleCandidate>,
    t: Trade,
    timeframe_ms: u64,
    step: PriceStep,
) -> Seq<BubbleCandidate> {
    let i = level_index(rows, candle_of(t, timeframe_ms), t.price.rounded(step));
    if i < rows.len() {
        rows.update(i, grown(rows[i], t))
    } else {
        rows.push(single(t, timeframe_ms, step))
    }
}

/// The levels of all trades, in the order in which they first occur.
pub open spec fn levels(trades: Seq<Trade>, timeframe_ms: u64, step: PriceStep) -> Seq<
    BubbleCandidate,
>
    decreases trades.len(),
{
    if trades.len() == 0 {
        Seq::empty()
    } else {
        with_trade(levels(trades.drop_last(), timeframe_ms, step), trades.last(), timeframe_ms, step)
    }
}

/// `times` with `t` at its place, once.
pub open spec fn with_time(times: Seq<UnixMs>, t: UnixMs) -> Seq<UnixMs>
    decreases times.len(),
{
    if times.len() > 0 && times.last().0 > t.0 {
        with_time(times.drop_last(), t).push(times.last())
    } else if times.len() > 0 && times.last() == t {
        times
    } else {
        times.push(t)
    }
}

/// The candles of the levels, in order of time.
pub open spec fn candle_times(rows: Seq<BubbleCandidate>) -> Seq<UnixMs>
    decreases rows.len(),
{
    if rows.len() == 0 {
        Seq::empty()
    } else {
        with_time(candle_times(rows.drop_last()), rows.last().candle_time)
    }
}

/// The levels of one candle.
pub open spec fn levels_at(rows: Seq<BubbleCandidate>, c: UnixMs) -> Seq<BubbleCandidate> {
    rows.filter(|b: BubbleCandidate| b.candle_time == c)
}

/// The first `n` elements, or all.
pub open spec fn at_most<A>(s: Seq<A>, n: nat) -> Seq<A> {
    if s.len() > n {
        s.take(n as int)
    } else {
        s
    }
}

/// The largest levels of one candle, the largest first.
pub open spec fn summary_at(rows: Seq<BubbleCandidate>, c: UnixMs, max: nat) -> SummaryView {
    SummaryView { candle_time: c, candidates: at_most(sorted_by_rank(levels_at(rows, c)), max) }
}

/// The summaries of all candles in order of time.
pub open spec fn summarized(
    trades: Seq<Trade>,
    timeframe_ms: u64,
    step: PriceStep,
    max: nat,
) -> Seq<SummaryView> {
    let rows = levels(trades, timeframe_ms, step);
    candle_times(rows).map_values(|c: UnixMs| summary_at(rows, c, max))
}

/// A number for a price level of a candle.
spec fn level_code(c: UnixMs, p: Price) -> u128 {
    (c.0 * 0x1_0000_0000_0000_0000 + (p.units + 0x8000_0000_0000_0000)) as u128
}

proof fn lemma_level_code(c: UnixMs, p: Price, d: UnixMs, q: Price)
    ensures
        level_code(c, p) == level_code(d, q) ==> c == d && p == q,
        level_code(c, p) == c.0 * 0x1_0000_0000_0000_0000 + (p.units + 0x8000_0000_0000_0000),
{
}

proof fn lemma_level_index(rows: Seq<BubbleCandidate>, c: UnixMs, p: Price, i: int)
    requires
        0 <= i <= rows.len(),
        i < rows.len() ==> rows[i].candle_time == c && rows[i].price == p,
        forall|j: int|
            0 <= j < i ==> !((#[trigger] rows[j]).candle_time == c && rows[j].price == p),
    ensures
        level_index(rows, c, p) == i,
    decreases rows.len(),
{
    if i > 0 {
        assert(!(rows[0].candle_time == c && rows[0].price == p));
        let rest = rows.skip(1);
        assert forall|j: int| 0 <= j < i - 1 implies !((#[trigger] rest[j]).candle_time == c
            && rest[j].price == p) by {
            assert(rest[j] == rows[j + 1]);
        }
        lemma_level_index(rest, c, p, i - 1);
    }
}

/// `index` gives the place of each level.
spec fn indexes(index: Map<u128, usize>, rows: Seq<BubbleCandidate>) -> bool {
    &&& forall|k: u128|
        #![trigger index[k]]
        index.contains_key(k) ==> index[k] < rows.len() && level_code(
            rows[index[k] as int].candle_time,
            rows[index[k] as int].price,
        ) == k
    &&& forall|i: int|
        0 <= i < rows.len() ==> index.contains_key(
            level_code((#[trigger] rows[i]).candle_time, rows[i].price),
        ) && index[level_code(rows[i].candle_time, rows[i].price)] == i
}

fn candle_start(t: UnixMs, timeframe_ms: u64) -> (c: UnixMs)
    requires
        timeframe_ms > 0,
    ensures
        c == UnixMs(floor_to(t.0 as int, timeframe_ms as int) as u64),
        c.0 <= t.0,
{
    assert(t.0 % timeframe_ms <= t.0) by (nonlinear_arith)
        requires
            timeframe_ms > 0,
    ;
    UnixMs(t.0 - (t.0 % timeframe_ms))
}

/// The levels of all trades.
fn collect_levels(trades: &[Trade], timeframe_ms: u64, step: PriceStep) -> (rows: Vec<
    BubbleCandidate,
>)
    requires
        timeframe_ms > 0,
    ensures
        rows@ == levels(trades@, timeframe_ms, step),
{
    let mut rows: Vec<BubbleCandidate> = Vec::new();
    let mut index: FxHashMap<u128, usize> = fx_new();
    let mut n: usize = 0;
    assert(trades@.take(0) =~= Seq::<Trade>::empty());
    while n < trades.len()
        invariant
            n <= trades@.len(),
            timeframe_ms > 0,
            rows@ == levels(trades@.take(n as int), timeframe_ms, step),
            indexes(index@, rows@),
        decreases trades@.len() - n,
    {
        let t = trades[n];
        let c = candle_start(t.time, timeframe_ms);
        let p = t.price.round_to_step(step);
        proof {
            let next = trades@.take(n + 1);
            assert(next.drop_last() =~= trades@.take(n as int));
            assert(next.last() == t);
            lemma_level_code(c, p, c, p);
        }
        let shifted: u128 = (p.units as i128 + 0x8000_0000_0000_0000) as u128;
        let code: u128 = (c.0 as u128) * 0x1_0000_0000_0000_0000 + shifted;
        assert(code == level_code(c, p));
        let ghost before = rows@;
        match fx_get(&index, code) {
            Some(at) => {
                let i: usize = *at;
                let b = rows[i];
                proof {
                    lemma_level_code(b.candle_time, b.price, c, p);
                    assert forall|j: int| 0 <= j < i implies !((#[trigger] before[j]).candle_time
                        == c && before[j].price == p) by {
                        assert(index@[level_code(before[j].candle_time, before[j].price)] == j);
                    }
                    lemma_level_index(before, c, p, i as int);
                }
                let buy_qty = if t.is_sell {
                    b.buy_qty
                } else {
                    b.buy_qty.plus(t.qty)
                };
                let sell_qty = if t.is_sell {
                    b.sell_qty.plus(t.qty)
                } else {
                    b.sell_qty
                };
                let next = BubbleCandidate {
                    candle_time: b.candle_time,
                    price: b.price,
                    total_qty: buy_qty.plus(sell_qty),
                    buy_qty,
                    sell_qty,
                    delta_qty: buy_qty.minus(sell_qty),
                    trade_count: b.trade_count.saturating_add(1),
                    first_time: match b.first_time {
                        Some(f) => Some(f.earlier_of(t.time)),
                        None => Some(t.time),
                    },
                    last_time: match b.last_time {
                        Some(l) => Some(l.later_of(t.time)),
                        None => Some(t.time),
                    },
                };
                rows.set(i, next);
                assert(next == grown(b, t));
                assert forall|j: int| 0 <= j < rows@.len() implies index@.contains_key(
                    level_code((#[trigger] rows@[j]).candle_time, rows@[j].price),
                ) && index@[level_code(rows@[j].candle_time, rows@[j].price)] == j by {
                    assert(before[j].candle_time == rows@[j].candle_time);
                    assert(before[j].price == rows@[j].price);
                }
            },
            None => {
                proof {
                    assert forall|j: int| 0 <= j < before.len() implies !((
                    #[trigger] before[j]).candle_time == c && before[j].price == p) by {
                        assert(index@.contains_key(
                            level_code(before[j].candle_time, before[j].price),
                        ));
                    }
                    lemma_level_index(before, c, p, before.len() as int);
                }
                let zero = Qty { units: 0 };
                let buy_qty = if t.is_sell {
                    zero
                } else {
                    t.qty
                };
                let sell_qty = if t.is_sell {
                    t.qty
                } else {
                    zero
                };
                let at: usize = rows.len();
                let ghost old_index = index@;
                fx_insert(&mut index, code, at);
                rows.push(
                    BubbleCandidate {
                        candle_time: c,
                        price: p,
                        total_qty: buy_qty.plus(sell_qty),
                        buy_qty,
                        sell_qty,
                        delta_qty: buy_qty.minus(sell_qty),
                        trade_count: 1,
                        first_time: Some(t.time),
                        last_time: Some(t.time),
                    },
                );
                proof {
                    assert(rows@ =~= before.push(single(t, timeframe_ms, step)));
                    assert forall|j: int| 0 <= j < rows@.len() implies index@.contains_key(
                        level_code((#[trigger] rows@[j]).candle_time, rows@[j].price),
                    ) && index@[level_code(rows@[j].candle_time, rows@[j].price)] == j by {
                        if j < before.len() {
                            assert(before[j] == rows@[j]);
                            assert(old_index.contains_key(
                                level_code(before[j].candle_time, before[j].price),
                            ));
                        }
                    }
                    assert forall|k: u128|
                        #![trigger index@[k]]
                        index@.contains_key(k) implies index@[k] < rows@.len() && level_code(
                        rows@[index@[k] as int].candle_time,
                        rows@[index@[k] as int].price,
                    ) == k by {
                        if k != code {
                            assert(old_index.contains_key(k));
                            assert(old_index[k] < before.len());
                        }
                    }
                }
            },
        }
        n = n + 1;
    }
    assert(trades@.take(n as int) =~= trades@);
    rows
}

proof fn lemma_with_time_at(times: Seq<UnixMs>, t: UnixMs, pos: int)
    requires
        0 <= pos <= times.len(),
        pos > 0 ==> times[pos - 1].0 <= t.0,
        forall|i: int| pos <= i < times.len() ==> (#[trigger] times[i]).0 > t.0,
    ensures
        with_time(times, t) == if pos > 0 && times[pos - 1] == t {
            times
        } else {
            times.insert(pos, t)
        },
    decreases times.len(),
{
    if pos == times.len() {
        assert(times.insert(pos, t) =~= times.push(t));
    } else {
        let front = times.drop_last();
        assert(times.last() == times[times.len() - 1]);
        lemma_with_time_at(front, t, pos);
        assert(front.push(times.last()) =~= times);
        assert(front.insert(pos, t).push(times.last()) =~= times.insert(pos, t));
    }
}

fn add_time(times: &mut Vec<UnixMs>, t: UnixMs)
    ensures
        final(times)@ == with_time(old(times)@, t),
{
    let mut pos: usize = times.len();
    while pos > 0 && times[pos - 1].0 > t.0
        invariant
            pos <= times@.len(),
            times@ == old(times)@,
            forall|i: int| pos <= i < times@.len() ==> (#[trigger] times@[i]).0 > t.0,
        decreases pos,
    {
        pos = pos - 1;
    }
    proof {
        lemma_with_time_at(times@, t, pos as int);
    }
    if pos > 0 && times[pos - 1] == t {
        return;
    }
    times.insert(pos, t);
}

fn collect_times(rows: &Vec<BubbleCandidate>) -> (times: Vec<UnixMs>)
    ensures
        times@ == candle_times(rows@),
{
    let mut times: Vec<UnixMs> = Vec::new();
    let mut i: usize = 0;
    assert(rows@.take(0) =~= Seq::<BubbleCandidate>::empty());
    while i < rows.len()
        invariant
            i <= rows@.len(),
            times@ == candle_times(rows@.take(i as int)),
        decreases rows@.len() - i,
    {
        add_time(&mut times, rows[i].candle_time);
        proof {
            let next = rows@.take(i + 1);
            assert(next.drop_last() =~= rows@.take(i as int));
            assert(next.last() == rows@[i as int]);
        }
        i = i + 1;
    }
    assert(rows@.take(i as int) =~= rows@);
    times
}

fn summarize_candle(rows: &Vec<BubbleCandidate>, c: UnixMs, max: usize) -> (s: BubbleVolumeSummary)
    ensures
        s@ == summary_at(rows@, c, max as nat),
{
    let ghost keep = |b: BubbleCandidate| b.candle_time == c;
    let mut candidates: Vec<BubbleCandidate> = Vec::new();
    let mut i: usize = 0;
    assert(rows@.take(0).filter(keep) =~= Seq::<BubbleCandidate>::empty());
    while i < rows.len()
        invariant
            i <= rows@.len(),
            keep == (|b: BubbleCandidate| b.candle_time == c),
            candidates@ == rows@.take(i as int).filter(keep),
        decreases rows@.len() - i,
    {
        proof {
            lemma_filter_take(rows@, i as int, keep);
        }
        if rows[i].candle_time == c {
            candidates.push(rows[i]);
        }
        i = i + 1;
    }
    assert(rows@.take(i as int) =~= rows@);
    sort_ranked(&mut candidates);
    if candidates.len() > max {
        candidates.truncate(max);
        assert(candidates@ =~= at_most(sorted_by_rank(levels_at(rows@, c)), max as nat));
    }
    BubbleVolumeSummary { candle_time: c, candidates }
}

/// Adds trades up by candle and price level, and keeps the largest levels of each candle.
pub fn compute_bubble_summaries(
    trades: &[Trade],
    timeframe_ms: u64,
    price_step: PriceStep,
    max_candidates_per_candle: usize,
) -> (r: Vec<BubbleVolumeSummary>)
    requires
        timeframe_ms > 0 || trades@.len() == 0,
    ensures
        summary_views(r@) == summarized(
            trades@,
            timeframe_ms,
            price_step,
            max_candidates_per_candle as nat,
        ),
{
    let mut out: Vec<BubbleVolumeSummary> = Vec::new();
    if trades.len() == 0 {
        assert(summary_views(out@) =~= summarized(
            trades@,
            timeframe_ms,
            price_step,
            max_candidates_per_candle as nat,
        ));
        return out;
    }
    let rows = collect_levels(trades, timeframe_ms, price_step);
    let times = collect_times(&rows);
    let ghost goal = summarized(
        trades@,
        timeframe_ms,
        price_step,
        max_candidates_per_candle as nat,
    );
    let mut i: usize = 0;
    while i < times.len()
        invariant
            i <= times@.len() == goal.len(),
            goal == times@.map_values(
                |c: UnixMs| summary_at(rows@, c, max_candidates_per_candle as nat),
            ),
            summary_views(out@) == goal.take(i as int),
        decreases times@.len() - i,
    {
        let s = summarize_candle(&rows, times[i], max_candidates_per_candle);
        let ghost before = out@;
        out.push(s);
        proof {
            assert(summary_views(out@) =~= summary_views(before).push(s@));
            assert(goal.take(i + 1) =~= goal.take(i as int).push(goal[i as int]));
        }
        i = i + 1;
    }
    assert(goal.take(i as int) =~= goal);
    out
}

/// The trades of one price level of a candle.
pub open spec fn trades_at(
    trades: Seq<Trade>,
    timeframe_ms: u64,
    step: PriceStep,
    c: UnixMs,
    p: Price,
) -> Seq<Trade> {
    trades.filter(|t: Trade| falls_into(t, timeframe_ms, step, c, p))
}

/// The quantity bought, or sold, in a sequence of trades.
pub open spec fn traded(trades: Seq<Trade>, sell: bool) -> int
    decreases trades.len(),
{
    if trades.len() == 0 {
        0
    } else {
        traded(trades.drop_last(), sell) + if trades.last().is_sell == sell {
            trades.last().qty.units as int
        } else {
            0
        }
    }
}

/// The quantities of all trades are not negative and their sum can be held.
pub open spec fn summable(trades: Seq<Trade>) -> bool {
    &&& forall|i: int| 0 <= i < trades.len() ==> (#[trigger] trades[i]).qty.units >= 0
    &&& traded(trades, true) + traded(trades, false) <= i64::MAX
    &&& trades.len() <= usize::MAX
}

/// A level holds exactly what its trades add up to.
pub open spec fn adds_up(b: BubbleCandidate, own: Seq<Trade>) -> bool {
    &&& own.len() > 0
    &&& b.trade_count == own.len()
    &&& b.buy_qty.units == traded(own, false)
    &&& b.sell_qty.units == traded(own, true)
    &&& b.total_qty.units == traded(own, false) + traded(own, true)
    &&& b.delta_qty.units == traded(own, false) - traded(own, true)
    &&& b.first_time matches Some(first) && b.last_time matches Some(last) && spans(
        own,
        first,
        last,
    )
}

/// The first and the last of some trades are of these times.
pub open spec fn spans(own: Seq<Trade>, first: UnixMs, last: UnixMs) -> bool {
    &&& forall|k: int| 0 <= k < own.len() ==> first.0 <= (#[trigger] own[k]).time.0 <= last.0
    &&& exists|k: int| 0 <= k < own.len() && (#[trigger] own[k]).time == first
    &&& exists|k: int| 0 <= k < own.len() && (#[trigger] own[k]).time == last
}

proof fn lemma_spans_push(own: Seq<Trade>, first: UnixMs, last: UnixMs, t: Trade)
    ensures
        own.len() == 0 ==> spans(own.push(t), t.time, t.time),
        own.len() > 0 && spans(own, first, last) ==> spans(
            own.push(t),
            earlier(first, t.time),
            later(last, t.time),
        ),
{
    let more = own.push(t);
    let n = own.len() as int;
    assert(more[n].time == t.time);
    if own.len() > 0 && spans(own, first, last) {
        let a = choose|k: int| 0 <= k < own.len() && (#[trigger] own[k]).time == first;
        let b = choose|k: int| 0 <= k < own.len() && (#[trigger] own[k]).time == last;
        assert(more[a].time == first && more[b].time == last);
        assert forall|k: int| 0 <= k < more.len() implies earlier(first, t.time).0 <= (
        #[trigger] more[k]).time.0 <= later(last, t.time).0 by {
            if k < n {
                assert(more[k] == own[k]);
            }
        }
        assert(more[if earlier(first, t.time) == first {
            a
        } else {
            n
        }].time == earlier(first, t.time));
        assert(more[if later(last, t.time) == last {
            b
        } else {
            n
        }].time == later(last, t.time));
    }
}

proof fn lemma_traded_bounds(trades: Seq<Trade>)
    requires
        forall|i: int| 0 <= i < trades.len() ==> (#[trigger] trades[i]).qty.units >= 0,
    ensures
        traded(trades, true) >= 0,
        traded(trades, false) >= 0,
    decreases trades.len(),
{
    if trades.len() > 0 {
        let front = trades.drop_last();
        assert forall|i: int| 0 <= i < front.len() implies (#[trigger] front[i]).qty.units >= 0 by {
            assert(trades[i].qty.units >= 0);
        }
        lemma_traded_bounds(front);
        assert(trades[trades.len() - 1].qty.units >= 0);
    }
}

proof fn lemma_own_summable(trades: Seq<Trade>, p: spec_fn(Trade) -> bool)
    requires
        summable(trades),
    ensures
        summable(trades.filter(p)),
        trades.filter(p).len() <= trades.len(),
        traded(trades.filter(p), true) <= traded(trades, true),
        traded(trades.filter(p), false) <= traded(trades, false),
    decreases trades.len(),
{
    reveal(Seq::filter);
    if trades.len() > 0 {
        let front = trades.drop_last();
        assert forall|i: int| 0 <= i < front.len() implies (#[trigger] front[i]).qty.units >= 0 by {
            assert(trades[i].qty.units >= 0);
        }
        assert(trades[trades.len() - 1].qty.units >= 0);
        lemma_traded_bounds(front);
        assert(summable(front));
        lemma_own_summable(front, p);
        let kept = front.filter(p);
        if p(trades.last()) {
            assert(trades.filter(p).drop_last() =~= kept);
            assert(trades.filter(p).last() == trades.last());
            assert forall|i: int| 0 <= i < trades.filter(p).len() implies (#[trigger] trades.filter(
                p,
            )[i]).qty.units >= 0 by {
                if i < kept.len() {
                    assert(trades.filter(p)[i] == kept[i]);
                }
            }
        }
    }
}

/// No two levels are the same.
pub open spec fn levels_distinct(rows: Seq<BubbleCandidate>) -> bool {
    forall|i: int, j: int|
        0 <= i < j < rows.len() ==> (#[trigger] rows[i]).candle_time != (#[trigger] rows[j]).candle_time
            || rows[i].price != rows[j].price
}

pub(crate) proof fn lemma_level_index_bounds(rows: Seq<BubbleCandidate>, c: UnixMs, p: Price)
    ensures
        0 <= level_index(rows, c, p) <= rows.len(),
        level_index(rows, c, p) < rows.len() ==> rows[level_index(rows, c, p)].candle_time == c
            && rows[level_index(rows, c, p)].price == p,
        level_index(rows, c, p) == rows.len() ==> forall|j: int|
            0 <= j < rows.len() ==> !((#[trigger] rows[j]).candle_time == c && rows[j].price == p),
    decreases rows.len(),
{
    if rows.len() > 0 && !(rows[0].candle_time == c && rows[0].price == p) {
        let rest = rows.skip(1);
        lemma_level_index_bounds(rest, c, p);
        if level_index(rows, c, p) == rows.len() {
            assert forall|j: int| 0 <= j < rows.len() implies !((#[trigger] rows[j]).candle_time == c
                && rows[j].price == p) by {
                if j > 0 {
                    assert(rest[j - 1] == rows[j]);
                }
            }
        }
    }
}

/// Nothing is lost and nothing counted twice: each level that any trade falls into occurs once,
/// and holds exactly what the trades of that level add up to.
pub proof fn law_levels_add_up(trades: Seq<Trade>, timeframe_ms: u64, step: PriceStep)
    requires
        timeframe_ms > 0,
        summable(trades),
    ensures
        levels_distinct(levels(trades, timeframe_ms, step)),
        forall|i: int|
            0 <= i < levels(trades, timeframe_ms, step).len() ==> {
                let b = #[trigger] levels(trades, timeframe_ms, step)[i];
                adds_up(b, trades_at(trades, timeframe_ms, step, b.candle_time, b.price))
            },
        forall|k: int|
            0 <= k < trades.len() ==> exists|i: int|
                0 <= i < levels(trades, timeframe_ms, step).len() && falls_into(
                    #[trigger] trades[k],
                    timeframe_ms,
                    step,
                    (#[trigger] levels(trades, timeframe_ms, step)[i]).candle_time,
                    levels(trades, timeframe_ms, step)[i].price,
                ),
    decreases trades.len(),
{
    reveal(Seq::filter);
    if trades.len() > 0 {
        let front = trades.drop_last();
        let t = trades.last();
        assert forall|i: int| 0 <= i < front.len() implies (#[trigger] front[i]).qty.units >= 0 by {
            assert(trades[i].qty.units >= 0);
        }
        assert(trades[trades.len() - 1].qty.units >= 0);
        lemma_traded_bounds(front);
        law_levels_add_up(front, timeframe_ms, step);
        let rows = levels(front, timeframe_ms, step);
        let out = levels(trades, timeframe_ms, step);
        let c = candle_of(t, timeframe_ms);
        let p = t.price.rounded(step);
        let at = level_index(rows, c, p);
        lemma_level_index_bounds(rows, c, p);
        let own = trades_at(trades, timeframe_ms, step, c, p);
        let old_own = trades_at(front, timeframe_ms, step, c, p);
        assert(own =~= old_own.push(t));
        assert(own.drop_last() =~= old_own);
        lemma_own_summable(trades, |x: Trade| falls_into(x, timeframe_ms, step, c, p));
        lemma_own_summable(front, |x: Trade| falls_into(x, timeframe_ms, step, c, p));
        lemma_traded_bounds(old_own);
        assert forall|i: int| 0 <= i < rows.len() && i != at implies trades_at(
            trades,
            timeframe_ms,
            step,
            (#[trigger] rows[i]).candle_time,
            rows[i].price,
        ) == trades_at(front, timeframe_ms, step, rows[i].candle_time, rows[i].price) by {
            if at < rows.len() {
                if i < at {
                    assert(rows[i].candle_time != rows[at].candle_time || rows[i].price
                        != rows[at].price);
                } else {
                    assert(rows[at].candle_time != rows[i].candle_time || rows[at].price
                        != rows[i].price);
                }
            }
        }
        if at < rows.len() {
            assert(out[at] == grown(rows[at], t));
            assert(adds_up(rows[at], old_own));
            lemma_spans_push(
                old_own,
                rows[at].first_time->Some_0,
                rows[at].last_time->Some_0,
                t,
            );
            assert forall|i: int| 0 <= i < out.len() implies {
                let b = #[trigger] out[i];
                adds_up(b, trades_at(trades, timeframe_ms, step, b.candle_time, b.price))
            } by {
                if i != at {
                    assert(out[i] == rows[i]);
                }
            }
            assert forall|i: int, j: int| 0 <= i < j < out.len() implies (#[trigger] out[i]).candle_time
                != (#[trigger] out[j]).candle_time || out[i].price != out[j].price by {
                assert(rows[i].candle_time != rows[j].candle_time || rows[i].price != rows[j].price);
            }
        } else {
            assert(old_own.len() == 0) by {
                if old_own.len() > 0 {
                    let q = |x: Trade| falls_into(x, timeframe_ms, step, c, p);
                    front.lemma_filter_pred(q, 0);
                    assert(old_own.contains(old_own[0]));
                    front.lemma_filter_contains_rev(q, old_own[0]);
                    let k = choose|k: int| 0 <= k < front.len() && front[k] == old_own[0];
                    let i = choose|i: int|
                        0 <= i < rows.len() && falls_into(
                            front[k],
                            timeframe_ms,
                            step,
                            (#[trigger] rows[i]).candle_time,
                            rows[i].price,
                        );
                    assert(rows[i].candle_time == c && rows[i].price == p);
                }
            }
            assert(out =~= rows.push(single(t, timeframe_ms, step)));
            assert forall|i: int| 0 <= i < out.len() implies {
                let b = #[trigger] out[i];
                adds_up(b, trades_at(trades, timeframe_ms, step, b.candle_time, b.price))
            } by {
                if i < rows.len() {
                    assert(out[i] == rows[i]);
                } else {
                    assert(traded(old_own, true) == 0 && traded(old_own, false) == 0);
                    lemma_spans_push(old_own, t.time, t.time, t);
                }
            }
            assert forall|i: int, j: int| 0 <= i < j < out.len() implies (#[trigger] out[i]).candle_time
                != (#[trigger] out[j]).candle_time || out[i].price != out[j].price by {
                assert(out[i] == rows[i]);
                if j < rows.len() {
                    assert(out[j] == rows[j]);
                }
            }
        }
        assert forall|k: int| 0 <= k < trades.len() implies exists|i: int|
            0 <= i < out.len() && falls_into(
                #[trigger] trades[k],
                timeframe_ms,
                step,
                (#[trigger] out[i]).candle_time,
                out[i].price,
            ) by {
            if k < front.len() {
                assert(front[k] == trades[k]);
                let i = choose|i: int|
                    0 <= i < rows.len() && falls_into(
                        front[k],
                        timeframe_ms,
                        step,
                        (#[trigger] rows[i]).candle_time,
                        rows[i].price,
                    );
                assert(out[i].candle_time == rows[i].candle_time && out[i].price == rows[i].price);
            } else {
                assert(out[at].candle_time == c && out[at].price == p);
            }
        }
    }
}

/// Timestamps rise.
pub open spec fn times_rise(times: Seq<UnixMs>) -> bool {
    forall|i: int, j: int| 0 <= i < j < times.len() ==> (#[trigger] times[i]).0 < (#[trigger] times[j]).0
}

proof fn lemma_with_time(times: Seq<UnixMs>, t: UnixMs)
    requires
        times_rise(times),
    ensures
        times_rise(with_time(times, t)),
        with_time(times, t).len() > 0,
        with_time(times, t).last().0 == if times.len() > 0 && times.last().0 > t.0 {
            times.last().0
        } else {
            t.0
        },
    decreases times.len(),
{
    if times.len() > 0 && times.last().0 > t.0 {
        let front = times.drop_last();
        assert forall|i: int, j: int| 0 <= i < j < front.len() implies (#[trigger] front[i]).0 < (
        #[trigger] front[j]).0 by {
            assert(times[i].0 < times[j].0);
        }
        lemma_with_time(front, t);
        let g = with_time(front, t);
        let out = with_time(times, t);
        if front.len() > 0 {
            assert(times[times.len() - 2].0 < times[times.len() - 1].0);
        }
        assert forall|i: int, j: int| 0 <= i < j < out.len() implies (#[trigger] out[i]).0 < (
        #[trigger] out[j]).0 by {
            if j < g.len() {
                assert(g[i].0 < g[j].0);
            } else if i < g.len() - 1 {
                assert(g[i].0 < g[g.len() - 1].0);
            }
        }
    } else if times.len() > 0 && times.last() == t {
    } else {
        let out = times.push(t);
        assert forall|i: int, j: int| 0 <= i < j < out.len() implies (#[trigger] out[i]).0 < (
        #[trigger] out[j]).0 by {
            if j < times.len() {
                assert(times[i].0 < times[j].0);
            } else if i < times.len() - 1 {
                assert(times[i].0 < times[times.len() - 1].0);
            }
        }
    }
}

proof fn lemma_candle_times(rows: Seq<BubbleCandidate>)
    ensures
        times_rise(candle_times(rows)),
    decreases rows.len(),
{
    if rows.len() > 0 {
        lemma_candle_times(rows.drop_last());
        lemma_with_time(candle_times(rows.drop_last()), rows.last().candle_time);
    }
}

/// Summaries come in order of time, each candle once, with at most the wished number of levels,
/// the largest first.
pub proof fn law_summaries_in_order(
    trades: Seq<Trade>,
    timeframe_ms: u64,
    step: PriceStep,
    max: nat,
)
    ensures
        forall|i: int, j: int|
            0 <= i < j < summarized(trades, timeframe_ms, step, max).len() ==> (
            #[trigger] summarized(trades, timeframe_ms, step, max)[i]).candle_time.0 < (
            #[trigger] summarized(trades, timeframe_ms, step, max)[j]).candle_time.0,
        forall|i: int|
            0 <= i < summarized(trades, timeframe_ms, step, max).len() ==> {
                let s = #[trigger] summarized(trades, timeframe_ms, step, max)[i];
                s.candidates.len() <= max && is_ranked(s.candidates)
            },
{
    let rows = levels(trades, timeframe_ms, step);
    let times = candle_times(rows);
    let out = summarized(trades, timeframe_ms, step, max);
    lemma_candle_times(rows);
    assert forall|i: int, j: int| 0 <= i < j < out.len() implies (#[trigger] out[i]).candle_time.0 < (
    #[trigger] out[j]).candle_time.0 by {
        assert(times[i].0 < times[j].0);
    }
    assert forall|i: int| 0 <= i < out.len() implies {
        let s = #[trigger] out[i];
        s.candidates.len() <= max && is_ranked(s.candidates)
    } by {
        let all = sorted_by_rank(levels_at(rows, times[i]));
        lemma_sorted(levels_at(rows, times[i]));
        let s = out[i].candidates;
        assert forall|a: int, b: int| 0 <= a <= b < s.len() implies (#[trigger] s[a]).rank() <= (
        #[trigger] s[b]).rank() by {
            assert(all[a].rank() <= all[b].rank());
        }
    }
}

} // verus!
