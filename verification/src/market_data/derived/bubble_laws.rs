//! Laws of volume bubbles.

use vstd::prelude::*;
use crate::market::{Price, PriceStep, Trade};
use crate::market_data::derived::bubbles::{
    adds_up, candle_of, candle_times, falls_into, law_levels_add_up, lemma_level_index_bounds,
    levels, levels_at, levels_distinct, summable, summarized, summary_at, trades_at, with_time,
    with_trade, BubbleCandidate, SummaryView,
};
use crate::sorting::{lemma_sorted, sorted_by_rank, Rank};
use crate::time::UnixMs;

verus! {

/// A trade lies in the candle that it falls into, and candles start at multiples of their width.
pub proof fn law_candle_holds_its_trades(t: Trade, timeframe_ms: u64)
    requires
        timeframe_ms > 0,
    ensures
        candle_of(t, timeframe_ms).0 <= t.time.0,
        t.time.0 - candle_of(t, timeframe_ms).0 < timeframe_ms,
        candle_of(t, timeframe_ms).0 % timeframe_ms == 0,
{
    let a = t.time.0 as int;
    let s = timeframe_ms as int;
    vstd::arithmetic::div_mod::lemma_fundamental_div_mod(a, s);
    vstd::arithmetic::div_mod::lemma_mod_bound(a, s);
    let c = a - a % s;
    assert(0 <= c <= a) by (nonlinear_arith)
        requires
            c == a - a % s,
            0 <= a % s <= a || a % s >= 0,
            a == s * (a / s) + a % s,
            a / s >= 0,
            s > 0,
    ;
    assert(c == s * (a / s));
    vstd::arithmetic::div_mod::lemma_mod_multiples_basic(a / s, s);
    assert(c % s == 0) by (nonlinear_arith)
        requires
            c == s * (a / s),
            ((a / s) * s) % s == 0,
    ;
}

/// A price is rounded to the nearest multiple of the step, as far as there is one that can be held.
/// A step of one unit or less changes nothing.
pub proof fn law_price_rounds_to_the_nearest(p: Price, step: PriceStep)
    requires
        i64::MIN < p.units - step.units,
        p.units + step.units < i64::MAX,
    ensures
        step.units <= 1 ==> p.rounded(step) == p,
        step.units > 1 ==> {
            &&& p.rounded(step).units as int % step.units as int == 0
            &&& 2 * (p.rounded(step).units - p.units) <= step.units
            &&& 2 * (p.units - p.rounded(step).units) <= step.units
        },
{
    if step.units > 1 {
        let u = step.units as int;
        let a = p.units + u / 2;
        vstd::arithmetic::div_mod::lemma_fundamental_div_mod(a, u);
        vstd::arithmetic::div_mod::lemma_mod_bound(a, u);
        let r = a / u * u;
        assert(r == a - a % u) by (nonlinear_arith)
            requires
                r == a / u * u,
                a == u * (a / u) + a % u,
        ;
        vstd::arithmetic::div_mod::lemma_mod_multiples_basic(a / u, u);
        assert(p.rounded(step).units == r);
    }
}

proof fn lemma_levels_distinct(trades: Seq<Trade>, timeframe_ms: u64, step: PriceStep)
    ensures
        levels_distinct(levels(trades, timeframe_ms, step)),
    decreases trades.len(),
{
    if trades.len() > 0 {
        let front = trades.drop_last();
        let t = trades.last();
        lemma_levels_distinct(front, timeframe_ms, step);
        let rows = levels(front, timeframe_ms, step);
        let out = levels(trades, timeframe_ms, step);
        let c = candle_of(t, timeframe_ms);
        let p = t.price.rounded(step);
        lemma_level_index_bounds(rows, c, p);
        assert(out == with_trade(rows, t, timeframe_ms, step));
        assert forall|i: int, j: int|
            0 <= i < j < out.len() implies (#[trigger] out[i]).candle_time != (
        #[trigger] out[j]).candle_time || out[i].price != out[j].price by {
            if j < rows.len() {
                assert(rows[i].candle_time != rows[j].candle_time || rows[i].price
                    != rows[j].price);
            }
        }
    }
}

proof fn lemma_with_time_contains(times: Seq<UnixMs>, t: UnixMs, c: UnixMs)
    ensures
        with_time(times, t).contains(c) <==> times.contains(c) || c == t,
    decreases times.len(),
{
    let out = with_time(times, t);
    if times.len() > 0 && times.last().0 > t.0 {
        let front = times.drop_last();
        lemma_with_time_contains(front, t, c);
        let g = with_time(front, t);
        if out.contains(c) {
            let i = choose|i: int| 0 <= i < out.len() && out[i] == c;
            if i < g.len() {
                assert(g[i] == c);
                if front.contains(c) {
                    let k = choose|k: int| 0 <= k < front.len() && front[k] == c;
                    assert(times[k] == c);
                }
            } else {
                assert(times[times.len() - 1] == c);
            }
        }
        if times.contains(c) || c == t {
            if times.contains(c) {
                let k = choose|k: int| 0 <= k < times.len() && times[k] == c;
                if k < front.len() {
                    assert(front[k] == c);
                } else {
                    assert(out[out.len() - 1] == c);
                }
            }
            if g.contains(c) {
                let i = choose|i: int| 0 <= i < g.len() && g[i] == c;
                assert(out[i] == c);
            }
        }
    } else if times.len() > 0 && times.last() == t {
        assert(times[times.len() - 1] == t);
    } else {
        assert(out[times.len() as int] == t);
        if times.contains(c) {
            let k = choose|k: int| 0 <= k < times.len() && times[k] == c;
            assert(out[k] == c);
        }
        if out.contains(c) {
            let i = choose|i: int| 0 <= i < out.len() && out[i] == c;
            if i < times.len() {
                assert(times[i] == c);
            }
        }
    }
}

proof fn lemma_candle_times_contains(rows: Seq<BubbleCandidate>, c: UnixMs)
    ensures
        candle_times(rows).contains(c) <==> exists|k: int|
            0 <= k < rows.len() && (#[trigger] rows[k]).candle_time == c,
    decreases rows.len(),
{
    if rows.len() > 0 {
        let front = rows.drop_last();
        lemma_candle_times_contains(front, c);
        lemma_with_time_contains(candle_times(front), rows.last().candle_time, c);
        if candle_times(front).contains(c) {
            let k = choose|k: int| 0 <= k < front.len() && (#[trigger] front[k]).candle_time == c;
            assert(rows[k].candle_time == c);
        }
        if rows.last().candle_time == c {
            assert(rows[rows.len() - 1].candle_time == c);
        }
        if exists|k: int| 0 <= k < rows.len() && (#[trigger] rows[k]).candle_time == c {
            let k = choose|k: int| 0 <= k < rows.len() && (#[trigger] rows[k]).candle_time == c;
            if k < front.len() {
                assert(front[k].candle_time == c);
            }
        }
    }
}

/// The summary of a candle holds the largest of its levels: each of them is a level of the candle
/// and occurs once, the larger ones come first, as many are there as are wished unless there are
/// fewer levels, and no level that is left out is larger than one that is there.
pub open spec fn keeps_the_largest(s: SummaryView, rows: Seq<BubbleCandidate>, max: nat) -> bool {
    let kept = s.candidates;
    &&& kept.len() <= max
    &&& kept.no_duplicates()
    &&& forall|a: int|
        0 <= a < kept.len() ==> rows.contains(#[trigger] kept[a]) && kept[a].candle_time
            == s.candle_time
    &&& forall|a: int, b: int|
        0 <= a <= b < kept.len() ==> (#[trigger] kept[a]).total_qty.units >= (
        #[trigger] kept[b]).total_qty.units
    &&& forall|k: int|
        0 <= k < rows.len() && (#[trigger] rows[k]).candle_time == s.candle_time
            && !kept.contains(rows[k]) ==> kept.len() == max && forall|a: int|
            0 <= a < kept.len() ==> rows[k].total_qty.units <= (#[trigger] kept[a]).total_qty.units
}

proof fn lemma_distinct_filter(rows: Seq<BubbleCandidate>, c: UnixMs)
    requires
        levels_distinct(rows),
    ensures
        levels_distinct(levels_at(rows, c)),
        forall|k: int|
            0 <= k < levels_at(rows, c).len() ==> rows.contains(#[trigger] levels_at(rows, c)[k]),
    decreases rows.len(),
{
    reveal(Seq::filter);
    if rows.len() > 0 {
        let front = rows.drop_last();
        assert forall|i: int, j: int|
            0 <= i < j < front.len() implies (#[trigger] front[i]).candle_time != (
        #[trigger] front[j]).candle_time || front[i].price != front[j].price by {
            assert(rows[i].candle_time != rows[j].candle_time || rows[i].price != rows[j].price);
        }
        lemma_distinct_filter(front, c);
        let kept = levels_at(front, c);
        let out = levels_at(rows, c);
        assert forall|k: int| 0 <= k < out.len() implies rows.contains(#[trigger] out[k]) by {
            if k < kept.len() {
                assert(out[k] == kept[k]);
                let m = choose|m: int| 0 <= m < front.len() && front[m] == kept[k];
                assert(rows[m] == out[k]);
            } else {
                assert(rows[rows.len() - 1] == out[k]);
            }
        }
        assert forall|i: int, j: int|
            0 <= i < j < out.len() implies (#[trigger] out[i]).candle_time != (
        #[trigger] out[j]).candle_time || out[i].price != out[j].price by {
            assert(out[i] == kept[i]);
            if j < kept.len() {
                assert(out[j] == kept[j]);
            } else {
                let m = choose|m: int| 0 <= m < front.len() && front[m] == kept[i];
                assert(rows[m].candle_time != rows[rows.len() - 1].candle_time || rows[m].price
                    != rows[rows.len() - 1].price);
            }
        }
    }
}

proof fn lemma_summary_at(rows: Seq<BubbleCandidate>, c: UnixMs, max: nat)
    requires
        levels_distinct(rows),
    ensures
        keeps_the_largest(summary_at(rows, c, max), rows, max),
{
    let own = levels_at(rows, c);
    let all = sorted_by_rank(own);
    let s = summary_at(rows, c, max);
    let kept = s.candidates;
    let p = |b: BubbleCandidate| b.candle_time == c;
    lemma_sorted(own);
    lemma_distinct_filter(rows, c);
    assert(all.no_duplicates()) by {
        assert(own.no_duplicates()) by {
            assert forall|i: int, j: int|
                0 <= i < own.len() && 0 <= j < own.len() && i != j implies own[i] != own[j] by {
                if i < j {
                    assert(own[i].candle_time != own[j].candle_time || own[i].price
                        != own[j].price);
                } else {
                    assert(own[j].candle_time != own[i].candle_time || own[j].price
                        != own[i].price);
                }
            }
        }
        assert forall|i: int, j: int|
            0 <= i < all.len() && 0 <= j < all.len() && i != j implies all[i] != all[j] by {
            if all[i] == all[j] {
                if i < j {
                    crate::seqs::lemma_count_two(all, i, j);
                } else {
                    crate::seqs::lemma_count_two(all, j, i);
                }
                assert(all.contains(all[i]));
                let k = choose|k: int| 0 <= k < own.len() && own[k] == all[i];
                assert forall|m: int| 0 <= m < own.len() && m != k implies #[trigger] own[m]
                    != own[k] by {}
                crate::seqs::lemma_count_one(own, k);
            }
        }
    }
    assert forall|a: int| 0 <= a < kept.len() implies kept[a] == #[trigger] all[a] by {}
    assert forall|a: int| 0 <= a < kept.len() implies rows.contains(#[trigger] kept[a])
        && kept[a].candle_time == s.candle_time by {
        assert(all[a] == kept[a]);
        assert(all.contains(all[a]));
        assert(own.contains(all[a]));
        let k = choose|k: int| 0 <= k < own.len() && own[k] == all[a];
        assert(rows.contains(own[k]));
        rows.lemma_filter_pred(p, k);
    }
    assert forall|a: int, b: int| 0 <= a <= b < kept.len() implies (
    #[trigger] kept[a]).total_qty.units >= (#[trigger] kept[b]).total_qty.units by {
        assert(all[a] == kept[a] && all[b] == kept[b]);
        assert(all[a].rank() <= all[b].rank());
    }
    assert forall|k: int|
        0 <= k < rows.len() && (#[trigger] rows[k]).candle_time == s.candle_time && !kept.contains(
            rows[k],
        ) implies kept.len() == max && forall|a: int|
        0 <= a < kept.len() ==> rows[k].total_qty.units <= (#[trigger] kept[a]).total_qty.units by {
        rows.lemma_filter_contains(p, k);
        assert(own.contains(rows[k]));
        assert(all.contains(rows[k]));
        let m = choose|m: int| 0 <= m < all.len() && all[m] == rows[k];
        if m < kept.len() {
            assert(kept[m] == rows[k]);
        }
        assert forall|a: int| 0 <= a < kept.len() implies rows[k].total_qty.units <= (
        #[trigger] kept[a]).total_qty.units by {
            assert(all[a] == kept[a]);
            assert(all[a].rank() <= all[m].rank());
        }
    }
}

/// Each candle that has a level has one summary, which holds the largest of its levels, and no
/// other candle has one.
pub proof fn law_summaries_keep_the_largest(
    trades: Seq<Trade>,
    timeframe_ms: u64,
    step: PriceStep,
    max: nat,
)
    ensures
        forall|i: int|
            0 <= i < summarized(trades, timeframe_ms, step, max).len() ==> keeps_the_largest(
                #[trigger] summarized(trades, timeframe_ms, step, max)[i],
                levels(trades, timeframe_ms, step),
                max,
            ),
        forall|i: int|
            0 <= i < summarized(trades, timeframe_ms, step, max).len() ==> exists|k: int|
                0 <= k < levels(trades, timeframe_ms, step).len() && (#[trigger] levels(
                    trades,
                    timeframe_ms,
                    step,
                )[k]).candle_time == (#[trigger] summarized(
                    trades,
                    timeframe_ms,
                    step,
                    max,
                )[i]).candle_time,
        forall|k: int|
            0 <= k < levels(trades, timeframe_ms, step).len() ==> exists|i: int|
                0 <= i < summarized(trades, timeframe_ms, step, max).len() && (
                #[trigger] summarized(trades, timeframe_ms, step, max)[i]).candle_time == (
                #[trigger] levels(trades, timeframe_ms, step)[k]).candle_time,
{
    let rows = levels(trades, timeframe_ms, step);
    let times = candle_times(rows);
    let out = summarized(trades, timeframe_ms, step, max);
    lemma_levels_distinct(trades, timeframe_ms, step);
    assert forall|i: int| 0 <= i < out.len() implies keeps_the_largest(
        #[trigger] out[i],
        rows,
        max,
    ) by {
        assert(out[i] == summary_at(rows, times[i], max));
        lemma_summary_at(rows, times[i], max);
    }
    assert forall|i: int| 0 <= i < out.len() implies exists|k: int|
        0 <= k < rows.len() && (#[trigger] rows[k]).candle_time == (
        #[trigger] out[i]).candle_time by {
        assert(times.contains(times[i]));
        lemma_candle_times_contains(rows, times[i]);
    }
    assert forall|k: int| 0 <= k < rows.len() implies exists|i: int|
        0 <= i < out.len() && (#[trigger] out[i]).candle_time == (
        #[trigger] rows[k]).candle_time by {
        lemma_candle_times_contains(rows, rows[k].candle_time);
        assert(times.contains(rows[k].candle_time));
        let i = choose|i: int| 0 <= i < times.len() && times[i] == rows[k].candle_time;
        assert(out[i].candle_time == times[i]);
    }
}

proof fn lemma_same_candle(c: int, d: int, t: int, w: int)
    requires
        w > 0,
        c % w == 0,
        d % w == 0,
        c <= t < c + w,
        d <= t < d + w,
    ensures
        c == d,
{
    vstd::arithmetic::div_mod::lemma_fundamental_div_mod(c, w);
    vstd::arithmetic::div_mod::lemma_fundamental_div_mod(d, w);
    let q = c / w;
    let r = d / w;
    if q < r {
        assert(w * q + w <= w * r) by (nonlinear_arith)
            requires
                q + 1 <= r,
                w > 0,
        ;
    }
    if r < q {
        assert(w * r + w <= w * q) by (nonlinear_arith)
            requires
                r + 1 <= q,
                w > 0,
        ;
    }
}

/// A trade lies in a candle and has the price of a level, rounded to the step.
pub open spec fn lies_in(
    t: Trade,
    timeframe_ms: u64,
    step: PriceStep,
    c: UnixMs,
    p: Price,
) -> bool {
    c.0 <= t.time.0 && t.time.0 - c.0 < timeframe_ms && t.price.rounded(step) == p
}

proof fn lemma_trades_of_level(
    trades: Seq<Trade>,
    timeframe_ms: u64,
    step: PriceStep,
    c: UnixMs,
    p: Price,
)
    requires
        timeframe_ms > 0,
        c.0 % timeframe_ms == 0,
    ensures
        trades_at(trades, timeframe_ms, step, c, p) == trades.filter(
            |t: Trade| lies_in(t, timeframe_ms, step, c, p),
        ),
{
    let f = |t: Trade| falls_into(t, timeframe_ms, step, c, p);
    let g = |t: Trade| lies_in(t, timeframe_ms, step, c, p);
    assert forall|t: Trade| #[trigger] f(t) == g(t) by {
        law_candle_holds_its_trades(t, timeframe_ms);
        let d = candle_of(t, timeframe_ms);
        if g(t) {
            lemma_same_candle(c.0 as int, d.0 as int, t.time.0 as int, timeframe_ms as int);
        }
    }
    assert(f =~= g);
}

proof fn lemma_level_adds_up(trades: Seq<Trade>, timeframe_ms: u64, step: PriceStep, k: int)
    requires
        timeframe_ms > 0,
        summable(trades),
        0 <= k < levels(trades, timeframe_ms, step).len(),
    ensures
        ({
            let b = levels(trades, timeframe_ms, step)[k];
            &&& b.candle_time.0 % timeframe_ms == 0
            &&& adds_up(
                b,
                trades.filter(|t: Trade| lies_in(t, timeframe_ms, step, b.candle_time, b.price)),
            )
        }),
{
    let b = levels(trades, timeframe_ms, step)[k];
    let own = trades_at(trades, timeframe_ms, step, b.candle_time, b.price);
    assert(adds_up(b, own)) by {
        law_levels_add_up(trades, timeframe_ms, step);
    }
    let f = |t: Trade| falls_into(t, timeframe_ms, step, b.candle_time, b.price);
    trades.lemma_filter_pred(f, 0);
    law_candle_holds_its_trades(own[0], timeframe_ms);
    lemma_trades_of_level(trades, timeframe_ms, step, b.candle_time, b.price);
}

/// The bubbles of trades, without reference to how they are derived: each of them adds up exactly
/// the trades that lie in its candle at its price.
pub proof fn law_bubbles_add_up_their_trades(
    trades: Seq<Trade>,
    timeframe_ms: u64,
    step: PriceStep,
    max: nat,
    i: int,
    a: int,
)
    requires
        timeframe_ms > 0,
        summable(trades),
        0 <= i < summarized(trades, timeframe_ms, step, max).len(),
        0 <= a < summarized(trades, timeframe_ms, step, max)[i].candidates.len(),
    ensures
        ({
            let b = summarized(trades, timeframe_ms, step, max)[i].candidates[a];
            &&& b.candle_time.0 % timeframe_ms == 0
            &&& adds_up(
                b,
                trades.filter(|t: Trade| lies_in(t, timeframe_ms, step, b.candle_time, b.price)),
            )
        }),
{
    let rows = levels(trades, timeframe_ms, step);
    let b = summarized(trades, timeframe_ms, step, max)[i].candidates[a];
    assert(rows.contains(b)) by {
        law_summaries_keep_the_largest(trades, timeframe_ms, step, max);
        assert(keeps_the_largest(summarized(trades, timeframe_ms, step, max)[i], rows, max));
    }
    let k = choose|k: int| 0 <= k < rows.len() && rows[k] == b;
    lemma_level_adds_up(trades, timeframe_ms, step, k);
}

proof fn lemma_level_of_trade(
    trades: Seq<Trade>,
    timeframe_ms: u64,
    step: PriceStep,
    k: int,
) -> (m: int)
    requires
        timeframe_ms > 0,
        summable(trades),
        0 <= k < trades.len(),
    ensures
        0 <= m < levels(trades, timeframe_ms, step).len(),
        levels(trades, timeframe_ms, step)[m].candle_time == candle_of(trades[k], timeframe_ms),
        levels(trades, timeframe_ms, step)[m].price == trades[k].price.rounded(step),
{
    let rows = levels(trades, timeframe_ms, step);
    law_levels_add_up(trades, timeframe_ms, step);
    choose|m: int|
        0 <= m < rows.len() && falls_into(
            trades[k],
            timeframe_ms,
            step,
            (#[trigger] rows[m]).candle_time,
            rows[m].price,
        )
}

proof fn lemma_summary_of_level(
    trades: Seq<Trade>,
    timeframe_ms: u64,
    step: PriceStep,
    max: nat,
    m: int,
) -> (i: int)
    requires
        0 <= m < levels(trades, timeframe_ms, step).len(),
    ensures
        0 <= i < summarized(trades, timeframe_ms, step, max).len(),
        summarized(trades, timeframe_ms, step, max)[i].candle_time == levels(
            trades,
            timeframe_ms,
            step,
        )[m].candle_time,
        keeps_the_largest(
            summarized(trades, timeframe_ms, step, max)[i],
            levels(trades, timeframe_ms, step),
            max,
        ),
{
    law_summaries_keep_the_largest(trades, timeframe_ms, step, max);
    let rows = levels(trades, timeframe_ms, step);
    let out = summarized(trades, timeframe_ms, step, max);
    choose|i: int| 0 <= i < out.len() && (#[trigger] out[i]).candle_time == rows[m].candle_time
}

/// No trade is forgotten: the candle of each trade has a summary, and a level at the rounded price
/// of the trade that the summary either holds or leaves out for larger ones.
pub proof fn law_each_trade_counts(
    trades: Seq<Trade>,
    timeframe_ms: u64,
    step: PriceStep,
    max: nat,
    k: int,
)
    requires
        timeframe_ms > 0,
        summable(trades),
        0 <= k < trades.len(),
    ensures
        exists|i: int|
            0 <= i < summarized(trades, timeframe_ms, step, max).len() && {
                let s = #[trigger] summarized(trades, timeframe_ms, step, max)[i];
                &&& s.candle_time.0 <= trades[k].time.0
                &&& trades[k].time.0 - s.candle_time.0 < timeframe_ms
                &&& s.candidates.len() == max || exists|a: int|
                    0 <= a < s.candidates.len() && (#[trigger] s.candidates[a]).price
                        == trades[k].price.rounded(step)
            },
{
    let rows = levels(trades, timeframe_ms, step);
    let out = summarized(trades, timeframe_ms, step, max);
    let t = trades[k];
    let c = candle_of(t, timeframe_ms);
    let p = t.price.rounded(step);
    law_candle_holds_its_trades(t, timeframe_ms);
    let m = lemma_level_of_trade(trades, timeframe_ms, step, k);
    let i = lemma_summary_of_level(trades, timeframe_ms, step, max, m);
    let s = out[i];
    if s.candidates.len() != max {
        assert(s.candidates.contains(rows[m]));
        let a = choose|a: int| 0 <= a < s.candidates.len() && s.candidates[a] == rows[m];
        assert(s.candidates[a].price == p);
    }
}

} // verus!
