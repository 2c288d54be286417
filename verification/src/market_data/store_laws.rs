//! Laws of the store.

use vstd::prelude::*;
use crate::market::{Kline, OpenInterest, Trade};
use crate::market_data::key::KeyView;
use crate::market_data::range::MarketDataRange;
use crate::market_data::series::{
    law_inserts_exact, law_inserts_keep_order, law_query_exact, newest, rising, stands_after,
    upserted_all, within, Timed,
};
use crate::market_data::store::{
    first_time, last_time, rows_at, span_of, summed_counts, with_records, StoreView, Tables,
};

verus! {

/// The records that a table holds of a stream.
pub open spec fn history<T>(m: Tables<T>, key: KeyView) -> Seq<T> {
    if m.contains_key(key) {
        m[key]
    } else {
        Seq::empty()
    }
}

/// `after` is `before` with `xs` written into the stream `key`: nothing that stands is missing,
/// unless there are `cap` newer records, nothing else is there, and no other stream changed.
pub open spec fn written_into<T: Timed>(
    before: Tables<T>,
    after: Tables<T>,
    key: KeyView,
    xs: Seq<T>,
    cap: nat,
) -> bool {
    let old_rows = history(before, key);
    let new_rows = history(after, key);
    &&& rising(new_rows)
    &&& forall|y: T| #[trigger] new_rows.contains(y) ==> stands_after(old_rows, xs, y)
    &&& forall|y: T|
        stands_after(old_rows, xs, y) ==> #[trigger] new_rows.contains(y) || (xs.len() > 0
            && new_rows.len() == cap && forall|i: int|
            0 <= i < new_rows.len() ==> (#[trigger] new_rows[i]).at().0 > y.at().0)
    &&& after.contains_key(key) <==> before.contains_key(key) || xs.len() > 0
    &&& forall|k: KeyView|
        k != key ==> (#[trigger] after.contains_key(k) <==> before.contains_key(k))
    &&& forall|k: KeyView| k != key && before.contains_key(k) ==> #[trigger] after[k] == before[k]
}

proof fn lemma_written<T: Timed>(m: Tables<T>, key: KeyView, xs: Seq<T>, cap: nat)
    requires
        rising(history(m, key)),
    ensures
        written_into(m, with_records(m, key, xs, cap), key, xs, cap),
{
    let old_rows = history(m, key);
    let after = with_records(m, key, xs, cap);
    let all = upserted_all(old_rows, xs);
    let kept = history(after, key);
    assert(rows_at(m, key) == old_rows);
    law_inserts_keep_order(old_rows, xs, cap);
    if xs.len() == 0 {
        assert(all == old_rows);
        assert(kept == old_rows);
    } else {
        assert(kept == newest(all, cap));
    }
    let off = all.len() - kept.len();
    assert forall|y: T| #[trigger] kept.contains(y) implies stands_after(old_rows, xs, y) by {
        let i = choose|i: int| 0 <= i < kept.len() && kept[i] == y;
        assert(all[i + off] == y);
        law_inserts_exact(old_rows, xs, y);
    }
    assert forall|y: T| stands_after(old_rows, xs, y) implies #[trigger] kept.contains(y) || (xs.len()
        > 0 && kept.len() == cap && forall|i: int|
        0 <= i < kept.len() ==> (#[trigger] kept[i]).at().0 > y.at().0) by {
        law_inserts_exact(old_rows, xs, y);
        let k = choose|k: int| 0 <= k < all.len() && all[k] == y;
        if k >= off {
            assert(kept[k - off] == y);
        } else {
            assert forall|i: int| 0 <= i < kept.len() implies (#[trigger] kept[i]).at().0
                > y.at().0 by {
                assert(kept[i] == all[i + off]);
                assert(all[k].at().0 < all[i + off].at().0);
            }
        }
    }
}

/// Trades that are stored are written into those that are there: of each timestamp the last one
/// stays, the oldest go only for want of room, and nothing else changes.
pub proof fn law_stored_trades(s: StoreView, key: KeyView, xs: Seq<Trade>)
    requires
        rising(history(s.trades, key)),
    ensures
        written_into(s.trades, s.with_trades(key, xs).trades, key, xs, 50_000),
        s.with_trades(key, xs).klines == s.klines,
        s.with_trades(key, xs).open_interest == s.open_interest,
{
    lemma_written(s.trades, key, xs, 50_000);
}

/// Candles that are stored are written into those that are there.
pub proof fn law_stored_klines(s: StoreView, key: KeyView, xs: Seq<Kline>)
    requires
        rising(history(s.klines, key)),
    ensures
        written_into(s.klines, s.with_klines(key, xs).klines, key, xs, 10_000),
        s.with_klines(key, xs).trades == s.trades,
        s.with_klines(key, xs).open_interest == s.open_interest,
{
    lemma_written(s.klines, key, xs, 10_000);
}

/// Open interest that is stored is written into what is there.
pub proof fn law_stored_open_interest(s: StoreView, key: KeyView, xs: Seq<OpenInterest>)
    requires
        rising(history(s.open_interest, key)),
    ensures
        written_into(s.open_interest, s.with_open_interest(key, xs).open_interest, key, xs, 10_000),
        s.with_open_interest(key, xs).trades == s.trades,
        s.with_open_interest(key, xs).klines == s.klines,
{
    lemma_written(s.open_interest, key, xs, 10_000);
}

/// A query of a stream finds exactly the records that the table holds of it and that lie in the
/// range, in order of time.
pub proof fn law_stored_records_are_found<T: Timed>(
    m: Tables<T>,
    key: KeyView,
    range: MarketDataRange,
    y: T,
)
    requires
        rising(history(m, key)),
    ensures
        within(rows_at(m, key), range).contains(y) <==> m.contains_key(key) && m[key].contains(y)
            && range.from.0 <= y.at().0 < range.to.0,
        rising(within(rows_at(m, key), range)),
        rows_at(m, key).len() == history(m, key).len(),
{
    law_query_exact(rows_at(m, key), range, y);
}

/// The first and the last time of a stream are those of records of it, no record lies outside, and
/// the range of a stream holds all of its records and no more. A stream without records has none.
pub proof fn law_bounds_of_records<T: Timed>(s: Seq<T>, y: T)
    requires
        rising(s),
    ensures
        s.len() == 0 ==> first_time(s) is None && last_time(s) is None && span_of(s) is None,
        s.len() > 0 ==> first_time(s) is Some && last_time(s) is Some && span_of(s) is Some,
        first_time(s) matches Some(t) ==> exists|i: int|
            0 <= i < s.len() && (#[trigger] s[i]).at() == t,
        last_time(s) matches Some(t) ==> exists|i: int|
            0 <= i < s.len() && (#[trigger] s[i]).at() == t,
        s.contains(y) ==> first_time(s)->Some_0.0 <= y.at().0 <= last_time(s)->Some_0.0,
        span_of(s) matches Some(r) ==> r.from == first_time(s)->Some_0 && (last_time(s)->Some_0.0
            < u64::MAX ==> r.to.0 == last_time(s)->Some_0.0 + 1),
{
    if s.len() > 0 {
        assert(s[0].at() == first_time(s)->Some_0);
        assert(s[s.len() - 1].at() == last_time(s)->Some_0);
    }
    if s.contains(y) {
        let i = choose|i: int| 0 <= i < s.len() && s[i] == y;
        if i > 0 {
            assert(s[0].at().0 < s[i].at().0);
        }
        if i < s.len() - 1 {
            assert(s[i].at().0 < s[s.len() - 1].at().0);
        }
    }
}

/// Each stream adds as many records to the total as it has.
pub proof fn law_each_stream_is_counted<T>(m: Tables<T>, order: Seq<KeyView>, key: KeyView)
    ensures
        summed_counts(m, Seq::empty()) == 0,
        summed_counts(m, order.push(key)) == summed_counts(m, order) + m[key].len(),
{
    assert(order.push(key).drop_last() =~= order);
}

} // verus!
