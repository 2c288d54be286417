//! What holds of ranges of time, on chosen values.

use flowsurface::market_data::range::{
    add_required_segment_dedup, add_segment_merged, canonicalize_kline_range, compute_missing,
    is_fully_covered, merge_ranges, MarketDataRange,
};
use flowsurface::time::{format_time_short, UnixMs};

fn r(from: u64, to: u64) -> MarketDataRange {
    MarketDataRange::new(UnixMs::new(from), UnixMs::new(to)).unwrap()
}

#[test]
fn pairs_are_symmetric() {
    let a = r(100, 200);
    let b = r(200, 300);
    assert!(!a.overlaps(&b) && !b.overlaps(&a));
    assert!(a.adjacent_to(&b) && b.adjacent_to(&a));
    assert_eq!(a.merge(&b), b.merge(&a));
    assert_eq!(a.gap_to(&r(250, 300)), Some(r(200, 250)));
}

#[test]
fn intersection_holds_common_instants() {
    assert_eq!(r(100, 300).intersection(&r(200, 400)), Some(r(200, 300)));
    assert_eq!(r(100, 200).intersection(&r(200, 300)), None);
}

#[test]
fn merged_range_holds_all_of_both() {
    assert_eq!(r(100, 200).merge(&r(150, 400)), Some(r(100, 400)));
    assert_eq!(r(100, 200).merge(&r(201, 400)), None);
}

#[test]
fn subtraction_leaves_the_rest() {
    assert_eq!(r(0, 100).subtract(&r(0, 40)), vec![r(40, 100)]);
    assert_eq!(r(0, 100).subtract(&r(60, 200)), vec![r(0, 60)]);
    assert!(r(10, 20).subtract(&r(0, 100)).is_empty());
}

#[test]
fn split_parts_rejoin() {
    let whole = r(100, 300);
    let (left, right) = whole.split_at(UnixMs::new(150));
    assert_eq!(left.unwrap().merge(&right.unwrap()), Some(whole));
}

#[test]
fn missing_is_exact_and_in_order() {
    let missing = compute_missing(r(0, 100), &[r(80, 90), r(10, 20), r(15, 30)]);
    assert_eq!(missing, vec![r(0, 10), r(30, 80), r(90, 100)]);
}

#[test]
fn nothing_is_missing_when_all_is_covered() {
    assert!(compute_missing(r(0, 100), &[r(50, 100), r(0, 50)]).is_empty());
    assert!(is_fully_covered(&r(0, 100), &[r(50, 100), r(0, 50)]));
    assert!(!is_fully_covered(&r(0, 101), &[r(50, 100), r(0, 50)]));
}

#[test]
fn missing_shrinks_as_more_is_covered() {
    assert_eq!(compute_missing(r(0, 100), &[r(0, 10)]), vec![r(10, 100)]);
    assert_eq!(compute_missing(r(0, 100), &[r(0, 10), r(50, 100)]), vec![r(10, 50)]);
}

#[test]
fn merging_is_idempotent() {
    let once = merge_ranges(&[r(300, 400), r(100, 200), r(150, 300)]);
    assert_eq!(once, vec![r(100, 400)]);
    assert_eq!(merge_ranges(&once), once);
    assert!(merge_ranges(&[]).is_empty());
}

#[test]
fn candle_ranges_are_aligned() {
    assert_eq!(canonicalize_kline_range(r(61_000, 130_000), 60_000), Some(r(60_000, 180_000)));
    assert_eq!(canonicalize_kline_range(r(60_000, 120_000), 60_000), Some(r(60_000, 120_000)));
}

#[test]
fn a_segment_joins_the_one_it_overlaps() {
    let mut v = vec![r(100, 200)];
    add_segment_merged(&mut v, r(150, 300));
    assert_eq!(v, vec![r(100, 300)]);
    add_segment_merged(&mut v, r(400, 500));
    assert_eq!(v, vec![r(100, 300), r(400, 500)]);
}

#[test]
fn a_required_segment_is_kept_apart() {
    let mut v = vec![r(100, 200)];
    add_required_segment_dedup(&mut v, r(150, 250));
    assert_eq!(v, vec![r(100, 200), r(150, 250)]);
}

#[test]
fn unchecked_ranges_may_be_empty() {
    let e = MarketDataRange::new_unchecked(UnixMs::new(5), UnixMs::new(5));
    assert!(e.is_empty());
    assert_eq!(e.duration_ms(), 0);
}

#[test]
fn ranges_are_written_as_times_of_day() {
    assert_eq!(r(3_600_000, 90_061_000).format_display(), "01:00:00 → 01:01:01");
    assert_eq!(format_time_short(UnixMs::new(86_399_999)), "23:59:59");
}

#[test]
fn times_saturate() {
    assert_eq!(UnixMs::new(u64::MAX).saturating_add(1), UnixMs::new(u64::MAX));
    assert_eq!(UnixMs::new(3).saturating_sub(5), UnixMs::new(0));
    assert_eq!(UnixMs::new(3).saturating_diff(UnixMs::new(5)), 0);
    assert_eq!(UnixMs::new(8).saturating_diff(UnixMs::new(5)), 3);
}

#[test]
fn a_segment_joins_all_that_it_overlaps() {
    let mut v = vec![r(100, 200), r(300, 400)];
    add_segment_merged(&mut v, r(150, 350));
    assert_eq!(v, vec![r(100, 400)]);
    let mut v = vec![r(0, 10), r(300, 400), r(20, 30), r(100, 200), r(500, 600)];
    add_segment_merged(&mut v, r(150, 350));
    assert_eq!(v, vec![r(0, 10), r(100, 400), r(20, 30), r(500, 600)]);
}

#[test]
fn segments_that_touch_stay_apart() {
    let mut v = vec![r(100, 200)];
    add_segment_merged(&mut v, r(200, 300));
    assert_eq!(v, vec![r(100, 200), r(200, 300)]);
    add_segment_merged(&mut v, r(190, 210));
    assert_eq!(v, vec![r(100, 300)]);
}

#[test]
fn what_is_missing_is_separated() {
    let gaps = compute_missing(r(0, 100), &[r(20, 30), r(30, 40), r(60, 61)]);
    assert_eq!(gaps, vec![r(0, 20), r(40, 60), r(61, 100)]);
}
