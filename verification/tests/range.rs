//! Ranges of time.

use flowsurface::market_data::range::{
    add_required_segment_dedup, compute_missing, filter_tiny_trade_gaps, is_fully_covered,
    merge_ranges, MarketDataRange,
};
use flowsurface::time::UnixMs;

fn ms(v: u64) -> UnixMs {
    UnixMs::new(v)
}

#[test]
fn test_range_basics() {
    let r = MarketDataRange::new(ms(100), ms(200)).unwrap();
    assert_eq!(r.duration_ms(), 100);
    assert!(!r.is_empty());
    assert!(r.contains_timestamp(ms(150)));
    assert!(!r.contains_timestamp(ms(50)));
    assert!(!r.contains_timestamp(ms(200))); // exclusive end
}

#[test]
fn test_invalid_range() {
    assert!(MarketDataRange::new(ms(200), ms(100)).is_none());
    assert!(MarketDataRange::new(ms(100), ms(100)).is_none());
}

#[test]
fn test_contains() {
    let outer = MarketDataRange::new(ms(100), ms(300)).unwrap();
    let inner = MarketDataRange::new(ms(150), ms(250)).unwrap();
    let partial = MarketDataRange::new(ms(200), ms(400)).unwrap();

    assert!(outer.contains(&inner));
    assert!(!inner.contains(&outer));
    assert!(!outer.contains(&partial));
}

#[test]
fn test_overlaps() {
    let a = MarketDataRange::new(ms(100), ms(200)).unwrap();
    let b = MarketDataRange::new(ms(150), ms(250)).unwrap();
    let c = MarketDataRange::new(ms(300), ms(400)).unwrap();

    assert!(a.overlaps(&b));
    assert!(b.overlaps(&a));
    assert!(!a.overlaps(&c));
}

#[test]
fn test_intersection() {
    let a = MarketDataRange::new(ms(100), ms(200)).unwrap();
    let b = MarketDataRange::new(ms(150), ms(250)).unwrap();
    let c = MarketDataRange::new(ms(300), ms(400)).unwrap();

    let intersection = a.intersection(&b).unwrap();
    assert_eq!(intersection.from, ms(150));
    assert_eq!(intersection.to, ms(200));

    assert!(a.intersection(&c).is_none());
}

#[test]
fn test_merge() {
    let a = MarketDataRange::new(ms(100), ms(200)).unwrap();
    let b = MarketDataRange::new(ms(150), ms(250)).unwrap();
    let c = MarketDataRange::new(ms(300), ms(400)).unwrap();

    let merged = a.merge(&b).unwrap();
    assert_eq!(merged.from, ms(100));
    assert_eq!(merged.to, ms(250));

    // Non-overlapping, non-adjacent
    assert!(a.merge(&c).is_none());
}

#[test]
fn test_adjacent_merge() {
    let a = MarketDataRange::new(ms(100), ms(200)).unwrap();
    let b = MarketDataRange::new(ms(200), ms(300)).unwrap();

    let merged = a.merge(&b).unwrap();
    assert_eq!(merged.from, ms(100));
    assert_eq!(merged.to, ms(300));
}

#[test]
fn test_subtract() {
    let base = MarketDataRange::new(ms(100), ms(300)).unwrap();

    // Subtract middle portion
    let middle = MarketDataRange::new(ms(150), ms(250)).unwrap();
    let result = base.subtract(&middle);
    assert_eq!(result.len(), 2);
    assert_eq!(result[0].from, ms(100));
    assert_eq!(result[0].to, ms(150));
    assert_eq!(result[1].from, ms(250));
    assert_eq!(result[1].to, ms(300));

    // Subtract fully contained
    let full = MarketDataRange::new(ms(100), ms(300)).unwrap();
    let result = base.subtract(&full);
    assert!(result.is_empty());

    // Subtract no overlap
    let no_overlap = MarketDataRange::new(ms(400), ms(500)).unwrap();
    let result = base.subtract(&no_overlap);
    assert_eq!(result.len(), 1);
    assert_eq!(result[0], base);
}

#[test]
fn test_gap_to() {
    let a = MarketDataRange::new(ms(100), ms(200)).unwrap();
    let b = MarketDataRange::new(ms(300), ms(400)).unwrap();
    let c = MarketDataRange::new(ms(150), ms(250)).unwrap();

    let gap = a.gap_to(&b).unwrap();
    assert_eq!(gap.from, ms(200));
    assert_eq!(gap.to, ms(300));

    // Overlapping - no gap
    assert!(a.gap_to(&c).is_none());
}

#[test]
fn test_split_at() {
    let r = MarketDataRange::new(ms(100), ms(300)).unwrap();

    let (left, right) = r.split_at(ms(200));
    assert_eq!(left.unwrap().to, ms(200));
    assert_eq!(right.unwrap().from, ms(200));

    // Split before start
    let (left, right) = r.split_at(ms(50));
    assert!(left.is_none());
    assert_eq!(right.unwrap(), r);

    // Split after end
    let (left, right) = r.split_at(ms(400));
    assert_eq!(left.unwrap(), r);
    assert!(right.is_none());
}

#[test]
fn test_merge_ranges() {
    let ranges = vec![
        MarketDataRange::new(ms(100), ms(200)).unwrap(),
        MarketDataRange::new(ms(150), ms(250)).unwrap(),
        MarketDataRange::new(ms(300), ms(400)).unwrap(),
        MarketDataRange::new(ms(350), ms(450)).unwrap(),
    ];

    let merged = merge_ranges(&ranges);
    assert_eq!(merged.len(), 2);
    assert_eq!(merged[0].from, ms(100));
    assert_eq!(merged[0].to, ms(250));
    assert_eq!(merged[1].from, ms(300));
    assert_eq!(merged[1].to, ms(450));
}

#[test]
fn range_test_compute_missing() {
    let desired = MarketDataRange::new(ms(100), ms(500)).unwrap();
    let covered = vec![
        MarketDataRange::new(ms(200), ms(300)).unwrap(),
        MarketDataRange::new(ms(400), ms(450)).unwrap(),
    ];

    let missing = compute_missing(desired, &covered);
    assert_eq!(missing.len(), 3);
    assert_eq!(missing[0].from, ms(100));
    assert_eq!(missing[0].to, ms(200));
    assert_eq!(missing[1].from, ms(300));
    assert_eq!(missing[1].to, ms(400));
    assert_eq!(missing[2].from, ms(450));
    assert_eq!(missing[2].to, ms(500));
}

#[test]
fn test_is_fully_covered() {
    let range = MarketDataRange::new(ms(100), ms(300)).unwrap();

    let full_cover = vec![
        MarketDataRange::new(ms(100), ms(200)).unwrap(),
        MarketDataRange::new(ms(200), ms(300)).unwrap(),
    ];
    assert!(is_fully_covered(&range, &full_cover));

    let partial_cover = vec![MarketDataRange::new(ms(100), ms(200)).unwrap()];
    assert!(!is_fully_covered(&range, &partial_cover));

    let empty_cover = vec![];
    assert!(!is_fully_covered(&range, &empty_cover));
}

#[test]
fn test_add_required_segment_dedup_skips_fully_covered() {
    let mut required = vec![MarketDataRange::new(ms(100), ms(300)).unwrap()];
    // Sub-segment is fully covered by the broad segment - should be skipped
    add_required_segment_dedup(
        &mut required,
        MarketDataRange::new(ms(100), ms(200)).unwrap(),
    );
    assert_eq!(required.len(), 1);
    assert_eq!(required[0], MarketDataRange::new(ms(100), ms(300)).unwrap());
}

#[test]
fn test_add_required_segment_dedup_adds_uncovered() {
    let mut required = vec![MarketDataRange::new(ms(100), ms(200)).unwrap()];
    // Adjacent segment is not covered - should be added
    add_required_segment_dedup(
        &mut required,
        MarketDataRange::new(ms(200), ms(300)).unwrap(),
    );
    assert_eq!(required.len(), 2);
    assert_eq!(required[0], MarketDataRange::new(ms(100), ms(200)).unwrap());
    assert_eq!(required[1], MarketDataRange::new(ms(200), ms(300)).unwrap());
}

#[test]
fn test_add_required_segment_dedup_does_not_replace_adjacent_segments() {
    // When two adjacent segments [100,200) and [200,300) already exist,
    // adding [100,300) should be skipped because it's fully covered.
    // Adjacent segments must remain separate for logical counting.
    let mut required = vec![
        MarketDataRange::new(ms(100), ms(200)).unwrap(),
        MarketDataRange::new(ms(200), ms(300)).unwrap(),
    ];
    add_required_segment_dedup(
        &mut required,
        MarketDataRange::new(ms(100), ms(300)).unwrap(),
    );
    assert_eq!(required.len(), 2);
    assert_eq!(required[0], MarketDataRange::new(ms(100), ms(200)).unwrap());
    assert_eq!(required[1], MarketDataRange::new(ms(200), ms(300)).unwrap());
}

#[test]
fn test_filter_tiny_trade_gaps() {
    let missing = vec![
        MarketDataRange::new(ms(100), ms(1200)).unwrap(), // 1100ms - not tiny
        MarketDataRange::new(ms(3000), ms(3001)).unwrap(), // 1ms - tiny
        MarketDataRange::new(ms(4000), ms(6000)).unwrap(), // 2000ms - not tiny
    ];
    let filtered = filter_tiny_trade_gaps(missing, 1_000);
    assert_eq!(filtered.len(), 2);
    assert_eq!(filtered[0].from, ms(100));
    assert_eq!(filtered[0].to, ms(1200));
    assert_eq!(filtered[1].from, ms(4000));
    assert_eq!(filtered[1].to, ms(6000));
}

#[test]
fn test_filter_tiny_trade_gaps_all_tiny() {
    let missing = vec![
        MarketDataRange::new(ms(100), ms(101)).unwrap(), // 1ms
        MarketDataRange::new(ms(200), ms(250)).unwrap(), // 50ms
    ];
    let filtered = filter_tiny_trade_gaps(missing, 1_000);
    assert!(filtered.is_empty());
}

#[test]
fn test_filter_tiny_trade_gaps_none_tiny() {
    let missing = vec![
        MarketDataRange::new(ms(100), ms(1200)).unwrap(), // 1100ms
        MarketDataRange::new(ms(2000), ms(5000)).unwrap(), // 3000ms
    ];
    let filtered = filter_tiny_trade_gaps(missing, 1_000);
    assert_eq!(filtered.len(), 2);
}
