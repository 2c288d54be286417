//! The circles that stand for trades in a heatmap.

use vstd::prelude::*;

verus! {

/// The distance of two columns of the heatmap, as far as a circle can tell.
pub open spec fn told_distance(d: int) -> i32 {
    if d < i32::MIN {
        i32::MIN
    } else if d > i32::MAX {
        i32::MAX
    } else {
        d as i32
    }
}

/// The column of a circle, counted from a column of reference.
pub fn relative_column(bucket: i64, ref_bucket: i64) -> (x: i32)
    requires
        i64::MIN <= bucket - ref_bucket <= i64::MAX,
    ensures
        x == told_distance(bucket - ref_bucket),
{
    let d: i64 = bucket - ref_bucket;
    if d < -2_147_483_648 {
        i32::MIN
    } else if d > 2_147_483_647 {
        i32::MAX
    } else {
        d as i32
    }
}

/// A distance is told as it is, as far as the type can hold it, and never in the wrong order.
pub proof fn law_distances_keep_their_order(a: int, b: int)
    requires
        a <= b,
    ensures
        told_distance(a) <= told_distance(b),
        i32::MIN <= a <= i32::MAX ==> told_distance(a) == a,
{
}

} // verus!
