//! Tail offset planner.
//!
//! Before a live tail with a bounded look-back begins, the tool computes,
//! for every partition, the offset at which reading should start: the high
//! watermark itself when no history is requested, the high watermark minus
//! the look-back count when enough history is retained, and offset zero
//! when the request reaches past the beginning of the log.

use vstd::prelude::*;

verus! {

/// The starting offset for a tail of a partition whose live head is
/// `high_watermark`, when the caller asked to begin `before` messages
/// earlier.  Clamps to zero instead of going negative.
pub open spec fn spec_start_offset(high_watermark: i64, before: int) -> i64 {
    if before == 0 {
        high_watermark
    } else if before >= high_watermark {
        0
    } else {
        (high_watermark - before) as i64
    }
}

/// Computes the starting read offset for one partition of a tail session.
///
/// A `before` of zero means "start at the live head"; a `before` of at
/// least the high watermark is clamped to the start of the log.
pub fn determine_start_offset(high_watermark: i64, before: usize) -> (start: i64)
    ensures
        start == spec_start_offset(high_watermark, before as int),
{
    if before == 0 {
        high_watermark
    } else if high_watermark <= 0 {
        0
    } else if before as u64 >= high_watermark as u64 {
        0
    } else {
        high_watermark - before as i64
    }
}

/// Computes the starting read offset for every partition of a topic at
/// once, pairing each partition id with its planned offset.
pub fn plan_tail_offsets(watermarks: &Vec<(i32, i64)>, before: usize) -> (plan: Vec<(i32, i64)>)
    ensures
        plan.len() == watermarks.len(),
        forall|i: int| 0 <= i < plan.len() ==> #[trigger] plan[i] == (
            watermarks[i].0,
            spec_start_offset(watermarks[i].1, before as int),
        ),
{
    let mut plan: Vec<(i32, i64)> = Vec::new();
    let mut k: usize = 0;
    while k < watermarks.len()
        invariant
            k <= watermarks.len(),
            plan.len() == k,
            forall|i: int| 0 <= i < k ==> #[trigger] plan[i] == (
                watermarks[i as int].0,
                spec_start_offset(watermarks[i as int].1, before as int),
            ),
        decreases watermarks.len() - k,
    {
        let (partition, high_watermark) = watermarks[k];
        plan.push((partition, determine_start_offset(high_watermark, before)));
        k = k + 1;
    }
    plan
}

} // verus!
