//! Per-partition consumer lag.
//!
//! For each (topic, partition) a consumer group owns, the broker reports
//! a committed offset (absent when no consumer has committed yet) and a
//! high watermark.  Lag is the non-negative distance between the two:
//! `max(watermark - committed, 0)`, with an absent committed offset
//! treated as zero.  A negative raw difference — possible after an offset
//! reset or log truncation — is clamped to zero for display, not reported
//! as negative.

use vstd::prelude::*;

verus! {

/// One (topic, partition) pair with the offsets the broker reported for
/// it: the committed offset, if any consumer committed one, and the high
/// watermark.
#[derive(Debug)]
pub struct PartitionOffsetPair {
    pub topic: String,
    pub partition: i32,
    pub committed: Option<i64>,
    pub high_watermark: i64,
}

impl View for PartitionOffsetPair {
    type V = (Seq<char>, i32, Option<i64>, i64);

    open spec fn view(&self) -> (Seq<char>, i32, Option<i64>, i64) {
        (self.topic@, self.partition, self.committed, self.high_watermark)
    }
}

/// One reconciled display row: topic, partition, the committed offset
/// used (zero when absent), the high watermark, and the lag.
#[derive(Debug)]
pub struct LagRow {
    pub topic: String,
    pub partition: i32,
    pub committed: i64,
    pub watermark: i64,
    pub lag: i64,
}

impl View for LagRow {
    type V = (Seq<char>, i32, i64, i64, i64);

    open spec fn view(&self) -> (Seq<char>, i32, i64, i64, i64) {
        (self.topic@, self.partition, self.committed, self.watermark, self.lag)
    }
}

/// The committed offset used for lag purposes: an absent offset counts
/// as zero.
pub open spec fn spec_committed(c: Option<i64>) -> int {
    match c {
        Some(v) => v as int,
        None => 0,
    }
}

/// The lag of one partition: the raw distance from committed offset to
/// high watermark, clamped at zero.
pub open spec fn spec_lag(watermark: int, committed: int) -> int {
    if watermark - committed > 0 {
        watermark - committed
    } else {
        0
    }
}

/// The reconciled row computed from one offset pair.
pub open spec fn spec_lag_row(p: (Seq<char>, i32, Option<i64>, i64)) -> (
    Seq<char>,
    i32,
    i64,
    i64,
    i64,
) {
    (
        p.0,
        p.1,
        spec_committed(p.2) as i64,
        p.3,
        spec_lag(p.3 as int, spec_committed(p.2)) as i64,
    )
}

/// The offset pair a reconciled row stands for, when it is fed back to
/// the calculator.
pub open spec fn spec_pair_of_row(r: (Seq<char>, i32, i64, i64, i64)) -> (
    Seq<char>,
    i32,
    Option<i64>,
    i64,
) {
    (r.0, r.1, Some(r.2), r.3)
}

/// Lag is exactly `max(watermark - committed, 0)`, for every watermark
/// and committed offset — including a committed offset beyond the
/// watermark, which yields zero, never a negative value.
pub proof fn lemma_lag_formula(watermark: int, committed: int)
    ensures
        spec_lag(watermark, committed) == vstd::math::max(watermark - committed, 0),
        spec_lag(watermark, committed) >= 0,
        committed > watermark ==> spec_lag(watermark, committed) == 0,
{
}

/// The lag calculation is idempotent: feeding a reconciled row back to
/// the calculator reproduces that row, because a row carries its
/// committed offset and watermark unchanged and the lag is a function of
/// those two alone.
pub proof fn lemma_lag_idempotent(p: (Seq<char>, i32, Option<i64>, i64))
    requires
        p.3 - spec_committed(p.2) <= i64::MAX,
    ensures
        spec_lag_row(spec_pair_of_row(spec_lag_row(p))) == spec_lag_row(p),
{
}

/// Computes the reconciled lag view of a sequence of offset pairs: one
/// row per input pair, in input order, each row carrying the pair's
/// topic, partition, committed offset (zero when absent), watermark and
/// clamped lag.  An empty input yields an empty result, not an error.
#[verifier::loop_isolation(false)]
pub fn compute_lag(pairs: &Vec<PartitionOffsetPair>) -> (rows: Vec<LagRow>)
    requires
        forall|i: int| 0 <= i < pairs.len() ==> #[trigger] pairs[i].high_watermark - spec_committed(
            pairs[i].committed,
        ) <= i64::MAX,
    ensures
        rows.len() == pairs.len(),
        forall|i: int| 0 <= i < rows.len() ==> #[trigger] rows[i]@ == spec_lag_row(pairs[i]@),
{
    let mut rows: Vec<LagRow> = Vec::new();
    let mut i: usize = 0;
    while i < pairs.len()
        invariant
            i <= pairs.len(),
            rows.len() == i,
            forall|t: int| 0 <= t < i ==> #[trigger] rows[t]@ == spec_lag_row(pairs[t]@),
        decreases pairs.len() - i,
    {
        let pair = &pairs[i];
        let committed: i64 = match &pair.committed {
            Some(c) => *c,
            None => 0,
        };
        let lag: i64 = if pair.high_watermark > committed {
            pair.high_watermark - committed
        } else {
            0
        };
        rows.push(
            LagRow {
                topic: pair.topic.clone(),
                partition: pair.partition,
                committed,
                watermark: pair.high_watermark,
                lag,
            },
        );
        i = i + 1;
    }
    rows
}

} // verus!
