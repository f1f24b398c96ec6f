//! Alert conditions and the threshold evaluator.
//!
//! A condition reduces a label's samples to a firing decision. Sample values
//! and thresholds are fixed-point integers: callers pick one scale for both
//! and the comparison is exact. The mean of the samples is compared against
//! the threshold without division: for a non-empty series of `n` samples,
//! `mean < t` holds exactly when `sum < t * n`.

use crate::status::AlertStatus;
use vstd::prelude::*;

verus! {

/// The comparator of a threshold condition.
#[derive(Clone, Copy, Debug, PartialEq, Eq, Structural)]
pub enum Condition {
    Less,
    Greater,
}

/// A condition over a label's samples. `value` is the firing threshold;
/// `value_ok` is the distinct recovery threshold used while the label is
/// already firing (hysteresis).
#[derive(Clone, Copy, Debug, PartialEq, Eq, Structural)]
pub enum AlertCondition {
    Avg { condition: Condition, value: i64, value_ok: i64 },
}

/// One point of a time series: epoch seconds and a fixed-point value.
#[derive(Clone, Copy, Debug, PartialEq, Eq, Structural)]
pub struct Sample {
    pub timestamp: u64,
    pub value: i64,
}

impl Default for AlertCondition {
    fn default() -> (r: Self)
        ensures
            r == (AlertCondition::Avg { condition: Condition::Less, value: 0i64, value_ok: 0i64 }),
    {
        AlertCondition::Avg { condition: Condition::Less, value: 0, value_ok: 0 }
    }
}

/// Sum of the values of a series.
pub open spec fn sum_samples(s: Seq<Sample>) -> int
    decreases s.len(),
{
    if s.len() == 0 {
        0
    } else {
        sum_samples(s.drop_last()) + s.last().value
    }
}

/// The threshold the evaluator compares against: the firing threshold when
/// the label was healthy (or never seen), the recovery threshold otherwise.
pub open spec fn hysteresis_threshold(cond: AlertCondition, prev: Option<AlertStatus>) -> int {
    match cond {
        AlertCondition::Avg { condition: _, value, value_ok } => {
            if prev is None || prev == Some(AlertStatus::Okay) {
                value as int
            } else {
                value_ok as int
            }
        },
    }
}

/// Whether the mean of a series of `count` samples summing to `total` is on
/// the firing side of `threshold`. An empty series has mean zero.
pub open spec fn condition_fires(cmp: Condition, total: int, count: nat, threshold: int) -> bool {
    if count == 0 {
        match cmp {
            Condition::Less => 0 < threshold,
            Condition::Greater => 0 > threshold,
        }
    } else {
        match cmp {
            Condition::Less => total < threshold * count,
            Condition::Greater => total > threshold * count,
        }
    }
}

/// The status the evaluator assigns to a label, given the label's previous
/// status (`None` for a label never seen before) and its samples.
pub open spec fn spec_evaluate(
    cond: AlertCondition,
    prev: Option<AlertStatus>,
    samples: Seq<Sample>,
) -> AlertStatus {
    let cmp = match cond {
        AlertCondition::Avg { condition, value: _, value_ok: _ } => condition,
    };
    if condition_fires(cmp, sum_samples(samples), samples.len(), hysteresis_threshold(cond, prev)) {
        AlertStatus::Firing
    } else {
        AlertStatus::Okay
    }
}

/// The sum of a series is bounded by its length times the extreme values.
proof fn lemma_sum_bounds(s: Seq<Sample>)
    ensures
        (s.len() as int) * (i64::MIN as int) <= sum_samples(s) <= (s.len() as int) * (
        i64::MAX as int),
    decreases s.len(),
{
    if s.len() > 0 {
        lemma_sum_bounds(s.drop_last());
    }
}

/// Reduce a label's samples to a status with the hysteresis rule.
pub fn evaluate(cond: &AlertCondition, prev: Option<AlertStatus>, samples: &Vec<Sample>) -> (
    status: AlertStatus)
    ensures
        status == spec_evaluate(*cond, prev, samples@),
{
    let mut total: i128 = 0;
    let mut i: usize = 0;
    while i < samples.len()
        invariant
            i <= samples.len(),
            total == sum_samples(samples@.take(i as int)),
        decreases samples.len() - i,
    {
        proof {
            assert(samples@.take(i + 1).drop_last() =~= samples@.take(i as int));
            assert(samples@.take(i + 1).last() == samples@[i as int]);
            lemma_sum_bounds(samples@.take(i + 1));
            assert((i + 1) * (i64::MIN as int) >= i128::MIN && (i + 1) * (i64::MAX as int)
                <= i128::MAX) by (nonlinear_arith)
                requires
                    0 <= i + 1 <= usize::MAX as int + 1,
            ;
        }
        total = total + samples[i].value as i128;
        i = i + 1;
    }
    proof {
        assert(samples@.take(samples@.len() as int) =~= samples@);
    }
    let prev_ok = match prev {
        None => true,
        Some(p) => p == AlertStatus::Okay,
    };
    let (cmp, threshold) = match *cond {
        AlertCondition::Avg { condition, value, value_ok } => {
            (condition, if prev_ok { value } else { value_ok })
        },
    };
    let n = samples.len();
    let fires = if n == 0 {
        match cmp {
            Condition::Less => 0 < threshold,
            Condition::Greater => 0 > threshold,
        }
    } else {
        proof {
            assert((threshold as int) * (n as int) >= i128::MIN && (threshold as int) * (n as int)
                <= i128::MAX) by (nonlinear_arith)
                requires
                    -0x8000_0000_0000_0000 <= threshold <= 0x7fff_ffff_ffff_ffff,
                    0 <= n <= 0xffff_ffff_ffff_ffff,
            ;
        }
        let bound: i128 = (threshold as i128) * (n as i128);
        match cmp {
            Condition::Less => total < bound,
            Condition::Greater => total > bound,
        }
    };
    if fires {
        AlertStatus::Firing
    } else {
        AlertStatus::Okay
    }
}

} // verus!
