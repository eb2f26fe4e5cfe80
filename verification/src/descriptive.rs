//! Mean, minimum and maximum of one sample of whole numbers.

use vstd::prelude::*;
use crate::ratio::{Fraction, Ratio};
use crate::series::{ints, prefix_sum, total};
use crate::series::{lemma_prefix_sum_bounds, lemma_prefix_sum_constant};
use crate::wide::{magnitude, Wide};

verus! {

/// The summary of a sample, as mathematical integers.
pub struct Summary {
    /// Number of values.
    pub count: int,
    /// Sum of the values.
    pub sum: int,
    /// Smallest value.
    pub min: int,
    /// Largest value.
    pub max: int,
}

impl Summary {
    /// The arithmetic mean: the sum divided by the number of values.
    pub open spec fn mean(self) -> Ratio {
        Ratio { num: self.sum, den: self.count }
    }
}

/// `m` occurs in `s` and no value of `s` is smaller.
pub open spec fn is_minimum(m: int, s: Seq<int>) -> bool {
    (exists|i: int| 0 <= i < s.len() && s[i] == m) && (forall|i: int|
        0 <= i < s.len() ==> m <= s[i])
}

/// `m` occurs in `s` and no value of `s` is larger.
pub open spec fn is_maximum(m: int, s: Seq<int>) -> bool {
    (exists|i: int| 0 <= i < s.len() && s[i] == m) && (forall|i: int|
        0 <= i < s.len() ==> s[i] <= m)
}

/// Whether `d` is the summary of the sample `s`.
pub open spec fn is_summary_of(d: Summary, s: Seq<int>) -> bool {
    d.count == s.len() && d.sum == total(s) && is_minimum(d.min, s) && is_maximum(d.max, s)
}

/// The summary of a sample, as computed.
#[derive(Clone, Copy, Debug)]
pub struct DescriptiveStats {
    /// Number of values.
    pub count: usize,
    /// Sum of the values.
    pub sum: i128,
    /// Smallest value.
    pub min: i64,
    /// Largest value.
    pub max: i64,
}

impl View for DescriptiveStats {
    type V = Summary;

    open spec fn view(&self) -> Summary {
        Summary {
            count: self.count as int,
            sum: self.sum as int,
            min: self.min as int,
            max: self.max as int,
        }
    }
}

impl DescriptiveStats {
    /// The arithmetic mean, as an exact quotient.
    pub fn mean(&self) -> (f: Fraction)
        ensures
            f@ == self@.mean(),
    {
        Fraction {
            negative: self.sum < 0,
            numerator: Wide::from_limb(magnitude(self.sum)),
            denominator: Wide::from_limb(self.count as u128),
        }
    }
}

/// Summarises a sample. An empty sample has no summary.
pub fn calculate_descriptive_stats(data: &[i64]) -> (r: Option<DescriptiveStats>)
    ensures
        r.is_none() <==> data.len() == 0,
        r matches Some(d) ==> is_summary_of(d@, ints(data@)),
{
    let n: usize = data.len();
    if n == 0 {
        return None;
    }
    let ghost s = ints(data@);
    let mut sum: i128 = data[0] as i128;
    let mut min: i64 = data[0];
    let mut max: i64 = data[0];
    let ghost mut at_min: int = 0;
    let ghost mut at_max: int = 0;
    let mut i: usize = 1;
    assert(prefix_sum(s, 1) == prefix_sum(s, 0) + s[0]);
    while i < n
        invariant
            n == data.len(),
            1 <= i <= n,
            s == ints(data@),
            sum == prefix_sum(s, i as nat),
            0 <= at_min < i,
            0 <= at_max < i,
            s[at_min] == min,
            s[at_max] == max,
            forall|j: int| 0 <= j < i ==> min <= #[trigger] s[j] && s[j] <= max,
        decreases n - i,
    {
        proof {
            lemma_prefix_sum_bounds(s, (i + 1) as nat, -0x8000_0000_0000_0000, 0x8000_0000_0000_0000);
            assert(s[i as int] == data[i as int]);
        }
        let v: i64 = data[i];
        sum = sum + v as i128;
        if v < min {
            min = v;
            proof {
                at_min = i as int;
            }
        }
        if v > max {
            max = v;
            proof {
                at_max = i as int;
            }
        }
        i = i + 1;
    }
    Some(DescriptiveStats { count: n, sum, min, max })
}

/// The mean of a sample that is not empty lies between its minimum and its
/// maximum.
pub proof fn lemma_mean_between_extremes(d: Summary, s: Seq<int>)
    requires
        s.len() >= 1,
        is_summary_of(d, s),
    ensures
        d.min <= d.max,
        d.mean().at_least(d.min),
        d.mean().at_most(d.max),
{
    lemma_prefix_sum_bounds(s, s.len(), d.min, d.max);
    assert(d.min <= s[0] <= d.max);
    let n = s.len() as int;
    assert(d.min * n == n * d.min && d.max * n == n * d.max) by (nonlinear_arith);
}

/// The mean of a sample whose values all equal `v` is `v`, and so are its
/// minimum and its maximum.
pub proof fn lemma_mean_of_identical(d: Summary, s: Seq<int>, v: int)
    requires
        s.len() >= 1,
        is_summary_of(d, s),
        forall|i: int| 0 <= i < s.len() ==> s[i] == v,
    ensures
        d.mean().same_value(Ratio { num: v, den: 1 }),
        d.min == v,
        d.max == v,
{
    lemma_prefix_sum_constant(s, s.len(), v);
    assert(s[0] == v);
    let n = s.len() as int;
    assert((n * v) * 1 == v * n) by (nonlinear_arith);
}

} // verus!
