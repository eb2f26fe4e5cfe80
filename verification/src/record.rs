//! One individual's career record, and the samples drawn from a collection of
//! records.

use vstd::prelude::*;
use crate::series::ints;
use crate::text::{same_text, trim, trimmed, Decimal};

verus! {

/// The attributes of an individual that the analyses read.
#[derive(Clone, Copy, Debug, PartialEq, Eq, Structural)]
pub enum Field {
    Age,
    YearsOfExperience,
    JobSatisfaction,
    ProfessionalNetworkSize,
    FamilyInfluence,
    Salary,
}

impl Field {
    /// The position, counted from zero, of the table column that holds this
    /// attribute.
    pub open spec fn column_index(self) -> int {
        match self {
            Field::Age => 2,
            Field::YearsOfExperience => 4,
            Field::JobSatisfaction => 7,
            Field::ProfessionalNetworkSize => 19,
            Field::FamilyInfluence => 14,
            Field::Salary => 10,
        }
    }

    /// The attribute's name as it appears in a report.
    pub open spec fn title(self) -> Seq<char> {
        match self {
            Field::Age => "Age"@,
            Field::YearsOfExperience => "Years of Experience"@,
            Field::JobSatisfaction => "Job Satisfaction"@,
            Field::ProfessionalNetworkSize => "Professional Network Size"@,
            Field::FamilyInfluence => "Family Influence"@,
            Field::Salary => "Salary"@,
        }
    }

    /// The position, counted from zero, of the table column that holds this
    /// attribute.
    pub fn column(self) -> (c: usize)
        ensures
            c == self.column_index(),
    {
        match self {
            Field::Age => 2,
            Field::YearsOfExperience => 4,
            Field::JobSatisfaction => 7,
            Field::ProfessionalNetworkSize => 19,
            Field::FamilyInfluence => 14,
            Field::Salary => 10,
        }
    }

    /// The attribute's name as it appears in a report.
    pub fn name(self) -> (s: &'static str)
        ensures
            s@ == self.title(),
    {
        match self {
            Field::Age => "Age",
            Field::YearsOfExperience => "Years of Experience",
            Field::JobSatisfaction => "Job Satisfaction",
            Field::ProfessionalNetworkSize => "Professional Network Size",
            Field::FamilyInfluence => "Family Influence",
            Field::Salary => "Salary",
        }
    }
}

/// How far an individual's family shaped the career, as an ordered category.
#[derive(Clone, Copy, Debug, PartialEq, Eq, Structural)]
pub enum FamilyInfluence {
    Low,
    Medium,
    High,
}

/// The category that a label names: `Low`, `Medium` or `High`, written exactly
/// so, with any whitespace around it ignored. Every other label names none.
pub open spec fn influence_of_label(label: Seq<char>) -> Option<FamilyInfluence> {
    let t = trimmed(label);
    if t == "Low"@ {
        Some(FamilyInfluence::Low)
    } else if t == "Medium"@ {
        Some(FamilyInfluence::Medium)
    } else if t == "High"@ {
        Some(FamilyInfluence::High)
    } else {
        None
    }
}

impl FamilyInfluence {
    /// The category's rank: 1 for `Low`, 2 for `Medium`, 3 for `High`.
    pub open spec fn rank(self) -> int {
        match self {
            FamilyInfluence::Low => 1,
            FamilyInfluence::Medium => 2,
            FamilyInfluence::High => 3,
        }
    }

    /// The category's rank: 1 for `Low`, 2 for `Medium`, 3 for `High`.
    pub fn code(self) -> (c: i32)
        ensures
            c == self.rank(),
    {
        match self {
            FamilyInfluence::Low => 1,
            FamilyInfluence::Medium => 2,
            FamilyInfluence::High => 3,
        }
    }

    /// The category that `label` names, if it names one.
    pub fn from_label(label: &str) -> (r: Option<FamilyInfluence>)
        ensures
            r == influence_of_label(label@),
    {
        let t = trim(label);
        if same_text(t, "Low") {
            Some(FamilyInfluence::Low)
        } else if same_text(t, "Medium") {
            Some(FamilyInfluence::Medium)
        } else if same_text(t, "High") {
            Some(FamilyInfluence::High)
        } else {
            None
        }
    }
}

/// One individual's record. It is built once, from one table row, and not
/// changed afterwards. Every number in it is a finite decimal number.
#[derive(Clone, Copy, Debug, PartialEq, Eq, Structural)]
pub struct Individual {
    /// The record's number among the records that were read, counted from
    /// zero in the order of their rows. No analysis reads it.
    pub id: usize,
    pub age: Decimal,
    pub years_of_experience: Decimal,
    pub job_satisfaction: Decimal,
    pub professional_network_size: Decimal,
    pub family_influence: FamilyInfluence,
    pub salary: Decimal,
}

impl Individual {
    /// The number that stands for the attribute `field`; for the family
    /// influence, its rank.
    pub open spec fn measure(self, field: Field) -> Decimal {
        match field {
            Field::Age => self.age,
            Field::YearsOfExperience => self.years_of_experience,
            Field::JobSatisfaction => self.job_satisfaction,
            Field::ProfessionalNetworkSize => self.professional_network_size,
            Field::FamilyInfluence => Decimal {
                mantissa: self.family_influence.rank() as i64,
                exponent: 0,
            },
            Field::Salary => self.salary,
        }
    }

    /// The number that stands for the attribute `field`; for the family
    /// influence, its rank.
    pub fn value(&self, field: Field) -> (v: Decimal)
        ensures
            v == self.measure(field),
    {
        match field {
            Field::Age => self.age,
            Field::YearsOfExperience => self.years_of_experience,
            Field::JobSatisfaction => self.job_satisfaction,
            Field::ProfessionalNetworkSize => self.professional_network_size,
            Field::FamilyInfluence => Decimal {
                mantissa: self.family_influence.code() as i64,
                exponent: 0,
            },
            Field::Salary => self.salary,
        }
    }
}

/// Ten to the power `k`.
pub open spec fn pow10(k: nat) -> int
    decreases k,
{
    if k == 0 {
        1
    } else {
        10 * pow10((k - 1) as nat)
    }
}

/// The smallest exponent among the values of `field` in the first `k` records;
/// zero where `k` is zero.
pub open spec fn least_exponent(records: Seq<Individual>, field: Field, k: nat) -> int
    decreases k,
{
    if k == 0 {
        0
    } else if k == 1 {
        records[0].measure(field).exponent as int
    } else {
        let before = least_exponent(records, field, (k - 1) as nat);
        let here = records[k - 1].measure(field).exponent as int;
        if here < before {
            here
        } else {
            before
        }
    }
}

/// The exponent `e` of the unit `10^e` in which the sample of `field` is
/// counted: the smallest exponent among the values.
pub open spec fn common_exponent(records: Seq<Individual>, field: Field) -> int {
    least_exponent(records, field, records.len())
}

/// The number `d` counted in units of `10^e`, for an `e` that is at most the
/// exponent of `d`: a whole number.
pub open spec fn in_units(d: Decimal, e: int) -> int {
    d.mantissa * pow10((d.exponent - e) as nat)
}

/// The sample of one attribute: its value for every record, in the order of the
/// records, each counted in units of ten to the power
/// [`common_exponent`].
pub open spec fn sample_of(records: Seq<Individual>, field: Field) -> Seq<int> {
    Seq::new(
        records.len(),
        |i: int| in_units(records[i].measure(field), common_exponent(records, field)),
    )
}

/// Whether every value of the sample fits in 64 bits.
pub open spec fn sample_fits(records: Seq<Individual>, field: Field) -> bool {
    forall|i: int|
        0 <= i < records.len() ==> i64::MIN <= #[trigger] sample_of(records, field)[i]
            <= i64::MAX
}

/// A sample as drawn: whole numbers, and the exponent of the unit in which they
/// count.
#[derive(Debug)]
pub struct Sample {
    pub values: Vec<i64>,
    pub exponent: i32,
}

/// Powers of ten are positive and multiply.
proof fn lemma_pow10(a: nat, b: nat)
    ensures
        pow10(a) >= 1,
        pow10(a + b) == pow10(a) * pow10(b),
    decreases a,
{
    if a == 0 {
        assert(pow10(0 + b) == 1 * pow10(b));
    } else {
        lemma_pow10((a - 1) as nat, b);
        let p = pow10((a - 1) as nat);
        let q = pow10(b);
        assert(pow10(a + b) == 10 * pow10((a - 1 + b) as nat));
        assert(10 * (p * q) == (10 * p) * q) by (nonlinear_arith);
    }
}

/// The smallest exponent is at most every exponent.
proof fn lemma_least_exponent(records: Seq<Individual>, field: Field, k: nat, i: int)
    requires
        0 <= i < k <= records.len(),
    ensures
        least_exponent(records, field, k) <= records[i].measure(field).exponent,
    decreases k,
{
    if k > 1 && i < k - 1 {
        lemma_least_exponent(records, field, (k - 1) as nat, i);
    }
}

/// Counts `d` in units of `10^e`. The result is `None` where the unit is
/// larger than the one that `d` is written in, and where the count does not
/// fit in 64 bits.
pub fn rescale(d: Decimal, e: i32) -> (r: Option<i64>)
    ensures
        r == if e <= d.exponent && i64::MIN <= in_units(d, e as int) <= i64::MAX {
            Some(in_units(d, e as int) as i64)
        } else {
            None
        },
{
    if e > d.exponent {
        return None;
    }
    let steps: i64 = d.exponent as i64 - e as i64;
    if d.mantissa == 0 {
        assert(0 * pow10(steps as nat) == 0) by (nonlinear_arith);
        return Some(0);
    }
    let mut v: i64 = d.mantissa;
    let mut j: i64 = 0;
    assert(d.mantissa * pow10(0) == d.mantissa) by (nonlinear_arith)
        requires
            pow10(0) == 1,
    ;
    while j < steps
        invariant
            steps == d.exponent - e,
            0 <= j <= steps,
            v == d.mantissa * pow10(j as nat),
        decreases steps - j,
    {
        let w: i128 = v as i128 * 10;
        proof {
            let m = d.mantissa as int;
            let p = pow10(j as nat);
            assert(pow10((j + 1) as nat) == 10 * p);
            assert((m * p) * 10 == m * (10 * p)) by (nonlinear_arith);
        }
        if w < i64::MIN as i128 || w > i64::MAX as i128 {
            proof {
                let rest = (steps - j - 1) as nat;
                lemma_pow10((j + 1) as nat, rest);
                lemma_pow10(rest, 0);
                let m = d.mantissa as int;
                let p = pow10((j + 1) as nat);
                let q = pow10(rest);
                assert((j + 1) as nat + rest == steps as nat);
                assert(m * (p * q) == (m * p) * q) by (nonlinear_arith);
                let t = m * p;
                assert(t > 0 ==> t * q >= t) by (nonlinear_arith)
                    requires
                        q >= 1,
                ;
                assert(t < 0 ==> t * q <= t) by (nonlinear_arith)
                    requires
                        q >= 1,
                ;
            }
            return None;
        }
        v = w as i64;
        j = j + 1;
    }
    Some(v)
}

/// Draws the sample of one attribute from the records, keeping their order, so
/// that position `i` of every sample comes from record `i`. The values are
/// counted in one unit, a power of ten, in which each is a whole number. Where
/// one of them does not fit in 64 bits there is no sample.
pub fn extract_sample(individuals: &[Individual], field: Field) -> (r: Option<Sample>)
    ensures
        r.is_some() == sample_fits(individuals@, field),
        r matches Some(sample) ==> sample.exponent == common_exponent(individuals@, field)
            && sample.values.len() == individuals.len() && ints(sample.values@) == sample_of(
            individuals@,
            field,
        ),
{
    let n: usize = individuals.len();
    let mut exponent: i32 = 0;
    let mut i: usize = 0;
    while i < n
        invariant
            n == individuals.len(),
            i <= n,
            exponent == least_exponent(individuals@, field, i as nat),
        decreases n - i,
    {
        let here = individuals[i].value(field).exponent;
        if i == 0 || here < exponent {
            exponent = here;
        }
        i = i + 1;
    }
    let ghost target = sample_of(individuals@, field);
    let mut values: Vec<i64> = Vec::new();
    let mut k: usize = 0;
    while k < n
        invariant
            n == individuals.len(),
            k <= n,
            exponent == common_exponent(individuals@, field),
            target == sample_of(individuals@, field),
            values.len() == k,
            forall|j: int| 0 <= j < k ==> values[j] == #[trigger] target[j],
        decreases n - k,
    {
        proof {
            lemma_least_exponent(individuals@, field, n as nat, k as int);
        }
        match rescale(individuals[k].value(field), exponent) {
            Some(v) => {
                values.push(v);
            },
            None => {
                assert(!(i64::MIN <= target[k as int] <= i64::MAX));
                return None;
            },
        }
        k = k + 1;
    }
    assert(ints(values@) =~= target);
    assert forall|j: int| 0 <= j < n implies i64::MIN <= #[trigger] target[j] <= i64::MAX by {
        assert(values[j] == target[j]);
    }
    Some(Sample { values, exponent })
}

} // verus!
