//! The fixed set of analyses that is run over a collection of records, and the
//! report that they make.

use vstd::prelude::*;
use vstd::string::StringExecFns;
use crate::descriptive::{calculate_descriptive_stats, is_summary_of, DescriptiveStats};
use crate::record::{common_exponent, extract_sample, sample_fits, sample_of, Field, Individual};
use crate::regression::{calculate_linear_regression, fit_of, within_reach, Regression, Strength};

verus! {

/// The pairs of attributes that are regressed, x first, in the order in which
/// they are reported.
pub open spec fn catalog_pairs() -> Seq<(Field, Field)> {
    seq![
        (Field::Age, Field::YearsOfExperience),
        (Field::Age, Field::JobSatisfaction),
        (Field::Age, Field::ProfessionalNetworkSize),
        (Field::YearsOfExperience, Field::ProfessionalNetworkSize),
        (Field::ProfessionalNetworkSize, Field::JobSatisfaction),
        (Field::FamilyInfluence, Field::Salary),
        (Field::Age, Field::Salary),
        (Field::YearsOfExperience, Field::Salary),
    ]
}

/// The attributes that are summarised, in the order in which they are
/// reported.
pub open spec fn summary_subjects() -> Seq<Field> {
    seq![
        Field::Age,
        Field::ProfessionalNetworkSize,
        Field::YearsOfExperience,
        Field::JobSatisfaction,
    ]
}

/// The label of the analysis of `y` against `x`.
pub open spec fn pair_title(x: Field, y: Field) -> Seq<char> {
    x.title() + " vs "@ + y.title()
}

/// One analysis of the catalog: two attributes and the label of the pair.
#[derive(Debug)]
pub struct AnalysisEntry {
    pub label: String,
    pub x: Field,
    pub y: Field,
}

/// The outcome of one analysis of the catalog.
///
/// The fit is that of the two samples as whole numbers, x counted in units of
/// `10^x_exponent` and y in units of `10^y_exponent`. The correlation, the
/// coefficient of determination and the strength are those of the attributes
/// themselves. The slope of the attributes is the fit's slope times
/// `10^(y_exponent - x_exponent)`, and their intercept is the fit's intercept
/// times `10^y_exponent`.
#[derive(Debug)]
pub struct PairAnalysis {
    pub label: String,
    pub x: Field,
    pub y: Field,
    /// The fit of the sample of `y` on the sample of `x`.
    pub regression: Regression,
    /// The band of the fit's correlation.
    pub strength: Strength,
    pub x_exponent: i32,
    pub y_exponent: i32,
}

/// The summary of one attribute. The sample is counted in units of
/// `10^exponent`: the mean, the minimum and the maximum of the attribute are
/// those of `stats` times `10^exponent`.
#[derive(Clone, Copy, Debug)]
pub struct FieldSummary {
    pub field: Field,
    pub stats: DescriptiveStats,
    pub exponent: i32,
}

/// Everything that is computed from a collection of records.
#[derive(Debug)]
pub struct Report {
    /// One outcome for each pair of the catalog, in the catalog's order.
    pub analyses: Vec<PairAnalysis>,
    /// One summary for each subject, in the subjects' order.
    pub summaries: Vec<FieldSummary>,
}

/// Why no report was made.
#[derive(Clone, Copy, Debug, PartialEq, Eq, Structural)]
pub enum AnalysisError {
    /// There is no record to analyse.
    EmptyDataset,
    /// The values of an attribute are too large, or too far apart in scale,
    /// for the exact arithmetic.
    OutOfRange,
}

/// Whether the samples of two attributes can be regressed: each fits in 64
/// bits and is within reach.
pub open spec fn pair_in_reach(records: Seq<Individual>, x: Field, y: Field) -> bool {
    &&& sample_fits(records, x)
    &&& sample_fits(records, y)
    &&& within_reach(sample_of(records, x))
    &&& within_reach(sample_of(records, y))
}

/// Whether every analysis of the catalog and every summary can be made.
pub open spec fn all_in_reach(records: Seq<Individual>) -> bool {
    &&& forall|i: int|
        0 <= i < catalog_pairs().len() ==> pair_in_reach(
            records,
            (#[trigger] catalog_pairs()[i]).0,
            catalog_pairs()[i].1,
        )
    &&& forall|i: int|
        0 <= i < summary_subjects().len() ==> sample_fits(records, #[trigger] summary_subjects()[i])
}

/// Whether `analysis` is the outcome of entry `i` of the catalog on `records`.
pub open spec fn is_analysis_of(analysis: PairAnalysis, i: int, records: Seq<Individual>) -> bool {
    &&& analysis.x == catalog_pairs()[i].0
    &&& analysis.y == catalog_pairs()[i].1
    &&& analysis.label@ == pair_title(analysis.x, analysis.y)
    &&& analysis.regression@ == fit_of(
        sample_of(records, analysis.x),
        sample_of(records, analysis.y),
    )
    &&& analysis.strength == analysis.regression@.strength()
    &&& analysis.x_exponent == common_exponent(records, analysis.x)
    &&& analysis.y_exponent == common_exponent(records, analysis.y)
}

/// Whether `summary` is the summary of subject `i` on `records`.
pub open spec fn is_field_summary_of(summary: FieldSummary, i: int, records: Seq<Individual>) -> bool {
    &&& summary.field == summary_subjects()[i]
    &&& is_summary_of(summary.stats@, sample_of(records, summary.field))
    &&& summary.exponent == common_exponent(records, summary.field)
}

/// Whether `report` is the report on `records`.
pub open spec fn is_report_of(report: Report, records: Seq<Individual>) -> bool {
    &&& report.analyses.len() == catalog_pairs().len()
    &&& forall|i: int|
        0 <= i < report.analyses.len() ==> is_analysis_of(
            #[trigger] report.analyses[i],
            i,
            records,
        )
    &&& report.summaries.len() == summary_subjects().len()
    &&& forall|i: int|
        0 <= i < report.summaries.len() ==> is_field_summary_of(
            #[trigger] report.summaries[i],
            i,
            records,
        )
}

fn entry(x: Field, y: Field) -> (e: AnalysisEntry)
    ensures
        e.x == x,
        e.y == y,
        e.label@ == pair_title(x, y),
{
    let mut label = String::from_str(x.name());
    label.append(" vs ");
    label.append(y.name());
    AnalysisEntry { label, x, y }
}

/// The catalog of analyses, in the order in which they are reported.
pub fn analysis_catalog() -> (catalog: Vec<AnalysisEntry>)
    ensures
        catalog.len() == catalog_pairs().len(),
        forall|i: int|
            0 <= i < catalog.len() ==> (#[trigger] catalog[i]).x == catalog_pairs()[i].0
                && catalog[i].y == catalog_pairs()[i].1 && catalog[i].label@ == pair_title(
                catalog[i].x,
                catalog[i].y,
            ),
{
    let mut catalog: Vec<AnalysisEntry> = Vec::new();
    catalog.push(entry(Field::Age, Field::YearsOfExperience));
    catalog.push(entry(Field::Age, Field::JobSatisfaction));
    catalog.push(entry(Field::Age, Field::ProfessionalNetworkSize));
    catalog.push(entry(Field::YearsOfExperience, Field::ProfessionalNetworkSize));
    catalog.push(entry(Field::ProfessionalNetworkSize, Field::JobSatisfaction));
    catalog.push(entry(Field::FamilyInfluence, Field::Salary));
    catalog.push(entry(Field::Age, Field::Salary));
    catalog.push(entry(Field::YearsOfExperience, Field::Salary));
    catalog
}

/// The attributes that are summarised, in the order in which they are
/// reported.
pub fn statistics_subjects() -> (subjects: Vec<Field>)
    ensures
        subjects@ == summary_subjects(),
{
    let mut subjects: Vec<Field> = Vec::new();
    subjects.push(Field::Age);
    subjects.push(Field::ProfessionalNetworkSize);
    subjects.push(Field::YearsOfExperience);
    subjects.push(Field::JobSatisfaction);
    assert(subjects@ =~= summary_subjects());
    subjects
}

/// Runs every analysis of the catalog over the records, then summarises every
/// subject.
///
/// With no record nothing is computed and `EmptyDataset` is returned. With
/// one record every regression is made, and none of its quotients is a
/// number. Where the values of an attribute are beyond the exact arithmetic,
/// `OutOfRange` is returned.
pub fn perform_correlation_analysis(individuals: &[Individual]) -> (r: Result<Report, AnalysisError>)
    ensures
        match r {
            Ok(report) => individuals.len() >= 1 && all_in_reach(individuals@) && is_report_of(
                report,
                individuals@,
            ),
            Err(AnalysisError::EmptyDataset) => individuals.len() == 0,
            Err(AnalysisError::OutOfRange) => individuals.len() >= 1 && !all_in_reach(
                individuals@,
            ),
        },
{
    if individuals.len() == 0 {
        return Err(AnalysisError::EmptyDataset);
    }
    let catalog = analysis_catalog();
    let mut analyses: Vec<PairAnalysis> = Vec::new();
    let mut i: usize = 0;
    while i < catalog.len()
        invariant
            individuals.len() > 0,
            i <= catalog.len(),
            catalog.len() == catalog_pairs().len(),
            forall|j: int|
                0 <= j < catalog.len() ==> (#[trigger] catalog[j]).x == catalog_pairs()[j].0
                    && catalog[j].y == catalog_pairs()[j].1 && catalog[j].label@ == pair_title(
                    catalog[j].x,
                    catalog[j].y,
                ),
            analyses.len() == i,
            forall|j: int| 0 <= j < i ==> is_analysis_of(#[trigger] analyses[j], j, individuals@),
            forall|j: int|
                0 <= j < i ==> pair_in_reach(
                    individuals@,
                    (#[trigger] catalog_pairs()[j]).0,
                    catalog_pairs()[j].1,
                ),
        decreases catalog.len() - i,
    {
        let x = catalog[i].x;
        let y = catalog[i].y;
        assert(x == catalog_pairs()[i as int].0 && y == catalog_pairs()[i as int].1);
        let xs = match extract_sample(individuals, x) {
            Some(sample) => sample,
            None => {
                return Err(AnalysisError::OutOfRange);
            },
        };
        let ys = match extract_sample(individuals, y) {
            Some(sample) => sample,
            None => {
                return Err(AnalysisError::OutOfRange);
            },
        };
        match calculate_linear_regression(xs.values.as_slice(), ys.values.as_slice()) {
            Ok(regression) => {
                let strength = regression.strength();
                let label = catalog[i].label.clone();
                analyses.push(
                    PairAnalysis {
                        label,
                        x,
                        y,
                        regression,
                        strength,
                        x_exponent: xs.exponent,
                        y_exponent: ys.exponent,
                    },
                );
            },
            Err(_) => {
                return Err(AnalysisError::OutOfRange);
            },
        }
        i = i + 1;
    }
    let subjects = statistics_subjects();
    let mut summaries: Vec<FieldSummary> = Vec::new();
    let mut k: usize = 0;
    while k < subjects.len()
        invariant
            individuals.len() > 0,
            k <= subjects.len(),
            subjects@ == summary_subjects(),
            summaries.len() == k,
            forall|j: int|
                0 <= j < k ==> is_field_summary_of(#[trigger] summaries[j], j, individuals@),
            forall|j: int|
                0 <= j < k ==> sample_fits(individuals@, #[trigger] summary_subjects()[j]),
        decreases subjects.len() - k,
    {
        let field = subjects[k];
        assert(field == summary_subjects()[k as int]);
        let sample = match extract_sample(individuals, field) {
            Some(sample) => sample,
            None => {
                return Err(AnalysisError::OutOfRange);
            },
        };
        if let Some(stats) = calculate_descriptive_stats(sample.values.as_slice()) {
            summaries.push(FieldSummary { field, stats, exponent: sample.exponent });
        }
        k = k + 1;
    }
    Ok(Report { analyses, summaries })
}

} // verus!
