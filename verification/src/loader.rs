//! From a comma-separated table to career records.
//!
//! A row becomes a record where each of the six cells that the analyses read
//! can be understood; any other row is left out and its position is noted.

use vstd::prelude::*;
use crate::record::{influence_of_label, FamilyInfluence, Field, Individual};
use crate::text::{parse_decimal, small_numeral, trim, trimmed, Decimal};

verus! {

/// The text of every cell of a row.
pub open spec fn row_texts(cells: Seq<String>) -> Seq<Seq<char>> {
    Seq::new(cells.len(), |i: int| cells[i]@)
}

/// The text of every cell of every row.
pub open spec fn table_texts(rows: Seq<Vec<String>>) -> Seq<Seq<Seq<char>>> {
    Seq::new(rows.len(), |i: int| row_texts(rows[i]@))
}

/// The number that the decimal numeral in the cell of `field` writes, with the
/// whitespace around it ignored. A row too short to have that cell has none.
pub open spec fn number_in(cells: Seq<Seq<char>>, field: Field) -> Option<Decimal> {
    if field.column_index() < cells.len() {
        small_numeral(trimmed(cells[field.column_index()]))
    } else {
        None
    }
}

/// The family influence that the row's cell names.
pub open spec fn influence_in(cells: Seq<Seq<char>>) -> Option<FamilyInfluence> {
    if Field::FamilyInfluence.column_index() < cells.len() {
        influence_of_label(cells[Field::FamilyInfluence.column_index()])
    } else {
        None
    }
}

/// The record that a row gives: one exists where all six cells can be
/// understood.
pub open spec fn record_of_row(cells: Seq<Seq<char>>, id: usize) -> Option<Individual> {
    if number_in(cells, Field::Age).is_some() && number_in(cells, Field::YearsOfExperience).is_some()
        && number_in(cells, Field::JobSatisfaction).is_some() && number_in(
        cells,
        Field::ProfessionalNetworkSize,
    ).is_some() && influence_in(cells).is_some() && number_in(cells, Field::Salary).is_some() {
        Some(
            Individual {
                id,
                age: number_in(cells, Field::Age).unwrap(),
                years_of_experience: number_in(cells, Field::YearsOfExperience).unwrap(),
                job_satisfaction: number_in(cells, Field::JobSatisfaction).unwrap(),
                professional_network_size: number_in(cells, Field::ProfessionalNetworkSize).unwrap(),
                family_influence: influence_in(cells).unwrap(),
                salary: number_in(cells, Field::Salary).unwrap(),
            },
        )
    } else {
        None
    }
}

/// The records that the first `k` rows give, in the order of the rows. Each
/// record's `id` is its own position among the records: the number of rows
/// before its row that gave a record.
pub open spec fn kept_rows(rows: Seq<Seq<Seq<char>>>, k: nat) -> Seq<Individual>
    decreases k,
{
    if k == 0 {
        Seq::empty()
    } else {
        let before = kept_rows(rows, (k - 1) as nat);
        match record_of_row(rows[k - 1], before.len() as usize) {
            Some(record) => before.push(record),
            None => before,
        }
    }
}

/// The positions, in ascending order, of those among the first `k` rows that
/// give no record.
pub open spec fn skipped_rows(rows: Seq<Seq<Seq<char>>>, k: nat) -> Seq<usize>
    decreases k,
{
    if k == 0 {
        Seq::empty()
    } else {
        let before = skipped_rows(rows, (k - 1) as nat);
        match record_of_row(rows[k - 1], 0) {
            Some(_) => before,
            None => before.push((k - 1) as usize),
        }
    }
}

/// Whether a row gives a record does not depend on the identifier.
proof fn lemma_id_is_free(cells: Seq<Seq<char>>, a: usize, b: usize)
    ensures
        record_of_row(cells, a).is_some() == record_of_row(cells, b).is_some(),
{
}

/// What loading a table gives.
#[derive(Debug)]
pub struct Dataset {
    /// The records, in the order of their rows, numbered from zero.
    pub individuals: Vec<Individual>,
    /// The positions of the rows that were left out, in ascending order.
    pub skipped: Vec<usize>,
}

fn number_at(cells: &[String], field: Field) -> (r: Option<Decimal>)
    ensures
        r == number_in(row_texts(cells@), field),
{
    let column = field.column();
    if column < cells.len() {
        parse_decimal(trim(cells[column].as_str()))
    } else {
        None
    }
}

fn influence_at(cells: &[String]) -> (r: Option<FamilyInfluence>)
    ensures
        r == influence_in(row_texts(cells@)),
{
    let column = Field::FamilyInfluence.column();
    if column < cells.len() {
        FamilyInfluence::from_label(cells[column].as_str())
    } else {
        None
    }
}

/// Reads one row. `id` is the identifier that the record gets.
pub fn parse_row(cells: &[String], id: usize) -> (r: Option<Individual>)
    ensures
        r == record_of_row(row_texts(cells@), id),
{
    let age = number_at(cells, Field::Age);
    let years_of_experience = number_at(cells, Field::YearsOfExperience);
    let job_satisfaction = number_at(cells, Field::JobSatisfaction);
    let professional_network_size = number_at(cells, Field::ProfessionalNetworkSize);
    let family_influence = influence_at(cells);
    let salary = number_at(cells, Field::Salary);
    match (
        age,
        years_of_experience,
        job_satisfaction,
        professional_network_size,
        family_influence,
        salary,
    ) {
        (
            Some(age),
            Some(years_of_experience),
            Some(job_satisfaction),
            Some(professional_network_size),
            Some(family_influence),
            Some(salary),
        ) => Some(
            Individual {
                id,
                age,
                years_of_experience,
                job_satisfaction,
                professional_network_size,
                family_influence,
                salary,
            },
        ),
        _ => None,
    }
}

/// Reads every row of a table, keeps the records of the rows that can be read
/// and notes the positions of the others.
pub fn load_rows(rows: &[Vec<String>]) -> (d: Dataset)
    ensures
        d.individuals@ == kept_rows(table_texts(rows@), rows.len() as nat),
        d.skipped@ == skipped_rows(table_texts(rows@), rows.len() as nat),
        forall|k: int| 0 <= k < d.individuals.len() ==> (#[trigger] d.individuals[k]).id == k,
{
    let n: usize = rows.len();
    let ghost table = table_texts(rows@);
    let mut individuals: Vec<Individual> = Vec::new();
    let mut skipped: Vec<usize> = Vec::new();
    let mut i: usize = 0;
    while i < n
        invariant
            n == rows.len(),
            i <= n,
            table == table_texts(rows@),
            individuals@ == kept_rows(table, i as nat),
            skipped@ == skipped_rows(table, i as nat),
            individuals.len() <= i,
            forall|k: int| 0 <= k < individuals.len() ==> (#[trigger] individuals[k]).id == k,
        decreases n - i,
    {
        assert(table[i as int] == row_texts(rows[i as int]@));
        proof {
            lemma_id_is_free(table[i as int], individuals.len(), 0);
        }
        match parse_row(rows[i].as_slice(), individuals.len()) {
            Some(record) => {
                individuals.push(record);
            },
            None => {
                skipped.push(i);
            },
        }
        i = i + 1;
    }
    Dataset { individuals, skipped }
}

} // verus!
