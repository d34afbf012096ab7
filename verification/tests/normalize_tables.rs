//! Row normalization: header-driven column resolution, marker rows,
//! lenient cells, name and school rewrites, and the science
//! best-in-category rule.

use uil_results::advance::AdvanceTypeIndividual;
use uil_results::individual::Individual;
use uil_results::individual::IndividualMisc;
use uil_results::normalize::{legacy_school, reverse_comma_name};
use uil_results::request::{RequestFields, Subject};
use uil_results::team::{RawRow, Team, TeamMisc};

fn fields(subject: Subject, year: u16) -> RequestFields {
    RequestFields {
        district: Some(5),
        region: None,
        state: false,
        subject,
        conference: 4,
        year,
    }
}

fn row(cells: &[&str]) -> Vec<String> {
    cells.iter().map(|c| String::from(*c)).collect()
}

fn raw_row(cells: &[&str], spans: &[Option<&str>]) -> RawRow {
    RawRow {
        cells: cells.iter().map(|c| String::from(*c)).collect(),
        spans: spans.iter().map(|s| s.map(String::from)).collect(),
    }
}

#[test]
fn individual_rows_modern_format() {
    let rows = vec![
        row(&["Place", "School", "Student", "Points", "Score"]),
        row(&["1", "Central HS", " Alice A ", "6", "100"]),
        row(&["2", "North HS", "Bob B", "4", "90"]),
    ];
    let f = fields(Subject::Mathematics, 2024);
    let r = Individual::parse_table(&rows, &f);
    assert_eq!(r.len(), 2);
    assert_eq!(r[0].name, "Alice A");
    assert_eq!(r[0].school, "Central HS");
    assert_eq!(r[0].score, 100);
    assert_eq!(r[0].points, 6000);
    assert_eq!(r[0].conference, 4);
    assert_eq!(r[0].district, Some(5));
    assert_eq!(r[0].region, None);
    assert!(r[0].advance.is_none());
    assert_eq!(r[0].misc, IndividualMisc::Normal);
    assert_eq!(r[1].name, "Bob B");
    assert_eq!(r[1].score, 90);
}

#[test]
fn lenient_row_with_bad_score_is_kept_at_zero() {
    // A row whose score cell is non-numeric text yields score 0 for that
    // record, without dropping the row.
    let rows = vec![
        row(&["Place", "School", "Student", "Points", "Score"]),
        row(&["1", "Central HS", "Alice A", "6", "n/a"]),
        row(&["2", "North HS", "Bob B", "4", "90"]),
    ];
    let f = fields(Subject::Mathematics, 2024);
    let r = Individual::parse_table(&rows, &f);
    assert_eq!(r.len(), 2);
    assert_eq!(r[0].score, 0);
    assert_eq!(r[0].name, "Alice A");
    assert_eq!(r[1].score, 90);
}

#[test]
fn advance_column_resolved_from_header() {
    let rows = vec![
        row(&["Place", "School", "Student", "Points", "Score", "Advance?"]),
        row(&["1", "Central HS", "Alice A", "6", "100", "Region"]),
        row(&["2", "North HS", "Bob B", "4", "90", ""]),
        row(&["3", "South HS", "Cara C", "2", "80", "State"]),
    ];
    let f = fields(Subject::Mathematics, 2024);
    let r = Individual::parse_table(&rows, &f);
    assert_eq!(r[0].advance, Some(AdvanceTypeIndividual::Indiv));
    assert_eq!(r[1].advance, None);
    assert_eq!(r[2].advance, Some(AdvanceTypeIndividual::Indiv));
}

#[test]
fn legacy_name_is_reversed_and_school_cleaned() {
    let rows = vec![
        row(&["Doe, John", "Central H S", "85"]),
    ];
    let f = fields(Subject::Mathematics, 2022);
    let r = Individual::parse_table(&rows, &f);
    assert_eq!(r.len(), 1);
    assert_eq!(r[0].name, "John Doe");
    assert_eq!(r[0].school, "Central HS");
    assert_eq!(r[0].score, 85);
}

#[test]
fn name_reversal_rules() {
    assert_eq!(reverse_comma_name("Doe,  John"), "John Doe");
    assert_eq!(reverse_comma_name("Single"), "Single");
    assert_eq!(reverse_comma_name("A,B,C"), "C B A");
    assert_eq!(reverse_comma_name(""), "");
}

#[test]
fn legacy_school_rules() {
    assert_eq!(legacy_school("Central H S"), "Central HS");
    assert_eq!(legacy_school("Bar, Some Address"), "Bar");
    assert_eq!(legacy_school("Plain School"), "Plain School");
    // An inner "H S" cuts the string there without the HS rewrite.
    assert_eq!(legacy_school("X H S Y"), "X ");
}

#[test]
fn science_breakdown_and_best_in_category() {
    // Post-2022 science rows carry biology/chemistry/physics in columns
    // five through seven and the overall score in column eight; the best
    // of each sub-score advances individually.
    let rows = vec![
        row(&["Place", "School", "Student", "Points", "Biology", "Chemistry", "Physics", "Score"]),
        row(&["1", "A HS", "Ann", "0", "40", "30", "20", "90"]),
        row(&["2", "B HS", "Ben", "0", "10", "35", "20", "65"]),
        row(&["3", "C HS", "Cal", "0", "10", "5", "25", "40"]),
        row(&["4", "D HS", "Dee", "0", "5", "5", "5", "15"]),
    ];
    let f = fields(Subject::Science, 2024);
    let r = Individual::parse_table(&rows, &f);
    assert_eq!(r.len(), 4);
    assert_eq!(r[0].misc, IndividualMisc::Science { biology: 40, chemistry: 30, physics: 20 });
    // Ann tops biology, Ben chemistry, Cal physics; Dee tops nothing.
    assert_eq!(r[0].advance, Some(AdvanceTypeIndividual::Indiv));
    assert_eq!(r[1].advance, Some(AdvanceTypeIndividual::Indiv));
    assert_eq!(r[2].advance, Some(AdvanceTypeIndividual::Indiv));
    assert_eq!(r[3].advance, None);
}

#[test]
fn missing_cells_read_as_empty() {
    let rows = vec![
        row(&["Place", "School", "Student", "Points", "Score"]),
        row(&["1", "Central HS"]),
    ];
    let f = fields(Subject::Mathematics, 2024);
    let r = Individual::parse_table(&rows, &f);
    assert_eq!(r.len(), 1);
    assert_eq!(r[0].name, "");
    assert_eq!(r[0].score, 0);
}

#[test]
fn team_rows_modern_format_with_marker_span() {
    let rows = vec![
        raw_row(&["Place", "School", "Score", "Advance?"], &[None, None, None, None]),
        raw_row(
            &["1", "Central HS#addr", "400", "Region"],
            &[None, Some("#addr"), None, None],
        ),
        raw_row(&["2", "North HS#x", "350", "Alternate"], &[None, Some("#x"), None, None]),
    ];
    let f = fields(Subject::Mathematics, 2024);
    let r = Team::parse_table(&rows, &f);
    assert_eq!(r.len(), 2);
    assert_eq!(r[0].school, "Central HS");
    assert_eq!(r[0].score, 400);
    assert_eq!(
        r[0].advance,
        Some(uil_results::advance::AdvanceTypeTeam::Advance)
    );
    assert_eq!(r[1].school, "North HS");
    assert_eq!(
        r[1].advance,
        Some(uil_results::advance::AdvanceTypeTeam::Alternate)
    );
}

#[test]
fn team_rows_computer_science_prog_score() {
    let rows = vec![
        raw_row(&["Place", "School", "Prog", "Score"], &[None, None, None, None]),
        raw_row(&["1", "Central HS", "90", "700"], &[None, None, None, None]),
        raw_row(&["2", "North HS", "", "600"], &[None, None, None, None]),
    ];
    let f = fields(Subject::ComputerScience, 2024);
    let r = Team::parse_table(&rows, &f);
    assert_eq!(r[0].misc, TeamMisc::ComputerScience { prog: Some(90) });
    assert_eq!(r[0].score, 700);
    assert_eq!(r[1].misc, TeamMisc::ComputerScience { prog: None });
}

#[test]
fn team_rows_legacy_format() {
    let rows = vec![
        raw_row(&["Central H S, 1 Main St", "ignored", "400"], &[None, None, None]),
    ];
    let f = fields(Subject::Mathematics, 2022);
    let r = Team::parse_table(&rows, &f);
    assert_eq!(r.len(), 1);
    assert_eq!(r[0].school, "Central HS");
    assert_eq!(r[0].score, 400);
    // No Advance? header was seen, so no advancement is read.
    assert_eq!(r[0].advance, None);
}
