//! Composite scoring: positional rankings points, tie-shared sweepstakes
//! points, merge-by-identity accumulation, rounding, and the sweepstakes
//! cross-reference.

use uil_results::individual::{Individual, IndividualMisc};
use uil_results::overall::{
    assign_rankings_points_individuals, assign_rankings_points_teams, prefix_school_year_individuals, prefix_school_year_teams,
    assign_sweepstakes_points_individuals, assign_sweepstakes_points_teams,
    merge_points_individuals, merge_scores_individuals, merge_scores_teams,
    rankings_subjects, round_points_to_score, scores_from_points_individuals,
    subject_pause_ms, sweepstakes_subjects, sweepstakes_team_totals,
};
use uil_results::request::{RequestFields, Subject};
use uil_results::team::{Team, TeamMisc};

fn indiv(name: &str, score: i16) -> Individual {
    Individual {
        name: String::from(name),
        school: String::from("School"),
        conference: 3,
        district: Some(1),
        region: None,
        score,
        points: 0,
        advance: None,
        misc: IndividualMisc::Normal,
    }
}

fn indiv_pts(name: &str, school: &str, points: i64) -> Individual {
    Individual {
        name: String::from(name),
        school: String::from(school),
        conference: 3,
        district: Some(1),
        region: None,
        score: 0,
        points,
        advance: None,
        misc: IndividualMisc::Normal,
    }
}

fn team(school: &str, score: i16) -> Team {
    Team {
        school: String::from(school),
        score,
        conference: 3,
        district: Some(1),
        region: None,
        points: 0,
        advance: None,
        misc: TeamMisc::Normal,
    }
}

#[test]
fn rankings_points_by_position() {
    // points(position) = 5000 / (position + 4), rounded down.
    let sorted = vec![indiv("a", 500), indiv("b", 400), indiv("c", 300)];
    let scored = assign_rankings_points_individuals(sorted);
    assert_eq!(scored[0].score, 1000);
    assert_eq!(scored[1].score, 833);
    assert_eq!(scored[2].score, 714);
}

#[test]
fn rankings_points_ignore_ties() {
    // Equal scores still get distinct positional values: the asymmetry
    // with sweepstakes mode is deliberate.
    let sorted = vec![indiv("a", 500), indiv("b", 500)];
    let scored = assign_rankings_points_individuals(sorted);
    assert_eq!(scored[0].score, 1000);
    assert_eq!(scored[1].score, 833);
}

#[test]
fn rankings_points_teams() {
    let sorted = vec![team("x", 700), team("y", 600)];
    let scored = assign_rankings_points_teams(sorted);
    assert_eq!(scored[0].score, 1000);
    assert_eq!(scored[1].score, 833);
}

#[test]
fn sweepstakes_tie_split_pair_at_rank_zero() {
    // A tie group of size 2 at rank 0 splits (15 + 12) / 2 = 13.5 points
    // each, in thousandths.
    let sorted = vec![indiv("a", 90), indiv("b", 90), indiv("c", 80)];
    let scored = assign_sweepstakes_points_individuals(sorted);
    assert_eq!(scored[0].points, 13500);
    assert_eq!(scored[1].points, 13500);
    // The next group is at rank 1 and alone: it takes the 12-point slot.
    assert_eq!(scored[2].points, 12000);
}

#[test]
fn sweepstakes_singleton_at_rank_two_gets_ten() {
    let sorted = vec![indiv("a", 90), indiv("b", 85), indiv("c", 80), indiv("d", 70)];
    let scored = assign_sweepstakes_points_individuals(sorted);
    assert_eq!(scored[0].points, 15000);
    assert_eq!(scored[1].points, 12000);
    assert_eq!(scored[2].points, 10000);
    assert_eq!(scored[3].points, 8000);
}

#[test]
fn sweepstakes_groups_past_the_table_get_nothing() {
    let sorted: Vec<Individual> = (0..8).map(|i| indiv("x", 100 - i as i16)).collect();
    let scored = assign_sweepstakes_points_individuals(sorted);
    assert_eq!(scored[5].points, 4000);
    assert_eq!(scored[6].points, 0);
    assert_eq!(scored[7].points, 0);
}

#[test]
fn sweepstakes_team_tables() {
    let sorted = vec![team("x", 700), team("y", 700), team("z", 600)];
    let ordinary = assign_sweepstakes_points_teams(sorted, &Subject::Mathematics);
    // Two teams tie at rank 0 of the [10, 5] table: 7.5 each; the next
    // group sits at rank 1 and takes the 5-point slot alone.
    assert_eq!(ordinary[0].points, 7500);
    assert_eq!(ordinary[1].points, 7500);
    assert_eq!(ordinary[2].points, 5000);

    let sorted_cs = vec![team("x", 700), team("y", 700), team("z", 600)];
    let cs = assign_sweepstakes_points_teams(sorted_cs, &Subject::ComputerScience);
    // The computer-science table is [20, 16, 12]: (20 + 16) / 2 = 18 each;
    // the second group sits at rank 1 and alone takes the 16-point slot.
    assert_eq!(cs[0].points, 18000);
    assert_eq!(cs[1].points, 18000);
    assert_eq!(cs[2].points, 16000);
}

#[test]
fn merge_accumulates_by_name() {
    let acc = merge_scores_individuals(Vec::new(), vec![indiv("a", 100), indiv("b", 90)]);
    let acc = merge_scores_individuals(acc, vec![indiv("b", 50), indiv("c", 10)]);
    assert_eq!(acc.len(), 3);
    assert_eq!(acc[0].name, "a");
    assert_eq!(acc[0].score, 100);
    assert_eq!(acc[1].name, "b");
    assert_eq!(acc[1].score, 140);
    assert_eq!(acc[2].name, "c");
    assert_eq!(acc[2].score, 10);
}

#[test]
fn merge_in_two_passes_equals_merge_of_the_union() {
    // Accumulating two disjoint subject result sets one after the other
    // gives the same totals as accumulating their union at once.
    let xs = vec![indiv("a", 100), indiv("b", 90)];
    let ys = vec![indiv("b", 50), indiv("c", 10)];
    let mut union = Vec::new();
    union.extend(xs.iter().cloned());
    union.extend(ys.iter().cloned());

    let two_passes = merge_scores_individuals(merge_scores_individuals(Vec::new(), xs), ys);
    let one_pass = merge_scores_individuals(Vec::new(), union);
    assert_eq!(two_passes, one_pass);
}

#[test]
fn merge_teams_by_school() {
    let acc = merge_scores_teams(Vec::new(), vec![team("x", 100)]);
    let acc = merge_scores_teams(acc, vec![team("x", 50), team("y", 25)]);
    assert_eq!(acc.len(), 2);
    assert_eq!(acc[0].score, 150);
    assert_eq!(acc[1].score, 25);
}

#[test]
fn merge_points_accumulates() {
    let acc = merge_points_individuals(
        Vec::new(),
        vec![indiv_pts("a", "X", 13500), indiv_pts("b", "Y", 10000)],
    );
    let acc = merge_points_individuals(acc, vec![indiv_pts("a", "X", 15000)]);
    assert_eq!(acc[0].points, 28500);
    assert_eq!(acc[1].points, 10000);
}

#[test]
fn rounding_points_to_scores() {
    assert_eq!(round_points_to_score(13500), 14);
    assert_eq!(round_points_to_score(13499), 13);
    assert_eq!(round_points_to_score(-13500), -14);
    assert_eq!(round_points_to_score(0), 0);
    let scored = scores_from_points_individuals(vec![indiv_pts("a", "X", 29500)]);
    assert_eq!(scored[0].score, 30);
    assert_eq!(scored[0].points, 29500);
}

#[test]
fn team_totals_cross_reference_individual_points() {
    let mut t = team("X", 0);
    t.points = 10000;
    t.misc = TeamMisc::ComputerScience { prog: Some(1) };
    let individuals = vec![
        indiv_pts("a", "X", 13500),
        indiv_pts("b", "Y", 9999),
        indiv_pts("c", "X", 6000),
    ];
    let totals = sweepstakes_team_totals(vec![t], &individuals);
    assert_eq!(totals.len(), 1);
    assert_eq!(totals[0].points, 29500);
    assert_eq!(totals[0].score, 30);
    assert_eq!(totals[0].misc, TeamMisc::Normal);
}

#[test]
fn subject_lists() {
    let r = rankings_subjects();
    assert_eq!(r.len(), 8);
    assert_eq!(r[0], Subject::Accounting);
    assert_eq!(r[7], Subject::Spelling);

    let s_old = sweepstakes_subjects(2024);
    assert_eq!(s_old.len(), 10);
    assert!(s_old.contains(&Subject::ComputerApplications));
    let s_new = sweepstakes_subjects(2025);
    assert_eq!(s_new.len(), 9);
    assert!(!s_new.contains(&Subject::ComputerApplications));
}

#[test]
fn pacing_applies_to_single_district_requests() {
    let mut f = RequestFields {
        district: Some(5),
        region: None,
        state: false,
        subject: Subject::Mathematics,
        conference: 0,
        year: 2024,
    };
    assert_eq!(subject_pause_ms(&f), Some(500));
    f.district = Some(0);
    assert_eq!(subject_pause_ms(&f), None);
    f.district = None;
    f.region = Some(2);
    assert_eq!(subject_pause_ms(&f), None);
}

#[test]
fn merge_teams_two_passes_equals_union() {
    let xs = vec![team("x", 100), team("y", 90)];
    let ys = vec![team("y", 50), team("z", 10)];
    let mut union = Vec::new();
    union.extend(xs.iter().cloned());
    union.extend(ys.iter().cloned());
    let two_passes = merge_scores_teams(merge_scores_teams(Vec::new(), xs), ys);
    let one_pass = merge_scores_teams(Vec::new(), union);
    assert_eq!(two_passes, one_pass);
}

#[test]
fn rounding_saturates_at_the_score_range() {
    assert_eq!(round_points_to_score(i64::MAX), 32767);
    assert_eq!(round_points_to_score(i64::MIN), -32768);
    assert_eq!(round_points_to_score(32767499), 32767);
}

#[test]
fn year_prefix_labels_schools() {
    let labeled = prefix_school_year_individuals(vec![indiv_pts("a", "Central HS", 0)], 2019);
    assert_eq!(labeled[0].school, "2019 - Central HS");
    assert_eq!(labeled[0].name, "a");
    let tl = prefix_school_year_teams(vec![team("North HS", 5)], 2021);
    assert_eq!(tl[0].school, "2021 - North HS");
    assert_eq!(tl[0].score, 5);
}
