//! Qualification: winners, wildcards, deduplication, annotation, and the
//! propagation of team advancement to individuals.

use uil_results::advance::{
    mark_individuals_by_team_advance, AdvanceTypeIndividual, AdvanceTypeTeam,
};
use uil_results::individual::{Individual, IndividualMisc};
use uil_results::team::{dedup_teams, Team, TeamMisc};

fn team_at(school: &str, district: u8, conference: u8, score: i16) -> Team {
    Team {
        school: String::from(school),
        score,
        conference,
        district: Some(district),
        region: None,
        points: 0,
        advance: None,
        misc: TeamMisc::Normal,
    }
}

fn indiv_of(name: &str, school: &str) -> Individual {
    Individual {
        name: String::from(name),
        school: String::from(school),
        conference: 3,
        district: Some(1),
        region: None,
        score: 50,
        points: 0,
        advance: None,
        misc: IndividualMisc::Normal,
    }
}

#[test]
fn winners_and_wildcards() {
    // District 1 conference 3: 90 beats 80. District 2 conference 3: 85
    // wins alone. The 80 team is the best non-winner of region 1 and takes
    // its wildcard slot; the 85 team wins its own district and is never a
    // wildcard.
    let teams = vec![
        team_at("Alpha", 1, 3, 90),
        team_at("Beta", 1, 3, 80),
        team_at("Gamma", 2, 3, 85),
    ];
    let advancing = Team::get_advancing(teams);
    let schools: Vec<&str> = advancing.iter().map(|t| t.school.as_str()).collect();
    assert_eq!(schools, vec!["Alpha", "Gamma", "Beta"]);
}

#[test]
fn annotate_sets_statuses() {
    let teams = vec![
        team_at("Alpha", 1, 3, 90),
        team_at("Beta", 1, 3, 80),
        team_at("Gamma", 2, 3, 85),
    ];
    let annotated = Team::annotate(teams);
    assert_eq!(annotated.len(), 3);
    assert_eq!(annotated[0].advance, Some(AdvanceTypeTeam::Advance));
    assert_eq!(annotated[1].advance, Some(AdvanceTypeTeam::Alternate));
    assert_eq!(annotated[2].advance, Some(AdvanceTypeTeam::Advance));
    assert_eq!(annotated[0].school, "Alpha");
    assert_eq!(annotated[1].school, "Beta");
    assert_eq!(annotated[2].school, "Gamma");
}

#[test]
fn wildcard_is_best_non_winner_of_the_region() {
    // Districts 1 and 2 both feed region 1. The best beaten team across
    // both districts takes the single wildcard slot.
    let teams = vec![
        team_at("A1", 1, 3, 90),
        team_at("A2", 1, 3, 70),
        team_at("B1", 2, 3, 85),
        team_at("B2", 2, 3, 80),
    ];
    let advancing = Team::get_advancing(teams);
    let schools: Vec<&str> = advancing.iter().map(|t| t.school.as_str()).collect();
    // Winners first (A1, B1), then the one wildcard: B2 outscores A2.
    assert_eq!(schools, vec!["A1", "B1", "B2"]);
}

#[test]
fn single_entry_is_its_own_winner() {
    let teams = vec![team_at("Solo", 7, 2, 10)];
    let advancing = Team::get_advancing(teams);
    assert_eq!(advancing.len(), 1);
    assert_eq!(advancing[0].school, "Solo");
}

#[test]
fn empty_input_yields_empty_results() {
    assert_eq!(Team::get_advancing(Vec::new()).len(), 0);
    assert_eq!(Team::annotate(Vec::new()).len(), 0);
}

#[test]
fn conferences_are_ranked_separately() {
    // Same district, different conferences: both teams win their own key.
    let teams = vec![team_at("A", 1, 2, 50), team_at("B", 1, 3, 40)];
    let advancing = Team::get_advancing(teams);
    assert_eq!(advancing.len(), 2);
}

#[test]
fn duplicate_records_collapse() {
    let teams = vec![
        team_at("A", 1, 3, 90),
        team_at("A", 1, 3, 90),
        team_at("B", 1, 3, 80),
    ];
    let ds = dedup_teams(teams);
    assert_eq!(ds.len(), 2);
    assert_eq!(ds[0].school, "A");
    assert_eq!(ds[1].school, "B");
}

#[test]
fn max_score_tie_goes_to_the_earliest_record() {
    let teams = vec![
        team_at("First", 1, 3, 90),
        team_at("Second", 1, 3, 90),
    ];
    let annotated = Team::annotate(teams);
    assert_eq!(annotated[0].advance, Some(AdvanceTypeTeam::Advance));
    // The tied runner-up is not beaten (no strictly higher score), so it
    // is no wildcard either.
    assert_eq!(annotated[1].advance, None);
}

#[test]
fn team_advance_carries_individuals() {
    let mut advancing_team = team_at("Carried", 1, 3, 90);
    advancing_team.advance = Some(AdvanceTypeTeam::Advance);
    let mut alternate_team = team_at("Backup", 2, 3, 80);
    alternate_team.advance = Some(AdvanceTypeTeam::Alternate);
    let plain_team = team_at("Plain", 3, 3, 70);
    let teams = vec![advancing_team, alternate_team, plain_team];

    let mut own = indiv_of("Already", "Plain");
    own.advance = Some(AdvanceTypeIndividual::Indiv);
    let individuals = vec![
        indiv_of("Ann", "Carried"),
        indiv_of("Ben", "Backup"),
        indiv_of("Cal", "Plain"),
        indiv_of("Dee", "Elsewhere"),
        own,
    ];
    let marked = mark_individuals_by_team_advance(individuals, &teams);
    assert_eq!(marked[0].advance, Some(AdvanceTypeIndividual::Team));
    assert_eq!(marked[1].advance, Some(AdvanceTypeIndividual::Wild));
    assert_eq!(marked[2].advance, None);
    assert_eq!(marked[3].advance, None);
    assert_eq!(marked[4].advance, Some(AdvanceTypeIndividual::Indiv));
}

#[test]
fn annotate_keeps_the_other_fields() {
    let mut t = team_at("Alpha", 1, 3, 90);
    t.points = 1234;
    t.misc = TeamMisc::ComputerScience { prog: Some(7) };
    let annotated = Team::annotate(vec![t]);
    assert_eq!(annotated[0].advance, Some(AdvanceTypeTeam::Advance));
    assert_eq!(annotated[0].school, "Alpha");
    assert_eq!(annotated[0].score, 90);
    assert_eq!(annotated[0].points, 1234);
    assert_eq!(annotated[0].misc, TeamMisc::ComputerScience { prog: Some(7) });
    assert_eq!(annotated[0].district, Some(1));
}

#[test]
fn region_teams_feed_the_state_wildcard() {
    let mut a = team_at("RWinner", 0, 3, 90);
    a.district = None;
    a.region = Some(2);
    let mut b = team_at("RSecond", 0, 3, 80);
    b.district = None;
    b.region = Some(2);
    let mut c = team_at("ROther", 0, 3, 70);
    c.district = None;
    c.region = Some(3);
    let advancing = Team::get_advancing(vec![a, b, c]);
    let schools: Vec<&str> = advancing.iter().map(|t| t.school.as_str()).collect();
    // Both regions have winners; the best beaten region team takes the
    // one state wildcard slot.
    assert_eq!(schools, vec!["RWinner", "ROther", "RSecond"]);
}
