//! Record basics: defaults, equality, sorting, and tie grouping.

use uil_results::individual::{Individual, IndividualMisc};
use uil_results::overall::display_places;
use uil_results::team::{Team, TeamMisc};

fn indiv(name: &str, score: i16) -> Individual {
    Individual {
        name: String::from(name),
        school: String::from("School"),
        conference: 3,
        district: Some(1),
        region: None,
        score,
        points: 0,
        advance: None,
        misc: IndividualMisc::Normal,
    }
}

fn team(school: &str, score: i16) -> Team {
    Team {
        school: String::from(school),
        score,
        conference: 3,
        district: Some(1),
        region: None,
        points: 0,
        advance: None,
        misc: TeamMisc::Normal,
    }
}

#[test]
fn individual_default_is_empty() {
    let d = Individual::default();
    assert_eq!(d.name, "");
    assert_eq!(d.school, "");
    assert_eq!(d.conference, 0);
    assert_eq!(d.district, None);
    assert_eq!(d.region, None);
    assert_eq!(d.score, 0);
    assert_eq!(d.points, 0);
    assert!(d.advance.is_none());
    assert_eq!(d.misc, IndividualMisc::Normal);
}

#[test]
fn team_default_is_empty() {
    let d = Team::default();
    assert_eq!(d.school, "");
    assert_eq!(d.score, 0);
    assert!(d.advance.is_none());
    assert_eq!(d.misc, TeamMisc::Normal);
}

#[test]
fn record_equality_is_field_wise() {
    assert_eq!(indiv("A", 10), indiv("A", 10));
    assert_ne!(indiv("A", 10), indiv("A", 11));
    assert_ne!(indiv("A", 10), indiv("B", 10));
    assert_eq!(team("X", 5), team("X", 5));
    assert_ne!(team("X", 5), team("Y", 5));
}

#[test]
fn science_getters() {
    let mut x = indiv("A", 50);
    assert_eq!(x.get_biology(), None);
    x.misc = IndividualMisc::Science { biology: 10, chemistry: 20, physics: 30 };
    assert_eq!(x.get_biology(), Some(10));
    assert_eq!(x.get_chemistry(), Some(20));
    assert_eq!(x.get_physics(), Some(30));
}

#[test]
fn prog_getter() {
    let mut t = team("X", 5);
    assert_eq!(t.get_prog(), None);
    t.misc = TeamMisc::ComputerScience { prog: Some(90) };
    assert_eq!(t.get_prog(), Some(90));
    t.misc = TeamMisc::ComputerScience { prog: None };
    assert_eq!(t.get_prog(), None);
}

#[test]
fn sort_is_descending_and_stable() {
    let v = vec![indiv("a", 90), indiv("b", 90), indiv("c", 95), indiv("d", 80)];
    let sorted = Individual::sort_by_score_desc(v);
    let names: Vec<&str> = sorted.iter().map(|x| x.name.as_str()).collect();
    assert_eq!(names, vec!["c", "a", "b", "d"]);
}

#[test]
fn team_sort_is_descending_and_stable() {
    let v = vec![team("a", 1), team("b", 3), team("c", 3), team("d", 2)];
    let sorted = Team::sort_by_score_desc(v);
    let schools: Vec<&str> = sorted.iter().map(|x| x.school.as_str()).collect();
    assert_eq!(schools, vec!["b", "c", "d", "a"]);
}

#[test]
fn tie_groups_partition_the_example() {
    // Scores [90, 90, 80, 70, 70, 70] group as [[90, 90], [80], [70, 70, 70]].
    let v = vec![
        indiv("a", 90),
        indiv("b", 90),
        indiv("c", 80),
        indiv("d", 70),
        indiv("e", 70),
        indiv("f", 70),
    ];
    let groups = Individual::get_ties(v);
    assert_eq!(groups.len(), 3);
    assert_eq!(groups[0].len(), 2);
    assert_eq!(groups[1].len(), 1);
    assert_eq!(groups[2].len(), 3);
    assert_eq!(groups[0][0].name, "a");
    assert_eq!(groups[0][1].name, "b");
    assert_eq!(groups[1][0].name, "c");
    assert_eq!(groups[2][0].name, "d");
    assert_eq!(groups[2][2].name, "f");
    // Every member of one group shares its score, adjacent groups differ.
    for g in &groups {
        for x in g {
            assert_eq!(x.score, g[0].score);
        }
    }
    assert_ne!(groups[0][0].score, groups[1][0].score);
    assert_ne!(groups[1][0].score, groups[2][0].score);
    // Concatenating the groups reproduces the input.
    let flat: Vec<&str> = groups.iter().flatten().map(|x| x.name.as_str()).collect();
    assert_eq!(flat, vec!["a", "b", "c", "d", "e", "f"]);
}

#[test]
fn tie_groups_empty_input() {
    let groups = Individual::get_ties(Vec::new());
    assert_eq!(groups.len(), 0);
    let tgroups = Team::get_ties(Vec::new());
    assert_eq!(tgroups.len(), 0);
}

#[test]
fn team_tie_groups() {
    let v = vec![team("a", 10), team("b", 10), team("c", 5)];
    let groups = Team::get_ties(v);
    assert_eq!(groups.len(), 2);
    assert_eq!(groups[0].len(), 2);
    assert_eq!(groups[1].len(), 1);
}

#[test]
fn tie_aware_places() {
    let places = display_places(&vec![90, 90, 80, 70, 70, 60]);
    assert_eq!(places, vec![0, 0, 2, 3, 3, 5]);
    assert_eq!(display_places(&Vec::new()), Vec::<usize>::new());
}
