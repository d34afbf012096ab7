//! Request expansion, scopes, conference ranges, query URLs, and the
//! historical mode's pacing parameters.

use uil_results::request::{
    district_as_region, old_school, request_url, results_pending, RequestFields, Subject,
};
use uil_results::scrape::{
    conferences_for_year, expand_units, highscores_pause_ms, highscores_unit_weight,
    highscores_year_end, highscores_year_start, scope_of, Scope,
};

fn fields(subject: Subject, year: u16) -> RequestFields {
    RequestFields {
        district: None,
        region: None,
        state: false,
        subject,
        conference: 0,
        year,
    }
}

#[test]
fn all_districts_times_two_conferences_is_64_units() {
    // Conference range 2-3 with "all districts": exactly 2 x 32 = 64
    // fetch units, and the merged results of the units are exactly the
    // concatenation of the per-unit contributions.
    let mut f = fields(Subject::Mathematics, 2024);
    f.district = Some(0);
    let conferences = RequestFields::parse_range(String::from("2-3")).unwrap();
    assert_eq!(conferences, vec![2, 3]);
    let units = expand_units(&f, conferences);
    assert_eq!(units.len(), 64);
    for (i, u) in units.iter().enumerate() {
        let conference = if i < 32 { 2 } else { 3 };
        let district = (i % 32) as u8 + 1;
        assert_eq!(u.conference, conference);
        assert_eq!(u.district, Some(district));
        assert_eq!(u.region, None);
        assert!(!u.state);
    }
    // Merging unit results is plain accumulation: the union of per-unit
    // contributions, independent of grouping.
    let unit_a = vec![1u8, 2];
    let unit_b = vec![3u8];
    let unit_c: Vec<u8> = Vec::new();
    let mut merged = Vec::new();
    merged.extend(unit_a.iter().cloned());
    merged.extend(unit_b.iter().cloned());
    merged.extend(unit_c.iter().cloned());
    assert_eq!(merged, vec![1, 2, 3]);
}

#[test]
fn all_regions_expands_to_four_units() {
    let mut f = fields(Subject::Science, 2024);
    f.region = Some(0);
    let units = expand_units(&f, vec![4]);
    assert_eq!(units.len(), 4);
    for (i, u) in units.iter().enumerate() {
        assert_eq!(u.region, Some(i as u8 + 1));
        assert_eq!(u.district, None);
        assert_eq!(u.conference, 4);
    }
}

#[test]
fn region_constraint_narrows_all_districts_to_eight() {
    let mut f = fields(Subject::Science, 2024);
    f.district = Some(0);
    f.region = Some(3);
    let units = expand_units(&f, vec![5]);
    assert_eq!(units.len(), 8);
    assert_eq!(units[0].district, Some(17));
    assert_eq!(units[7].district, Some(24));
}

#[test]
fn specific_requests_expand_to_one_unit_each() {
    let mut f = fields(Subject::Spelling, 2024);
    f.district = Some(9);
    let units = expand_units(&f, vec![1, 2]);
    assert_eq!(units.len(), 2);
    assert_eq!(units[0].district, Some(9));
    assert_eq!(units[0].conference, 1);
    assert_eq!(units[1].conference, 2);

    let mut s = fields(Subject::Spelling, 2024);
    s.state = true;
    let state_units = expand_units(&s, vec![6]);
    assert_eq!(state_units.len(), 1);
    assert!(state_units[0].state);
}

#[test]
fn duplicate_conferences_collapse() {
    let mut f = fields(Subject::Spelling, 2024);
    f.district = Some(9);
    let units = expand_units(&f, vec![3, 3, 3]);
    assert_eq!(units.len(), 1);
}

#[test]
fn scope_precedence_is_state_region_district() {
    let mut f = fields(Subject::Mathematics, 2024);
    assert_eq!(scope_of(&f), None);
    f.district = Some(4);
    assert_eq!(scope_of(&f), Some(Scope::District(4)));
    f.region = Some(2);
    assert_eq!(scope_of(&f), Some(Scope::Region(2)));
    f.state = true;
    assert_eq!(scope_of(&f), Some(Scope::State));
}

#[test]
fn conference_range_parsing() {
    assert_eq!(RequestFields::parse_range(String::from("16")).unwrap(), vec![1, 2, 3, 4, 5, 6]);
    assert_eq!(RequestFields::parse_range(String::from("3")).unwrap(), vec![3]);
    assert_eq!(RequestFields::parse_range(String::from("52")).unwrap(), vec![2, 3, 4, 5]);
    assert_eq!(RequestFields::parse_range(String::from("2,5")).unwrap(), vec![2, 5]);
    assert_eq!(RequestFields::parse_range(String::from("0,7")).unwrap(), vec![0, 7]);
    assert_eq!(RequestFields::parse_range(String::from("")), None);
    assert_eq!(RequestFields::parse_range(String::from("9")), None);
    assert_eq!(RequestFields::parse_range(String::from("07")), None);
    assert_eq!(RequestFields::parse_range(String::from("abc")), None);
    assert_eq!(RequestFields::parse_range(String::from(" 3 , 5")), None);
}

#[test]
fn subject_keywords() {
    assert_eq!(Subject::from_str("MATH"), Some(Subject::Mathematics));
    assert_eq!(Subject::from_str("ns"), Some(Subject::NumberSense));
    assert_eq!(Subject::from_str("overall"), Some(Subject::Sweepstakes));
    assert_eq!(Subject::from_str("rank"), Some(Subject::Rankings));
    assert_eq!(Subject::from_str("hs"), Some(Subject::Highscores));
    assert_eq!(Subject::from_str("nope"), None);
    assert_eq!(Subject::Mathematics.to_string(), "Mathematics");
    assert_eq!(Subject::Science.to_legacy_string(), "SCI");
    assert_eq!(Subject::Mathematics.to_i8(), 10);
    assert_eq!(Subject::Rankings.to_i8(), -1);
}

#[test]
fn district_region_mapping() {
    assert_eq!(district_as_region(Some(1)), Some(1));
    assert_eq!(district_as_region(Some(8)), Some(1));
    assert_eq!(district_as_region(Some(9)), Some(2));
    assert_eq!(district_as_region(Some(24)), Some(3));
    assert_eq!(district_as_region(Some(32)), Some(4));
    assert_eq!(district_as_region(Some(0)), None);
    assert_eq!(district_as_region(Some(33)), None);
    assert_eq!(district_as_region(None), None);
}

#[test]
fn modern_query_url() {
    let f = RequestFields {
        district: Some(5),
        region: None,
        state: false,
        subject: Subject::Mathematics,
        conference: 4,
        year: 2024,
    };
    assert_eq!(
        request_url(f),
        "https://postings.speechwire.com/r-uil-academics.php?groupingid=10&Submit=View+postings&region=&district=5&state=&conference=4&seasonid=16"
    );
}

#[test]
fn legacy_query_url() {
    let f = RequestFields {
        district: Some(3),
        region: None,
        state: false,
        subject: Subject::Science,
        conference: 5,
        year: 2020,
    };
    let url = old_school(f);
    assert_eq!(
        url,
        "https://utdirect.utexas.edu/nlogon/uil/vlcp_pub_arch.WBX?s_year=2020&s_conference=5A&s_level_id=D&s_level_nbr=3&s_event_abbr=SCI&s_submit_sw=X"
    );
    assert_eq!(request_url(f), url);

    let s = RequestFields {
        district: None,
        region: None,
        state: true,
        subject: Subject::NumberSense,
        conference: 1,
        year: 2010,
    };
    assert_eq!(
        old_school(s),
        "https://utdirect.utexas.edu/nlogon/uil/vlcp_pub_arch.WBX?s_year=2010&s_conference=1A&s_level_id=S&s_level_nbr=&s_event_abbr=NUM&s_submit_sw=X"
    );
}

#[test]
fn not_open_marker_is_detected() {
    assert!(results_pending(
        "<html>Please click a District to view results for.</html>"
    ));
    assert!(!results_pending("<html>Results table</html>"));
}

#[test]
fn highscores_parameters() {
    let mut f = fields(Subject::ComputerScience, 2024);
    assert_eq!(highscores_year_start(&f), 2004);
    f.region = Some(1);
    assert_eq!(highscores_year_start(&f), 2005);
    assert_eq!(highscores_year_end(&f, 2026), 2026);
    let ca = fields(Subject::ComputerApplications, 2024);
    assert_eq!(highscores_year_end(&ca, 2026), 2024);

    assert_eq!(conferences_for_year(2014, &vec![1, 2, 6]), vec![1, 2]);
    assert_eq!(conferences_for_year(2015, &vec![1, 2, 6]), vec![1, 2, 6]);
    assert_eq!(conferences_for_year(2014, &vec![1, 2]), vec![1, 2]);

    let mut d = fields(Subject::Rankings, 2024);
    d.district = Some(0);
    assert_eq!(highscores_unit_weight(&d, 2), 2 * 32 * 8);
    assert_eq!(highscores_pause_ms(&d), 2000);
    let mut r = fields(Subject::Mathematics, 2024);
    r.region = Some(0);
    assert_eq!(highscores_unit_weight(&r, 3), 3 * 4);
    assert_eq!(highscores_pause_ms(&r), 1000);
}

#[test]
fn all_regions_multiply_by_conferences() {
    let mut f = RequestFields {
        district: None,
        region: Some(0),
        state: false,
        subject: Subject::Calculator,
        conference: 0,
        year: 2024,
    };
    let units = expand_units(&f, vec![1, 2]);
    assert_eq!(units.len(), 8);
    f.region = Some(0);
    let more = expand_units(&f, vec![1, 2, 3]);
    assert_eq!(more.len(), 12);
}
