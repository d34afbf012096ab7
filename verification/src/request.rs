//! Scrape requests: the subject, conference, year, and scope (district,
//! region, or state) of one fetch, the conference-range parser, and the
//! construction of the query URL for the results host. The network call
//! itself lives outside the library.

use vstd::prelude::*;
use vstd::string::StrSliceExecFns;
use vstd::string::StringExecFns;

use crate::text::{
    char_find_from, char_find_from_spec, contains_substring, dec_rep, digit_val, eq_ignore_case,
    int_rep, is_digit, is_digit_char, lower_seq, match_at, parse_u8, parse_u8_spec, u64_to_string,
};

verus! {

/// One scrape request: subject, conference, year, and scope. A district or
/// region value of 0 is the "all districts" / "all regions" sentinel that
/// the orchestrator expands.
#[derive(Clone, Copy, Debug)]
pub struct RequestFields {
    pub district: Option<u8>,
    pub region: Option<u8>,
    pub state: bool,
    pub subject: Subject,
    pub conference: u8,
    pub year: u16,
}

/// The subjects that the results host serves, plus the composite
/// pseudo-subjects (sweepstakes, rankings, high scores) that aggregate over
/// real subjects.
#[derive(Clone, Copy, PartialEq, Eq, Structural, Debug)]
pub enum Subject {
    Accounting,
    ComputerApplications,
    CurrentEvents,
    SocialStudies,
    Spelling,
    Calculator,
    ComputerScience,
    Mathematics,
    NumberSense,
    Science,
    Sweepstakes,
    Rankings,
    Highscores,
}

/// The numeric grouping id that the results host uses for each subject; the
/// composite pseudo-subjects have no id and map to -1.
pub open spec fn spec_subject_id(s: Subject) -> i8 {
    match s {
        Subject::Accounting => 1,
        Subject::ComputerApplications => 2,
        Subject::CurrentEvents => 3,
        Subject::SocialStudies => 6,
        Subject::Spelling => 7,
        Subject::Calculator => 8,
        Subject::ComputerScience => 9,
        Subject::Mathematics => 10,
        Subject::NumberSense => 11,
        Subject::Science => 12,
        Subject::Sweepstakes => -1i8,
        Subject::Rankings => -1i8,
        Subject::Highscores => -1i8,
    }
}

/// The subject named by `s`, compared case-insensitively against the
/// accepted keywords and their abbreviations.
pub open spec fn spec_subject_from_str(s: Seq<char>) -> Option<Subject> {
    let low = lower_seq(s);
    if low == "accounting"@ {
        Some(Subject::Accounting)
    } else if low == "comp_apps"@ {
        Some(Subject::ComputerApplications)
    } else if low == "current_events"@ {
        Some(Subject::CurrentEvents)
    } else if low == "comp_sci"@ || low == "cs"@ {
        Some(Subject::ComputerScience)
    } else if low == "calculator"@ || low == "calc"@ {
        Some(Subject::Calculator)
    } else if low == "spelling"@ || low == "spell"@ {
        Some(Subject::Spelling)
    } else if low == "social_studies"@ {
        Some(Subject::SocialStudies)
    } else if low == "mathematics"@ || low == "math"@ {
        Some(Subject::Mathematics)
    } else if low == "number_sense"@ || low == "ns"@ {
        Some(Subject::NumberSense)
    } else if low == "science"@ || low == "sci"@ {
        Some(Subject::Science)
    } else if low == "sweepstakes"@ || low == "overall"@ {
        Some(Subject::Sweepstakes)
    } else if low == "rank"@ || low == "rankings"@ {
        Some(Subject::Rankings)
    } else if low == "highscores"@ || low == "hs"@ || low == "high"@ {
        Some(Subject::Highscores)
    } else {
        None
    }
}

/// The display name of a subject; composite pseudo-subjects have none.
pub open spec fn spec_subject_name(s: Subject) -> Seq<char> {
    match s {
        Subject::Accounting => "Accounting"@,
        Subject::ComputerApplications => "Computer Applications"@,
        Subject::CurrentEvents => "Current Events"@,
        Subject::ComputerScience => "Computer Science"@,
        Subject::Calculator => "Calculator"@,
        Subject::Spelling => "Spelling"@,
        Subject::Science => "Science"@,
        Subject::SocialStudies => "Social Studies"@,
        Subject::Mathematics => "Mathematics"@,
        Subject::NumberSense => "Number Sense"@,
        Subject::Sweepstakes => ""@,
        Subject::Rankings => ""@,
        Subject::Highscores => ""@,
    }
}

/// The three-letter event code that the legacy results archive uses.
pub open spec fn spec_subject_legacy(s: Subject) -> Seq<char> {
    match s {
        Subject::Accounting => "ACC"@,
        Subject::Calculator => "CAL"@,
        Subject::ComputerApplications => "COM"@,
        Subject::ComputerScience => "CSC"@,
        Subject::CurrentEvents => "CIE"@,
        Subject::SocialStudies => "SOC"@,
        Subject::Spelling => "SPV"@,
        Subject::Mathematics => "MTH"@,
        Subject::NumberSense => "NUM"@,
        Subject::Science => "SCI"@,
        Subject::Sweepstakes => ""@,
        Subject::Rankings => ""@,
        Subject::Highscores => ""@,
    }
}

impl Subject {
    /// The numeric grouping id the results host uses for this subject.
    pub fn to_i8(&self) -> (r: i8)
        ensures
            r == spec_subject_id(*self),
    {
        match *self {
            Subject::Accounting => 1,
            Subject::ComputerApplications => 2,
            Subject::CurrentEvents => 3,
            Subject::SocialStudies => 6,
            Subject::Spelling => 7,
            Subject::Calculator => 8,
            Subject::ComputerScience => 9,
            Subject::Mathematics => 10,
            Subject::NumberSense => 11,
            Subject::Science => 12,
            Subject::Sweepstakes => -1,
            Subject::Rankings => -1,
            Subject::Highscores => -1,
        }
    }

    /// The subject named by `string`, compared case-insensitively.
    pub fn from_str(string: &str) -> (r: Option<Subject>)
        ensures
            r == spec_subject_from_str(string@),
    {
        if eq_ignore_case(string, "accounting") {
            Some(Subject::Accounting)
        } else if eq_ignore_case(string, "comp_apps") {
            Some(Subject::ComputerApplications)
        } else if eq_ignore_case(string, "current_events") {
            Some(Subject::CurrentEvents)
        } else if eq_ignore_case(string, "comp_sci") || eq_ignore_case(string, "cs") {
            Some(Subject::ComputerScience)
        } else if eq_ignore_case(string, "calculator") || eq_ignore_case(string, "calc") {
            Some(Subject::Calculator)
        } else if eq_ignore_case(string, "spelling") || eq_ignore_case(string, "spell") {
            Some(Subject::Spelling)
        } else if eq_ignore_case(string, "social_studies") {
            Some(Subject::SocialStudies)
        } else if eq_ignore_case(string, "mathematics") || eq_ignore_case(string, "math") {
            Some(Subject::Mathematics)
        } else if eq_ignore_case(string, "number_sense") || eq_ignore_case(string, "ns") {
            Some(Subject::NumberSense)
        } else if eq_ignore_case(string, "science") || eq_ignore_case(string, "sci") {
            Some(Subject::Science)
        } else if eq_ignore_case(string, "sweepstakes") || eq_ignore_case(string, "overall") {
            Some(Subject::Sweepstakes)
        } else if eq_ignore_case(string, "rank") || eq_ignore_case(string, "rankings") {
            Some(Subject::Rankings)
        } else if eq_ignore_case(string, "highscores") || eq_ignore_case(string, "hs")
            || eq_ignore_case(string, "high") {
            Some(Subject::Highscores)
        } else {
            None
        }
    }

    /// The display name of this subject.
    pub fn to_string(&self) -> (r: &'static str)
        ensures
            r@ == spec_subject_name(*self),
    {
        match *self {
            Subject::Accounting => "Accounting",
            Subject::ComputerApplications => "Computer Applications",
            Subject::CurrentEvents => "Current Events",
            Subject::ComputerScience => "Computer Science",
            Subject::Calculator => "Calculator",
            Subject::Spelling => "Spelling",
            Subject::Science => "Science",
            Subject::SocialStudies => "Social Studies",
            Subject::Mathematics => "Mathematics",
            Subject::NumberSense => "Number Sense",
            Subject::Sweepstakes => "",
            Subject::Rankings => "",
            Subject::Highscores => "",
        }
    }

    /// The three-letter event code the legacy results archive uses.
    pub fn to_legacy_string(&self) -> (r: &'static str)
        ensures
            r@ == spec_subject_legacy(*self),
    {
        match *self {
            Subject::Accounting => "ACC",
            Subject::Calculator => "CAL",
            Subject::ComputerApplications => "COM",
            Subject::ComputerScience => "CSC",
            Subject::CurrentEvents => "CIE",
            Subject::SocialStudies => "SOC",
            Subject::Spelling => "SPV",
            Subject::Mathematics => "MTH",
            Subject::NumberSense => "NUM",
            Subject::Science => "SCI",
            Subject::Sweepstakes => "",
            Subject::Rankings => "",
            Subject::Highscores => "",
        }
    }
}

/// The digit characters of `s`, in order.
pub open spec fn digits_of(s: Seq<char>) -> Seq<char> {
    s.filter(|c: char| is_digit_char(c))
}

/// The conferences `start..=end`, in ascending order.
pub open spec fn range_seq(start: int, end: int) -> Seq<u8>
    decreases end + 1 - start,
{
    if start > end {
        Seq::empty()
    } else {
        seq![start as u8] + range_seq(start + 1, end)
    }
}

/// What `parse_range` accepts. A string with a comma is an explicit pair:
/// the segments before the first and between the first and second comma
/// must both parse as `u8` values, which are returned as given. Otherwise
/// the first one or two digit characters select a single conference
/// (`1..=6`) or an inclusive range between the smaller and larger digit;
/// bounds outside `1..=6`, or a string without digits, are rejected.
pub open spec fn parse_range_spec(s: Seq<char>) -> Option<Seq<u8>> {
    if s.len() == 0 {
        None
    } else if char_find_from_spec(s, ',', 0) is Some {
        let k = char_find_from_spec(s, ',', 0).unwrap();
        let end = if char_find_from_spec(s, ',', k + 1) is Some {
            char_find_from_spec(s, ',', k + 1).unwrap()
        } else {
            s.len() as int
        };
        let left = parse_u8_spec(s.subrange(0, k));
        let right = parse_u8_spec(s.subrange(k + 1, end));
        if left is Some && right is Some {
            Some(seq![left.unwrap(), right.unwrap()])
        } else {
            None
        }
    } else {
        let ds = digits_of(s);
        if ds.len() == 0 {
            None
        } else if ds.len() == 1 {
            let d = digit_val(ds[0]);
            if 1 <= d <= 6 {
                Some(seq![d as u8])
            } else {
                None
            }
        } else {
            let d0 = digit_val(ds[0]);
            let d1 = digit_val(ds[1]);
            let start = if d0 <= d1 {
                d0
            } else {
                d1
            };
            let end = if d0 <= d1 {
                d1
            } else {
                d0
            };
            if 1 <= start && end <= 6 {
                Some(range_seq(start, end))
            } else {
                None
            }
        }
    }
}

impl RequestFields {
    /// Parses a conference selection: a single conference (`"3"`), a pair
    /// of digits read as an inclusive range in either order (`"25"`,
    /// `"52"`), or an explicit comma-separated pair (`"2,5"`). Returns
    /// `None` for an empty string, missing digits, or bounds outside
    /// `1..=6`.
    pub fn parse_range(string: String) -> (r: Option<Vec<u8>>)
        ensures
            match r {
                Some(v) => parse_range_spec(string@) == Some(v@),
                None => parse_range_spec(string@) is None,
            },
    {
        let s = string.as_str();
        let n: usize = s.unicode_len();
        if n == 0 {
            return None;
        }
        match char_find_from(s, ',', 0) {
            Some(k) => {
                let end: usize = match char_find_from(s, ',', k + 1) {
                    Some(k2) => k2,
                    None => n,
                };
                let left = parse_u8(s.substring_char(0, k));
                let right = parse_u8(s.substring_char(k + 1, end));
                match (left, right) {
                    (Some(l), Some(rr)) => {
                        let mut v: Vec<u8> = Vec::new();
                        v.push(l);
                        v.push(rr);
                        proof {
                            assert(v@ =~= seq![l, rr]);
                        }
                        Some(v)
                    },
                    _ => None,
                }
            },
            None => {
                let mut count: usize = 0;
                let mut c0: char = '0';
                let mut c1: char = '0';
                let mut i: usize = 0;
                while i < n
                    invariant
                        i <= n,
                        n == s@.len(),
                        count == digits_of(s@.take(i as int)).len(),
                        count >= 1 ==> c0 == digits_of(s@.take(i as int))[0],
                        count >= 2 ==> c1 == digits_of(s@.take(i as int))[1],
                    decreases n - i,
                {
                    let c = s.get_char(i);
                    proof {
                        assert(s@.take(i + 1).drop_last() =~= s@.take(i as int));
                        assert(s@.take(i + 1).last() == s@[i as int]);
                        reveal_with_fuel(Seq::filter, 2);
                    }
                    if is_digit(c) {
                        if count == 0 {
                            c0 = c;
                        } else if count == 1 {
                            c1 = c;
                        }
                        count = count + 1;
                    }
                    i = i + 1;
                }
                proof {
                    assert(s@.take(n as int) =~= s@);
                }
                if count == 0 {
                    return None;
                }
                let d0: u8 = (c0 as u32 - 48) as u8;
                if count == 1 {
                    if 1 <= d0 && d0 <= 6 {
                        let mut v: Vec<u8> = Vec::new();
                        v.push(d0);
                        proof {
                            assert(v@ =~= seq![d0]);
                        }
                        return Some(v);
                    }
                    return None;
                }
                let d1: u8 = (c1 as u32 - 48) as u8;
                let start: u8 = if d0 <= d1 {
                    d0
                } else {
                    d1
                };
                let end: u8 = if d0 <= d1 {
                    d1
                } else {
                    d0
                };
                if 1 <= start && end <= 6 {
                    let mut v: Vec<u8> = Vec::new();
                    let mut cur: u8 = start;
                    while cur <= end
                        invariant
                            start <= cur <= end + 1,
                            end <= 6,
                            range_seq(start as int, end as int) == v@ + range_seq(
                                cur as int,
                                end as int,
                            ),
                        decreases end + 1 - cur,
                    {
                        v.push(cur);
                        proof {
                            assert(v@ + range_seq(cur + 1, end as int) =~= v@.drop_last() + (seq![
                                cur,
                            ] + range_seq(cur + 1, end as int)));
                        }
                        cur = cur + 1;
                    }
                    proof {
                        assert(v@ + range_seq(cur as int, end as int) =~= v@);
                    }
                    Some(v)
                } else {
                    None
                }
            },
        }
    }

    /// The district number as the query string writes it: its decimal
    /// digits, or empty when the request has no district.
    pub fn get_district(&self) -> (r: String)
        ensures
            r@ == match self.district {
                None => Seq::<char>::empty(),
                Some(d) => dec_rep(d as int),
            },
    {
        match self.district {
            None => String::new(),
            Some(d) => u64_to_string(d as u64),
        }
    }

    /// The region number as the query string writes it: its decimal digits,
    /// or empty when the request has no region.
    pub fn get_region(&self) -> (r: String)
        ensures
            r@ == match self.region {
                None => Seq::<char>::empty(),
                Some(d) => dec_rep(d as int),
            },
    {
        match self.region {
            None => String::new(),
            Some(d) => u64_to_string(d as u64),
        }
    }

    /// The state flag as the query string writes it: `"1"` or empty.
    pub fn get_state(&self) -> (r: String)
        ensures
            self.state ==> r@ == "1"@,
            !self.state ==> r@ == Seq::<char>::empty(),
    {
        if self.state {
            String::from_str("1")
        } else {
            String::new()
        }
    }
}

/// The level letter of the legacy archive query: district, region, or
/// state.
pub open spec fn old_school_level(f: RequestFields) -> Seq<char> {
    if f.district is Some {
        "D"@
    } else if f.region is Some {
        "R"@
    } else {
        "S"@
    }
}

/// The level number of the legacy archive query: the district or region
/// number, or empty for state.
pub open spec fn old_school_number(f: RequestFields) -> Seq<char> {
    if f.district is Some {
        dec_rep(f.district.unwrap() as int)
    } else if f.region is Some {
        dec_rep(f.region.unwrap() as int)
    } else {
        Seq::empty()
    }
}

/// The query URL of the legacy results archive, used for years up to 2022.
pub open spec fn old_school_spec(f: RequestFields) -> Seq<char> {
    "https://utdirect.utexas.edu/nlogon/uil/vlcp_pub_arch.WBX?"@ + "s_year="@ + dec_rep(
        f.year as int,
    ) + "&s_conference="@ + dec_rep(f.conference as int) + "A&s_level_id="@ + old_school_level(f)
        + "&s_level_nbr="@ + old_school_number(f) + "&s_event_abbr="@ + spec_subject_legacy(
        f.subject,
    ) + "&s_submit_sw=X"@
}

/// Builds the query URL of the legacy results archive, used for years up
/// to 2022.
pub fn old_school(fields: RequestFields) -> (r: String)
    ensures
        r@ == old_school_spec(fields),
{
    let level: &'static str = if fields.district.is_some() {
        "D"
    } else if fields.region.is_some() {
        "R"
    } else {
        "S"
    };
    let number: String = match fields.district {
        Some(d) => u64_to_string(d as u64),
        None => match fields.region {
            Some(rg) => u64_to_string(rg as u64),
            None => String::new(),
        },
    };
    let mut url = String::from_str("https://utdirect.utexas.edu/nlogon/uil/vlcp_pub_arch.WBX?");
    url.append("s_year=");
    let year_str = u64_to_string(fields.year as u64);
    url.append(year_str.as_str());
    url.append("&s_conference=");
    let conf_str = u64_to_string(fields.conference as u64);
    url.append(conf_str.as_str());
    url.append("A&s_level_id=");
    url.append(level);
    url.append("&s_level_nbr=");
    url.append(number.as_str());
    url.append("&s_event_abbr=");
    url.append(fields.subject.to_legacy_string());
    url.append("&s_submit_sw=X");
    proof {
        assert(url@ =~= old_school_spec(fields));
    }
    url
}

/// The query URL for one scrape: the current results host for years after
/// 2022, the legacy archive otherwise.
pub open spec fn request_url_spec(f: RequestFields) -> Seq<char> {
    if f.year > 2022 {
        "https://postings.speechwire.com/r-uil-academics.php?groupingid="@ + int_rep(
            spec_subject_id(f.subject) as int,
        ) + "&Submit=View+postings&region="@ + (match f.region {
            None => Seq::<char>::empty(),
            Some(d) => dec_rep(d as int),
        }) + "&district="@ + (match f.district {
            None => Seq::<char>::empty(),
            Some(d) => dec_rep(d as int),
        }) + "&state="@ + (if f.state {
            "1"@
        } else {
            Seq::<char>::empty()
        }) + "&conference="@ + dec_rep(f.conference as int) + "&seasonid="@ + dec_rep(
            f.year - 2008,
        )
    } else {
        old_school_spec(f)
    }
}

/// Builds the query URL for one scrape. Years after 2022 query the current
/// results host with the subject's grouping id and season number; earlier
/// years query the legacy archive.
pub fn request_url(fields: RequestFields) -> (r: String)
    ensures
        r@ == request_url_spec(fields),
{
    if fields.year > 2022 {
        let mut url = String::from_str(
            "https://postings.speechwire.com/r-uil-academics.php?groupingid=",
        );
        let id_str = crate::text::i8_to_string(fields.subject.to_i8());
        url.append(id_str.as_str());
        url.append("&Submit=View+postings&region=");
        let region_str = fields.get_region();
        url.append(region_str.as_str());
        url.append("&district=");
        let district_str = fields.get_district();
        url.append(district_str.as_str());
        url.append("&state=");
        let state_str = fields.get_state();
        url.append(state_str.as_str());
        url.append("&conference=");
        let conf_str = u64_to_string(fields.conference as u64);
        url.append(conf_str.as_str());
        url.append("&seasonid=");
        let season_str = u64_to_string((fields.year - 2008) as u64);
        url.append(season_str.as_str());
        proof {
            assert(url@ =~= request_url_spec(fields));
        }
        url
    } else {
        old_school(fields)
    }
}

/// Whether a response body carries the host's marker that results viewing
/// for the season is not open yet. Such a response counts as a failed
/// fetch.
pub fn results_pending(body: &str) -> (r: bool)
    ensures
        r <==> exists|k: int|
            match_at(body@, "Please click a District to view results for."@, k),
{
    contains_substring(body, "Please click a District to view results for.")
}

/// Maps a district number to its region: districts 1..=32 are partitioned
/// eight per region, in ascending blocks (1..=8 -> region 1, and so on).
/// Anything outside 1..=32, or a missing district, has no region.
pub fn district_as_region(district: Option<u8>) -> (r: Option<u8>)
    ensures
        r == spec_district_as_region(district),
{
    match district {
        None => None,
        Some(d) => {
            if 1 <= d && d <= 32 {
                Some((d - 1) / 8 + 1)
            } else {
                None
            }
        },
    }
}

/// The region that a district belongs to, if any.
pub open spec fn spec_district_as_region(district: Option<u8>) -> Option<u8> {
    match district {
        None => None,
        Some(d) => {
            if 1 <= d && d <= 32 {
                Some(((d - 1) / 8 + 1) as u8)
            } else {
                None
            }
        },
    }
}

} // verus!
