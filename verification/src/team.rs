//! Team results: one school's normalized record, with score ordering and
//! tie grouping.

use vstd::prelude::*;

use crate::advance::AdvanceTypeTeam;
use crate::normalize::{
    cell_at, cell_str, last_marker, last_marker_spec, legacy_school, legacy_school_spec,
    scan_col_exec, scan_columns,
};
use crate::request::{spec_district_as_region, district_as_region, RequestFields, Subject};
use crate::text::{
    find_spec, find_substring, lenient_i16, lenient_i16_spec, lenient_milli, lenient_milli_spec,
    parse_i16, parse_i16_spec, str_eq, trim_spec, trim_str,
};
use vstd::string::StrSliceExecFns;
use vstd::string::StringExecFns;
use crate::order::{
    lemma_insert_desc_point, lemma_score_run_exact, lemma_sort_desc_multiset,
    lemma_sort_desc_sorted, lemma_tie_groups_partition, sort_desc, sorted_desc, tie_groups_from,
    tie_groups_spec,
};

verus! {

/// Subject-specific detail of a team record: most subjects carry nothing
/// extra, computer science carries the optional programming score.
#[derive(Clone, Copy, PartialEq, Eq, Structural, Debug)]
pub enum TeamMisc {
    Normal,
    ComputerScience { prog: Option<i16> },
}

/// One school's normalized team result. `points` is a composite point value
/// in thousandths of a point, used only by the aggregation modes.
#[derive(Debug)]
pub struct Team {
    pub school: String,
    pub score: i16,
    pub conference: u8,
    pub district: Option<u8>,
    pub region: Option<u8>,
    pub points: i64,
    pub advance: Option<AdvanceTypeTeam>,
    pub misc: TeamMisc,
}

/// Field-wise equality of team records; the school name is compared by its
/// characters.
pub open spec fn team_eq(a: Team, b: Team) -> bool {
    &&& a.school@ == b.school@
    &&& a.score == b.score
    &&& a.conference == b.conference
    &&& a.district == b.district
    &&& a.region == b.region
    &&& a.points == b.points
    &&& a.advance == b.advance
    &&& a.misc == b.misc
}

impl Clone for Team {
    fn clone(&self) -> (r: Self)
        ensures
            r == *self,
    {
        Team {
            school: self.school.clone(),
            score: self.score,
            conference: self.conference,
            district: self.district,
            region: self.region,
            points: self.points,
            advance: self.advance,
            misc: self.misc,
        }
    }
}

impl PartialEq for Team {
    fn eq(&self, other: &Self) -> (r: bool) {
        let schools_eq = self.school == other.school;
        let district_eq = match (self.district, other.district) {
            (None, None) => true,
            (Some(a), Some(b)) => a == b,
            _ => false,
        };
        let region_eq = match (self.region, other.region) {
            (None, None) => true,
            (Some(a), Some(b)) => a == b,
            _ => false,
        };
        let advance_eq = match (self.advance, other.advance) {
            (None, None) => true,
            (Some(a), Some(b)) => a == b,
            _ => false,
        };
        schools_eq && self.score == other.score && self.conference == other.conference
            && district_eq && region_eq && self.points == other.points && advance_eq && self.misc
            == other.misc
    }
}

impl vstd::std_specs::cmp::PartialEqSpecImpl for Team {
    open spec fn obeys_eq_spec() -> bool {
        true
    }

    open spec fn eq_spec(&self, other: &Team) -> bool {
        team_eq(*self, *other)
    }
}

impl Default for Team {
    fn default() -> (r: Self)
        ensures
            r.school@ == Seq::<char>::empty(),
            r.score == 0,
            r.conference == 0,
            r.district is None,
            r.region is None,
            r.points == 0,
            r.advance is None,
            r.misc == TeamMisc::Normal,
    {
        Team {
            school: String::new(),
            score: 0,
            conference: 0,
            district: None,
            region: None,
            points: 0,
            advance: None,
            misc: TeamMisc::Normal,
        }
    }
}

/// The programming score of a computer-science team record, if any.
pub open spec fn spec_get_prog(x: Team) -> Option<i16> {
    match x.misc {
        TeamMisc::Normal => None,
        TeamMisc::ComputerScience { prog } => prog,
    }
}

/// The score projection that orders team records.
pub open spec fn team_score_fn() -> spec_fn(Team) -> int {
    |x: Team| x.score as int
}

/// `s` sorted by descending score, stably.
pub open spec fn sort_teams_spec(s: Seq<Team>) -> Seq<Team> {
    sort_desc(s, team_score_fn())
}

/// The tie groups of `s`: maximal contiguous runs of equal score.
pub open spec fn team_tie_groups_spec(s: Seq<Team>) -> Seq<Seq<Team>> {
    tie_groups_spec(s, team_score_fn())
}

impl Team {
    /// The programming score, when the record carries one.
    pub fn get_prog(&self) -> (r: Option<i16>)
        ensures
            r == spec_get_prog(*self),
    {
        match self.misc {
            TeamMisc::Normal => None,
            TeamMisc::ComputerScience { prog } => prog,
        }
    }

    /// Sorts records by descending score. The sort is stable: records with
    /// equal scores keep their original relative order.
    pub fn sort_by_score_desc(v: Vec<Team>) -> (r: Vec<Team>)
        ensures
            r@ == sort_teams_spec(v@),
            sorted_desc(r@, team_score_fn()),
            r@.to_multiset() == v@.to_multiset(),
    {
        let mut out: Vec<Team> = Vec::new();
        let mut i: usize = 0;
        while i < v.len()
            invariant
                i <= v.len(),
                out@ == sort_desc(v@.take(i as int), team_score_fn()),
            decreases v.len() - i,
        {
            let x = v[i].clone();
            let mut p: usize = 0;
            while p < out.len() && out[p].score >= x.score
                invariant
                    p <= out.len(),
                    forall|j: int| 0 <= j < p ==> out@[j].score >= x.score,
                decreases out.len() - p,
            {
                p = p + 1;
            }
            proof {
                lemma_insert_desc_point(out@, x, team_score_fn(), p as int);
                assert(v@.take(i + 1).drop_last() =~= v@.take(i as int));
                assert(v@.take(i + 1).last() == v@[i as int]);
            }
            out.insert(p, x);
            i = i + 1;
        }
        proof {
            assert(v@.take(v@.len() as int) =~= v@);
            lemma_sort_desc_sorted(v@, team_score_fn());
            lemma_sort_desc_multiset(v@, team_score_fn());
        }
        out
    }

    /// Partitions an already sorted record sequence into its tie groups:
    /// maximal contiguous runs of records sharing one score, in order.
    pub fn get_ties(sorted: Vec<Team>) -> (r: Vec<Vec<Team>>)
        ensures
            r@.map_values(|g: Vec<Team>| g@) == team_tie_groups_spec(sorted@),
    {
        let sc = Ghost(team_score_fn());
        let mut groups: Vec<Vec<Team>> = Vec::new();
        let mut i: usize = 0;
        while i < sorted.len()
            invariant
                i <= sorted.len(),
                tie_groups_spec(sorted@, sc@) == groups@.map_values(|g: Vec<Team>| g@)
                    + tie_groups_from(sorted@, sc@, i as int),
                sc@ == team_score_fn(),
            decreases sorted.len() - i,
        {
            let mut j: usize = i + 1;
            while j < sorted.len() && sorted[j].score == sorted[i].score
                invariant
                    i < j <= sorted.len(),
                    forall|k: int| i < k < j ==> sorted@[k].score == sorted@[i as int].score,
                decreases sorted.len() - j,
            {
                j = j + 1;
            }
            let mut g: Vec<Team> = Vec::new();
            let mut k: usize = i;
            while k < j
                invariant
                    i <= k <= j <= sorted.len(),
                    g@ =~= sorted@.subrange(i as int, k as int),
                decreases j - k,
            {
                g.push(sorted[k].clone());
                proof {
                    assert(g@ =~= sorted@.subrange(i as int, k + 1));
                }
                k = k + 1;
            }
            proof {
                lemma_score_run_exact(sorted@, sc@, i as int, j as int);
                assert(tie_groups_from(sorted@, sc@, i as int) == seq![sorted@.subrange(i as int, j as int)]
                    + tie_groups_from(sorted@, sc@, j as int));
                assert(groups@.push(g).map_values(|g: Vec<Team>| g@) =~= groups@.map_values(
                    |g: Vec<Team>| g@,
                ).push(g@));
                assert(groups@.map_values(|g: Vec<Team>| g@).push(g@) + tie_groups_from(
                    sorted@,
                    sc@,
                    j as int,
                ) =~= groups@.map_values(|g: Vec<Team>| g@) + tie_groups_from(sorted@, sc@, i as int));
            }
            groups.push(g);
            i = j;
        }
        proof {
            assert(groups@.map_values(|g: Vec<Team>| g@) + tie_groups_from(sorted@, sc@, i as int)
                =~= groups@.map_values(|g: Vec<Team>| g@));
        }
        groups
    }
}

/// The laws of tie grouping for team records: concatenating the groups of a
/// sequence reproduces it, every group is non-empty and holds exactly one
/// score, and adjacent groups hold different scores.
pub proof fn lemma_team_tie_groups(s: Seq<Team>)
    ensures
        team_tie_groups_spec(s).flatten() == s,
        forall|k: int|
            0 <= k < team_tie_groups_spec(s).len() ==> team_tie_groups_spec(s)[k].len() > 0,
        forall|k: int, a: int|
            0 <= k < team_tie_groups_spec(s).len() && 0 <= a < team_tie_groups_spec(s)[k].len()
                ==> (#[trigger] team_tie_groups_spec(s)[k][a]).score == team_tie_groups_spec(
                s,
            )[k][0].score,
        forall|k: int|
            0 <= k < team_tie_groups_spec(s).len() - 1 ==> (#[trigger] team_tie_groups_spec(
                s,
            )[k][0]).score != team_tie_groups_spec(s)[k + 1][0].score,
{
    lemma_tie_groups_partition(s, team_score_fn());
}

/// One raw team-table row: the rendered text of its cells, and for each
/// cell the rendered text of its first marker span, when the cell has one.
pub struct RawRow {
    pub cells: Vec<String>,
    pub spans: Vec<Option<String>>,
}

/// One normalized team data row: cell and span text together with the
/// header-column indices in force when the row was read.
pub ghost struct TeamRowCtx {
    pub cells: Seq<Seq<char>>,
    pub spans: Seq<Option<Seq<char>>>,
    pub place: int,
    pub points: int,
    pub advance: int,
}

/// The header-column indices after reading the first `k` team rows.
pub open spec fn team_col_state(rows: Seq<RawRow>, k: int) -> (int, int, int)
    decreases k,
{
    if k <= 0 {
        (0int, 0int, 0int)
    } else {
        scan_columns(rows[k - 1].cells.deep_view(), team_col_state(rows, k - 1))
    }
}

/// Whether team row `k` is a structural header marker.
pub open spec fn team_is_marker(rows: Seq<RawRow>, k: int) -> bool {
    cell_at(rows[k].cells.deep_view(), team_col_state(rows, k + 1).0) == "Place"@
}

/// The data rows among the first `k` team rows, each with the column
/// indices in force when it was read.
pub open spec fn team_data_rows(rows: Seq<RawRow>, k: int) -> Seq<TeamRowCtx>
    decreases k,
{
    if k <= 0 {
        Seq::empty()
    } else if team_is_marker(rows, k - 1) {
        team_data_rows(rows, k - 1)
    } else {
        team_data_rows(rows, k - 1) + seq![
            TeamRowCtx {
                cells: rows[k - 1].cells.deep_view(),
                spans: rows[k - 1].spans.deep_view(),
                place: team_col_state(rows, k).0,
                points: team_col_state(rows, k).1,
                advance: team_col_state(rows, k).2,
            }
        ]
    }
}

/// The school of a team data row. Post-2022 rows hold it in the second
/// column mixed with an inline marker span: the cell text is cut at the
/// first occurrence of the marker's rendered text (or kept whole when the
/// marker does not occur) and trimmed. Earlier rows hold it in the first
/// column and get the legacy cleanup, then a trim.
pub open spec fn team_school_spec(f: RequestFields, rc: TeamRowCtx) -> Seq<char> {
    if f.year > 2022 {
        let s = cell_at(rc.cells, 1);
        let m = last_marker_spec(rc.spans);
        let cut = match find_spec(s, m) {
            Some(i) => s.take(i),
            None => s,
        };
        trim_spec(cut)
    } else {
        trim_spec(legacy_school_spec(cell_at(rc.cells, 0)))
    }
}

/// The column holding the team score: computer science places it one
/// further right in post-2022 tables.
pub open spec fn team_score_index(f: RequestFields) -> int {
    if f.subject == Subject::ComputerScience {
        if f.year > 2022 {
            3int
        } else {
            2int
        }
    } else {
        2int
    }
}

/// The advancement read from the `Advance?` column: `Region` or `State`
/// mean the team advances, `Alternate` makes it a wildcard. A table whose
/// header carries no `Advance?` column yields no advancement.
pub open spec fn team_advance_base(rc: TeamRowCtx) -> Option<AdvanceTypeTeam> {
    let cell = if rc.advance != 0 {
        cell_at(rc.cells, rc.advance)
    } else {
        Seq::<char>::empty()
    };
    if cell == "Region"@ || cell == "State"@ {
        Some(AdvanceTypeTeam::Advance)
    } else if cell == "Alternate"@ {
        Some(AdvanceTypeTeam::Alternate)
    } else {
        None
    }
}

/// The subject detail of a team data row: computer science rows carry the
/// strictly parsed programming score.
pub open spec fn team_misc_of(f: RequestFields, rc: TeamRowCtx) -> TeamMisc {
    if f.subject == Subject::ComputerScience {
        TeamMisc::ComputerScience {
            prog: parse_i16_spec(cell_at(rc.cells, if f.year > 2022 {
                2int
            } else {
                0int
            })),
        }
    } else {
        TeamMisc::Normal
    }
}

/// The complete contract of one normalized team record.
pub open spec fn team_row_ok(x: Team, f: RequestFields, rc: TeamRowCtx) -> bool {
    &&& x.school@ == team_school_spec(f, rc)
    &&& x.score as int == lenient_i16_spec(trim_spec(cell_at(rc.cells, team_score_index(f))))
    &&& x.conference == f.conference
    &&& x.district == f.district
    &&& x.region == f.region
    &&& x.points as int == lenient_milli_spec(cell_at(rc.cells, rc.points))
    &&& x.advance == team_advance_base(rc)
    &&& x.misc == team_misc_of(f, rc)
}

impl Team {
    /// Normalizes a raw table into team records. Column positions for
    /// place, points, and advancement are resolved by scanning each row
    /// for the header tokens, rows whose place cell reads `Place` are
    /// structural markers and yield no record, missing cells read as
    /// empty, and malformed numeric cells yield 0 rather than an error.
    pub fn parse_table(rows: &Vec<RawRow>, fields: &RequestFields) -> (r: Vec<Team>)
        ensures
            r@.len() == team_data_rows(rows@, rows@.len() as int).len(),
            forall|j: int|
                0 <= j < r@.len() ==> team_row_ok(
                    r@[j],
                    *fields,
                    team_data_rows(rows@, rows@.len() as int)[j],
                ),
    {
        let mut place_index: usize = 0;
        let mut points_index: usize = 0;
        let mut advance_index: usize = 0;
        let mut results: Vec<Team> = Vec::new();
        let mut i: usize = 0;
        while i < rows.len()
            invariant
                i <= rows.len(),
                place_index as int == team_col_state(rows@, i as int).0,
                points_index as int == team_col_state(rows@, i as int).1,
                advance_index as int == team_col_state(rows@, i as int).2,
                results@.len() == team_data_rows(rows@, i as int).len(),
                forall|j: int|
                    0 <= j < results@.len() ==> team_row_ok(
                        results@[j],
                        *fields,
                        team_data_rows(rows@, i as int)[j],
                    ),
            decreases rows.len() - i,
        {
            let row: &RawRow = &rows[i];
            place_index = scan_col_exec(&row.cells, "Place", place_index);
            points_index = scan_col_exec(&row.cells, "Points", points_index);
            advance_index = scan_col_exec(&row.cells, "Advance?", advance_index);
            proof {
                assert(team_col_state(rows@, i + 1) == scan_columns(
                    rows@[i as int].cells.deep_view(),
                    team_col_state(rows@, i as int),
                ));
            }
            let marker_row = str_eq(cell_str(&row.cells, place_index), "Place");
            proof {
                assert(marker_row == team_is_marker(rows@, i as int));
            }
            if !marker_row {
                let school: String = if fields.year > 2022 {
                    let span_text = last_marker(&row.spans);
                    let cell = cell_str(&row.cells, 1);
                    let cut: &str = match find_substring(cell, span_text.as_str()) {
                        Some(p) => {
                            let c = cell.substring_char(0, p);
                            proof {
                                assert(c@ =~= cell@.take(p as int));
                            }
                            c
                        },
                        None => cell,
                    };
                    String::from_str(trim_str(cut))
                } else {
                    let cleaned = legacy_school(cell_str(&row.cells, 0));
                    String::from_str(trim_str(cleaned.as_str()))
                };
                let sidx: usize = if fields.subject == Subject::ComputerScience {
                    if fields.year > 2022 {
                        3
                    } else {
                        2
                    }
                } else {
                    2
                };
                let score: i16 = lenient_i16(trim_str(cell_str(&row.cells, sidx)));
                let points: i64 = lenient_milli(cell_str(&row.cells, points_index));
                let adv_cell: &str = if advance_index != 0 {
                    cell_str(&row.cells, advance_index)
                } else {
                    let empty_cell = "";
                    proof {
                        reveal_strlit("");
                        assert(empty_cell@ =~= Seq::<char>::empty());
                    }
                    empty_cell
                };
                let advance: Option<AdvanceTypeTeam> = if str_eq(adv_cell, "Region") || str_eq(
                    adv_cell,
                    "State",
                ) {
                    Some(AdvanceTypeTeam::Advance)
                } else if str_eq(adv_cell, "Alternate") {
                    Some(AdvanceTypeTeam::Alternate)
                } else {
                    None
                };
                let misc: TeamMisc = if fields.subject == Subject::ComputerScience {
                    let pidx: usize = if fields.year > 2022 {
                        2
                    } else {
                        0
                    };
                    TeamMisc::ComputerScience { prog: parse_i16(cell_str(&row.cells, pidx)) }
                } else {
                    TeamMisc::Normal
                };
                let record = Team {
                    school,
                    score,
                    conference: fields.conference,
                    district: fields.district,
                    region: fields.region,
                    points,
                    advance,
                    misc,
                };
                proof {
                    let rc = team_data_rows(rows@, i + 1).last();
                    assert(team_data_rows(rows@, i + 1) == team_data_rows(rows@, i as int)
                        + seq![rc]);
                    assert(rc.cells == rows@[i as int].cells.deep_view());
                    assert(rc.spans == rows@[i as int].spans.deep_view());
                    assert(rc.place == team_col_state(rows@, i + 1).0);
                    assert(rc.points == team_col_state(rows@, i + 1).1);
                    assert(rc.advance == team_col_state(rows@, i + 1).2);
                    assert(record.school@ == team_school_spec(*fields, rc));
                    assert(record.score as int == lenient_i16_spec(
                        trim_spec(cell_at(rc.cells, team_score_index(*fields)))));
                    assert(record.points as int == lenient_milli_spec(cell_at(rc.cells, rc.points)));
                    assert(record.advance == team_advance_base(rc));
                    assert(record.misc == team_misc_of(*fields, rc));
                    assert(team_row_ok(record, *fields, rc));
                }
                results.push(record);
            }
            i = i + 1;
        }
        results
    }
}

/// The location key of a team: its district when present, else its
/// region, else 0.
pub open spec fn team_loc(t: Team) -> int {
    match t.district {
        Some(d) => d as int,
        None => match t.region {
            Some(r) => r as int,
            None => 0int,
        },
    }
}

/// Two teams compete for the same title: same location, same conference.
pub open spec fn team_same_key(a: Team, b: Team) -> bool {
    team_loc(a) == team_loc(b) && a.conference == b.conference
}

/// The parent scope a beaten team's wildcard hope lives in: a district
/// team feeds its region (districts outside 1..=32 feed a catch-all 0),
/// and a region team feeds the single synthetic state-wildcard bucket.
pub open spec fn team_parent(t: Team) -> int {
    if t.district is Some {
        match spec_district_as_region(t.district) {
            Some(r) => r as int,
            None => 0int,
        }
    } else {
        -1int
    }
}

/// Two beaten teams compete for the same wildcard slot: same parent scope,
/// same conference.
pub open spec fn team_same_parent_key(a: Team, b: Team) -> bool {
    team_parent(a) == team_parent(b) && a.conference == b.conference
}

/// The input with duplicate records collapsed: only the first occurrence
/// of each record (by field-wise equality) is kept.
pub open spec fn dedup_teams_spec(s: Seq<Team>) -> Seq<Team>
    decreases s.len(),
{
    if s.len() == 0 {
        Seq::empty()
    } else if exists|i: int| 0 <= i < s.len() - 1 && team_eq(s[i], s.last()) {
        dedup_teams_spec(s.drop_last())
    } else {
        dedup_teams_spec(s.drop_last()) + seq![s.last()]
    }
}

/// Team `j` wins its location and conference: no team of the same key
/// scores higher, and no earlier team of the same key scores as high (so
/// ties at the maximum go to the earliest team).
pub open spec fn is_winner(ds: Seq<Team>, j: int) -> bool {
    &&& 0 <= j < ds.len()
    &&& forall|i: int|
        0 <= i < ds.len() && team_same_key(ds[i], ds[j]) ==> ds[i].score <= ds[j].score
    &&& forall|i: int| 0 <= i < j && team_same_key(ds[i], ds[j]) ==> ds[i].score < ds[j].score
}

/// Team `j` is beaten: some team of the same key scores strictly higher.
pub open spec fn is_beaten(ds: Seq<Team>, j: int) -> bool {
    exists|i: int| 0 <= i < ds.len() && team_same_key(ds[i], ds[j]) && ds[i].score > ds[j].score
}

/// Team `j` competes for a wildcard slot: it has a scope and is beaten at
/// its own location.
pub open spec fn is_wildcard_candidate(ds: Seq<Team>, j: int) -> bool {
    &&& 0 <= j < ds.len()
    &&& (ds[j].district is Some || ds[j].region is Some)
    &&& is_beaten(ds, j)
}

/// Team `j` takes the wildcard slot of its parent scope: it is a
/// candidate, no candidate of the same parent scope and conference scores
/// higher, and no earlier one scores as high.
pub open spec fn is_wildcard(ds: Seq<Team>, j: int) -> bool {
    &&& is_wildcard_candidate(ds, j)
    &&& forall|i: int|
        0 <= i < ds.len() && is_wildcard_candidate(ds, i) && team_same_parent_key(ds[i], ds[j])
            ==> ds[i].score <= ds[j].score
    &&& forall|i: int|
        0 <= i < j && is_wildcard_candidate(ds, i) && team_same_parent_key(ds[i], ds[j])
            ==> ds[i].score < ds[j].score
}

/// The winners among the first `k` deduplicated teams, in order.
pub open spec fn winners_upto(ds: Seq<Team>, k: int) -> Seq<Team>
    decreases k,
{
    if k <= 0 {
        Seq::empty()
    } else if is_winner(ds, k - 1) {
        winners_upto(ds, k - 1) + seq![ds[k - 1]]
    } else {
        winners_upto(ds, k - 1)
    }
}

/// The wildcard holders among the first `k` deduplicated teams, in order.
pub open spec fn wildcards_upto(ds: Seq<Team>, k: int) -> Seq<Team>
    decreases k,
{
    if k <= 0 {
        Seq::empty()
    } else if is_wildcard(ds, k - 1) {
        wildcards_upto(ds, k - 1) + seq![ds[k - 1]]
    } else {
        wildcards_upto(ds, k - 1)
    }
}

/// The qualifying set: every location winner, then every wildcard holder,
/// each in first-appearance order of the deduplicated input.
pub open spec fn team_qualify_spec(s: Seq<Team>) -> Seq<Team> {
    winners_upto(dedup_teams_spec(s), dedup_teams_spec(s).len() as int) + wildcards_upto(
        dedup_teams_spec(s),
        dedup_teams_spec(s).len() as int,
    )
}

/// Collapses duplicate records, keeping the first occurrence of each.
pub fn dedup_teams(results: Vec<Team>) -> (r: Vec<Team>)
    ensures
        r@ == dedup_teams_spec(results@),
{
    let mut out: Vec<Team> = Vec::new();
    let mut j: usize = 0;
    while j < results.len()
        invariant
            j <= results.len(),
            out@ == dedup_teams_spec(results@.take(j as int)),
        decreases results.len() - j,
    {
        let mut dup: bool = false;
        let mut i: usize = 0;
        while i < j
            invariant
                i <= j < results@.len(),
                dup <==> exists|i2: int|
                    0 <= i2 < i && team_eq(results@[i2], results@[j as int]),
            decreases j - i,
        {
            if &results[i] == &results[j] {
                dup = true;
            }
            i = i + 1;
        }
        proof {
            let ext = results@.take(j + 1);
            assert(ext.drop_last() =~= results@.take(j as int));
            assert(ext.last() == results@[j as int]);
            if dup {
                let w = choose|i2: int|
                    0 <= i2 < j && #[trigger] team_eq(results@[i2], results@[j as int]);
                assert(ext[w] == results@[w]);
                assert(team_eq(ext[w], ext.last()));
            } else {
                assert forall|i2: int|
                    !(0 <= i2 < ext.len() - 1 && #[trigger] team_eq(ext[i2], ext.last())) by {
                    if 0 <= i2 < ext.len() - 1 {
                        assert(ext[i2] == results@[i2]);
                    }
                }
            }
            assert(dup <==> exists|i2: int|
                0 <= i2 < ext.len() - 1 && #[trigger] team_eq(ext[i2], ext.last()));
        }
        if !dup {
            out.push(results[j].clone());
        }
        j = j + 1;
    }
    proof {
        assert(results@.take(results@.len() as int) =~= results@);
    }
    out
}

/// The location key of this team, as the qualification engine reads it.
fn loc_of(t: &Team) -> (r: u8)
    ensures
        r as int == team_loc(*t),
{
    match t.district {
        Some(d) => d,
        None => match t.region {
            Some(r) => r,
            None => 0,
        },
    }
}

/// The parent-scope key of this team (see `team_parent`).
fn parent_of(t: &Team) -> (r: i16)
    ensures
        r as int == team_parent(*t),
{
    match t.district {
        Some(_d) => match district_as_region(t.district) {
            Some(r) => r as i16,
            None => 0,
        },
        None => -1,
    }
}

/// Whether some team of the same location and conference outscores
/// `ds[j]`.
fn beaten_exec(ds: &Vec<Team>, j: usize) -> (r: bool)
    requires
        j < ds@.len(),
    ensures
        r == is_beaten(ds@, j as int),
{
    let mut r: bool = false;
    let mut i: usize = 0;
    while i < ds.len()
        invariant
            i <= ds@.len(),
            j < ds@.len(),
            r <==> exists|i2: int|
                0 <= i2 < i && team_same_key(ds@[i2], ds@[j as int]) && ds@[i2].score > ds@[
                    j as int
                ].score,
        decreases ds@.len() - i,
    {
        if loc_of(&ds[i]) == loc_of(&ds[j]) && ds[i].conference == ds[j].conference
            && ds[i].score > ds[j].score {
            r = true;
        }
        i = i + 1;
    }
    r
}

/// Whether `ds[j]` has a scope and is beaten at its own location.
fn wildcard_candidate_exec(ds: &Vec<Team>, j: usize) -> (r: bool)
    requires
        j < ds@.len(),
    ensures
        r == is_wildcard_candidate(ds@, j as int),
{
    let scoped = ds[j].district.is_some() || ds[j].region.is_some();
    if !scoped {
        return false;
    }
    beaten_exec(ds, j)
}

impl Team {
    /// The qualifying subset of a team set: after collapsing duplicate
    /// records, the winner of every location and conference (ties at the
    /// maximum go to the earliest record) followed by the wildcard holder
    /// of every parent scope and conference — the best-scoring team beaten
    /// at its own location, with the same tie rule. District teams feed
    /// their region's wildcard slot; region teams feed the single
    /// state-wildcard slot.
    pub fn get_advancing(results: Vec<Team>) -> (r: Vec<Team>)
        ensures
            r@ == team_qualify_spec(results@),
    {
        let ds = dedup_teams(results);
        let mut out: Vec<Team> = Vec::new();
        let mut j: usize = 0;
        while j < ds.len()
            invariant
                j <= ds@.len(),
                out@ == winners_upto(ds@, j as int),
            decreases ds@.len() - j,
        {
            let mut win: bool = true;
            let mut i: usize = 0;
            while i < ds.len()
                invariant
                    i <= ds@.len(),
                    j < ds@.len(),
                    win <==> (forall|i2: int|
                        0 <= i2 < i && team_same_key(ds@[i2], ds@[j as int]) ==> ds@[i2].score
                            <= ds@[j as int].score) && (forall|i2: int|
                        0 <= i2 < i && i2 < j && team_same_key(ds@[i2], ds@[j as int]) ==> ds@[
                            i2
                        ].score < ds@[j as int].score),
                decreases ds@.len() - i,
            {
                if loc_of(&ds[i]) == loc_of(&ds[j]) && ds[i].conference == ds[j].conference {
                    if ds[i].score > ds[j].score {
                        win = false;
                    } else if i < j && ds[i].score == ds[j].score {
                        win = false;
                    }
                }
                i = i + 1;
            }
            if win {
                out.push(ds[j].clone());
            }
            j = j + 1;
        }
        let mut j2: usize = 0;
        while j2 < ds.len()
            invariant
                j2 <= ds@.len(),
                out@ == winners_upto(ds@, ds@.len() as int) + wildcards_upto(ds@, j2 as int),
            decreases ds@.len() - j2,
        {
            let mut wild: bool = wildcard_candidate_exec(&ds, j2);
            if wild {
                let mut i: usize = 0;
                while i < ds.len()
                    invariant
                        i <= ds@.len(),
                        j2 < ds@.len(),
                        is_wildcard_candidate(ds@, j2 as int),
                        wild <==> (forall|i2: int|
                            0 <= i2 < i && is_wildcard_candidate(ds@, i2)
                                && team_same_parent_key(ds@[i2], ds@[j2 as int]) ==> ds@[
                                i2
                            ].score <= ds@[j2 as int].score) && (forall|i2: int|
                            0 <= i2 < i && i2 < j2 && is_wildcard_candidate(ds@, i2)
                                && team_same_parent_key(ds@[i2], ds@[j2 as int]) ==> ds@[
                                i2
                            ].score < ds@[j2 as int].score),
                    decreases ds@.len() - i,
                {
                    if wildcard_candidate_exec(&ds, i) && parent_of(&ds[i]) == parent_of(&ds[j2])
                        && ds[i].conference == ds[j2].conference {
                        if ds[i].score > ds[j2].score {
                            wild = false;
                        } else if i < j2 && ds[i].score == ds[j2].score {
                            wild = false;
                        }
                    }
                    i = i + 1;
                }
            }
            if wild {
                out.push(ds[j2].clone());
            }
            j2 = j2 + 1;
        }
        out
    }

    /// The input with duplicates collapsed and `advance` set from the
    /// qualification outcome: `Advance` for location winners, `Alternate`
    /// for wildcard holders, nothing for everyone else. All other fields
    /// are kept as they were.
    pub fn annotate(results: Vec<Team>) -> (r: Vec<Team>)
        ensures
            r@.len() == dedup_teams_spec(results@).len(),
            forall|j: int|
                0 <= j < r@.len() ==> r@[j] == (Team {
                    advance: if is_winner(dedup_teams_spec(results@), j) {
                        Some(AdvanceTypeTeam::Advance)
                    } else if is_wildcard(dedup_teams_spec(results@), j) {
                        Some(AdvanceTypeTeam::Alternate)
                    } else {
                        None
                    },
                    ..dedup_teams_spec(results@)[j]
                }),
    {
        let ds = dedup_teams(results);
        let mut out: Vec<Team> = Vec::new();
        let mut j: usize = 0;
        while j < ds.len()
            invariant
                j <= ds@.len(),
                out@.len() == j,
                forall|j2: int|
                    0 <= j2 < j ==> out@[j2] == (Team {
                        advance: if is_winner(ds@, j2) {
                            Some(AdvanceTypeTeam::Advance)
                        } else if is_wildcard(ds@, j2) {
                            Some(AdvanceTypeTeam::Alternate)
                        } else {
                            None
                        },
                        ..ds@[j2]
                    }),
            decreases ds@.len() - j,
        {
            let mut win: bool = true;
            let mut i: usize = 0;
            while i < ds.len()
                invariant
                    i <= ds@.len(),
                    j < ds@.len(),
                    win <==> (forall|i2: int|
                        0 <= i2 < i && team_same_key(ds@[i2], ds@[j as int]) ==> ds@[i2].score
                            <= ds@[j as int].score) && (forall|i2: int|
                        0 <= i2 < i && i2 < j && team_same_key(ds@[i2], ds@[j as int]) ==> ds@[
                            i2
                        ].score < ds@[j as int].score),
                decreases ds@.len() - i,
            {
                if loc_of(&ds[i]) == loc_of(&ds[j]) && ds[i].conference == ds[j].conference {
                    if ds[i].score > ds[j].score {
                        win = false;
                    } else if i < j && ds[i].score == ds[j].score {
                        win = false;
                    }
                }
                i = i + 1;
            }
            let mut wild: bool = false;
            if !win {
                wild = wildcard_candidate_exec(&ds, j);
                if wild {
                    let mut i2: usize = 0;
                    while i2 < ds.len()
                        invariant
                            i2 <= ds@.len(),
                            j < ds@.len(),
                            is_wildcard_candidate(ds@, j as int),
                            wild <==> (forall|i3: int|
                                0 <= i3 < i2 && is_wildcard_candidate(ds@, i3)
                                    && team_same_parent_key(ds@[i3], ds@[j as int]) ==> ds@[
                                    i3
                                ].score <= ds@[j as int].score) && (forall|i3: int|
                                0 <= i3 < i2 && i3 < j && is_wildcard_candidate(ds@, i3)
                                    && team_same_parent_key(ds@[i3], ds@[j as int]) ==> ds@[
                                    i3
                                ].score < ds@[j as int].score),
                        decreases ds@.len() - i2,
                    {
                        if wildcard_candidate_exec(&ds, i2) && parent_of(&ds[i2]) == parent_of(
                            &ds[j],
                        ) && ds[i2].conference == ds[j].conference {
                            if ds[i2].score > ds[j].score {
                                wild = false;
                            } else if i2 < j && ds[i2].score == ds[j].score {
                                wild = false;
                            }
                        }
                        i2 = i2 + 1;
                    }
                }
            }
            let mut updated = ds[j].clone();
            updated.advance = if win {
                Some(AdvanceTypeTeam::Advance)
            } else if wild {
                Some(AdvanceTypeTeam::Alternate)
            } else {
                None
            };
            proof {
                if win {
                    assert(is_winner(ds@, j as int));
                }
            }
            out.push(updated);
            j = j + 1;
        }
        out
    }
}

} // verus!
