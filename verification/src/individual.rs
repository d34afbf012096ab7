//! Individual results: one competitor's normalized record, with score
//! ordering and tie grouping.

use vstd::prelude::*;

use crate::advance::AdvanceTypeIndividual;
use crate::normalize::{
    cell_at, cell_str, is_marker_row, legacy_school, legacy_school_spec, reverse_comma_name,
    rev_name_spec, scan_col_exec, scan_columns, table_col_state, table_data_rows, RowCtx,
};
use crate::request::{RequestFields, Subject};
use crate::text::{lenient_i16, lenient_i16_spec, lenient_milli, lenient_milli_spec, str_eq, trim_spec, trim_str};
use vstd::pervasive::VecAdditionalExecFns;
use vstd::string::StringExecFns;
use crate::order::{
    lemma_insert_desc_point, lemma_score_run_exact, lemma_sort_desc_multiset,
    lemma_sort_desc_sorted, lemma_tie_groups_partition, sort_desc, sorted_desc, tie_groups_from,
    tie_groups_spec,
};

verus! {

/// Subject-specific detail of an individual record: most subjects carry
/// nothing extra, the science subject carries its three sub-scores.
#[derive(Clone, Copy, PartialEq, Eq, Structural, Debug)]
pub enum IndividualMisc {
    Normal,
    Science { biology: i16, chemistry: i16, physics: i16 },
}

/// One competitor's normalized result. `points` is a composite point value
/// in thousandths of a point, used only by the aggregation modes.
#[derive(Debug)]
pub struct Individual {
    pub name: String,
    pub school: String,
    pub conference: u8,
    pub district: Option<u8>,
    pub region: Option<u8>,
    pub score: i16,
    pub points: i64,
    pub advance: Option<AdvanceTypeIndividual>,
    pub misc: IndividualMisc,
}

/// Field-wise equality of individual records; strings are compared by
/// their characters.
pub open spec fn individual_eq(a: Individual, b: Individual) -> bool {
    &&& a.name@ == b.name@
    &&& a.school@ == b.school@
    &&& a.conference == b.conference
    &&& a.district == b.district
    &&& a.region == b.region
    &&& a.score == b.score
    &&& a.points == b.points
    &&& a.advance == b.advance
    &&& a.misc == b.misc
}

impl Clone for Individual {
    fn clone(&self) -> (r: Self)
        ensures
            r == *self,
    {
        Individual {
            name: self.name.clone(),
            school: self.school.clone(),
            conference: self.conference,
            district: self.district,
            region: self.region,
            score: self.score,
            points: self.points,
            advance: self.advance,
            misc: self.misc,
        }
    }
}

impl PartialEq for Individual {
    fn eq(&self, other: &Self) -> (r: bool) {
        let names_eq = self.name == other.name;
        let schools_eq = self.school == other.school;
        let district_eq = match (self.district, other.district) {
            (None, None) => true,
            (Some(a), Some(b)) => a == b,
            _ => false,
        };
        let region_eq = match (self.region, other.region) {
            (None, None) => true,
            (Some(a), Some(b)) => a == b,
            _ => false,
        };
        let advance_eq = match (self.advance, other.advance) {
            (None, None) => true,
            (Some(a), Some(b)) => a == b,
            _ => false,
        };
        names_eq && schools_eq && self.conference == other.conference && district_eq && region_eq
            && self.score == other.score && self.points == other.points && advance_eq && self.misc
            == other.misc
    }
}

impl vstd::std_specs::cmp::PartialEqSpecImpl for Individual {
    open spec fn obeys_eq_spec() -> bool {
        true
    }

    open spec fn eq_spec(&self, other: &Individual) -> bool {
        individual_eq(*self, *other)
    }
}

impl Default for Individual {
    fn default() -> (r: Self)
        ensures
            r.name@ == Seq::<char>::empty(),
            r.school@ == Seq::<char>::empty(),
            r.conference == 0,
            r.district is None,
            r.region is None,
            r.score == 0,
            r.points == 0,
            r.advance is None,
            r.misc == IndividualMisc::Normal,
    {
        Individual {
            name: String::new(),
            school: String::new(),
            conference: 0,
            district: None,
            region: None,
            score: 0,
            points: 0,
            advance: None,
            misc: IndividualMisc::Normal,
        }
    }
}

/// The biology sub-score of a science record, if the record carries one.
pub open spec fn spec_get_biology(x: Individual) -> Option<i16> {
    match x.misc {
        IndividualMisc::Science { biology, chemistry, physics } => Some(biology),
        IndividualMisc::Normal => None,
    }
}

/// The chemistry sub-score of a science record, if the record carries one.
pub open spec fn spec_get_chemistry(x: Individual) -> Option<i16> {
    match x.misc {
        IndividualMisc::Science { biology, chemistry, physics } => Some(chemistry),
        IndividualMisc::Normal => None,
    }
}

/// The physics sub-score of a science record, if the record carries one.
pub open spec fn spec_get_physics(x: Individual) -> Option<i16> {
    match x.misc {
        IndividualMisc::Science { biology, chemistry, physics } => Some(physics),
        IndividualMisc::Normal => None,
    }
}

/// The score projection that orders individual records.
pub open spec fn individual_score_fn() -> spec_fn(Individual) -> int {
    |x: Individual| x.score as int
}

/// `s` sorted by descending score, stably.
pub open spec fn sort_individuals_spec(s: Seq<Individual>) -> Seq<Individual> {
    sort_desc(s, individual_score_fn())
}

/// The tie groups of `s`: maximal contiguous runs of equal score.
pub open spec fn individual_tie_groups_spec(s: Seq<Individual>) -> Seq<Seq<Individual>> {
    tie_groups_spec(s, individual_score_fn())
}

impl Individual {
    /// The biology sub-score, when the record carries a science breakdown.
    pub fn get_biology(&self) -> (r: Option<i16>)
        ensures
            r == spec_get_biology(*self),
    {
        match self.misc {
            IndividualMisc::Science { biology, chemistry: _, physics: _ } => Some(biology),
            IndividualMisc::Normal => None,
        }
    }

    /// The chemistry sub-score, when the record carries a science breakdown.
    pub fn get_chemistry(&self) -> (r: Option<i16>)
        ensures
            r == spec_get_chemistry(*self),
    {
        match self.misc {
            IndividualMisc::Science { biology: _, chemistry, physics: _ } => Some(chemistry),
            IndividualMisc::Normal => None,
        }
    }

    /// The physics sub-score, when the record carries a science breakdown.
    pub fn get_physics(&self) -> (r: Option<i16>)
        ensures
            r == spec_get_physics(*self),
    {
        match self.misc {
            IndividualMisc::Science { biology: _, chemistry: _, physics } => Some(physics),
            IndividualMisc::Normal => None,
        }
    }

    /// Sorts records by descending score. The sort is stable: records with
    /// equal scores keep their original relative order.
    pub fn sort_by_score_desc(v: Vec<Individual>) -> (r: Vec<Individual>)
        ensures
            r@ == sort_individuals_spec(v@),
            sorted_desc(r@, individual_score_fn()),
            r@.to_multiset() == v@.to_multiset(),
    {
        let mut out: Vec<Individual> = Vec::new();
        let mut i: usize = 0;
        while i < v.len()
            invariant
                i <= v.len(),
                out@ == sort_desc(v@.take(i as int), individual_score_fn()),
            decreases v.len() - i,
        {
            let x = v[i].clone();
            let mut p: usize = 0;
            while p < out.len() && out[p].score >= x.score
                invariant
                    p <= out.len(),
                    forall|j: int| 0 <= j < p ==> out@[j].score >= x.score,
                decreases out.len() - p,
            {
                p = p + 1;
            }
            proof {
                lemma_insert_desc_point(out@, x, individual_score_fn(), p as int);
                assert(v@.take(i + 1).drop_last() =~= v@.take(i as int));
                assert(v@.take(i + 1).last() == v@[i as int]);
            }
            out.insert(p, x);
            i = i + 1;
        }
        proof {
            assert(v@.take(v@.len() as int) =~= v@);
            lemma_sort_desc_sorted(v@, individual_score_fn());
            lemma_sort_desc_multiset(v@, individual_score_fn());
        }
        out
    }

    /// Partitions an already sorted record sequence into its tie groups:
    /// maximal contiguous runs of records sharing one score, in order.
    pub fn get_ties(sorted: Vec<Individual>) -> (r: Vec<Vec<Individual>>)
        ensures
            r@.map_values(|g: Vec<Individual>| g@) == individual_tie_groups_spec(sorted@),
    {
        let sc = Ghost(individual_score_fn());
        let mut groups: Vec<Vec<Individual>> = Vec::new();
        let mut i: usize = 0;
        while i < sorted.len()
            invariant
                i <= sorted.len(),
                tie_groups_spec(sorted@, sc@) == groups@.map_values(|g: Vec<Individual>| g@)
                    + tie_groups_from(sorted@, sc@, i as int),
                sc@ == individual_score_fn(),
            decreases sorted.len() - i,
        {
            let mut j: usize = i + 1;
            while j < sorted.len() && sorted[j].score == sorted[i].score
                invariant
                    i < j <= sorted.len(),
                    forall|k: int| i < k < j ==> sorted@[k].score == sorted@[i as int].score,
                decreases sorted.len() - j,
            {
                j = j + 1;
            }
            let mut g: Vec<Individual> = Vec::new();
            let mut k: usize = i;
            while k < j
                invariant
                    i <= k <= j <= sorted.len(),
                    g@ =~= sorted@.subrange(i as int, k as int),
                decreases j - k,
            {
                g.push(sorted[k].clone());
                proof {
                    assert(g@ =~= sorted@.subrange(i as int, k + 1));
                }
                k = k + 1;
            }
            proof {
                lemma_score_run_exact(sorted@, sc@, i as int, j as int);
                assert(tie_groups_from(sorted@, sc@, i as int) == seq![sorted@.subrange(i as int, j as int)]
                    + tie_groups_from(sorted@, sc@, j as int));
                assert(groups@.push(g).map_values(|g: Vec<Individual>| g@) =~= groups@.map_values(
                    |g: Vec<Individual>| g@,
                ).push(g@));
                assert(groups@.map_values(|g: Vec<Individual>| g@).push(g@) + tie_groups_from(
                    sorted@,
                    sc@,
                    j as int,
                ) =~= groups@.map_values(|g: Vec<Individual>| g@) + tie_groups_from(sorted@, sc@, i as int));
            }
            groups.push(g);
            i = j;
        }
        proof {
            assert(groups@.map_values(|g: Vec<Individual>| g@) + tie_groups_from(
                sorted@,
                sc@,
                i as int,
            ) =~= groups@.map_values(|g: Vec<Individual>| g@));
        }
        groups
    }
}

/// The laws of tie grouping for individual records: concatenating the
/// groups of a sequence reproduces it, every group is non-empty and holds
/// exactly one score, and adjacent groups hold different scores.
pub proof fn lemma_individual_tie_groups(s: Seq<Individual>)
    ensures
        individual_tie_groups_spec(s).flatten() == s,
        forall|k: int|
            0 <= k < individual_tie_groups_spec(s).len() ==> individual_tie_groups_spec(
                s,
            )[k].len() > 0,
        forall|k: int, a: int|
            0 <= k < individual_tie_groups_spec(s).len() && 0 <= a < individual_tie_groups_spec(
                s,
            )[k].len() ==> (#[trigger] individual_tie_groups_spec(s)[k][a]).score
                == individual_tie_groups_spec(s)[k][0].score,
        forall|k: int|
            0 <= k < individual_tie_groups_spec(s).len() - 1 ==> (#[trigger]
            individual_tie_groups_spec(s)[k][0]).score != individual_tie_groups_spec(
                s,
            )[k + 1][0].score,
{
    lemma_tie_groups_partition(s, individual_score_fn());
}

/// The column holding the overall score: subjects with sub-score columns
/// place it further right in post-2022 tables.
pub open spec fn individual_score_index(f: RequestFields) -> int {
    if f.subject == Subject::Science {
        if f.year > 2022 {
            7int
        } else {
            2int
        }
    } else if f.subject == Subject::SocialStudies {
        if f.year > 2022 {
            6int
        } else {
            2int
        }
    } else {
        if f.year > 2022 {
            4int
        } else {
            2int
        }
    }
}

/// The competitor name of a data row: post-2022 tables store it ready in
/// the third column; earlier tables store `"Last, First"` in the first
/// column, which is rewritten to `"First Last"`.
pub open spec fn individual_name_spec(f: RequestFields, row: Seq<Seq<char>>) -> Seq<char> {
    if f.year > 2022 {
        trim_spec(cell_at(row, 2))
    } else {
        rev_name_spec(trim_spec(cell_at(row, 0)))
    }
}

/// The school of a data row: the second column, trimmed, with the legacy
/// cleanup applied for years up to 2022.
pub open spec fn individual_school_spec(f: RequestFields, row: Seq<Seq<char>>) -> Seq<char> {
    if f.year > 2022 {
        trim_spec(cell_at(row, 1))
    } else {
        legacy_school_spec(trim_spec(cell_at(row, 1)))
    }
}

/// The advancement read from the `Advance?` column: `Region` or `State`
/// mean the competitor advances individually.
pub open spec fn individual_advance_base(row: Seq<Seq<char>>, ad: int) -> Option<
    AdvanceTypeIndividual,
> {
    if cell_at(row, ad) == "Region"@ || cell_at(row, ad) == "State"@ {
        Some(AdvanceTypeIndividual::Indiv)
    } else {
        None
    }
}

/// The subject detail of a data row: post-2022 science rows carry the
/// three sub-scores from columns five through seven.
pub open spec fn individual_misc_of(f: RequestFields, row: Seq<Seq<char>>) -> IndividualMisc {
    if f.year > 2022 && f.subject == Subject::Science {
        IndividualMisc::Science {
            biology: lenient_i16_spec(cell_at(row, 4)) as i16,
            chemistry: lenient_i16_spec(cell_at(row, 5)) as i16,
            physics: lenient_i16_spec(cell_at(row, 6)) as i16,
        }
    } else {
        IndividualMisc::Normal
    }
}

/// The biology sub-score carried by a subject detail, if any.
pub open spec fn misc_bio(m: IndividualMisc) -> Option<i16> {
    match m {
        IndividualMisc::Science { biology, chemistry, physics } => Some(biology),
        IndividualMisc::Normal => None,
    }
}

/// The chemistry sub-score carried by a subject detail, if any.
pub open spec fn misc_chem(m: IndividualMisc) -> Option<i16> {
    match m {
        IndividualMisc::Science { biology, chemistry, physics } => Some(chemistry),
        IndividualMisc::Normal => None,
    }
}

/// The physics sub-score carried by a subject detail, if any.
pub open spec fn misc_phys(m: IndividualMisc) -> Option<i16> {
    match m {
        IndividualMisc::Science { biology, chemistry, physics } => Some(physics),
        IndividualMisc::Normal => None,
    }
}

/// The subject details of a table's data rows, in order.
pub open spec fn misc_seq(data: Seq<RowCtx>, f: RequestFields) -> Seq<IndividualMisc> {
    data.map_values(|rc: RowCtx| individual_misc_of(f, rc.cells))
}

/// The largest biology sub-score among `s`, when any row carries one.
pub open spec fn top_bio_opt(s: Seq<IndividualMisc>) -> Option<i16>
    decreases s.len(),
{
    if s.len() == 0 {
        None
    } else {
        match (misc_bio(s.last()), top_bio_opt(s.drop_last())) {
            (None, rest) => rest,
            (Some(v), None) => Some(v),
            (Some(v), Some(r)) => if v >= r {
                Some(v)
            } else {
                Some(r)
            },
        }
    }
}

/// The largest chemistry sub-score among `s`, when any row carries one.
pub open spec fn top_chem_opt(s: Seq<IndividualMisc>) -> Option<i16>
    decreases s.len(),
{
    if s.len() == 0 {
        None
    } else {
        match (misc_chem(s.last()), top_chem_opt(s.drop_last())) {
            (None, rest) => rest,
            (Some(v), None) => Some(v),
            (Some(v), Some(r)) => if v >= r {
                Some(v)
            } else {
                Some(r)
            },
        }
    }
}

/// The largest physics sub-score among `s`, when any row carries one.
pub open spec fn top_phys_opt(s: Seq<IndividualMisc>) -> Option<i16>
    decreases s.len(),
{
    if s.len() == 0 {
        None
    } else {
        match (misc_phys(s.last()), top_phys_opt(s.drop_last())) {
            (None, rest) => rest,
            (Some(v), None) => Some(v),
            (Some(v), Some(r)) => if v >= r {
                Some(v)
            } else {
                Some(r)
            },
        }
    }
}

/// A top sub-score read as an integer; a table without that sub-score
/// counts as 0.
pub open spec fn top_or_zero(o: Option<i16>) -> int {
    match o {
        None => 0int,
        Some(v) => v as int,
    }
}

/// A record's sub-score read as an integer, with `d` for records that
/// carry none.
pub open spec fn sub_or(o: Option<i16>, d: int) -> int {
    match o {
        None => d,
        Some(v) => v as int,
    }
}

/// The best-in-category rule of the science subject: a row is marked as
/// individually advancing when one of its sub-scores equals the table-wide
/// maximum of that sub-score. Rows without sub-scores compare as -120 and
/// a table without sub-scores has maxima of 0, so nothing is marked then.
pub open spec fn science_marked(data: Seq<RowCtx>, f: RequestFields, j: int) -> bool {
    f.subject == Subject::Science && {
        let ms = misc_seq(data, f);
        let m = ms[j];
        ||| sub_or(misc_bio(m), -120) == top_or_zero(top_bio_opt(ms))
        ||| sub_or(misc_chem(m), -120) == top_or_zero(top_chem_opt(ms))
        ||| sub_or(misc_phys(m), -120) == top_or_zero(top_phys_opt(ms))
    }
}

/// The non-advance fields of a normalized record, determined by its data
/// row and the request context.
pub open spec fn individual_fields_ok(x: Individual, f: RequestFields, rc: RowCtx) -> bool {
    &&& x.name@ == individual_name_spec(f, rc.cells)
    &&& x.school@ == individual_school_spec(f, rc.cells)
    &&& x.conference == f.conference
    &&& x.district == f.district
    &&& x.region == f.region
    &&& x.score as int == lenient_i16_spec(trim_spec(cell_at(rc.cells, individual_score_index(f))))
    &&& x.points as int == lenient_milli_spec(cell_at(rc.cells, rc.points))
    &&& x.misc == individual_misc_of(f, rc.cells)
}

/// The complete contract of one normalized record: its fields come from
/// its data row, and its advancement is the `Advance?` column, overridden
/// by the science best-in-category rule.
pub open spec fn individual_row_ok(
    x: Individual,
    f: RequestFields,
    data: Seq<RowCtx>,
    j: int,
) -> bool {
    &&& individual_fields_ok(x, f, data[j])
    &&& x.advance == if science_marked(data, f, j) {
        Some(AdvanceTypeIndividual::Indiv)
    } else {
        individual_advance_base(data[j].cells, data[j].advance)
    }
}

impl Individual {
    /// Normalizes a raw table into individual records. Column positions
    /// for place, points, and advancement are resolved by scanning each
    /// row for the header tokens, rows whose place cell reads `Place` are
    /// structural markers and yield no record, missing cells read as
    /// empty, and malformed numeric cells yield 0 rather than an error.
    /// For the science subject, rows holding a table-best sub-score are
    /// marked as individually advancing.
    pub fn parse_table(rows: &Vec<Vec<String>>, fields: &RequestFields) -> (r: Vec<Individual>)
        ensures
            r@.len() == table_data_rows(rows.deep_view(), rows@.len() as int).len(),
            forall|j: int|
                0 <= j < r@.len() ==> individual_row_ok(
                    r@[j],
                    *fields,
                    table_data_rows(rows.deep_view(), rows@.len() as int),
                    j,
                ),
    {
        let rd = Ghost(rows.deep_view());
        let mut place_index: usize = 0;
        let mut points_index: usize = 0;
        let mut advance_index: usize = 0;
        let mut results: Vec<Individual> = Vec::new();
        let mut i: usize = 0;
        while i < rows.len()
            invariant
                i <= rows.len(),
                rd@ == rows.deep_view(),
                rd@.len() == rows@.len(),
                place_index as int == table_col_state(rd@, i as int).0,
                points_index as int == table_col_state(rd@, i as int).1,
                advance_index as int == table_col_state(rd@, i as int).2,
                results@.len() == table_data_rows(rd@, i as int).len(),
                forall|j: int|
                    0 <= j < results@.len() ==> individual_fields_ok(
                        results@[j],
                        *fields,
                        table_data_rows(rd@, i as int)[j],
                    ) && results@[j].advance == individual_advance_base(
                        table_data_rows(rd@, i as int)[j].cells,
                        table_data_rows(rd@, i as int)[j].advance,
                    ),
            decreases rows.len() - i,
        {
            let row: &Vec<String> = &rows[i];
            proof {
                assert(row.deep_view() == rd@[i as int]);
            }
            place_index = scan_col_exec(row, "Place", place_index);
            points_index = scan_col_exec(row, "Points", points_index);
            advance_index = scan_col_exec(row, "Advance?", advance_index);
            proof {
                assert(table_col_state(rd@, i + 1) == scan_columns(
                    rd@[i as int],
                    table_col_state(rd@, i as int),
                ));
            }
            let marker = str_eq(cell_str(row, place_index), "Place");
            proof {
                assert(marker == is_marker_row(rd@, i as int));
            }
            if !marker {
                let name: String = if fields.year > 2022 {
                    String::from_str(trim_str(cell_str(row, 2)))
                } else {
                    reverse_comma_name(trim_str(cell_str(row, 0)))
                };
                let school: String = if fields.year > 2022 {
                    String::from_str(trim_str(cell_str(row, 1)))
                } else {
                    legacy_school(trim_str(cell_str(row, 1)))
                };
                let sidx: usize = if fields.subject == Subject::Science {
                    if fields.year > 2022 {
                        7
                    } else {
                        2
                    }
                } else if fields.subject == Subject::SocialStudies {
                    if fields.year > 2022 {
                        6
                    } else {
                        2
                    }
                } else {
                    if fields.year > 2022 {
                        4
                    } else {
                        2
                    }
                };
                let score: i16 = lenient_i16(trim_str(cell_str(row, sidx)));
                let points: i64 = lenient_milli(cell_str(row, points_index));
                let advance: Option<AdvanceTypeIndividual> = if str_eq(
                    cell_str(row, advance_index),
                    "Region",
                ) || str_eq(cell_str(row, advance_index), "State") {
                    Some(AdvanceTypeIndividual::Indiv)
                } else {
                    None
                };
                let misc: IndividualMisc = if fields.year > 2022 && fields.subject
                    == Subject::Science {
                    IndividualMisc::Science {
                        biology: lenient_i16(cell_str(row, 4)),
                        chemistry: lenient_i16(cell_str(row, 5)),
                        physics: lenient_i16(cell_str(row, 6)),
                    }
                } else {
                    IndividualMisc::Normal
                };
                let record = Individual {
                    name,
                    school,
                    conference: fields.conference,
                    district: fields.district,
                    region: fields.region,
                    score,
                    points,
                    advance,
                    misc,
                };
                proof {
                    let rc = table_data_rows(rd@, i + 1).last();
                    assert(table_data_rows(rd@, i + 1) == table_data_rows(rd@, i as int)
                        + seq![rc]);
                    assert(rc.cells == rd@[i as int]);
                    assert(individual_fields_ok(record, *fields, rc));
                }
                results.push(record);
            }
            i = i + 1;
        }
        let data = Ghost(table_data_rows(rd@, rows@.len() as int));
        if fields.subject == Subject::Science {
            let ghost ms = misc_seq(data@, *fields);
            proof {
                assert forall|j: int| 0 <= j < results@.len() implies #[trigger] results@[j].misc
                    == ms[j] by {
                    assert(individual_fields_ok(results@[j], *fields, data@[j]));
                }
            }
            let mut top_bio: Option<i16> = None;
            let mut top_chem: Option<i16> = None;
            let mut top_phys: Option<i16> = None;
            let mut j: usize = 0;
            while j < results.len()
                invariant
                    j <= results.len(),
                    ms == misc_seq(data@, *fields),
                    ms.len() == results@.len(),
                    forall|k: int| 0 <= k < results@.len() ==> #[trigger] results@[k].misc == ms[k],
                    top_bio == top_bio_opt(ms.take(j as int)),
                    top_chem == top_chem_opt(ms.take(j as int)),
                    top_phys == top_phys_opt(ms.take(j as int)),
                decreases results.len() - j,
            {
                proof {
                    assert(ms.take(j + 1).drop_last() =~= ms.take(j as int));
                    assert(ms.take(j + 1).last() == ms[j as int]);
                }
                let b = results[j].get_biology();
                let c = results[j].get_chemistry();
                let p = results[j].get_physics();
                top_bio = match (b, top_bio) {
                    (None, rest) => rest,
                    (Some(v), None) => Some(v),
                    (Some(v), Some(r)) => if v >= r {
                        Some(v)
                    } else {
                        Some(r)
                    },
                };
                top_chem = match (c, top_chem) {
                    (None, rest) => rest,
                    (Some(v), None) => Some(v),
                    (Some(v), Some(r)) => if v >= r {
                        Some(v)
                    } else {
                        Some(r)
                    },
                };
                top_phys = match (p, top_phys) {
                    (None, rest) => rest,
                    (Some(v), None) => Some(v),
                    (Some(v), Some(r)) => if v >= r {
                        Some(v)
                    } else {
                        Some(r)
                    },
                };
                j = j + 1;
            }
            proof {
                assert(ms.take(ms.len() as int) =~= ms);
            }
            let tb: i16 = match top_bio {
                None => 0,
                Some(v) => v,
            };
            let tc: i16 = match top_chem {
                None => 0,
                Some(v) => v,
            };
            let tp: i16 = match top_phys {
                None => 0,
                Some(v) => v,
            };
            let mut k: usize = 0;
            while k < results.len()
                invariant
                    k <= results.len(),
                    ms == misc_seq(data@, *fields),
                    ms.len() == results@.len(),
                    results@.len() == data@.len(),
                    fields.subject == Subject::Science,
                    tb as int == top_or_zero(top_bio_opt(ms)),
                    tc as int == top_or_zero(top_chem_opt(ms)),
                    tp as int == top_or_zero(top_phys_opt(ms)),
                    forall|j2: int|
                        0 <= j2 < k ==> individual_row_ok(results@[j2], *fields, data@, j2),
                    forall|j2: int|
                        k <= j2 < results@.len() ==> individual_fields_ok(
                            results@[j2],
                            *fields,
                            data@[j2],
                        ) && results@[j2].advance == individual_advance_base(
                            data@[j2].cells,
                            data@[j2].advance,
                        ),
                decreases results.len() - k,
            {
                let b: i16 = match results[k].get_biology() {
                    Some(v) => v,
                    None => -120,
                };
                let c: i16 = match results[k].get_chemistry() {
                    Some(v) => v,
                    None => -120,
                };
                let p: i16 = match results[k].get_physics() {
                    Some(v) => v,
                    None => -120,
                };
                proof {
                    assert(individual_fields_ok(results@[k as int], *fields, data@[k as int]));
                    assert(results@[k as int].misc == ms[k as int]);
                }
                if b == tb || c == tc || p == tp {
                    let mut updated = results[k].clone();
                    updated.advance = Some(AdvanceTypeIndividual::Indiv);
                    results.set(k, updated);
                }
                k = k + 1;
            }
            results
        } else {
            proof {
                assert forall|j: int| 0 <= j < results@.len() implies individual_row_ok(
                    results@[j],
                    *fields,
                    data@,
                    j,
                ) by {
                    assert(!science_marked(data@, *fields, j));
                }
            }
            results
        }
    }
}

} // verus!
