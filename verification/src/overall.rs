//! Composite scoring: positional rankings points, tie-shared sweepstakes
//! points, and the merge-by-identity accumulation both modes share.
//!
//! Point values are integers in thousandths of a point, so tie splits like
//! (15 + 12) / 2 = 13.5 are exact.

use vstd::prelude::*;
use vstd::string::StringExecFns;

use crate::individual::{individual_score_fn, Individual, IndividualMisc};
use crate::order::{
    group_index, group_start, lemma_group_boundary, lemma_group_within, lemma_score_run_exact,
    score_run_len,
};
use crate::request::{RequestFields, Subject};
use crate::text::{dec_rep, u64_to_string};
use vstd::string::StrSliceExecFns;
use crate::team::{team_score_fn, Team, TeamMisc};
use crate::text::{clamped, imin, str_eq};
use vstd::pervasive::VecAdditionalExecFns;

verus! {

/// Left fold of a merge step over the incoming records, in order.
pub open spec fn fold_merge<A>(acc: Seq<A>, xs: Seq<A>, step: spec_fn(Seq<A>, A) -> Seq<A>) -> Seq<
    A,
>
    decreases xs.len(),
{
    if xs.len() == 0 {
        acc
    } else {
        fold_merge(step(acc, xs[0]), xs.drop_first(), step)
    }
}

/// Merging a concatenation is merging one part after the other: the law
/// behind accumulating per-subject results one subject at a time.
pub proof fn lemma_fold_merge_append<A>(
    acc: Seq<A>,
    xs: Seq<A>,
    ys: Seq<A>,
    step: spec_fn(Seq<A>, A) -> Seq<A>,
)
    ensures
        fold_merge(acc, xs + ys, step) == fold_merge(fold_merge(acc, xs, step), ys, step),
    decreases xs.len(),
{
    if xs.len() == 0 {
        assert(xs + ys =~= ys);
    } else {
        assert((xs + ys)[0] == xs[0]);
        assert((xs + ys).drop_first() =~= xs.drop_first() + ys);
        lemma_fold_merge_append(step(acc, xs[0]), xs.drop_first(), ys, step);
    }
}

/// One incoming individual merged into a rankings accumulator: every
/// record with the same name gains its score (saturated to the `i16`
/// range); a name not yet present is appended as a new record.
pub open spec fn score_step_individual() -> spec_fn(Seq<Individual>, Individual) -> Seq<
    Individual,
> {
    |acc: Seq<Individual>, x: Individual|
        if exists|i: int| 0 <= i < acc.len() && (#[trigger] acc[i]).name@ == x.name@ {
            Seq::new(
                acc.len(),
                |i: int|
                    if acc[i].name@ == x.name@ {
                        Individual {
                            score: clamped(acc[i].score + x.score, -32768, 32767) as i16,
                            ..acc[i]
                        }
                    } else {
                        acc[i]
                    },
            )
        } else {
            acc.push(x)
        }
}

/// One incoming team merged into a rankings accumulator, keyed by school.
pub open spec fn score_step_team() -> spec_fn(Seq<Team>, Team) -> Seq<Team> {
    |acc: Seq<Team>, x: Team|
        if exists|i: int| 0 <= i < acc.len() && (#[trigger] acc[i]).school@ == x.school@ {
            Seq::new(
                acc.len(),
                |i: int|
                    if acc[i].school@ == x.school@ {
                        Team { score: clamped(acc[i].score + x.score, -32768, 32767) as i16, ..acc[i] }
                    } else {
                        acc[i]
                    },
            )
        } else {
            acc.push(x)
        }
}

/// One incoming individual merged into a sweepstakes accumulator: every
/// record with the same name gains its points (saturated to the `i64`
/// range); a name not yet present is appended.
pub open spec fn points_step_individual() -> spec_fn(Seq<Individual>, Individual) -> Seq<
    Individual,
> {
    |acc: Seq<Individual>, x: Individual|
        if exists|i: int| 0 <= i < acc.len() && (#[trigger] acc[i]).name@ == x.name@ {
            Seq::new(
                acc.len(),
                |i: int|
                    if acc[i].name@ == x.name@ {
                        Individual {
                            points: clamped(
                                acc[i].points + x.points,
                                -0x8000_0000_0000_0000,
                                0x7fff_ffff_ffff_ffff,
                            ) as i64,
                            ..acc[i]
                        }
                    } else {
                        acc[i]
                    },
            )
        } else {
            acc.push(x)
        }
}

/// One incoming team merged into a sweepstakes accumulator, keyed by
/// school.
pub open spec fn points_step_team() -> spec_fn(Seq<Team>, Team) -> Seq<Team> {
    |acc: Seq<Team>, x: Team|
        if exists|i: int| 0 <= i < acc.len() && (#[trigger] acc[i]).school@ == x.school@ {
            Seq::new(
                acc.len(),
                |i: int|
                    if acc[i].school@ == x.school@ {
                        Team {
                            points: clamped(
                                acc[i].points + x.points,
                                -0x8000_0000_0000_0000,
                                0x7fff_ffff_ffff_ffff,
                            ) as i64,
                            ..acc[i]
                        }
                    } else {
                        acc[i]
                    },
            )
        } else {
            acc.push(x)
        }
}

/// A rankings accumulator after merging the incoming individuals, keyed by
/// name.
pub open spec fn merge_scores_individuals_spec(
    acc: Seq<Individual>,
    xs: Seq<Individual>,
) -> Seq<Individual> {
    fold_merge(acc, xs, score_step_individual())
}

/// A rankings accumulator after merging the incoming teams, keyed by
/// school.
pub open spec fn merge_scores_teams_spec(acc: Seq<Team>, xs: Seq<Team>) -> Seq<Team> {
    fold_merge(acc, xs, score_step_team())
}

/// A sweepstakes accumulator after merging the incoming individuals.
pub open spec fn merge_points_individuals_spec(
    acc: Seq<Individual>,
    xs: Seq<Individual>,
) -> Seq<Individual> {
    fold_merge(acc, xs, points_step_individual())
}

/// A sweepstakes accumulator after merging the incoming teams.
pub open spec fn merge_points_teams_spec(acc: Seq<Team>, xs: Seq<Team>) -> Seq<Team> {
    fold_merge(acc, xs, points_step_team())
}

/// Accumulating two record sets one after the other equals accumulating
/// their concatenation: merging per-subject results subject by subject
/// yields the same totals as merging the union at once.
pub proof fn lemma_merge_scores_individuals_union(
    acc: Seq<Individual>,
    xs: Seq<Individual>,
    ys: Seq<Individual>,
)
    ensures
        merge_scores_individuals_spec(merge_scores_individuals_spec(acc, xs), ys)
            == merge_scores_individuals_spec(acc, xs + ys),
{
    lemma_fold_merge_append(acc, xs, ys, score_step_individual());
}

/// The team form of the accumulation law: merging subject by subject
/// equals merging the union at once.
pub proof fn lemma_merge_scores_teams_union(acc: Seq<Team>, xs: Seq<Team>, ys: Seq<Team>)
    ensures
        merge_scores_teams_spec(merge_scores_teams_spec(acc, xs), ys) == merge_scores_teams_spec(
            acc,
            xs + ys,
        ),
{
    lemma_fold_merge_append(acc, xs, ys, score_step_team());
}

/// The sweepstakes form of the accumulation law for individuals.
pub proof fn lemma_merge_points_individuals_union(
    acc: Seq<Individual>,
    xs: Seq<Individual>,
    ys: Seq<Individual>,
)
    ensures
        merge_points_individuals_spec(merge_points_individuals_spec(acc, xs), ys)
            == merge_points_individuals_spec(acc, xs + ys),
{
    lemma_fold_merge_append(acc, xs, ys, points_step_individual());
}

/// The sweepstakes form of the accumulation law for teams.
pub proof fn lemma_merge_points_teams_union(acc: Seq<Team>, xs: Seq<Team>, ys: Seq<Team>)
    ensures
        merge_points_teams_spec(merge_points_teams_spec(acc, xs), ys) == merge_points_teams_spec(
            acc,
            xs + ys,
        ),
{
    lemma_fold_merge_append(acc, xs, ys, points_step_team());
}

/// Adds two scores, saturating to the `i16` range.
fn sat_add_i16(a: i16, b: i16) -> (r: i16)
    ensures
        r as int == clamped(a + b, -32768, 32767),
{
    let wide: i32 = a as i32 + b as i32;
    if wide > 32767 {
        32767
    } else if wide < -32768 {
        -32768
    } else {
        wide as i16
    }
}

/// Adds two point values, saturating to the `i64` range.
fn sat_add_i64(a: i64, b: i64) -> (r: i64)
    ensures
        r as int == clamped(a + b, -0x8000_0000_0000_0000, 0x7fff_ffff_ffff_ffff),
{
    let wide: i128 = a as i128 + b as i128;
    if wide > 0x7fff_ffff_ffff_ffffi128 {
        i64::MAX
    } else if wide < -0x8000_0000_0000_0000i128 {
        i64::MIN
    } else {
        wide as i64
    }
}

/// Merges incoming individuals into a rankings accumulator: each incoming
/// record adds its score to every accumulated record with the same name
/// (saturated), or is appended when its name is new.
pub fn merge_scores_individuals(acc: Vec<Individual>, add: Vec<Individual>) -> (r: Vec<Individual>)
    ensures
        r@ == merge_scores_individuals_spec(acc@, add@),
{
    let ghost acc0 = acc@;
    let ghost step = score_step_individual();
    let mut acc = acc;
    let mut k: usize = 0;
    while k < add.len()
        invariant
            k <= add@.len(),
            acc@ == fold_merge(acc0, add@.take(k as int), step),
            step == score_step_individual(),
        decreases add@.len() - k,
    {
        let x = add[k].clone();
        let ghost pre = acc@;
        let mut found: bool = false;
        let mut i: usize = 0;
        while i < acc.len()
            invariant
                i <= acc@.len(),
                acc@.len() == pre.len(),
                x == add@[k as int],
                k < add@.len(),
                found <==> exists|i2: int| 0 <= i2 < i && (#[trigger] pre[i2]).name@ == x.name@,
                forall|i2: int|
                    0 <= i2 < pre.len() ==> acc@[i2] == (if i2 < i && pre[i2].name@ == x.name@ {
                        (Individual {
                            score: clamped(pre[i2].score + x.score, -32768, 32767) as i16,
                            ..pre[i2]
                        })
                    } else {
                        pre[i2]
                    }),
            decreases acc@.len() - i,
        {
            if str_eq(acc[i].name.as_str(), x.name.as_str()) {
                found = true;
                let mut u = acc[i].clone();
                u.score = sat_add_i16(u.score, x.score);
                proof {
                    assert(acc@[i as int] == pre[i as int]);
                }
                acc.set(i, u);
            }
            i = i + 1;
        }
        if !found {
            acc.push(x);
        }
        proof {
            assert(acc@ =~= step(pre, add@[k as int]));
            lemma_fold_merge_append(acc0, add@.take(k as int), seq![add@[k as int]], step);
            assert(add@.take(k as int) + seq![add@[k as int]] =~= add@.take(k + 1));
            let single = seq![add@[k as int]];
            assert(single.drop_first() =~= Seq::empty());
            assert(fold_merge(step(pre, single[0]), single.drop_first(), step) == step(
                pre,
                add@[k as int],
            ));
            assert(fold_merge(pre, single, step) == step(pre, add@[k as int]));
        }
        k = k + 1;
    }
    proof {
        assert(add@.take(add@.len() as int) =~= add@);
    }
    acc
}

/// Merges incoming teams into a rankings accumulator, keyed by school.
pub fn merge_scores_teams(acc: Vec<Team>, add: Vec<Team>) -> (r: Vec<Team>)
    ensures
        r@ == merge_scores_teams_spec(acc@, add@),
{
    let ghost acc0 = acc@;
    let ghost step = score_step_team();
    let mut acc = acc;
    let mut k: usize = 0;
    while k < add.len()
        invariant
            k <= add@.len(),
            acc@ == fold_merge(acc0, add@.take(k as int), step),
            step == score_step_team(),
        decreases add@.len() - k,
    {
        let x = add[k].clone();
        let ghost pre = acc@;
        let mut found: bool = false;
        let mut i: usize = 0;
        while i < acc.len()
            invariant
                i <= acc@.len(),
                acc@.len() == pre.len(),
                x == add@[k as int],
                k < add@.len(),
                found <==> exists|i2: int| 0 <= i2 < i && (#[trigger] pre[i2]).school@ == x.school@,
                forall|i2: int|
                    0 <= i2 < pre.len() ==> acc@[i2] == (if i2 < i && pre[i2].school@ == x.school@ {
                        (Team {
                            score: clamped(pre[i2].score + x.score, -32768, 32767) as i16,
                            ..pre[i2]
                        })
                    } else {
                        pre[i2]
                    }),
            decreases acc@.len() - i,
        {
            if str_eq(acc[i].school.as_str(), x.school.as_str()) {
                found = true;
                let mut u = acc[i].clone();
                u.score = sat_add_i16(u.score, x.score);
                proof {
                    assert(acc@[i as int] == pre[i as int]);
                }
                acc.set(i, u);
            }
            i = i + 1;
        }
        if !found {
            acc.push(x);
        }
        proof {
            assert(acc@ =~= step(pre, add@[k as int]));
            lemma_fold_merge_append(acc0, add@.take(k as int), seq![add@[k as int]], step);
            assert(add@.take(k as int) + seq![add@[k as int]] =~= add@.take(k + 1));
            let single = seq![add@[k as int]];
            assert(single.drop_first() =~= Seq::empty());
            assert(fold_merge(step(pre, single[0]), single.drop_first(), step) == step(
                pre,
                add@[k as int],
            ));
            assert(fold_merge(pre, single, step) == step(pre, add@[k as int]));
        }
        k = k + 1;
    }
    proof {
        assert(add@.take(add@.len() as int) =~= add@);
    }
    acc
}

/// Merges incoming individuals into a sweepstakes accumulator: each
/// incoming record adds its points to every accumulated record with the
/// same name (saturated), or is appended when its name is new.
pub fn merge_points_individuals(acc: Vec<Individual>, add: Vec<Individual>) -> (r: Vec<Individual>)
    ensures
        r@ == merge_points_individuals_spec(acc@, add@),
{
    let ghost acc0 = acc@;
    let ghost step = points_step_individual();
    let mut acc = acc;
    let mut k: usize = 0;
    while k < add.len()
        invariant
            k <= add@.len(),
            acc@ == fold_merge(acc0, add@.take(k as int), step),
            step == points_step_individual(),
        decreases add@.len() - k,
    {
        let x = add[k].clone();
        let ghost pre = acc@;
        let mut found: bool = false;
        let mut i: usize = 0;
        while i < acc.len()
            invariant
                i <= acc@.len(),
                acc@.len() == pre.len(),
                x == add@[k as int],
                k < add@.len(),
                found <==> exists|i2: int| 0 <= i2 < i && (#[trigger] pre[i2]).name@ == x.name@,
                forall|i2: int|
                    0 <= i2 < pre.len() ==> acc@[i2] == (if i2 < i && pre[i2].name@ == x.name@ {
                        (Individual {
                            points: clamped(
                                pre[i2].points + x.points,
                                -0x8000_0000_0000_0000,
                                0x7fff_ffff_ffff_ffff,
                            ) as i64,
                            ..pre[i2]
                        })
                    } else {
                        pre[i2]
                    }),
            decreases acc@.len() - i,
        {
            if str_eq(acc[i].name.as_str(), x.name.as_str()) {
                found = true;
                let mut u = acc[i].clone();
                u.points = sat_add_i64(u.points, x.points);
                proof {
                    assert(acc@[i as int] == pre[i as int]);
                }
                acc.set(i, u);
            }
            i = i + 1;
        }
        if !found {
            acc.push(x);
        }
        proof {
            assert(acc@ =~= step(pre, add@[k as int]));
            lemma_fold_merge_append(acc0, add@.take(k as int), seq![add@[k as int]], step);
            assert(add@.take(k as int) + seq![add@[k as int]] =~= add@.take(k + 1));
            let single = seq![add@[k as int]];
            assert(single.drop_first() =~= Seq::empty());
            assert(fold_merge(step(pre, single[0]), single.drop_first(), step) == step(
                pre,
                add@[k as int],
            ));
            assert(fold_merge(pre, single, step) == step(pre, add@[k as int]));
        }
        k = k + 1;
    }
    proof {
        assert(add@.take(add@.len() as int) =~= add@);
    }
    acc
}

/// Merges incoming teams into a sweepstakes accumulator, keyed by school.
pub fn merge_points_teams(acc: Vec<Team>, add: Vec<Team>) -> (r: Vec<Team>)
    ensures
        r@ == merge_points_teams_spec(acc@, add@),
{
    let ghost acc0 = acc@;
    let ghost step = points_step_team();
    let mut acc = acc;
    let mut k: usize = 0;
    while k < add.len()
        invariant
            k <= add@.len(),
            acc@ == fold_merge(acc0, add@.take(k as int), step),
            step == points_step_team(),
        decreases add@.len() - k,
    {
        let x = add[k].clone();
        let ghost pre = acc@;
        let mut found: bool = false;
        let mut i: usize = 0;
        while i < acc.len()
            invariant
                i <= acc@.len(),
                acc@.len() == pre.len(),
                x == add@[k as int],
                k < add@.len(),
                found <==> exists|i2: int| 0 <= i2 < i && (#[trigger] pre[i2]).school@ == x.school@,
                forall|i2: int|
                    0 <= i2 < pre.len() ==> acc@[i2] == (if i2 < i && pre[i2].school@ == x.school@ {
                        (Team {
                            points: clamped(
                                pre[i2].points + x.points,
                                -0x8000_0000_0000_0000,
                                0x7fff_ffff_ffff_ffff,
                            ) as i64,
                            ..pre[i2]
                        })
                    } else {
                        pre[i2]
                    }),
            decreases acc@.len() - i,
        {
            if str_eq(acc[i].school.as_str(), x.school.as_str()) {
                found = true;
                let mut u = acc[i].clone();
                u.points = sat_add_i64(u.points, x.points);
                proof {
                    assert(acc@[i as int] == pre[i as int]);
                }
                acc.set(i, u);
            }
            i = i + 1;
        }
        if !found {
            acc.push(x);
        }
        proof {
            assert(acc@ =~= step(pre, add@[k as int]));
            lemma_fold_merge_append(acc0, add@.take(k as int), seq![add@[k as int]], step);
            assert(add@.take(k as int) + seq![add@[k as int]] =~= add@.take(k + 1));
            let single = seq![add@[k as int]];
            assert(single.drop_first() =~= Seq::empty());
            assert(fold_merge(step(pre, single[0]), single.drop_first(), step) == step(
                pre,
                add@[k as int],
            ));
            assert(fold_merge(pre, single, step) == step(pre, add@[k as int]));
        }
        k = k + 1;
    }
    proof {
        assert(add@.take(add@.len() as int) =~= add@);
    }
    acc
}

/// The positional rankings point value for 1-based position `pos`:
/// 5000 / (pos + 4), rounded down. Ties are deliberately not shared in
/// this mode: each record is scored by its position alone.
pub open spec fn rankings_points_spec(pos: int) -> int {
    5000int / (pos + 4)
}

/// Scores a sorted record list positionally for rankings mode: the record
/// at 0-based index `j` gets score 5000 / (j + 5), and its subject detail
/// is cleared. Ties are not shared: equal scores still get distinct
/// position values.
pub fn assign_rankings_points_individuals(sorted: Vec<Individual>) -> (r: Vec<Individual>)
    ensures
        r@.len() == sorted@.len(),
        forall|j: int|
            0 <= j < r@.len() ==> r@[j] == (Individual {
                score: rankings_points_spec(j + 1) as i16,
                misc: IndividualMisc::Normal,
                ..sorted@[j]
            }),
{
    let mut out: Vec<Individual> = Vec::new();
    let mut j: usize = 0;
    while j < sorted.len()
        invariant
            j <= sorted@.len(),
            out@.len() == j,
            forall|j2: int|
                0 <= j2 < j ==> out@[j2] == (Individual {
                    score: rankings_points_spec(j2 + 1) as i16,
                    misc: IndividualMisc::Normal,
                    ..sorted@[j2]
                }),
        decreases sorted@.len() - j,
    {
        let mut u = sorted[j].clone();
        let pts: u128 = 5000u128 / (j as u128 + 5);
        u.score = pts as i16;
        u.misc = IndividualMisc::Normal;
        proof {
            vstd::arithmetic::div_mod::lemma_div_is_ordered_by_denominator(5000, 5, j as int + 5);
            assert(pts <= 1000);
            assert(pts as int == rankings_points_spec(j + 1));
        }
        out.push(u);
        j = j + 1;
    }
    out
}

/// Scores a sorted team list positionally for rankings mode (see
/// `assign_rankings_points_individuals`).
pub fn assign_rankings_points_teams(sorted: Vec<Team>) -> (r: Vec<Team>)
    ensures
        r@.len() == sorted@.len(),
        forall|j: int|
            0 <= j < r@.len() ==> r@[j] == (Team {
                score: rankings_points_spec(j + 1) as i16,
                misc: TeamMisc::Normal,
                ..sorted@[j]
            }),
{
    let mut out: Vec<Team> = Vec::new();
    let mut j: usize = 0;
    while j < sorted.len()
        invariant
            j <= sorted@.len(),
            out@.len() == j,
            forall|j2: int|
                0 <= j2 < j ==> out@[j2] == (Team {
                    score: rankings_points_spec(j2 + 1) as i16,
                    misc: TeamMisc::Normal,
                    ..sorted@[j2]
                }),
        decreases sorted@.len() - j,
    {
        let mut u = sorted[j].clone();
        let pts: u128 = 5000u128 / (j as u128 + 5);
        u.score = pts as i16;
        u.misc = TeamMisc::Normal;
        proof {
            vstd::arithmetic::div_mod::lemma_div_is_ordered_by_denominator(5000, 5, j as int + 5);
            assert(pts <= 1000);
            assert(pts as int == rankings_points_spec(j + 1));
        }
        out.push(u);
        j = j + 1;
    }
    out
}

/// The sweepstakes point table for individuals, in thousandths, indexed
/// by tie-group rank.
pub open spec fn indiv_points_table() -> Seq<int> {
    seq![15000int, 12000int, 10000int, 8000int, 6000int, 4000int]
}

/// The sweepstakes point table for teams, in thousandths: two slots for
/// ordinary subjects, three for computer science's three-way award.
pub open spec fn team_points_table(subject: Subject) -> Seq<int> {
    if subject == Subject::ComputerScience {
        seq![20000int, 16000int, 12000int]
    } else {
        seq![10000int, 5000int]
    }
}

/// The sum of the table entries in `[a, b)`.
pub open spec fn sum_range(t: Seq<int>, a: int, b: int) -> int
    decreases b - a,
{
    if a >= b || a < 0 || b > t.len() {
        0int
    } else {
        t[a] + sum_range(t, a + 1, b)
    }
}

proof fn lemma_sum_range_snoc(t: Seq<int>, a: int, b: int)
    requires
        0 <= a <= b < t.len(),
    ensures
        sum_range(t, a, b + 1) == sum_range(t, a, b) + t[b],
    decreases b - a,
{
    if a < b {
        lemma_sum_range_snoc(t, a + 1, b);
        assert(sum_range(t, a, b + 1) == t[a] + sum_range(t, a + 1, b + 1));
        assert(sum_range(t, a, b) == t[a] + sum_range(t, a + 1, b));
    } else {
        assert(sum_range(t, b + 1, b + 1) == 0);
        assert(sum_range(t, b, b) == 0);
        assert(sum_range(t, b, b + 1) == t[b] + sum_range(t, b + 1, b + 1));
    }
}

proof fn lemma_sum_range_bounds(t: Seq<int>, a: int, b: int, lo: int, hi: int)
    requires
        0 <= a <= b <= t.len(),
        forall|k: int| a <= k < b ==> lo <= #[trigger] t[k] <= hi,
        lo <= 0 <= hi,
    ensures
        (b - a) * lo <= sum_range(t, a, b) <= (b - a) * hi,
    decreases b - a,
{
    if a < b {
        lemma_sum_range_bounds(t, a + 1, b, lo, hi);
        assert(sum_range(t, a, b) == t[a] + sum_range(t, a + 1, b));
        assert((b - a) * lo == lo + (b - a - 1) * lo) by (nonlinear_arith);
        assert((b - a) * hi == hi + (b - a - 1) * hi) by (nonlinear_arith);
    } else {
        assert(sum_range(t, a, b) == 0);
        assert((b - a) * lo == 0) by (nonlinear_arith)
            requires
                a == b,
        ;
        assert((b - a) * hi == 0) by (nonlinear_arith)
            requires
                a == b,
        ;
    }
}

/// The point value of a tie group at rank `g` with `n` members: the mean
/// of the `n` table entries starting at index `g`, clamped to the table's
/// end, rounded down to a thousandth. Groups past the table's end receive
/// no points.
pub open spec fn group_points_milli(t: Seq<int>, g: int, n: int) -> int {
    if g < 0 || g >= t.len() || n <= 0 {
        0int
    } else {
        sum_range(t, g, imin(g + n, t.len() as int)) / n
    }
}

/// The sweepstakes point value of the record at position `j` of a sorted
/// individual list: its tie group's split of the individual point table.
pub open spec fn sweeps_indiv_points(s: Seq<Individual>, j: int) -> int {
    group_points_milli(
        indiv_points_table(),
        group_index(s, individual_score_fn(), j),
        score_run_len(s, individual_score_fn(), group_start(s, individual_score_fn(), j)),
    )
}

/// The sweepstakes point value of the record at position `j` of a sorted
/// team list, under the subject's point table.
pub open spec fn sweeps_team_points(s: Seq<Team>, subject: Subject, j: int) -> int {
    group_points_milli(
        team_points_table(subject),
        group_index(s, team_score_fn(), j),
        score_run_len(s, team_score_fn(), group_start(s, team_score_fn(), j)),
    )
}

fn indiv_table_val(i: usize) -> (r: i64)
    requires
        i < 6,
    ensures
        r as int == indiv_points_table()[i as int],
{
    if i == 0 {
        15000
    } else if i == 1 {
        12000
    } else if i == 2 {
        10000
    } else if i == 3 {
        8000
    } else if i == 4 {
        6000
    } else {
        4000
    }
}

fn team_table_val(subject: &Subject, i: usize) -> (r: i64)
    requires
        i < team_points_table(*subject).len(),
    ensures
        r as int == team_points_table(*subject)[i as int],
{
    if *subject == Subject::ComputerScience {
        if i == 0 {
            20000
        } else if i == 1 {
            16000
        } else {
            12000
        }
    } else {
        if i == 0 {
            10000
        } else {
            5000
        }
    }
}

/// Assigns sweepstakes points to a sorted individual list: each tie group
/// at rank `g` with `n` members splits the `n` table slots starting at
/// `g`, every member receiving the mean; groups past the table's six
/// slots receive no points. Only `points` changes.
pub fn assign_sweepstakes_points_individuals(sorted: Vec<Individual>) -> (r: Vec<Individual>)
    ensures
        r@.len() == sorted@.len(),
        forall|j: int|
            0 <= j < r@.len() ==> r@[j] == (Individual {
                points: sweeps_indiv_points(sorted@, j) as i64,
                ..sorted@[j]
            }),
{
    let ghost sc = individual_score_fn();
    let mut out: Vec<Individual> = Vec::new();
    let mut i: usize = 0;
    let mut g: usize = 0;
    while i < sorted.len()
        invariant
            i <= sorted@.len(),
            out@.len() == i,
            g <= i,
            sc == individual_score_fn(),
            i < sorted@.len() ==> (i == 0 || sc(sorted@[i as int]) != sc(sorted@[i - 1])),
            i < sorted@.len() ==> g as int == group_index(sorted@, sc, i as int),
            forall|j: int|
                0 <= j < i ==> out@[j] == (Individual {
                    points: sweeps_indiv_points(sorted@, j) as i64,
                    ..sorted@[j]
                }),
        decreases sorted@.len() - i,
    {
        let mut j: usize = i + 1;
        while j < sorted.len() && sorted[j].score == sorted[i].score
            invariant
                i < j <= sorted@.len(),
                forall|k: int| i < k < j ==> sorted@[k].score == sorted@[i as int].score,
            decreases sorted@.len() - j,
        {
            j = j + 1;
        }
        proof {
            lemma_score_run_exact(sorted@, sc, i as int, j as int);
        }
        let n: usize = j - i;
        let mut pts: i64 = 0;
        if g < 6 {
            let hi: usize = if g + n < 6 {
                g + n
            } else {
                6
            };
            let mut sum: i64 = 0;
            let mut t: usize = g;
            while t < hi
                invariant
                    g <= t <= hi <= 6,
                    sum == sum_range(indiv_points_table(), g as int, t as int),
                    0 <= sum <= 90000,
                decreases hi - t,
            {
                proof {
                    lemma_sum_range_snoc(indiv_points_table(), g as int, t as int);
                    lemma_sum_range_bounds(indiv_points_table(), g as int, t + 1, 0, 15000);
                }
                sum = sum + indiv_table_val(t);
                t = t + 1;
            }
            pts = (sum as u128 / n as u128) as i64;
            proof {
                vstd::arithmetic::div_mod::lemma_div_pos_is_pos(sum as int, n as int);
                vstd::arithmetic::div_mod::lemma_div_is_ordered_by_denominator(
                    sum as int,
                    1,
                    n as int,
                );
            }
        }
        proof {
            assert(pts as int == group_points_milli(indiv_points_table(), g as int, n as int));
        }
        let mut k: usize = i;
        while k < j
            invariant
                i <= k <= j <= sorted@.len(),
                i < j,
                out@.len() == k,
                sc == individual_score_fn(),
                i == 0 || sc(sorted@[i as int]) != sc(sorted@[i - 1]),
                g as int == group_index(sorted@, sc, i as int),
                score_run_len(sorted@, sc, i as int) == j - i,
                pts as int == group_points_milli(indiv_points_table(), g as int, (j - i) as int),
                forall|j2: int|
                    0 <= j2 < k ==> out@[j2] == (Individual {
                        points: sweeps_indiv_points(sorted@, j2) as i64,
                        ..sorted@[j2]
                    }),
            decreases j - k,
        {
            let mut u = sorted[k].clone();
            u.points = pts;
            proof {
                lemma_group_within(sorted@, sc, i as int, k as int);
                assert(sweeps_indiv_points(sorted@, k as int) == pts as int);
            }
            out.push(u);
            k = k + 1;
        }
        proof {
            if j < sorted@.len() {
                lemma_group_boundary(sorted@, sc, i as int);
            }
        }
        i = j;
        g = g + 1;
    }
    out
}

/// Assigns sweepstakes points to a sorted team list under the subject's
/// point table (see `assign_sweepstakes_points_individuals`).
pub fn assign_sweepstakes_points_teams(sorted: Vec<Team>, subject: &Subject) -> (r: Vec<Team>)
    ensures
        r@.len() == sorted@.len(),
        forall|j: int|
            0 <= j < r@.len() ==> r@[j] == (Team {
                points: sweeps_team_points(sorted@, *subject, j) as i64,
                ..sorted@[j]
            }),
{
    let ghost sc = team_score_fn();
    let table_len: usize = if *subject == Subject::ComputerScience {
        3
    } else {
        2
    };
    let mut out: Vec<Team> = Vec::new();
    let mut i: usize = 0;
    let mut g: usize = 0;
    while i < sorted.len()
        invariant
            i <= sorted@.len(),
            out@.len() == i,
            g <= i,
            sc == team_score_fn(),
            table_len as int == team_points_table(*subject).len(),
            i < sorted@.len() ==> (i == 0 || sc(sorted@[i as int]) != sc(sorted@[i - 1])),
            i < sorted@.len() ==> g as int == group_index(sorted@, sc, i as int),
            forall|j: int|
                0 <= j < i ==> out@[j] == (Team {
                    points: sweeps_team_points(sorted@, *subject, j) as i64,
                    ..sorted@[j]
                }),
        decreases sorted@.len() - i,
    {
        let mut j: usize = i + 1;
        while j < sorted.len() && sorted[j].score == sorted[i].score
            invariant
                i < j <= sorted@.len(),
                forall|k: int| i < k < j ==> sorted@[k].score == sorted@[i as int].score,
            decreases sorted@.len() - j,
        {
            j = j + 1;
        }
        proof {
            lemma_score_run_exact(sorted@, sc, i as int, j as int);
        }
        let n: usize = j - i;
        let mut pts: i64 = 0;
        if g < table_len {
            let hi: usize = if g + n < table_len {
                g + n
            } else {
                table_len
            };
            let mut sum: i64 = 0;
            let mut t: usize = g;
            while t < hi
                invariant
                    g <= t <= hi <= table_len,
                    table_len as int == team_points_table(*subject).len(),
                    sum == sum_range(team_points_table(*subject), g as int, t as int),
                    0 <= sum <= 60000,
                decreases hi - t,
            {
                proof {
                    lemma_sum_range_snoc(team_points_table(*subject), g as int, t as int);
                    lemma_sum_range_bounds(team_points_table(*subject), g as int, t + 1, 0, 20000);
                }
                sum = sum + team_table_val(subject, t);
                t = t + 1;
            }
            pts = (sum as u128 / n as u128) as i64;
            proof {
                vstd::arithmetic::div_mod::lemma_div_pos_is_pos(sum as int, n as int);
                vstd::arithmetic::div_mod::lemma_div_is_ordered_by_denominator(
                    sum as int,
                    1,
                    n as int,
                );
            }
        }
        proof {
            assert(pts as int == group_points_milli(
                team_points_table(*subject),
                g as int,
                n as int,
            ));
        }
        let mut k: usize = i;
        while k < j
            invariant
                i <= k <= j <= sorted@.len(),
                i < j,
                out@.len() == k,
                sc == team_score_fn(),
                i == 0 || sc(sorted@[i as int]) != sc(sorted@[i - 1]),
                g as int == group_index(sorted@, sc, i as int),
                score_run_len(sorted@, sc, i as int) == j - i,
                pts as int == group_points_milli(
                    team_points_table(*subject),
                    g as int,
                    (j - i) as int,
                ),
                forall|j2: int|
                    0 <= j2 < k ==> out@[j2] == (Team {
                        points: sweeps_team_points(sorted@, *subject, j2) as i64,
                        ..sorted@[j2]
                    }),
            decreases j - k,
        {
            let mut u = sorted[k].clone();
            u.points = pts;
            proof {
                lemma_group_within(sorted@, sc, i as int, k as int);
                assert(sweeps_team_points(sorted@, *subject, k as int) == pts as int);
            }
            out.push(u);
            k = k + 1;
        }
        proof {
            if j < sorted@.len() {
                lemma_group_boundary(sorted@, sc, i as int);
            }
        }
        i = j;
        g = g + 1;
    }
    out
}

/// The subjects that rankings mode aggregates, in fetch order.
pub open spec fn rankings_subjects_spec() -> Seq<Subject> {
    seq![
        Subject::Accounting,
        Subject::ComputerScience,
        Subject::Mathematics,
        Subject::NumberSense,
        Subject::Calculator,
        Subject::Science,
        Subject::SocialStudies,
        Subject::Spelling,
    ]
}

/// The subjects that sweepstakes mode aggregates for `year`, in fetch
/// order; computer applications is discontinued after 2024 and drops out.
pub open spec fn sweepstakes_subjects_spec(year: u16) -> Seq<Subject> {
    if year > 2024 {
        seq![
            Subject::Accounting,
            Subject::CurrentEvents,
            Subject::ComputerScience,
            Subject::Calculator,
            Subject::Spelling,
            Subject::Science,
            Subject::SocialStudies,
            Subject::Mathematics,
            Subject::NumberSense,
        ]
    } else {
        seq![
            Subject::Accounting,
            Subject::ComputerApplications,
            Subject::CurrentEvents,
            Subject::ComputerScience,
            Subject::Calculator,
            Subject::Spelling,
            Subject::Science,
            Subject::SocialStudies,
            Subject::Mathematics,
            Subject::NumberSense,
        ]
    }
}

/// The subjects that rankings mode aggregates, in fetch order.
pub fn rankings_subjects() -> (r: Vec<Subject>)
    ensures
        r@ == rankings_subjects_spec(),
{
    let mut v: Vec<Subject> = Vec::new();
    v.push(Subject::Accounting);
    v.push(Subject::ComputerScience);
    v.push(Subject::Mathematics);
    v.push(Subject::NumberSense);
    v.push(Subject::Calculator);
    v.push(Subject::Science);
    v.push(Subject::SocialStudies);
    v.push(Subject::Spelling);
    proof {
        assert(v@ =~= rankings_subjects_spec());
    }
    v
}

/// The subjects that sweepstakes mode aggregates for `year`, in fetch
/// order.
pub fn sweepstakes_subjects(year: u16) -> (r: Vec<Subject>)
    ensures
        r@ == sweepstakes_subjects_spec(year),
{
    let mut v: Vec<Subject> = Vec::new();
    v.push(Subject::Accounting);
    if year <= 2024 {
        v.push(Subject::ComputerApplications);
    }
    v.push(Subject::CurrentEvents);
    v.push(Subject::ComputerScience);
    v.push(Subject::Calculator);
    v.push(Subject::Spelling);
    v.push(Subject::Science);
    v.push(Subject::SocialStudies);
    v.push(Subject::Mathematics);
    v.push(Subject::NumberSense);
    proof {
        assert(v@ =~= sweepstakes_subjects_spec(year));
    }
    v
}

/// The pacing delay between back-to-back subject fetches, in milliseconds:
/// a request against one specific district waits half a second to avoid
/// the host's rate limiting; requests that span all districts already run
/// concurrently and get no delay, and neither do region or state requests.
pub fn subject_pause_ms(fields: &RequestFields) -> (r: Option<u64>)
    ensures
        r == (match fields.district {
            Some(d) => if d != 0 {
                Some(500u64)
            } else {
                None
            },
            None => None,
        }),
{
    match fields.district {
        Some(d) => if d != 0 {
            Some(500)
        } else {
            None
        },
        None => None,
    }
}

/// Rounding of a thousandths value to a whole score: half away from zero.
pub open spec fn round_milli(p: int) -> int {
    if p >= 0 {
        (p + 500) / 1000
    } else {
        -((-p + 500) / 1000)
    }
}

/// Rounds a thousandths point value to a whole score, saturated to the
/// `i16` range.
pub fn round_points_to_score(p: i64) -> (r: i16)
    ensures
        r as int == clamped(round_milli(p as int), -32768, 32767),
{
    if p >= 0 {
        let v: i64 = (p / 1000) + (if p % 1000 >= 500 {
            1
        } else {
            0
        });
        proof {
            assert(v == (p + 500) / 1000) by (nonlinear_arith)
                requires
                    p >= 0,
                    v == p / 1000 + (if p % 1000 >= 500 {
                        1int
                    } else {
                        0int
                    }),
            ;
        }
        if v > 32767 {
            32767
        } else {
            v as i16
        }
    } else if p < -32768500 {
        proof {
            vstd::arithmetic::div_mod::lemma_div_is_ordered(32769000, -p as int + 500, 1000);
        }
        -32768
    } else {
        let m: i64 = -p;
        let v: i64 = (m / 1000) + (if m % 1000 >= 500 {
            1
        } else {
            0
        });
        proof {
            assert(v == (m + 500) / 1000) by (nonlinear_arith)
                requires
                    m >= 0,
                    v == m / 1000 + (if m % 1000 >= 500 {
                        1int
                    } else {
                        0int
                    }),
            ;
        }
        if v > 32768 {
            -32768
        } else {
            -v as i16
        }
    }
}

/// Sets each record's score to its rounded point total, as the sweepstakes
/// display consumes it. Only `score` changes.
pub fn scores_from_points_individuals(records: Vec<Individual>) -> (r: Vec<Individual>)
    ensures
        r@.len() == records@.len(),
        forall|j: int|
            0 <= j < r@.len() ==> r@[j] == (Individual {
                score: clamped(round_milli(records@[j].points as int), -32768, 32767) as i16,
                ..records@[j]
            }),
{
    let mut out: Vec<Individual> = Vec::new();
    let mut j: usize = 0;
    while j < records.len()
        invariant
            j <= records@.len(),
            out@.len() == j,
            forall|j2: int|
                0 <= j2 < j ==> out@[j2] == (Individual {
                    score: clamped(round_milli(records@[j2].points as int), -32768, 32767) as i16,
                    ..records@[j2]
                }),
        decreases records@.len() - j,
    {
        let mut u = records[j].clone();
        u.score = round_points_to_score(u.points);
        out.push(u);
        j = j + 1;
    }
    out
}

/// A clamped sum of the point values of every individual from `school`.
pub open spec fn school_points_sum(xs: Seq<Individual>, school: Seq<char>, k: int) -> int
    decreases k,
{
    if k <= 0 {
        0int
    } else if xs[k - 1].school@ == school {
        clamped(
            school_points_sum(xs, school, k - 1) + xs[k - 1].points,
            -0x8000_0000_0000_0000,
            0x7fff_ffff_ffff_ffff,
        )
    } else {
        school_points_sum(xs, school, k - 1)
    }
}

/// The sweepstakes cross-reference: every team gains the points of its
/// school's individuals, its score becomes the rounded total, and its
/// subject detail is cleared.
pub fn sweepstakes_team_totals(teams: Vec<Team>, individuals: &Vec<Individual>) -> (r: Vec<Team>)
    ensures
        r@.len() == teams@.len(),
        forall|j: int|
            0 <= j < r@.len() ==> {
                let total = clamped(
                    (#[trigger] teams@[j]).points + school_points_sum(
                        individuals@,
                        teams@[j].school@,
                        individuals@.len() as int,
                    ),
                    -0x8000_0000_0000_0000,
                    0x7fff_ffff_ffff_ffff,
                );
                r@[j] == (Team {
                    points: total as i64,
                    score: clamped(round_milli(total), -32768, 32767) as i16,
                    misc: TeamMisc::Normal,
                    ..teams@[j]
                })
            },
{
    let mut out: Vec<Team> = Vec::new();
    let mut j: usize = 0;
    while j < teams.len()
        invariant
            j <= teams@.len(),
            out@.len() == j,
            forall|j2: int|
                0 <= j2 < j ==> {
                    let total = clamped(
                        (#[trigger] teams@[j2]).points + school_points_sum(
                            individuals@,
                            teams@[j2].school@,
                            individuals@.len() as int,
                        ),
                        -0x8000_0000_0000_0000,
                        0x7fff_ffff_ffff_ffff,
                    );
                    out@[j2] == (Team {
                        points: total as i64,
                        score: clamped(round_milli(total), -32768, 32767) as i16,
                        misc: TeamMisc::Normal,
                        ..teams@[j2]
                    })
                },
        decreases teams@.len() - j,
    {
        let mut u = teams[j].clone();
        let mut extra: i64 = 0;
        let mut k: usize = 0;
        while k < individuals.len()
            invariant
                k <= individuals@.len(),
                j < teams@.len(),
                u == teams@[j as int],
                extra as int == school_points_sum(individuals@, teams@[j as int].school@, k as int),
            decreases individuals@.len() - k,
        {
            if str_eq(individuals[k].school.as_str(), u.school.as_str()) {
                extra = sat_add_i64(extra, individuals[k].points);
            }
            k = k + 1;
        }
        u.points = sat_add_i64(u.points, extra);
        u.score = round_points_to_score(u.points);
        u.misc = TeamMisc::Normal;
        out.push(u);
        j = j + 1;
    }
    out
}

/// Prefixes each record's school with `"<year> - "`, as the historical
/// high-score mode labels results from many seasons. Only `school`
/// changes.
pub fn prefix_school_year_individuals(records: Vec<Individual>, year: u16) -> (r: Vec<Individual>)
    ensures
        r@.len() == records@.len(),
        forall|j: int|
            0 <= j < r@.len() ==> (#[trigger] r@[j]).school@ == dec_rep(year as int) + " - "@
                + records@[j].school@ && r@[j] == (Individual { school: r@[j].school, ..records@[j] }),
{
    let mut out: Vec<Individual> = Vec::new();
    let mut j: usize = 0;
    while j < records.len()
        invariant
            j <= records@.len(),
            out@.len() == j,
            forall|j2: int|
                0 <= j2 < j ==> (#[trigger] out@[j2]).school@ == dec_rep(year as int) + " - "@
                    + records@[j2].school@ && out@[j2] == (Individual {
                    school: out@[j2].school,
                    ..records@[j2]
                }),
        decreases records@.len() - j,
    {
        let mut u = records[j].clone();
        let mut label = u64_to_string(year as u64);
        label.append(" - ");
        label.append(u.school.as_str());
        u.school = label;
        out.push(u);
        j = j + 1;
    }
    out
}

/// Prefixes each team's school with `"<year> - "` (see
/// `prefix_school_year_individuals`).
pub fn prefix_school_year_teams(records: Vec<Team>, year: u16) -> (r: Vec<Team>)
    ensures
        r@.len() == records@.len(),
        forall|j: int|
            0 <= j < r@.len() ==> (#[trigger] r@[j]).school@ == dec_rep(year as int) + " - "@
                + records@[j].school@ && r@[j] == (Team { school: r@[j].school, ..records@[j] }),
{
    let mut out: Vec<Team> = Vec::new();
    let mut j: usize = 0;
    while j < records.len()
        invariant
            j <= records@.len(),
            out@.len() == j,
            forall|j2: int|
                0 <= j2 < j ==> (#[trigger] out@[j2]).school@ == dec_rep(year as int) + " - "@
                    + records@[j2].school@ && out@[j2] == (Team {
                    school: out@[j2].school,
                    ..records@[j2]
                }),
        decreases records@.len() - j,
    {
        let mut u = records[j].clone();
        let mut label = u64_to_string(year as u64);
        label.append(" - ");
        label.append(u.school.as_str());
        u.school = label;
        out.push(u);
        j = j + 1;
    }
    out
}

/// The individuals whose name matches one of the two compared entries, in
/// order.
pub fn filter_individuals_by_names(records: Vec<Individual>, a: &String, b: &String) -> (r: Vec<
    Individual,
>)
    ensures
        r@ == records@.filter(
            |x: Individual| x.name@ == a@ || x.name@ == b@,
        ),
{
    let ghost pred = |x: Individual| x.name@ == a@ || x.name@ == b@;
    let mut out: Vec<Individual> = Vec::new();
    let mut j: usize = 0;
    while j < records.len()
        invariant
            j <= records@.len(),
            pred == (|x: Individual| x.name@ == a@ || x.name@ == b@),
            out@ == records@.take(j as int).filter(pred),
        decreases records@.len() - j,
    {
        proof {
            assert(records@.take(j + 1).drop_last() =~= records@.take(j as int));
            assert(records@.take(j + 1).last() == records@[j as int]);
            reveal_with_fuel(Seq::filter, 2);
        }
        if str_eq(records[j].name.as_str(), a.as_str()) || str_eq(
            records[j].name.as_str(),
            b.as_str(),
        ) {
            out.push(records[j].clone());
        }
        j = j + 1;
    }
    proof {
        assert(records@.take(records@.len() as int) =~= records@);
    }
    out
}

/// The teams whose school matches one of the two compared entries, in
/// order.
pub fn filter_teams_by_names(records: Vec<Team>, a: &String, b: &String) -> (r: Vec<Team>)
    ensures
        r@ == records@.filter(
            |x: Team| x.school@ == a@ || x.school@ == b@,
        ),
{
    let ghost pred = |x: Team| x.school@ == a@ || x.school@ == b@;
    let mut out: Vec<Team> = Vec::new();
    let mut j: usize = 0;
    while j < records.len()
        invariant
            j <= records@.len(),
            pred == (|x: Team| x.school@ == a@ || x.school@ == b@),
            out@ == records@.take(j as int).filter(pred),
        decreases records@.len() - j,
    {
        proof {
            assert(records@.take(j + 1).drop_last() =~= records@.take(j as int));
            assert(records@.take(j + 1).last() == records@[j as int]);
            reveal_with_fuel(Seq::filter, 2);
        }
        if str_eq(records[j].school.as_str(), a.as_str()) || str_eq(
            records[j].school.as_str(),
            b.as_str(),
        ) {
            out.push(records[j].clone());
        }
        j = j + 1;
    }
    proof {
        assert(records@.take(records@.len() as int) =~= records@);
    }
    out
}

/// The tie-aware standing of each position in a score-sorted list: a
/// record keeps the place of the previous record when their scores are
/// equal, and otherwise takes its own 0-based position.
pub open spec fn display_place_spec(scores: Seq<i16>, j: int) -> int
    decreases j,
{
    if j <= 0 {
        0int
    } else if scores[j] == scores[j - 1] {
        display_place_spec(scores, j - 1)
    } else {
        j
    }
}

/// The tie-aware standings of a score-sorted list, 0-based: tied records
/// share the place of the first of them.
pub fn display_places(scores: &Vec<i16>) -> (r: Vec<usize>)
    ensures
        r@.len() == scores@.len(),
        forall|j: int| 0 <= j < r@.len() ==> r@[j] as int == display_place_spec(scores@, j),
{
    let mut out: Vec<usize> = Vec::new();
    let mut j: usize = 0;
    while j < scores.len()
        invariant
            j <= scores@.len(),
            out@.len() == j,
            forall|j2: int| 0 <= j2 < j ==> out@[j2] as int == display_place_spec(scores@, j2),
        decreases scores@.len() - j,
    {
        let place: usize = if j == 0 {
            0
        } else if scores[j] == scores[j - 1] {
            out[j - 1]
        } else {
            j
        };
        out.push(place);
        j = j + 1;
    }
    out
}

} // verus!
