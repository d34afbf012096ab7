//! Score ordering shared by individual and team records: a stable
//! descending insertion sort and the partition of a sequence into tie
//! groups (maximal contiguous runs of equal score).
//!
//! Everything is parameterized by a score projection `sc`, so the same
//! definitions and laws serve both record kinds.

use vstd::prelude::*;

verus! {

/// `x` inserted into `s` after every element whose score is at least
/// `sc(x)`. On a sequence sorted by descending score this keeps the sort
/// stable: earlier elements with an equal score stay in front of `x`.
pub open spec fn insert_desc<A>(s: Seq<A>, x: A, sc: spec_fn(A) -> int) -> Seq<A>
    decreases s.len(),
{
    if s.len() > 0 && sc(s[0]) >= sc(x) {
        seq![s[0]] + insert_desc(s.drop_first(), x, sc)
    } else {
        seq![x] + s
    }
}

/// `s` sorted by descending score, stably: elements with equal scores keep
/// their original relative order.
pub open spec fn sort_desc<A>(s: Seq<A>, sc: spec_fn(A) -> int) -> Seq<A>
    decreases s.len(),
{
    if s.len() == 0 {
        Seq::empty()
    } else {
        insert_desc(sort_desc(s.drop_last(), sc), s.last(), sc)
    }
}

/// Whether `s` is sorted by descending score.
pub open spec fn sorted_desc<A>(s: Seq<A>, sc: spec_fn(A) -> int) -> bool {
    forall|i: int, j: int| 0 <= i <= j < s.len() ==> sc(s[i]) >= sc(s[j])
}

/// Characterizes `insert_desc` by the insertion point: if every element
/// before `p` scores at least `sc(x)` and the element at `p` (if any)
/// scores less, the insertion happens exactly at `p`.
pub proof fn lemma_insert_desc_point<A>(s: Seq<A>, x: A, sc: spec_fn(A) -> int, p: int)
    requires
        0 <= p <= s.len(),
        forall|j: int| 0 <= j < p ==> sc(s[j]) >= sc(x),
        p == s.len() || sc(s[p]) < sc(x),
    ensures
        insert_desc(s, x, sc) == s.insert(p, x),
    decreases p,
{
    if p == 0 {
        assert(insert_desc(s, x, sc) =~= s.insert(0, x));
    } else {
        lemma_insert_desc_point(s.drop_first(), x, sc, p - 1);
        assert(s.drop_first().insert(p - 1, x) =~= s.insert(p, x).drop_first());
        assert(insert_desc(s, x, sc) =~= s.insert(p, x));
    }
}

/// Inserting preserves descending sortedness.
pub proof fn lemma_insert_desc_sorted<A>(s: Seq<A>, x: A, sc: spec_fn(A) -> int)
    requires
        sorted_desc(s, sc),
    ensures
        sorted_desc(insert_desc(s, x, sc), sc),
    decreases s.len(),
{
    if s.len() > 0 && sc(s[0]) >= sc(x) {
        assert(sorted_desc(s.drop_first(), sc));
        lemma_insert_desc_sorted(s.drop_first(), x, sc);
        let r = seq![s[0]] + insert_desc(s.drop_first(), x, sc);
        assert forall|i: int, j: int| 0 <= i <= j < r.len() implies sc(r[i]) >= sc(r[j]) by {
            if i == 0 && j > 0 {
                lemma_insert_desc_members(s.drop_first(), x, sc, j - 1);
                if insert_desc(s.drop_first(), x, sc)[j - 1] != x {
                    let w = choose|w: int|
                        0 <= w < s.drop_first().len() && s.drop_first()[w] == insert_desc(
                            s.drop_first(),
                            x,
                            sc,
                        )[j - 1];
                    assert(sc(s[0]) >= sc(s.drop_first()[w]));
                }
            }
        }
    }
}

/// Every element of `insert_desc(s, x, sc)` is `x` or an element of `s`.
proof fn lemma_insert_desc_members<A>(s: Seq<A>, x: A, sc: spec_fn(A) -> int, k: int)
    requires
        0 <= k < insert_desc(s, x, sc).len(),
    ensures
        insert_desc(s, x, sc)[k] == x || exists|j: int|
            0 <= j < s.len() && s[j] == insert_desc(s, x, sc)[k],
    decreases s.len(),
{
    if s.len() > 0 && sc(s[0]) >= sc(x) {
        if k > 0 {
            lemma_insert_desc_members(s.drop_first(), x, sc, k - 1);
            if insert_desc(s.drop_first(), x, sc)[k - 1] != x {
                let w = choose|w: int|
                    0 <= w < s.drop_first().len() && s.drop_first()[w] == insert_desc(
                        s.drop_first(),
                        x,
                        sc,
                    )[k - 1];
                assert(s[w + 1] == insert_desc(s, x, sc)[k]);
            }
        }
    } else {
        if k > 0 {
            assert(s[k - 1] == insert_desc(s, x, sc)[k]);
        }
    }
}

/// The result of `sort_desc` is sorted by descending score.
pub proof fn lemma_sort_desc_sorted<A>(s: Seq<A>, sc: spec_fn(A) -> int)
    ensures
        sorted_desc(sort_desc(s, sc), sc),
    decreases s.len(),
{
    if s.len() > 0 {
        lemma_sort_desc_sorted(s.drop_last(), sc);
        lemma_insert_desc_sorted(sort_desc(s.drop_last(), sc), s.last(), sc);
    }
}

/// Sorting permutes the input: the multiset of elements is unchanged.
pub proof fn lemma_sort_desc_multiset<A>(s: Seq<A>, sc: spec_fn(A) -> int)
    ensures
        sort_desc(s, sc).to_multiset() == s.to_multiset(),
    decreases s.len(),
{
    broadcast use vstd::seq_lib::group_to_multiset_ensures;

    if s.len() > 0 {
        lemma_sort_desc_multiset(s.drop_last(), sc);
        lemma_insert_desc_multiset(sort_desc(s.drop_last(), sc), s.last(), sc);
        assert(s.drop_last().push(s.last()) =~= s);
    }
}

proof fn lemma_to_multiset_cons<A>(r: Seq<A>)
    requires
        r.len() > 0,
    ensures
        r.to_multiset() == r.drop_first().to_multiset().insert(r[0]),
{
    broadcast use vstd::seq_lib::group_to_multiset_ensures;
    broadcast use vstd::multiset::group_multiset_axioms;

    assert(r.remove(0) =~= r.drop_first());
    assert(r.remove(0).to_multiset() =~= r.to_multiset().remove(r[0]));
    assert(r.contains(r[0]));
    assert(r.to_multiset().count(r[0]) > 0);
    assert(r.to_multiset().remove(r[0]).insert(r[0]) =~= r.to_multiset());
}

proof fn lemma_insert_desc_multiset<A>(s: Seq<A>, x: A, sc: spec_fn(A) -> int)
    ensures
        insert_desc(s, x, sc).to_multiset() == s.to_multiset().insert(x),
    decreases s.len(),
{
    broadcast use vstd::multiset::group_multiset_axioms;

    if s.len() > 0 && sc(s[0]) >= sc(x) {
        lemma_insert_desc_multiset(s.drop_first(), x, sc);
        let r = seq![s[0]] + insert_desc(s.drop_first(), x, sc);
        assert(r.drop_first() =~= insert_desc(s.drop_first(), x, sc));
        lemma_to_multiset_cons(r);
        lemma_to_multiset_cons(s);
        assert(s.drop_first().to_multiset().insert(x).insert(s[0]) =~= s.drop_first()
            .to_multiset()
            .insert(s[0])
            .insert(x));
    } else {
        let r = seq![x] + s;
        assert(r.drop_first() =~= s);
        lemma_to_multiset_cons(r);
    }
}

/// The length of the run of elements starting at `i` whose scores all equal
/// `sc(s[i])`.
pub open spec fn score_run_len<A>(s: Seq<A>, sc: spec_fn(A) -> int, i: int) -> int
    decreases s.len() - i,
{
    if i < 0 || i >= s.len() {
        0
    } else if i + 1 < s.len() && sc(s[i + 1]) == sc(s[i]) {
        1 + score_run_len(s, sc, i + 1)
    } else {
        1
    }
}

proof fn lemma_score_run_le<A>(s: Seq<A>, sc: spec_fn(A) -> int, i: int)
    requires
        0 <= i < s.len(),
    ensures
        1 <= score_run_len(s, sc, i) <= s.len() - i,
    decreases s.len() - i,
{
    if i + 1 < s.len() && sc(s[i + 1]) == sc(s[i]) {
        lemma_score_run_le(s, sc, i + 1);
    }
}

/// All elements of the run starting at `i` share the score of `s[i]`.
proof fn lemma_score_run_uniform<A>(s: Seq<A>, sc: spec_fn(A) -> int, i: int, j: int)
    requires
        0 <= i <= j < i + score_run_len(s, sc, i),
        i < s.len(),
    ensures
        sc(s[j]) == sc(s[i]),
    decreases j - i,
{
    lemma_score_run_le(s, sc, i);
    if j > i {
        lemma_score_run_uniform(s, sc, i + 1, j);
    }
}

/// The run starting at `i` is maximal: the element right after it, if any,
/// has a different score.
proof fn lemma_score_run_boundary<A>(s: Seq<A>, sc: spec_fn(A) -> int, i: int)
    requires
        0 <= i < s.len(),
        i + score_run_len(s, sc, i) < s.len(),
    ensures
        sc(s[i + score_run_len(s, sc, i)]) != sc(s[i]),
    decreases s.len() - i,
{
    if i + 1 < s.len() && sc(s[i + 1]) == sc(s[i]) {
        lemma_score_run_boundary(s, sc, i + 1);
    }
}

/// Characterizes the run length by its end position: if everything strictly
/// between `i` and `j` scores like `s[i]` and the element at `j` (if any)
/// does not, the run starting at `i` ends exactly at `j`.
pub proof fn lemma_score_run_exact<A>(s: Seq<A>, sc: spec_fn(A) -> int, i: int, j: int)
    requires
        0 <= i < j <= s.len(),
        forall|k: int| i < k < j ==> sc(s[k]) == sc(s[i]),
        j == s.len() || sc(s[j]) != sc(s[i]),
    ensures
        score_run_len(s, sc, i) == j - i,
    decreases j - i,
{
    if i + 1 < s.len() && sc(s[i + 1]) == sc(s[i]) {
        lemma_score_run_exact(s, sc, i + 1, j);
    }
}

/// The tie groups of `s` from position `i` on: maximal contiguous runs of
/// equal score, in order.
pub open spec fn tie_groups_from<A>(s: Seq<A>, sc: spec_fn(A) -> int, i: int) -> Seq<Seq<A>>
    decreases s.len() - i,
    via tie_groups_from_dec::<A>
{
    if i < 0 || i >= s.len() {
        Seq::empty()
    } else {
        seq![s.subrange(i, i + score_run_len(s, sc, i))] + tie_groups_from(
            s,
            sc,
            i + score_run_len(s, sc, i),
        )
    }
}

#[via_fn]
proof fn tie_groups_from_dec<A>(s: Seq<A>, sc: spec_fn(A) -> int, i: int) {
    if 0 <= i < s.len() {
        lemma_score_run_le(s, sc, i);
    }
}

/// The partition of `s` into tie groups.
pub open spec fn tie_groups_spec<A>(s: Seq<A>, sc: spec_fn(A) -> int) -> Seq<Seq<A>> {
    tie_groups_from(s, sc, 0)
}

/// The laws of tie grouping, from any starting position: concatenating the
/// groups gives back the rest of the sequence, every group is a non-empty
/// run of one score, the first group starts at `i`, and adjacent groups
/// have different scores.
pub proof fn lemma_tie_groups_from_props<A>(s: Seq<A>, sc: spec_fn(A) -> int, i: int)
    requires
        0 <= i <= s.len(),
    ensures
        tie_groups_from(s, sc, i).flatten() == s.skip(i),
        forall|k: int|
            0 <= k < tie_groups_from(s, sc, i).len() ==> tie_groups_from(s, sc, i)[k].len() > 0,
        forall|k: int, a: int|
            0 <= k < tie_groups_from(s, sc, i).len() && 0 <= a < tie_groups_from(s, sc, i)[k].len()
                ==> sc(#[trigger] tie_groups_from(s, sc, i)[k][a]) == sc(tie_groups_from(s, sc, i)[k][0]),
        i < s.len() ==> tie_groups_from(s, sc, i).len() > 0 && tie_groups_from(s, sc, i)[0][0]
            == s[i],
        forall|k: int|
            0 <= k < tie_groups_from(s, sc, i).len() - 1 ==> sc(#[trigger] tie_groups_from(s, sc, i)[k][0])
                != sc(tie_groups_from(s, sc, i)[k + 1][0]),
    decreases s.len() - i,
{
    let gs = tie_groups_from(s, sc, i);
    if i == s.len() {
        assert(gs.flatten() =~= s.skip(i));
    } else {
        lemma_score_run_le(s, sc, i);
        let r = score_run_len(s, sc, i);
        let g0 = s.subrange(i, i + r);
        let rest = tie_groups_from(s, sc, i + r);
        lemma_tie_groups_from_props(s, sc, i + r);
        assert(gs.drop_first() =~= rest);
        assert(gs.first() == g0);
        assert(gs.flatten() == g0 + rest.flatten());
        assert(g0 + s.skip(i + r) =~= s.skip(i));
        assert forall|k: int, a: int|
            0 <= k < gs.len() && 0 <= a < gs[k].len() implies sc(#[trigger] gs[k][a]) == sc(gs[k][0]) by {
            if k == 0 {
                lemma_score_run_uniform(s, sc, i, i + a);
            } else {
                assert(gs[k] == rest[k - 1]);
            }
        }
        if i + r < s.len() {
            lemma_score_run_boundary(s, sc, i);
            assert(gs[1] == rest[0]);
        }
        assert forall|k: int| 0 <= k < gs.len() - 1 implies sc(#[trigger] gs[k][0]) != sc(gs[k + 1][0]) by {
            if k > 0 {
                assert(gs[k] == rest[k - 1]);
                assert(gs[k + 1] == rest[k]);
            }
        }
    }
}

/// The laws of tie grouping: the groups concatenate back to `s`, every
/// group is non-empty and holds one score, and adjacent groups hold
/// different scores.
pub proof fn lemma_tie_groups_partition<A>(s: Seq<A>, sc: spec_fn(A) -> int)
    ensures
        tie_groups_spec(s, sc).flatten() == s,
        forall|k: int|
            0 <= k < tie_groups_spec(s, sc).len() ==> tie_groups_spec(s, sc)[k].len() > 0,
        forall|k: int, a: int|
            0 <= k < tie_groups_spec(s, sc).len() && 0 <= a < tie_groups_spec(s, sc)[k].len()
                ==> sc(#[trigger] tie_groups_spec(s, sc)[k][a]) == sc(tie_groups_spec(s, sc)[k][0]),
        forall|k: int|
            0 <= k < tie_groups_spec(s, sc).len() - 1 ==> sc(#[trigger] tie_groups_spec(s, sc)[k][0]) != sc(
                tie_groups_spec(s, sc)[k + 1][0],
            ),
{
    lemma_tie_groups_from_props(s, sc, 0);
    assert(s.skip(0) =~= s);
}

/// The start of the maximal equal-score run containing position `j`.
pub open spec fn group_start<A>(s: Seq<A>, sc: spec_fn(A) -> int, j: int) -> int
    decreases j,
{
    if j <= 0 {
        0int
    } else if sc(s[j]) != sc(s[j - 1]) {
        j
    } else {
        group_start(s, sc, j - 1)
    }
}

/// The tie-group rank of position `j`: how many score changes happen
/// before it.
pub open spec fn group_index<A>(s: Seq<A>, sc: spec_fn(A) -> int, j: int) -> int
    decreases j,
{
    if j <= 0 {
        0int
    } else if sc(s[j]) != sc(s[j - 1]) {
        group_index(s, sc, j - 1) + 1
    } else {
        group_index(s, sc, j - 1)
    }
}

/// Inside one run, every position shares the run's start and group rank.
pub proof fn lemma_group_within<A>(s: Seq<A>, sc: spec_fn(A) -> int, i: int, k: int)
    requires
        0 <= i <= k < i + score_run_len(s, sc, i),
        i < s.len(),
        i == 0 || sc(s[i]) != sc(s[i - 1]),
    ensures
        group_start(s, sc, k) == i,
        group_index(s, sc, k) == group_index(s, sc, i),
    decreases k - i,
{
    if k > i {
        lemma_score_run_uniform(s, sc, i, k);
        lemma_score_run_uniform(s, sc, i, k - 1);
        lemma_group_within(s, sc, i, k - 1);
    }
}

/// The position right after a run has the next group rank.
pub proof fn lemma_group_boundary<A>(s: Seq<A>, sc: spec_fn(A) -> int, i: int)
    requires
        0 <= i < s.len(),
        i + score_run_len(s, sc, i) < s.len(),
        i == 0 || sc(s[i]) != sc(s[i - 1]),
    ensures
        group_index(s, sc, i + score_run_len(s, sc, i)) == group_index(s, sc, i) + 1,
        sc(s[i + score_run_len(s, sc, i)]) != sc(s[i + score_run_len(s, sc, i) - 1]),
{
    let r = score_run_len(s, sc, i);
    lemma_score_run_le(s, sc, i);
    lemma_score_run_boundary(s, sc, i);
    if r > 1 {
        lemma_score_run_uniform(s, sc, i, i + r - 1);
    }
    lemma_group_within(s, sc, i, i + r - 1);
}

} // verus!
