//! Advancement outcomes: how a team or an individual moves on to the next
//! competitive level.

use vstd::prelude::*;

use crate::individual::Individual;
use crate::team::Team;
use crate::text::str_eq;

verus! {

/// How a team advances: outright (`Advance`) or as the best non-winner of a
/// parent scope (`Alternate`, also called a wildcard).
#[derive(Clone, Copy, PartialEq, Eq, Structural, Debug)]
pub enum AdvanceTypeTeam {
    Advance,
    Alternate,
}

/// How an individual advances: by their own placement (`Indiv`), because
/// their team advances (`Team`), or as a wildcard (`Wild`).
#[derive(Clone, Copy, PartialEq, Eq, Structural, Debug)]
pub enum AdvanceTypeIndividual {
    Indiv,
    Team,
    Wild,
}

/// The position of the first team from `school`, if any.
pub open spec fn first_school_match(ts: Seq<Team>, school: Seq<char>) -> Option<int>
    decreases ts.len(),
{
    if ts.len() == 0 {
        None
    } else if ts[0].school@ == school {
        Some(0int)
    } else {
        match first_school_match(ts.drop_first(), school) {
            None => None,
            Some(i) => Some(i + 1),
        }
    }
}

/// What an individual's advancement becomes once team outcomes are known:
/// an individual already advancing keeps its status; otherwise the first
/// team of the same school decides — an advancing team carries its
/// members (`Team`), an alternate team makes them wildcards (`Wild`), and
/// no team or a non-advancing team changes nothing.
pub open spec fn via_team_advance(x: Individual, ts: Seq<Team>) -> Option<AdvanceTypeIndividual> {
    if x.advance is Some {
        x.advance
    } else {
        match first_school_match(ts, x.school@) {
            None => None,
            Some(i) => match ts[i].advance {
                None => None,
                Some(AdvanceTypeTeam::Advance) => Some(AdvanceTypeIndividual::Team),
                Some(AdvanceTypeTeam::Alternate) => Some(AdvanceTypeIndividual::Wild),
            },
        }
    }
}

proof fn lemma_fsm_some(ts: Seq<Team>, school: Seq<char>, i: int)
    requires
        0 <= i < ts.len(),
        ts[i].school@ == school,
        forall|k: int| 0 <= k < i ==> (#[trigger] ts[k]).school@ != school,
    ensures
        first_school_match(ts, school) == Some(i),
    decreases i,
{
    if i > 0 {
        lemma_fsm_some(ts.drop_first(), school, i - 1);
    }
}

proof fn lemma_fsm_none(ts: Seq<Team>, school: Seq<char>)
    requires
        forall|k: int| 0 <= k < ts.len() ==> (#[trigger] ts[k]).school@ != school,
    ensures
        first_school_match(ts, school) is None,
    decreases ts.len(),
{
    if ts.len() > 0 {
        lemma_fsm_none(ts.drop_first(), school);
    }
}

/// Propagates team advancement to individuals: an individual without an
/// advancement of its own takes one from the first team of its school —
/// `Team` when that team advances, `Wild` when it is an alternate. Only
/// `advance` changes.
pub fn mark_individuals_by_team_advance(individuals: Vec<Individual>, teams: &Vec<Team>) -> (r:
    Vec<Individual>)
    ensures
        r@.len() == individuals@.len(),
        forall|j: int|
            0 <= j < r@.len() ==> r@[j] == (Individual {
                advance: via_team_advance(individuals@[j], teams@),
                ..individuals@[j]
            }),
{
    let mut out: Vec<Individual> = Vec::new();
    let mut j: usize = 0;
    while j < individuals.len()
        invariant
            j <= individuals@.len(),
            out@.len() == j,
            forall|j2: int|
                0 <= j2 < j ==> out@[j2] == (Individual {
                    advance: via_team_advance(individuals@[j2], teams@),
                    ..individuals@[j2]
                }),
        decreases individuals@.len() - j,
    {
        let mut x = individuals[j].clone();
        if x.advance.is_none() {
            let mut found: Option<usize> = None;
            let mut i: usize = 0;
            while i < teams.len()
                invariant
                    i <= teams@.len(),
                    x == individuals@[j as int],
                    j < individuals@.len(),
                    match found {
                        None => forall|k: int|
                            0 <= k < i ==> (#[trigger] teams@[k]).school@ != x.school@,
                        Some(f) => f < i <= teams@.len() && teams@[f as int].school@ == x.school@
                            && (forall|k: int|
                            0 <= k < f ==> (#[trigger] teams@[k]).school@ != x.school@),
                    },
                decreases teams@.len() - i,
            {
                if found.is_none() && str_eq(teams[i].school.as_str(), x.school.as_str()) {
                    found = Some(i);
                }
                i = i + 1;
            }
            match found {
                None => {
                    proof {
                        lemma_fsm_none(teams@, x.school@);
                    }
                },
                Some(f) => {
                    proof {
                        lemma_fsm_some(teams@, x.school@, f as int);
                    }
                    match teams[f].advance {
                        None => {},
                        Some(AdvanceTypeTeam::Advance) => {
                            x.advance = Some(AdvanceTypeIndividual::Team);
                        },
                        Some(AdvanceTypeTeam::Alternate) => {
                            x.advance = Some(AdvanceTypeIndividual::Wild);
                        },
                    }
                },
            }
        }
        out.push(x);
        j = j + 1;
    }
    out
}

} // verus!
