//! The fetch orchestrator's decisions: expanding one scrape request into
//! its independent fetch units, reading a unit's scope, and the pacing
//! parameters of the historical high-score mode. The network calls and the
//! parallel dispatch around these decisions live outside the library.

use vstd::prelude::*;

use crate::request::{RequestFields, Subject};
use crate::text::imin;

verus! {

/// The scope of one fetch unit: state, one region, or one district.
#[derive(Clone, Copy, PartialEq, Eq, Structural, Debug)]
pub enum Scope {
    State,
    Region(u8),
    District(u8),
}

/// The scope a request addresses, checked in the fixed order state,
/// region, district; a request with none of the three has no scope and is
/// reported unavailable without a fetch.
pub open spec fn spec_scope_of(f: RequestFields) -> Option<Scope> {
    if f.state {
        Some(Scope::State)
    } else if f.region is Some {
        Some(Scope::Region(f.region.unwrap()))
    } else if f.district is Some {
        Some(Scope::District(f.district.unwrap()))
    } else {
        None
    }
}

/// Reads the scope of a request (see `spec_scope_of`).
pub fn scope_of(fields: &RequestFields) -> (r: Option<Scope>)
    ensures
        r == spec_scope_of(*fields),
{
    if fields.state {
        Some(Scope::State)
    } else if let Some(rg) = fields.region {
        Some(Scope::Region(rg))
    } else if let Some(d) = fields.district {
        Some(Scope::District(d))
    } else {
        None
    }
}

/// `s` with consecutive repeated conferences collapsed.
pub open spec fn dedup_adjacent(s: Seq<u8>) -> Seq<u8>
    decreases s.len(),
{
    if s.len() <= 1 {
        s
    } else if s.last() == s[s.len() - 2] {
        dedup_adjacent(s.drop_last())
    } else {
        dedup_adjacent(s.drop_last()) + seq![s.last()]
    }
}

/// The four region units of an "all regions" request, for regions
/// `r..=4`.
pub open spec fn region_units_from(f: RequestFields, conference: u8, r: int) -> Seq<RequestFields>
    decreases 5 - r,
{
    if r < 1 || r > 4 {
        Seq::empty()
    } else {
        seq![
            RequestFields {
                district: None,
                region: Some(r as u8),
                state: false,
                subject: f.subject,
                conference,
                year: f.year,
            },
        ] + region_units_from(f, conference, r + 1)
    }
}

/// The district units of an "all districts" request, for districts
/// `d..=hi`.
pub open spec fn district_units_from(
    f: RequestFields,
    conference: u8,
    d: int,
    hi: int,
) -> Seq<RequestFields>
    decreases hi + 1 - d,
{
    if d < 1 || d > hi || hi > 32 {
        Seq::empty()
    } else {
        seq![
            RequestFields {
                district: Some(d as u8),
                region: None,
                state: false,
                subject: f.subject,
                conference,
                year: f.year,
            },
        ] + district_units_from(f, conference, d + 1, hi)
    }
}

/// The fetch units of one request under one conference: an "all regions"
/// request becomes four region units; an "all districts" request becomes
/// the 32 districts, or the 8 districts of its region when one is given;
/// anything else is a single unit.
pub open spec fn conference_units(f: RequestFields, conference: u8) -> Seq<RequestFields> {
    if f.district is None && f.region == Some(0u8) {
        region_units_from(f, conference, 1)
    } else if f.district == Some(0u8) {
        match f.region {
            Some(rg) => if rg == 0 {
                district_units_from(f, conference, 1, 32)
            } else {
                district_units_from(f, conference, 8 * (rg as int - 1) + 1, 8 * rg as int)
            },
            None => district_units_from(f, conference, 1, 32),
        }
    } else {
        seq![RequestFields { conference, ..f }]
    }
}

/// How many fetch units one conference of this request expands to.
pub open spec fn spec_unit_count(f: RequestFields) -> int {
    if f.district is None && f.region == Some(0u8) {
        4int
    } else if f.district == Some(0u8) {
        match f.region {
            Some(rg) => if rg == 0 {
                32int
            } else {
                8int
            },
            None => 32int,
        }
    } else {
        1int
    }
}

/// The fetch units of one request for each conference, in order.
pub open spec fn expand_from(f: RequestFields, confs: Seq<u8>) -> Seq<RequestFields>
    decreases confs.len(),
{
    if confs.len() == 0 {
        Seq::empty()
    } else {
        conference_units(f, confs[0]) + expand_from(f, confs.drop_first())
    }
}

/// The complete expansion of a scrape request: consecutive duplicate
/// conferences are collapsed, then every remaining conference contributes
/// its units.
pub open spec fn expand_units_spec(f: RequestFields, confs: Seq<u8>) -> Seq<RequestFields> {
    expand_from(f, dedup_adjacent(confs))
}

proof fn lemma_dedup_last(s: Seq<u8>)
    requires
        s.len() > 0,
    ensures
        dedup_adjacent(s).len() > 0,
        dedup_adjacent(s).last() == s.last(),
    decreases s.len(),
{
    if s.len() > 1 && s.last() == s[s.len() - 2] {
        lemma_dedup_last(s.drop_last());
    }
}

proof fn lemma_region_units_len(f: RequestFields, conference: u8, r: int)
    requires
        1 <= r <= 5,
    ensures
        region_units_from(f, conference, r).len() == 5 - r,
    decreases 5 - r,
{
    if r < 5 {
        lemma_region_units_len(f, conference, r + 1);
    }
}

proof fn lemma_district_units_len(f: RequestFields, conference: u8, d: int, hi: int)
    requires
        1 <= d <= hi + 1,
        hi <= 32,
    ensures
        district_units_from(f, conference, d, hi).len() == hi + 1 - d,
    decreases hi + 1 - d,
{
    if d <= hi {
        lemma_district_units_len(f, conference, d + 1, hi);
    }
}

proof fn lemma_conference_units_len(f: RequestFields, conference: u8)
    requires
        f.region matches Some(rg) ==> rg <= 4,
    ensures
        conference_units(f, conference).len() == spec_unit_count(f),
{
    if f.district is None && f.region == Some(0u8) {
        lemma_region_units_len(f, conference, 1);
    } else if f.district == Some(0u8) {
        match f.region {
            Some(rg) => {
                if rg == 0 {
                    lemma_district_units_len(f, conference, 1, 32);
                } else {
                    lemma_district_units_len(f, conference, 8 * (rg as int - 1) + 1, 8 * rg as int);
                }
            },
            None => {
                lemma_district_units_len(f, conference, 1, 32);
            },
        }
    }
}

proof fn lemma_expand_from_len(f: RequestFields, confs: Seq<u8>)
    requires
        f.region matches Some(rg) ==> rg <= 4,
    ensures
        expand_from(f, confs).len() == confs.len() * spec_unit_count(f),
    decreases confs.len(),
{
    if confs.len() > 0 {
        lemma_conference_units_len(f, confs[0]);
        lemma_expand_from_len(f, confs.drop_first());
        assert(confs.len() * spec_unit_count(f) == spec_unit_count(f) + (confs.len() - 1)
            * spec_unit_count(f)) by (nonlinear_arith);
    }
}

/// Expands a scrape request into its independent fetch units: for every
/// conference (consecutive duplicates collapsed), an "all regions" request
/// contributes one unit per region 1..=4, an "all districts" request one
/// unit per district (all 32, or the 8 of its region), and any other
/// request a single unit. The number of units is the number of distinct
/// conferences times the per-conference unit count.
pub fn expand_units(fields: &RequestFields, conferences: Vec<u8>) -> (r: Vec<RequestFields>)
    requires
        match fields.region {
            Some(rg) => rg <= 4,
            None => true,
        },
    ensures
        r@ == expand_units_spec(*fields, conferences@),
        r@.len() == dedup_adjacent(conferences@).len() * spec_unit_count(*fields),
{
    let mut confs: Vec<u8> = Vec::new();
    let mut k: usize = 0;
    while k < conferences.len()
        invariant
            k <= conferences@.len(),
            confs@ == dedup_adjacent(conferences@.take(k as int)),
        decreases conferences@.len() - k,
    {
        proof {
            assert(conferences@.take(k + 1).drop_last() =~= conferences@.take(k as int));
            assert(conferences@.take(k + 1).last() == conferences@[k as int]);
            if conferences@.take(k as int).len() > 0 {
                lemma_dedup_last(conferences@.take(k as int));
            }
        }
        let c = conferences[k];
        if confs.len() == 0 || confs[confs.len() - 1] != c {
            confs.push(c);
            proof {
                if conferences@.take(k as int).len() > 0 {
                    assert(confs@.drop_last() =~= dedup_adjacent(conferences@.take(k as int)));
                    assert(confs@.last() == conferences@.take(k + 1).last());
                } else {
                    assert(confs@ =~= conferences@.take(k + 1));
                }
            }
        }
        k = k + 1;
    }
    proof {
        assert(conferences@.take(conferences@.len() as int) =~= conferences@);
    }
    let mut out: Vec<RequestFields> = Vec::new();
    proof {
        assert(confs@.skip(0) =~= confs@);
    }
    let mut c: usize = 0;
    while c < confs.len()
        invariant
            c <= confs@.len(),
            confs@ == dedup_adjacent(conferences@),
            match fields.region {
                Some(rg) => rg <= 4,
                None => true,
            },
            expand_from(*fields, confs@) == out@ + expand_from(
                *fields,
                confs@.skip(c as int),
            ),
        decreases confs@.len() - c,
    {
        let conference = confs[c];
        proof {
            assert(confs@.skip(c as int)[0] == confs@[c as int]);
            assert(confs@.skip(c as int).drop_first() =~= confs@.skip(c + 1));
        }
        if fields.district.is_none() && fields.region.is_some() && fields.region.unwrap() == 0 {
            let mut rg: u8 = 1;
            while rg <= 4
                invariant
                    1 <= rg <= 5,
                    expand_from(*fields, confs@) == out@ + region_units_from(
                        *fields,
                        confs@[c as int],
                        rg as int,
                    ) + expand_from(*fields, confs@.skip(c + 1)),
                    conference == confs@[c as int],
                    c < confs@.len(),
                    fields.district is None && fields.region == Some(0u8),
                decreases 5 - rg,
            {
                let unit = RequestFields {
                    district: None,
                    region: Some(rg),
                    state: false,
                    subject: fields.subject,
                    conference,
                    year: fields.year,
                };
                proof {
                    assert(out@.push(unit) + region_units_from(*fields, conference, rg + 1)
                        =~= out@ + region_units_from(*fields, conference, rg as int));
                }
                out.push(unit);
                rg = rg + 1;
            }
        } else if fields.district.is_some() && fields.district.unwrap() == 0 {
            let (lo, hi): (u8, u8) = match fields.region {
                Some(rg) => if rg == 0 {
                    (1, 32)
                } else {
                    (8 * (rg - 1) + 1, 8 * rg)
                },
                None => (1, 32),
            };
            let mut d: u8 = lo;
            while d <= hi
                invariant
                    1 <= lo <= d <= hi + 1,
                    hi <= 32,
                    expand_from(*fields, confs@) == out@ + district_units_from(
                        *fields,
                        confs@[c as int],
                        d as int,
                        hi as int,
                    ) + expand_from(*fields, confs@.skip(c + 1)),
                    conference == confs@[c as int],
                    c < confs@.len(),
                decreases hi + 1 - d,
            {
                let unit = RequestFields {
                    district: Some(d),
                    region: None,
                    state: false,
                    subject: fields.subject,
                    conference,
                    year: fields.year,
                };
                proof {
                    assert(out@.push(unit) + district_units_from(
                        *fields,
                        conference,
                        d + 1,
                        hi as int,
                    ) =~= out@ + district_units_from(*fields, conference, d as int, hi as int));
                }
                out.push(unit);
                d = d + 1;
            }
        } else {
            let unit = RequestFields {
                district: fields.district,
                region: fields.region,
                state: fields.state,
                subject: fields.subject,
                conference,
                year: fields.year,
            };
            proof {
                assert(conference_units(*fields, conference) =~= seq![unit]);
                assert(out@.push(unit) =~= out@ + seq![unit]);
            }
            out.push(unit);
        }
        c = c + 1;
    }
    proof {
        assert(confs@.skip(confs@.len() as int) =~= Seq::<u8>::empty());
        assert(out@ + Seq::<RequestFields>::empty() =~= out@);
        lemma_expand_from_len(*fields, confs@);
    }
    out
}

/// The year the historical high-score mode starts from: computer science
/// scores are comparable only from 2005 on for region results (the test
/// changed scales between the 2004 region and state meets); everything
/// else starts at 2004.
pub fn highscores_year_start(fields: &RequestFields) -> (r: u16)
    ensures
        r == if fields.subject == Subject::ComputerScience && fields.region is Some {
            2005u16
        } else {
            2004u16
        },
{
    if fields.subject == Subject::ComputerScience && fields.region.is_some() {
        2005
    } else {
        2004
    }
}

/// The last year the historical high-score mode covers: computer
/// applications ends with its discontinuation in 2024; everything else
/// runs through the current year.
pub fn highscores_year_end(fields: &RequestFields, current_year: u16) -> (r: u16)
    ensures
        r == if fields.subject == Subject::ComputerApplications {
            2024u16
        } else {
            current_year
        },
{
    if fields.subject == Subject::ComputerApplications {
        2024
    } else {
        current_year
    }
}

/// The conferences to query for one historical year: conference 6 did not
/// exist before 2015, so for those years a trailing 6 is dropped from the
/// selection.
pub fn conferences_for_year(year: u16, conferences: &Vec<u8>) -> (r: Vec<u8>)
    ensures
        r@ == if year > 2014 {
            conferences@
        } else if conferences@.len() > 0 && conferences@.last() == 6 {
            conferences@.drop_last()
        } else {
            conferences@
        },
{
    let mut v: Vec<u8> = Vec::new();
    let mut k: usize = 0;
    while k < conferences.len()
        invariant
            k <= conferences@.len(),
            v@ =~= conferences@.take(k as int),
        decreases conferences@.len() - k,
    {
        v.push(conferences[k]);
        proof {
            assert(v@ =~= conferences@.take(k + 1));
        }
        k = k + 1;
    }
    proof {
        assert(v@ =~= conferences@);
    }
    if year <= 2014 && v.len() > 0 && v[v.len() - 1] == 6 {
        v.pop();
        proof {
            assert(v@ =~= conferences@.drop_last());
        }
    }
    v
}

/// How many fetches one historical year costs: one per conference and
/// unit, and rankings mode multiplies by its eight subjects. The count
/// paces the rate-limit delays.
pub fn highscores_unit_weight(fields: &RequestFields, conference_count: u64) -> (r: u64)
    ensures
        r as int == imin(
            conference_count as int * spec_unit_count(*fields) * (
            if fields.subject == Subject::Rankings {
                8int
            } else {
                1int
            }),
            0xffff_ffff_ffff_ffff,
        ),
{
    let scope: u64 = if fields.district.is_none() && fields.region.is_some()
        && fields.region.unwrap() == 0 {
        4
    } else if fields.district.is_some() && fields.district.unwrap() == 0 {
        match fields.region {
            Some(rg) => if rg == 0 {
                32
            } else {
                8
            },
            None => 32,
        }
    } else {
        1
    };
    let mult: u64 = if fields.subject == Subject::Rankings {
        8
    } else {
        1
    };
    proof {
        assert(scope as int == spec_unit_count(*fields));
    }
    proof {
        assert(scope as int * mult as int <= 256) by (nonlinear_arith)
            requires
                scope <= 32,
                mult <= 8,
        ;
    }
    let sm: u64 = scope * mult;
    proof {
        assert(conference_count as int * (sm as int) <= 0xffff_ffff_ffff_ffff * 256)
            by (nonlinear_arith)
            requires
                sm <= 256,
                conference_count <= 0xffff_ffff_ffff_ffffu64,
        ;
    }
    let wide: u128 = conference_count as u128 * sm as u128;
    proof {
        assert(conference_count as int * (scope as int * mult as int) == conference_count as int
            * spec_unit_count(*fields) * (mult as int)) by (nonlinear_arith)
            requires
                scope as int == spec_unit_count(*fields),
        ;
    }
    if wide > 0xffff_ffff_ffff_ffffu128 {
        u64::MAX
    } else {
        wide as u64
    }
}

/// The rate-limit pause of the historical high-score mode, in
/// milliseconds: district sweeps wait two seconds, everything else one.
pub fn highscores_pause_ms(fields: &RequestFields) -> (r: u64)
    ensures
        r == if fields.region is Some {
            1000u64
        } else if fields.district is Some {
            2000u64
        } else {
            1000u64
        },
{
    if fields.region.is_some() {
        1000
    } else if fields.district.is_some() {
        2000
    } else {
        1000
    }
}

} // verus!
