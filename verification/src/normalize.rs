//! Shared row-normalization helpers: guarded cell access, header-driven
//! column resolution, legacy school-name cleanup, and the comma-reversed
//! name rewrite used by pre-2023 tables.
//!
//! Raw tables arrive as rows of text cells; everything here is pure string
//! work over those cells.

use vstd::prelude::*;
use vstd::string::StrSliceExecFns;
use vstd::string::StringExecFns;

use crate::text::{
    char_find_from, char_find_from_spec, find_spec, find_substring, str_eq, trim_spec, trim_str,
};

verus! {

/// The cell at index `i` of a row, or the empty sequence when the row is
/// too short. Missing cells read as empty text, so a malformed row can
/// never abort normalization.
pub open spec fn cell_at(row: Seq<Seq<char>>, i: int) -> Seq<char> {
    if 0 <= i < row.len() {
        row[i]
    } else {
        Seq::empty()
    }
}

/// The cell at index `i` of a row, or `""` when the row is too short.
pub fn cell_str<'a>(cells: &'a Vec<String>, i: usize) -> (r: &'a str)
    ensures
        r@ == cell_at(cells.deep_view(), i as int),
{
    proof {
        reveal_strlit("");
    }
    if i < cells.len() {
        cells[i].as_str()
    } else {
        ""
    }
}

/// The index of the last cell equal to `token`, or `cur` when no cell
/// matches. Header rows update the remembered column positions this way;
/// rows without the header token leave them unchanged.
pub open spec fn scan_col(cells: Seq<Seq<char>>, token: Seq<char>, cur: int) -> int
    decreases cells.len(),
{
    if cells.len() == 0 {
        cur
    } else if cells.last() == token {
        cells.len() - 1
    } else {
        scan_col(cells.drop_last(), token, cur)
    }
}

/// Scans a row for a header token, keeping `cur` when the token is absent.
pub fn scan_col_exec(cells: &Vec<String>, token: &str, cur: usize) -> (r: usize)
    ensures
        r as int == scan_col(cells.deep_view(), token@, cur as int),
{
    let mut r: usize = cur;
    let mut i: usize = 0;
    while i < cells.len()
        invariant
            i <= cells.len(),
            r as int == scan_col(cells.deep_view().take(i as int), token@, cur as int),
        decreases cells.len() - i,
    {
        proof {
            assert(cells.deep_view().take(i + 1).drop_last() =~= cells.deep_view().take(i as int));
            assert(cells.deep_view().take(i + 1).last() == cells@[i as int].deep_view());
        }
        if str_eq(cells[i].as_str(), token) {
            r = i;
        }
        i = i + 1;
    }
    proof {
        assert(cells.deep_view().take(cells@.len() as int) =~= cells.deep_view());
    }
    r
}

/// The remembered header columns: the indices of the `Place`, `Points`,
/// and `Advance?` columns seen so far, each starting at 0.
pub open spec fn scan_columns(cells: Seq<Seq<char>>, st: (int, int, int)) -> (int, int, int) {
    (scan_col(cells, "Place"@, st.0), scan_col(cells, "Points"@, st.1), scan_col(
        cells,
        "Advance?"@,
        st.2,
    ))
}

/// Pre-2023 school-name cleanup: the string is cut at the first `", "`
/// (dropping a parenthetical address suffix), and a trailing `"H S"` is
/// normalized to `"HS"`; a `"H S"` occurring earlier cuts the string there.
pub open spec fn legacy_school_spec(s: Seq<char>) -> Seq<char> {
    let i1 = match find_spec(s, ", "@) {
        Some(i) => i,
        None => s.len() as int,
    };
    let h = s.take(i1);
    let i2 = match find_spec(h, "H S"@) {
        Some(i) => i,
        None => h.len() as int,
    };
    if i2 + 3 == h.len() {
        h.take(i2) + "HS"@
    } else {
        h.take(i2)
    }
}

/// Applies the pre-2023 school-name cleanup (see `legacy_school_spec`).
pub fn legacy_school(s: &str) -> (r: String)
    ensures
        r@ == legacy_school_spec(s@),
{
    let n: usize = s.unicode_len();
    let i1: usize = match find_substring(s, ", ") {
        Some(i) => i,
        None => n,
    };
    let h = s.substring_char(0, i1);
    proof {
        assert(h@ =~= s@.take(i1 as int));
    }
    let hn: usize = h.unicode_len();
    let i2: usize = match find_substring(h, "H S") {
        Some(i) => i,
        None => hn,
    };
    proof {
        reveal_strlit("H S");
    }
    let head = h.substring_char(0, i2);
    proof {
        assert(head@ =~= h@.take(i2 as int));
    }
    if hn - i2 == 3 {
        let r = String::from_str(head).concat("HS");
        proof {
            assert(r@ =~= legacy_school_spec(s@));
        }
        r
    } else {
        let r = String::from_str(head);
        proof {
            assert(r@ =~= legacy_school_spec(s@));
        }
        r
    }
}

proof fn lemma_char_find_from_range(s: Seq<char>, c: char, from: int, k: int)
    requires
        char_find_from_spec(s, c, from) == Some(k),
    ensures
        from <= k < s.len(),
    decreases s.len() - from,
{
    if !(from < 0 || from >= s.len()) && s[from] != c {
        lemma_char_find_from_range(s, c, from + 1, k);
    }
}

/// The comma-reversed name rewrite, one segment at a time: each segment up
/// to the next comma is trimmed and placed in front of what was built so
/// far, separated by one space.
pub open spec fn name_rev_from(s: Seq<char>, from: int, acc: Seq<char>) -> Seq<char>
    recommends
        0 <= from <= s.len(),
    decreases s.len() - from,
    via name_rev_from_dec
{
    match char_find_from_spec(s, ',', from) {
        None => trim_spec(s.subrange(from, s.len() as int)) + " "@ + acc,
        Some(k) => name_rev_from(s, k + 1, trim_spec(s.subrange(from, k)) + " "@ + acc),
    }
}

#[via_fn]
proof fn name_rev_from_dec(s: Seq<char>, from: int, acc: Seq<char>) {
    if char_find_from_spec(s, ',', from) is Some {
        let k = char_find_from_spec(s, ',', from).unwrap();
        lemma_char_find_from_range(s, ',', from, k);
    }
}

/// What a pre-2023 `"Last, First"` name cell becomes: the comma-separated
/// segments trimmed and reversed, joined by single spaces.
pub open spec fn rev_name_spec(s: Seq<char>) -> Seq<char> {
    trim_spec(name_rev_from(s, 0, Seq::empty()))
}

/// Rewrites a `"Last, First"` name as `"First Last"`: the comma-separated
/// segments are trimmed, reversed, and joined by single spaces.
pub fn reverse_comma_name(s: &str) -> (r: String)
    ensures
        r@ == rev_name_spec(s@),
{
    let n: usize = s.unicode_len();
    let mut pos: usize = 0;
    let mut acc = String::new();
    let mut fin: bool = false;
    while !fin
        invariant
            pos <= n,
            n == s@.len(),
            !fin ==> name_rev_from(s@, 0, Seq::empty()) == name_rev_from(s@, pos as int, acc@),
            fin ==> name_rev_from(s@, 0, Seq::empty()) == acc@,
        decreases n - pos, (if fin { 0int } else { 1int }),
    {
        match char_find_from(s, ',', pos) {
            Some(k) => {
                let seg = s.substring_char(pos, k);
                let t = trim_str(seg);
                proof {
                    assert(seg@ =~= s@.subrange(pos as int, k as int));
                }
                let mut na = String::from_str(t);
                na.append(" ");
                na.append(acc.as_str());
                proof {
                    assert(na@ =~= trim_spec(s@.subrange(pos as int, k as int)) + " "@ + acc@);
                }
                acc = na;
                pos = k + 1;
            },
            None => {
                let seg = s.substring_char(pos, n);
                let t = trim_str(seg);
                proof {
                    assert(seg@ =~= s@.subrange(pos as int, n as int));
                }
                let mut na = String::from_str(t);
                na.append(" ");
                na.append(acc.as_str());
                proof {
                    assert(na@ =~= trim_spec(s@.subrange(pos as int, n as int)) + " "@ + acc@);
                }
                acc = na;
                fin = true;
            },
        }
    }
    let trimmed = trim_str(acc.as_str());
    String::from_str(trimmed)
}

/// The rendered text of the last cell-level marker span in a row: the last
/// non-empty span text, or empty when no cell carries one.
pub open spec fn last_marker_spec(spans: Seq<Option<Seq<char>>>) -> Seq<char>
    decreases spans.len(),
{
    if spans.len() == 0 {
        Seq::empty()
    } else {
        match spans.last() {
            Some(t) => if t.len() > 0 {
                t
            } else {
                last_marker_spec(spans.drop_last())
            },
            None => last_marker_spec(spans.drop_last()),
        }
    }
}

/// Picks the last non-empty marker span of a row, or `""`.
pub fn last_marker(spans: &Vec<Option<String>>) -> (r: String)
    ensures
        r@ == last_marker_spec(spans.deep_view()),
{
    let mut r = String::new();
    let mut i: usize = 0;
    while i < spans.len()
        invariant
            i <= spans.len(),
            r@ == last_marker_spec(spans.deep_view().take(i as int)),
        decreases spans.len() - i,
    {
        proof {
            assert(spans.deep_view().take(i + 1).drop_last() =~= spans.deep_view().take(i as int));
            assert(spans.deep_view().take(i + 1).last() == spans@[i as int].deep_view());
        }
        match &spans[i] {
            Some(t) => {
                if !t.as_str().is_empty() {
                    r = t.clone();
                }
            },
            None => {},
        }
        i = i + 1;
    }
    proof {
        assert(spans.deep_view().take(spans@.len() as int) =~= spans.deep_view());
    }
    r
}

/// One normalized data row: its cells together with the header-column
/// indices that were in force when it was read.
pub ghost struct RowCtx {
    pub cells: Seq<Seq<char>>,
    pub place: int,
    pub points: int,
    pub advance: int,
}

/// The header-column indices after reading the first `k` rows: every row,
/// marker or data, may update them.
pub open spec fn table_col_state(rows: Seq<Seq<Seq<char>>>, k: int) -> (int, int, int)
    decreases k,
{
    if k <= 0 {
        (0int, 0int, 0int)
    } else {
        scan_columns(rows[k - 1], table_col_state(rows, k - 1))
    }
}

/// Whether row `k` is a structural header marker: its cell in the `Place`
/// column (as resolved after reading the row itself) literally reads
/// `Place`. Marker rows update the column indices but yield no record.
pub open spec fn is_marker_row(rows: Seq<Seq<Seq<char>>>, k: int) -> bool {
    cell_at(rows[k], table_col_state(rows, k + 1).0) == "Place"@
}

/// The data rows among the first `k` rows, each paired with the column
/// indices in force when it was read.
pub open spec fn table_data_rows(rows: Seq<Seq<Seq<char>>>, k: int) -> Seq<RowCtx>
    decreases k,
{
    if k <= 0 {
        Seq::empty()
    } else if is_marker_row(rows, k - 1) {
        table_data_rows(rows, k - 1)
    } else {
        table_data_rows(rows, k - 1) + seq![
            RowCtx {
                cells: rows[k - 1],
                place: table_col_state(rows, k).0,
                points: table_col_state(rows, k).1,
                advance: table_col_state(rows, k).2,
            },
        ]
    }
}

} // verus!
