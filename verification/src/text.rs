//! Character and string utilities: trimming, substring search, splitting,
//! case-insensitive comparison, decimal rendering, and the lenient decimal
//! parsing that row normalization relies on.
//!
//! Everything here is verified; strings are handled through their `Seq<char>`
//! views using the string operations that vstd specifies.

use vstd::prelude::*;
use vstd::string::StrSliceExecFns;
use vstd::string::StringExecFns;

verus! {

/// The whitespace characters that `trim` removes: ASCII whitespace and the
/// non-breaking space, which HTML table cells often carry.
pub open spec fn is_space_char(c: char) -> bool {
    c == ' ' || c == '\t' || c == '\n' || c == '\r' || c == '\u{0b}' || c == '\u{0c}'
        || c == '\u{a0}'
}

/// `s` without its leading whitespace.
pub open spec fn trim_start_spec(s: Seq<char>) -> Seq<char>
    decreases s.len(),
{
    if s.len() > 0 && is_space_char(s[0]) {
        trim_start_spec(s.drop_first())
    } else {
        s
    }
}

/// `s` without its trailing whitespace.
pub open spec fn trim_end_spec(s: Seq<char>) -> Seq<char>
    decreases s.len(),
{
    if s.len() > 0 && is_space_char(s.last()) {
        trim_end_spec(s.drop_last())
    } else {
        s
    }
}

/// `s` without leading or trailing whitespace.
pub open spec fn trim_spec(s: Seq<char>) -> Seq<char> {
    trim_end_spec(trim_start_spec(s))
}

proof fn lemma_trim_start_at(s: Seq<char>, k: int)
    requires
        0 <= k <= s.len(),
        forall|j: int| 0 <= j < k ==> is_space_char(s[j]),
        k == s.len() || !is_space_char(s[k]),
    ensures
        trim_start_spec(s) == s.subrange(k, s.len() as int),
    decreases k,
{
    if k == 0 {
        assert(s.subrange(0, s.len() as int) =~= s);
    } else {
        assert(is_space_char(s[0]));
        lemma_trim_start_at(s.drop_first(), k - 1);
        assert(s.drop_first().subrange(k - 1, s.drop_first().len() as int) =~= s.subrange(
            k,
            s.len() as int,
        ));
    }
}

proof fn lemma_trim_end_at(s: Seq<char>, k: int)
    requires
        0 <= k <= s.len(),
        forall|j: int| k <= j < s.len() ==> is_space_char(s[j]),
        k == 0 || !is_space_char(s[k - 1]),
    ensures
        trim_end_spec(s) == s.subrange(0, k),
    decreases s.len(),
{
    if k == s.len() {
        assert(s.subrange(0, k) =~= s);
    } else {
        assert(is_space_char(s.last()));
        lemma_trim_end_at(s.drop_last(), k);
        assert(s.drop_last().subrange(0, k) =~= s.subrange(0, k));
    }
}

/// Whether `c` counts as whitespace for trimming.
pub fn is_space(c: char) -> (r: bool)
    ensures
        r == is_space_char(c),
{
    c == ' ' || c == '\t' || c == '\n' || c == '\r' || c == '\u{0b}' || c == '\u{0c}'
        || c == '\u{a0}'
}

/// Removes leading and trailing whitespace from `s`.
pub fn trim_str<'a>(s: &'a str) -> (r: &'a str)
    ensures
        r@ == trim_spec(s@),
{
    let n: usize = s.unicode_len();
    let mut lo: usize = 0;
    while lo < n && is_space(s.get_char(lo))
        invariant
            lo <= n,
            n == s@.len(),
            forall|j: int| 0 <= j < lo ==> is_space_char(s@[j]),
        decreases n - lo,
    {
        lo = lo + 1;
    }
    let mut hi: usize = n;
    while hi > lo && is_space(s.get_char(hi - 1))
        invariant
            lo <= hi <= n,
            n == s@.len(),
            forall|j: int| 0 <= j < lo ==> is_space_char(s@[j]),
            forall|j: int| hi <= j < n ==> is_space_char(s@[j]),
        decreases hi,
    {
        hi = hi - 1;
    }
    proof {
        lemma_trim_start_at(s@, lo as int);
        let t = s@.subrange(lo as int, n as int);
        assert(forall|j: int| hi - lo <= j < t.len() ==> is_space_char(#[trigger] t[j]));
        lemma_trim_end_at(t, hi - lo);
        assert(t.subrange(0, hi - lo) =~= s@.subrange(lo as int, hi as int));
    }
    s.substring_char(lo, hi)
}

/// Whether the pattern `pat` occurs in `s` at position `i`.
pub open spec fn match_at(s: Seq<char>, pat: Seq<char>, i: int) -> bool {
    &&& 0 <= i
    &&& i + pat.len() <= s.len()
    &&& s.subrange(i, i + pat.len()) == pat
}

/// The first position at or after `from` where `pat` occurs in `s`, if any.
pub open spec fn find_from_spec(s: Seq<char>, pat: Seq<char>, from: int) -> Option<int>
    decreases s.len() + 1 - from,
{
    if from < 0 || from + pat.len() > s.len() {
        None
    } else if match_at(s, pat, from) {
        Some(from)
    } else {
        find_from_spec(s, pat, from + 1)
    }
}

/// The first position where `pat` occurs in `s`, if any.
pub open spec fn find_spec(s: Seq<char>, pat: Seq<char>) -> Option<int> {
    find_from_spec(s, pat, 0)
}

proof fn lemma_find_from_none(s: Seq<char>, pat: Seq<char>, from: int)
    requires
        0 <= from,
        forall|k: int| from <= k ==> !match_at(s, pat, k),
    ensures
        find_from_spec(s, pat, from) is None,
    decreases s.len() + 1 - from,
{
    if from + pat.len() <= s.len() {
        lemma_find_from_none(s, pat, from + 1);
    }
}

proof fn lemma_find_from_finds(s: Seq<char>, pat: Seq<char>, from: int, k: int)
    requires
        0 <= from <= k,
        match_at(s, pat, k),
    ensures
        find_from_spec(s, pat, from) is Some,
    decreases k - from,
{
    if !match_at(s, pat, from) {
        lemma_find_from_finds(s, pat, from + 1, k);
    }
}

proof fn lemma_find_from_some(s: Seq<char>, pat: Seq<char>, from: int, i: int)
    requires
        0 <= from <= i,
        match_at(s, pat, i),
        forall|k: int| from <= k < i ==> !match_at(s, pat, k),
    ensures
        find_from_spec(s, pat, from) == Some(i),
    decreases i - from,
{
    if from < i {
        lemma_find_from_some(s, pat, from + 1, i);
    }
}

/// The position of the first occurrence of `pat` in `s`, if there is one.
pub fn find_substring(s: &str, pat: &str) -> (r: Option<usize>)
    ensures
        match r {
            Some(i) => find_spec(s@, pat@) == Some(i as int) && i + pat@.len() <= s@.len(),
            None => find_spec(s@, pat@) is None,
        },
{
    let n: usize = s.unicode_len();
    let m: usize = pat.unicode_len();
    if m > n {
        proof {
            lemma_find_from_none(s@, pat@, 0);
        }
        return None;
    }
    let mut i: usize = 0;
    while i <= n - m
        invariant
            m <= n,
            n == s@.len(),
            m == pat@.len(),
            i <= n - m + 1,
            forall|k: int| 0 <= k < i ==> !match_at(s@, pat@, k),
        decreases n - i,
    {
        let mut j: usize = 0;
        let mut ok: bool = true;
        while j < m
            invariant
                i + m <= n,
                n == s@.len(),
                m == pat@.len(),
                j <= m,
                ok <==> (forall|l: int| 0 <= l < j ==> s@[i + l] == pat@[l]),
            decreases m - j,
        {
            if s.get_char(i + j) != pat.get_char(j) {
                ok = false;
            }
            j = j + 1;
        }
        if ok {
            proof {
                assert(s@.subrange(i as int, i + pat@.len()) =~= pat@);
                lemma_find_from_some(s@, pat@, 0, i as int);
            }
            return Some(i);
        }
        proof {
            let l = choose|l: int| 0 <= l < m && s@[i + l] != pat@[l];
            assert(s@.subrange(i as int, i + pat@.len())[l] != pat@[l]);
        }
        i = i + 1;
    }
    proof {
        assert(forall|k: int| 0 <= k ==> !match_at(s@, pat@, k));
        lemma_find_from_none(s@, pat@, 0);
    }
    None
}

/// Whether `pat` occurs anywhere in `s`.
pub fn contains_substring(s: &str, pat: &str) -> (r: bool)
    ensures
        r <==> exists|k: int| match_at(s@, pat@, k),
{
    let found = find_substring(s, pat);
    proof {
        if find_spec(s@, pat@) is Some {
            let i = find_spec(s@, pat@).unwrap();
            lemma_find_from_witness(s@, pat@, 0, i);
        } else {
            assert forall|k: int| !match_at(s@, pat@, k) by {
                if match_at(s@, pat@, k) {
                    lemma_find_from_finds(s@, pat@, 0, k);
                }
            }
        }
    }
    found.is_some()
}

proof fn lemma_find_from_witness(s: Seq<char>, pat: Seq<char>, from: int, i: int)
    requires
        find_from_spec(s, pat, from) == Some(i),
    ensures
        match_at(s, pat, i),
    decreases s.len() + 1 - from,
{
    if !(from < 0 || from + pat.len() > s.len()) && !match_at(s, pat, from) {
        lemma_find_from_witness(s, pat, from + 1, i);
    }
}

/// The first position at or after `from` holding the character `c`, if any.
pub open spec fn char_find_from_spec(s: Seq<char>, c: char, from: int) -> Option<int>
    decreases s.len() - from,
{
    if from < 0 || from >= s.len() {
        None
    } else if s[from] == c {
        Some(from)
    } else {
        char_find_from_spec(s, c, from + 1)
    }
}

/// The position of the first occurrence of `c` in `s` at or after `from`.
pub fn char_find_from(s: &str, c: char, from: usize) -> (r: Option<usize>)
    ensures
        match r {
            Some(i) => char_find_from_spec(s@, c, from as int) == Some(i as int) && from <= i < s@.len(),
            None => char_find_from_spec(s@, c, from as int) is None,
        },
{
    let n: usize = s.unicode_len();
    let mut i: usize = from;
    while i < n
        invariant
            from <= i,
            n == s@.len(),
            char_find_from_spec(s@, c, from as int) == char_find_from_spec(s@, c, i as int),
        decreases n - i,
    {
        if s.get_char(i) == c {
            return Some(i);
        }
        i = i + 1;
    }
    None
}

/// Two strings hold the same characters.
pub fn str_eq(a: &str, b: &str) -> (r: bool)
    ensures
        r == (a@ == b@),
{
    let n: usize = a.unicode_len();
    let m: usize = b.unicode_len();
    if n != m {
        return false;
    }
    let mut i: usize = 0;
    while i < n
        invariant
            i <= n,
            n == a@.len(),
            n == b@.len(),
            forall|j: int| 0 <= j < i ==> a@[j] == b@[j],
        decreases n - i,
    {
        if a.get_char(i) != b.get_char(i) {
            return false;
        }
        i = i + 1;
    }
    proof {
        assert(a@ =~= b@);
    }
    true
}

/// ASCII lowercasing of a single character: `A`..=`Z` map to `a`..=`z`,
/// everything else is unchanged.
pub open spec fn lower_char_spec(c: char) -> char {
    if 'A' <= c <= 'Z' {
        ((c as u32) + 32) as char
    } else {
        c
    }
}

/// The ASCII-lowercased character sequence of `s`.
pub open spec fn lower_seq(s: Seq<char>) -> Seq<char> {
    s.map_values(|c: char| lower_char_spec(c))
}

/// ASCII lowercasing of one character.
pub fn lower_char(c: char) -> (r: char)
    ensures
        r == lower_char_spec(c),
{
    let v: u32 = c as u32;
    if 65 <= v && v <= 90 {
        proof {
            assert('A' <= c <= 'Z');
        }
        (v + 32) as u8 as char
    } else {
        proof {
            assert(!('A' <= c <= 'Z'));
        }
        c
    }
}

/// Whether `s` equals the keyword `kw` up to ASCII case folding of `s`.
/// `kw` is expected to already be lowercase.
pub fn eq_ignore_case(s: &str, kw: &str) -> (r: bool)
    ensures
        r == (lower_seq(s@) == kw@),
{
    let n: usize = s.unicode_len();
    let m: usize = kw.unicode_len();
    if n != m {
        proof {
            assert(lower_seq(s@).len() == s@.len());
        }
        return false;
    }
    let mut i: usize = 0;
    while i < n
        invariant
            i <= n,
            n == s@.len(),
            n == kw@.len(),
            forall|j: int| 0 <= j < i ==> lower_char_spec(s@[j]) == kw@[j],
        decreases n - i,
    {
        if lower_char(s.get_char(i)) != kw.get_char(i) {
            proof {
                assert(lower_seq(s@)[i as int] != kw@[i as int]);
            }
            return false;
        }
        i = i + 1;
    }
    proof {
        assert(lower_seq(s@) =~= kw@);
    }
    true
}

/// The digit character for `d` (meaningful for `0 <= d <= 9`).
pub open spec fn digit_char(d: int) -> char {
    (48 + d) as char
}

/// The decimal rendering of the non-negative integer `n`, most significant
/// digit first.
pub open spec fn dec_rep(n: int) -> Seq<char>
    decreases n,
{
    if n < 10 {
        seq![digit_char(n)]
    } else {
        dec_rep(n / 10).push(digit_char(n % 10))
    }
}

/// The decimal rendering of `n`, with a leading minus sign when negative.
pub open spec fn int_rep(n: int) -> Seq<char> {
    if n < 0 {
        seq!['-'] + dec_rep(-n)
    } else {
        dec_rep(n)
    }
}

fn digit_str(d: u64) -> (r: &'static str)
    requires
        d < 10,
    ensures
        r@ =~= seq![digit_char(d as int)],
{
    let base = "0123456789";
    proof {
        reveal_strlit("0123456789");
    }
    let r = base.substring_char(d as usize, (d + 1) as usize);
    proof {
        assert(r@ =~= seq![digit_char(d as int)]);
    }
    r
}

/// Renders `n` in decimal.
pub fn u64_to_string(n: u64) -> (r: String)
    ensures
        r@ == dec_rep(n as int),
    decreases n,
{
    if n < 10 {
        String::from_str(digit_str(n))
    } else {
        let pre = u64_to_string(n / 10);
        let r = pre.concat(digit_str(n % 10));
        proof {
            assert(dec_rep(n as int).drop_last() == dec_rep(n as int / 10));
            assert(r@ =~= dec_rep(n as int));
        }
        r
    }
}

/// Whether `c` is a decimal digit.
pub open spec fn is_digit_char(c: char) -> bool {
    '0' <= c <= '9'
}

/// The numeric value of a digit character (meaningful when `is_digit_char`).
pub open spec fn digit_val(c: char) -> int {
    c as int - 48
}

/// Whether `c` is a decimal digit.
pub fn is_digit(c: char) -> (r: bool)
    ensures
        r == is_digit_char(c),
{
    '0' <= c && c <= '9'
}

/// The number of consecutive digit characters in `s` starting at `from`.
pub open spec fn digits_run_len(s: Seq<char>, from: int) -> int
    decreases s.len() - from,
{
    if from < 0 || from >= s.len() || !is_digit_char(s[from]) {
        0
    } else {
        1 + digits_run_len(s, from + 1)
    }
}

proof fn lemma_digits_run(s: Seq<char>, from: int, to: int)
    requires
        0 <= from <= to <= s.len(),
        forall|j: int| from <= j < to ==> is_digit_char(s[j]),
        to == s.len() || !is_digit_char(s[to]),
    ensures
        digits_run_len(s, from) == to - from,
    decreases to - from,
{
    if from < to {
        lemma_digits_run(s, from + 1, to);
    }
}

/// The value of a sequence of digit characters read as a decimal number.
pub open spec fn digits_val(ds: Seq<char>) -> int
    decreases ds.len(),
{
    if ds.len() == 0 {
        0
    } else {
        digits_val(ds.drop_last()) * 10 + digit_val(ds.last())
    }
}

/// `v` clamped into the interval `[lo, hi]`.
pub open spec fn clamped(v: int, lo: int, hi: int) -> int {
    if v < lo {
        lo
    } else if v > hi {
        hi
    } else {
        v
    }
}

/// The smaller of two integers.
pub open spec fn imin(a: int, b: int) -> int {
    if a <= b {
        a
    } else {
        b
    }
}

/// Layout of a decimal-like character sequence: an optional sign, an integer
/// digit run, and an optional `.` followed by a fraction digit run. `s` is
/// decimal-like when nothing else follows and it holds at least one digit.
pub open spec fn dec_sign_len(s: Seq<char>) -> int {
    if s.len() > 0 && (s[0] == '+' || s[0] == '-') {
        1
    } else {
        0
    }
}

/// Whether a decimal-like sequence is negative.
pub open spec fn dec_is_neg(s: Seq<char>) -> bool {
    s.len() > 0 && s[0] == '-'
}

/// The position right after the integer digit run.
pub open spec fn dec_int_end(s: Seq<char>) -> int {
    dec_sign_len(s) + digits_run_len(s, dec_sign_len(s))
}

/// Whether `s` is a decimal-like sequence (see `dec_sign_len`).
pub open spec fn is_decimal(s: Seq<char>) -> bool {
    let p = dec_int_end(s);
    if p == s.len() {
        p > dec_sign_len(s)
    } else {
        &&& s[p] == '.'
        &&& p + 1 + digits_run_len(s, p + 1) == s.len()
        &&& (p > dec_sign_len(s) || digits_run_len(s, p + 1) > 0)
    }
}

/// The integer part of a decimal-like sequence, as an unsigned value.
pub open spec fn dec_int_val(s: Seq<char>) -> int {
    digits_val(s.subrange(dec_sign_len(s), dec_int_end(s)))
}

/// The first `min(3, len)` fraction digits of a decimal-like sequence,
/// scaled to thousandths: `"5"` gives 500, `"25"` gives 250, `"2345"`
/// gives 234.
pub open spec fn dec_frac_milli(s: Seq<char>) -> int {
    let p = dec_int_end(s);
    if p == s.len() {
        0
    } else {
        let m = imin(digits_run_len(s, p + 1), 3);
        let f = digits_val(s.subrange(p + 1, p + 1 + m));
        if m == 0 {
            0
        } else if m == 1 {
            f * 100
        } else if m == 2 {
            f * 10
        } else {
            f
        }
    }
}

/// The value that lenient score parsing assigns to `s`: the integer part of
/// a decimal-like sequence, signed, truncated toward zero and saturated to
/// the `i16` range; anything that is not decimal-like counts as zero.
pub open spec fn lenient_i16_spec(s: Seq<char>) -> int {
    if !is_decimal(s) {
        0
    } else if dec_is_neg(s) {
        clamped(-dec_int_val(s), -32768, 32767)
    } else {
        clamped(dec_int_val(s), -32768, 32767)
    }
}

/// The value that lenient point parsing assigns to `s`, in thousandths:
/// the signed decimal value with the fraction truncated past three digits,
/// saturated to the `i64` range; anything that is not decimal-like counts
/// as zero.
pub open spec fn lenient_milli_spec(s: Seq<char>) -> int {
    if !is_decimal(s) {
        0
    } else if dec_is_neg(s) {
        clamped(-(dec_int_val(s) * 1000 + dec_frac_milli(s)), -0x8000_0000_0000_0000, 0x7fff_ffff_ffff_ffff)
    } else {
        clamped(dec_int_val(s) * 1000 + dec_frac_milli(s), -0x8000_0000_0000_0000, 0x7fff_ffff_ffff_ffff)
    }
}

/// Scans the digit run starting at `from`; returns the exclusive end of the
/// run and the run's value saturated at `cap`.
fn scan_digits(s: &str, from: usize, cap: u64) -> (r: (usize, u64))
    requires
        from <= s@.len(),
        1 <= cap <= 0x8000_0000_0000_0000,
    ensures
        r.0 == from + digits_run_len(s@, from as int),
        from <= r.0 <= s@.len(),
        r.1 == imin(digits_val(s@.subrange(from as int, r.0 as int)), cap as int),
        forall|j: int| from <= j < r.0 ==> is_digit_char(s@[j]),
{
    let n: usize = s.unicode_len();
    let mut i: usize = from;
    let mut acc: u64 = 0;
    while i < n && is_digit(s.get_char(i))
        invariant
            from <= i <= n,
            n == s@.len(),
            1 <= cap <= 0x8000_0000_0000_0000,
            forall|j: int| from <= j < i ==> is_digit_char(s@[j]),
            acc == imin(digits_val(s@.subrange(from as int, i as int)), cap as int),
        decreases n - i,
    {
        let c = s.get_char(i);
        let d: u64 = (c as u32 - 48) as u64;
        let wide: u128 = acc as u128 * 10 + d as u128;
        let next: u64 = if wide > cap as u128 {
            cap
        } else {
            wide as u64
        };
        proof {
            let pre = s@.subrange(from as int, i as int);
            let post = s@.subrange(from as int, i + 1);
            assert(post.drop_last() =~= pre);
            assert(post.last() == s@[i as int]);
            let tv = digits_val(pre);
            assert(digits_val(post) == tv * 10 + digit_val(s@[i as int]));
            if tv > cap {
                assert(tv * 10 >= (cap + 1) * 10) by (nonlinear_arith)
                    requires tv >= cap + 1;
            }
        }
        acc = next;
        i = i + 1;
    }
    proof {
        lemma_digits_run(s@, from as int, i as int);
    }
    (i, acc)
}

/// Parses `s` leniently as a score: the integer part of a decimal number,
/// truncated toward zero and saturated to the `i16` range; a sequence that
/// is not decimal-like yields 0 rather than an error.
pub fn lenient_i16(s: &str) -> (r: i16)
    ensures
        r as int == lenient_i16_spec(s@),
{
    let n: usize = s.unicode_len();
    let sign: usize = if n > 0 && (s.get_char(0) == '+' || s.get_char(0) == '-') {
        1
    } else {
        0
    };
    let neg: bool = n > 0 && s.get_char(0) == '-';
    let (int_end, mag) = scan_digits(s, sign, 0x8000_0000_0000_0000);
    let decimal_ok: bool = if int_end == n {
        int_end > sign
    } else if s.get_char(int_end) == '.' {
        let (frac_end, _f) = scan_digits(s, int_end + 1, 1);
        frac_end == n && (int_end > sign || frac_end > int_end + 1)
    } else {
        false
    };
    if !decimal_ok {
        return 0;
    }
    if neg {
        if mag >= 32768 {
            -32768
        } else {
            -(mag as i16)
        }
    } else {
        if mag >= 32767 {
            32767
        } else {
            mag as i16
        }
    }
}

/// Parses `s` leniently as a point value in thousandths: the signed decimal
/// value with at most three fraction digits kept, saturated to the `i64`
/// range; a sequence that is not decimal-like yields 0 rather than an error.
pub fn lenient_milli(s: &str) -> (r: i64)
    ensures
        r as int == lenient_milli_spec(s@),
{
    let n: usize = s.unicode_len();
    let sign: usize = if n > 0 && (s.get_char(0) == '+' || s.get_char(0) == '-') {
        1
    } else {
        0
    };
    let neg: bool = n > 0 && s.get_char(0) == '-';
    let (int_end, mag) = scan_digits(s, sign, 0x8000_0000_0000_0000);
    let mut frac: u64 = 0;
    let mut decimal_ok: bool = false;
    if int_end == n {
        decimal_ok = int_end > sign;
    } else if s.get_char(int_end) == '.' {
        let (frac_end, _f) = scan_digits(s, int_end + 1, 1);
        if frac_end == n && (int_end > sign || frac_end > int_end + 1) {
            decimal_ok = true;
            let run: usize = frac_end - (int_end + 1);
            let m: usize = if run < 3 {
                run
            } else {
                3
            };
            let mut j: usize = 0;
            while j < m
                invariant
                    j <= m,
                    m <= run,
                    int_end + 1 + run <= n,
                    n == s@.len(),
                    forall|l: int|
                        int_end + 1 <= l < int_end + 1 + run ==> is_digit_char(s@[l]),
                    frac == digits_val(s@.subrange(int_end + 1, int_end + 1 + j)),
                    frac <= (if j == 0 {
                        0int
                    } else if j == 1 {
                        9int
                    } else if j == 2 {
                        99int
                    } else {
                        999int
                    }),
                    m <= 3,
                decreases m - j,
            {
                let c = s.get_char(int_end + 1 + j);
                let d: u64 = (c as u32 - 48) as u64;
                proof {
                    let pre = s@.subrange(int_end + 1, int_end + 1 + j);
                    let post = s@.subrange(int_end + 1, int_end + 1 + (j + 1));
                    assert(post.drop_last() =~= pre);
                }
                frac = frac * 10 + d;
                j = j + 1;
            }
            if m == 1 {
                frac = frac * 100;
            } else if m == 2 {
                frac = frac * 10;
            }
            proof {
                assert(frac == dec_frac_milli(s@));
            }
        }
    }
    if !decimal_ok {
        return 0;
    }
    let wide: u128 = mag as u128 * 1000 + frac as u128;
    let milli_mag: u64 = if wide > 0x8000_0000_0000_0000u128 {
        0x8000_0000_0000_0000u64
    } else {
        wide as u64
    };
    proof {
        let t = dec_int_val(s@) * 1000 + dec_frac_milli(s@);
        if dec_int_val(s@) > 0x8000_0000_0000_0000 {
            assert(dec_int_val(s@) * 1000 >= (0x8000_0000_0000_0000 + 1) * 1000)
                by (nonlinear_arith)
                requires dec_int_val(s@) >= 0x8000_0000_0000_0000 + 1;
        }
        assert(milli_mag == imin(t, 0x8000_0000_0000_0000));
    }
    if neg {
        if milli_mag >= 0x8000_0000_0000_0000u64 {
            i64::MIN
        } else {
            -(milli_mag as i64)
        }
    } else {
        if milli_mag >= 0x7fff_ffff_ffff_ffffu64 {
            i64::MAX
        } else {
            milli_mag as i64
        }
    }
}

/// What `str::parse::<u8>` accepts: an optional `+` sign followed by one or
/// more digits, with a value that fits in a `u8`.
pub open spec fn parse_u8_spec(s: Seq<char>) -> Option<u8> {
    let sign: int = if s.len() > 0 && s[0] == '+' {
        1
    } else {
        0
    };
    let d = digits_run_len(s, sign);
    if sign + d != s.len() || d < 1 {
        None
    } else {
        let v = digits_val(s.subrange(sign, s.len() as int));
        if v > 255 {
            None
        } else {
            Some(v as u8)
        }
    }
}

/// Parses `s` exactly as `str::parse::<u8>` does: an optional `+` sign,
/// then digits only, rejecting values over 255.
pub fn parse_u8(s: &str) -> (r: Option<u8>)
    ensures
        r == parse_u8_spec(s@),
{
    let n: usize = s.unicode_len();
    let sign: usize = if n > 0 && s.get_char(0) == '+' {
        1
    } else {
        0
    };
    let (end, mag) = scan_digits(s, sign, 1000);
    if end != n || end == sign {
        return None;
    }
    if mag > 255 {
        return None;
    }
    Some(mag as u8)
}

/// What `str::parse::<i16>` accepts: an optional `+` or `-` sign followed by
/// one or more digits, with a value in the `i16` range.
pub open spec fn parse_i16_spec(s: Seq<char>) -> Option<i16> {
    let sign: int = dec_sign_len(s);
    let d = digits_run_len(s, sign);
    if sign + d != s.len() || d < 1 {
        None
    } else {
        let v: int = if dec_is_neg(s) {
            -digits_val(s.subrange(sign, s.len() as int))
        } else {
            digits_val(s.subrange(sign, s.len() as int))
        };
        if v > 32767 || v < -32768 {
            None
        } else {
            Some(v as i16)
        }
    }
}

/// Parses `s` exactly as `str::parse::<i16>` does: an optional sign, then
/// digits only, rejecting values outside the `i16` range.
pub fn parse_i16(s: &str) -> (r: Option<i16>)
    ensures
        r == parse_i16_spec(s@),
{
    let n: usize = s.unicode_len();
    let sign: usize = if n > 0 && (s.get_char(0) == '+' || s.get_char(0) == '-') {
        1
    } else {
        0
    };
    let neg: bool = n > 0 && s.get_char(0) == '-';
    let (end, mag) = scan_digits(s, sign, 100000);
    if end != n || end == sign {
        return None;
    }
    if neg {
        if mag > 32768 {
            None
        } else {
            Some((-(mag as i64)) as i16)
        }
    } else {
        if mag > 32767 {
            None
        } else {
            Some(mag as i16)
        }
    }
}

/// Renders `n` in decimal, with a minus sign when negative.
pub fn i8_to_string(n: i8) -> (r: String)
    ensures
        r@ == int_rep(n as int),
{
    if n < 0 {
        let mag: u64 = (-(n as i64)) as u64;
        let digits = u64_to_string(mag);
        let r = String::from_str("-").concat(digits.as_str());
        proof {
            reveal_strlit("-");
            assert(r@ =~= int_rep(n as int));
        }
        r
    } else {
        u64_to_string(n as u64)
    }
}

} // verus!
