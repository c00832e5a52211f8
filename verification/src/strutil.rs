//! Verified text utilities shared by the parsers: character classes,
//! equality and substring tests, scanning, splitting, trimming and
//! decimal parsing, all specified over `Seq<char>` views.
//!
//! Whitespace here is the ASCII set (space, tab, line feed, carriage
//! return), which is all the kernel-exposed text files use.

use vstd::prelude::*;
use vstd::string::*;

verus! {

/// ASCII whitespace: the separator set recognised by the parsers here.
pub open spec fn is_ws(c: char) -> bool {
    c == ' ' || c == '\t' || c == '\n' || c == '\r'
}

pub fn is_ws_char(c: char) -> (r: bool)
    ensures
        r == is_ws(c),
{
    c == ' ' || c == '\t' || c == '\n' || c == '\r'
}

/// ASCII decimal digit.
pub open spec fn is_digit(c: char) -> bool {
    48 <= c as int && c as int <= 57
}

pub fn is_digit_char(c: char) -> (r: bool)
    ensures
        r == is_digit(c),
{
    let u = c as u32;
    48 <= u && u <= 57
}

/// Numeric value of a decimal digit character.
pub open spec fn digit_val(c: char) -> int {
    c as int - 48
}

pub open spec fn all_digits(s: Seq<char>) -> bool {
    forall|i: int| 0 <= i < s.len() ==> is_digit(#[trigger] s[i])
}

/// Character-for-character equality of two strings.
pub fn str_eq(a: &str, b: &str) -> (r: bool)
    ensures
        r == (a@ == b@),
{
    let alen = a.unicode_len();
    let blen = b.unicode_len();
    if alen != blen {
        return false;
    }
    let mut i: usize = 0;
    while i < alen
        invariant
            alen == a@.len(),
            alen == b@.len(),
            0 <= i <= alen,
            forall|j: int| 0 <= j < i ==> a@[j] == b@[j],
        decreases alen - i,
    {
        if a.get_char(i) != b.get_char(i) {
            return false;
        }
        i += 1;
    }
    proof {
        assert(a@ =~= b@);
    }
    true
}

/// `p` is a prefix of `s`.
pub open spec fn spec_starts_with(s: Seq<char>, p: Seq<char>) -> bool {
    p.len() <= s.len() && s.subrange(0, p.len() as int) == p
}

pub fn starts_with_str(s: &str, p: &str) -> (r: bool)
    ensures
        r == spec_starts_with(s@, p@),
{
    let slen = s.unicode_len();
    let plen = p.unicode_len();
    if plen > slen {
        return false;
    }
    let mut i: usize = 0;
    while i < plen
        invariant
            slen == s@.len(),
            plen == p@.len(),
            plen <= slen,
            0 <= i <= plen,
            forall|j: int| 0 <= j < i ==> s@[j] == p@[j],
        decreases plen - i,
    {
        if s.get_char(i) != p.get_char(i) {
            proof {
                assert(s@.subrange(0, p@.len() as int)[i as int] == s@[i as int]);
            }
            return false;
        }
        i += 1;
    }
    proof {
        assert(s@.subrange(0, p@.len() as int) =~= p@);
    }
    true
}

/// `sub` occurs in `s` at some offset.
pub open spec fn spec_contains(s: Seq<char>, sub: Seq<char>) -> bool {
    exists|k: int|
        0 <= k && k + sub.len() <= s.len() && #[trigger] s.subrange(k, k + sub.len() as int)
            == sub
}

/// `sub` occurs in `s` at exactly offset `k`.
fn matches_at(s: &str, sub: &str, k: usize) -> (r: bool)
    requires
        k + sub@.len() <= s@.len(),
    ensures
        r == (s@.subrange(k as int, k + sub@.len() as int) == sub@),
{
    let slen = s.unicode_len();
    let sublen = sub.unicode_len();
    let mut j: usize = 0;
    while j < sublen
        invariant
            slen == s@.len(),
            sublen == sub@.len(),
            k + sublen <= s@.len(),
            0 <= j <= sublen,
            forall|t: int| 0 <= t < j ==> s@[k + t] == sub@[t],
        decreases sublen - j,
    {
        if s.get_char(k + j) != sub.get_char(j) {
            proof {
                assert(s@.subrange(k as int, k + sub@.len() as int)[j as int] == s@[k + j]);
            }
            return false;
        }
        j += 1;
    }
    proof {
        assert(s@.subrange(k as int, k + sub@.len() as int) =~= sub@);
    }
    true
}

pub fn contains_str(s: &str, sub: &str) -> (r: bool)
    ensures
        r == spec_contains(s@, sub@),
{
    let slen = s.unicode_len();
    let sublen = sub.unicode_len();
    if sublen > slen {
        return false;
    }
    if sublen == 0 {
        proof {
            assert(spec_contains(s@, sub@)) by {
                assert(s@.subrange(0, 0 + sub@.len() as int) =~= sub@);
            }
        }
        return true;
    }
    let mut k: usize = 0;
    while k <= slen - sublen
        invariant
            slen == s@.len(),
            sublen == sub@.len(),
            0 < sublen <= slen,
            0 <= k,
            k <= slen - sublen + 1,
            forall|k2: int|
                0 <= k2 < k ==> #[trigger] s@.subrange(k2, k2 + sub@.len() as int) != sub@,
        decreases slen - k,
    {
        if matches_at(s, sub, k) {
            return true;
        }
        k += 1;
    }
    false
}

/// Index of the first occurrence of `c` in `s` at or after `i`,
/// or `s.len()` when there is none.
pub open spec fn index_of_from(s: Seq<char>, c: char, i: int) -> int
    decreases s.len() - i,
    when 0 <= i <= s.len()
{
    if i >= s.len() {
        i
    } else if s[i] == c {
        i
    } else {
        index_of_from(s, c, i + 1)
    }
}

pub proof fn lemma_index_of_from(s: Seq<char>, c: char, i: int)
    requires
        0 <= i <= s.len(),
    ensures
        i <= index_of_from(s, c, i) <= s.len(),
        index_of_from(s, c, i) < s.len() ==> s[index_of_from(s, c, i)] == c,
        forall|j: int| i <= j < index_of_from(s, c, i) ==> s[j] != c,
    decreases s.len() - i,
{
    if i < s.len() && s[i] != c {
        lemma_index_of_from(s, c, i + 1);
    }
}

pub fn find_char_from(s: &str, c: char, i: usize) -> (r: usize)
    requires
        i <= s@.len(),
    ensures
        r as int == index_of_from(s@, c, i as int),
    decreases s@.len() - i,
{
    let len = s.unicode_len();
    if i >= len {
        i
    } else if s.get_char(i) == c {
        i
    } else {
        find_char_from(s, c, i + 1)
    }
}

/// Index of the last occurrence of `c` in `s` at or before `j`, or -1.
pub open spec fn rindex_of_upto(s: Seq<char>, c: char, j: int) -> int
    decreases j + 1,
    when -1 <= j < s.len()
{
    if j < 0 {
        -1
    } else if s[j] == c {
        j
    } else {
        rindex_of_upto(s, c, j - 1)
    }
}

/// Index of the last occurrence of `c` in `s`, or -1 when there is none.
pub open spec fn rindex_of(s: Seq<char>, c: char) -> int {
    rindex_of_upto(s, c, s.len() - 1)
}

pub proof fn lemma_rindex_of_upto(s: Seq<char>, c: char, j: int)
    requires
        -1 <= j < s.len(),
    ensures
        -1 <= rindex_of_upto(s, c, j) <= j,
        rindex_of_upto(s, c, j) >= 0 ==> s[rindex_of_upto(s, c, j)] == c,
        forall|t: int| rindex_of_upto(s, c, j) < t <= j ==> s[t] != c,
    decreases j + 1,
{
    if j >= 0 && s[j] != c {
        lemma_rindex_of_upto(s, c, j - 1);
    }
}

fn rfind_upto(s: &str, c: char, j: usize) -> (r: Option<usize>)
    requires
        j < s@.len(),
    ensures
        match r {
            Some(k) => rindex_of_upto(s@, c, j as int) == k as int && k <= j,
            None => rindex_of_upto(s@, c, j as int) == -1,
        },
    decreases j + 1,
{
    if s.get_char(j) == c {
        proof {
            assert(rindex_of_upto(s@, c, j as int) == j as int);
        }
        Some(j)
    } else if j == 0 {
        proof {
            assert(rindex_of_upto(s@, c, -1) == -1);
            assert(rindex_of_upto(s@, c, 0) == -1);
        }
        None
    } else {
        let r = rfind_upto(s, c, j - 1);
        proof {
            assert(rindex_of_upto(s@, c, j as int) == rindex_of_upto(s@, c, j as int - 1));
        }
        r
    }
}

/// Last occurrence of `c` in `s`, if any.
pub fn rfind_char(s: &str, c: char) -> (r: Option<usize>)
    ensures
        match r {
            Some(k) => rindex_of(s@, c) == k as int,
            None => rindex_of(s@, c) == -1,
        },
{
    let len = s.unicode_len();
    if len == 0 {
        return None;
    }
    rfind_upto(s, c, len - 1)
}

/// End of the run of non-whitespace characters starting at `i`.
pub open spec fn token_end(s: Seq<char>, i: int) -> int
    decreases s.len() - i,
    when 0 <= i <= s.len()
{
    if i >= s.len() || is_ws(s[i]) {
        i
    } else {
        token_end(s, i + 1)
    }
}

pub proof fn lemma_token_end(s: Seq<char>, i: int)
    requires
        0 <= i <= s.len(),
    ensures
        i <= token_end(s, i) <= s.len(),
        token_end(s, i) < s.len() ==> is_ws(s[token_end(s, i)]),
        forall|j: int| i <= j < token_end(s, i) ==> !is_ws(s[j]),
    decreases s.len() - i,
{
    if i < s.len() && !is_ws(s[i]) {
        lemma_token_end(s, i + 1);
    }
}

fn token_end_exec(s: &str, i: usize) -> (r: usize)
    requires
        i <= s@.len(),
    ensures
        r as int == token_end(s@, i as int),
    decreases s@.len() - i,
{
    let len = s.unicode_len();
    if i >= len || is_ws_char(s.get_char(i)) {
        i
    } else {
        token_end_exec(s, i + 1)
    }
}

/// The whitespace-separated tokens of `s[i..]`.
pub open spec fn split_ws_from(s: Seq<char>, i: int) -> Seq<Seq<char>>
    decreases s.len() - i,
    when 0 <= i <= s.len()
    via split_ws_from_decreases
{
    if i >= s.len() {
        Seq::empty()
    } else if is_ws(s[i]) {
        split_ws_from(s, i + 1)
    } else {
        seq![s.subrange(i, token_end(s, i))] + split_ws_from(s, token_end(s, i))
    }
}

#[via_fn]
proof fn split_ws_from_decreases(s: Seq<char>, i: int) {
    if 0 <= i && i < s.len() && !is_ws(s[i]) {
        lemma_token_end(s, i);
    }
}

fn split_ws_rec(s: &str, i: usize) -> (r: Vec<String>)
    requires
        i <= s@.len(),
    ensures
        r.deep_view() == split_ws_from(s@, i as int),
    decreases s@.len() - i,
{
    let len = s.unicode_len();
    if i >= len {
        let r: Vec<String> = Vec::new();
        proof {
            assert(r.deep_view() =~= split_ws_from(s@, i as int));
        }
        r
    } else if is_ws_char(s.get_char(i)) {
        split_ws_rec(s, i + 1)
    } else {
        proof {
            lemma_token_end(s@, i as int);
        }
        let j = token_end_exec(s, i);
        let tok = String::from_str(s.substring_char(i, j));
        let mut r: Vec<String> = Vec::new();
        r.push(tok);
        let mut rest = split_ws_rec(s, j);
        let ghost rest_dv = rest.deep_view();
        r.append(&mut rest);
        proof {
            assert(r.deep_view() =~= split_ws_from(s@, i as int));
        }
        r
    }
}

/// The whitespace-separated tokens of `s`, in order.
pub fn split_ws(s: &str) -> (r: Vec<String>)
    ensures
        r.deep_view() == split_ws_from(s@, 0),
{
    split_ws_rec(s, 0)
}

/// One text line: the bytes up to the terminator, with a carriage return
/// dropped when the line was terminated by a line feed.
pub open spec fn line_at(s: Seq<char>, i: int, e: int) -> Seq<char> {
    if e < s.len() && e > i && s[e - 1] == '\r' {
        s.subrange(i, e - 1)
    } else {
        s.subrange(i, e)
    }
}

/// The lines of `s[i..]`, split at line feeds, without a trailing empty
/// line for a final terminator.
pub open spec fn lines_from(s: Seq<char>, i: int) -> Seq<Seq<char>>
    decreases s.len() - i,
    when 0 <= i <= s.len()
    via lines_from_decreases
{
    if i >= s.len() {
        Seq::empty()
    } else {
        let e = index_of_from(s, '\n', i);
        if e < s.len() {
            seq![line_at(s, i, e)] + lines_from(s, e + 1)
        } else {
            seq![line_at(s, i, e)]
        }
    }
}

#[via_fn]
proof fn lines_from_decreases(s: Seq<char>, i: int) {
    if 0 <= i && i < s.len() {
        lemma_index_of_from(s, '\n', i);
    }
}

fn lines_rec(s: &str, i: usize) -> (r: Vec<String>)
    requires
        i <= s@.len(),
    ensures
        r.deep_view() == lines_from(s@, i as int),
    decreases s@.len() - i,
{
    let len = s.unicode_len();
    if i >= len {
        let r: Vec<String> = Vec::new();
        proof {
            assert(r.deep_view() =~= lines_from(s@, i as int));
        }
        return r;
    }
    proof {
        lemma_index_of_from(s@, '\n', i as int);
    }
    let e = find_char_from(s, '\n', i);
    let piece = if e < len && e > i && s.get_char(e - 1) == '\r' {
        String::from_str(s.substring_char(i, e - 1))
    } else {
        String::from_str(s.substring_char(i, e))
    };
    let mut r: Vec<String> = Vec::new();
    r.push(piece);
    if e < len {
        let mut rest = lines_rec(s, e + 1);
        r.append(&mut rest);
    }
    proof {
        assert(r.deep_view() =~= lines_from(s@, i as int));
    }
    r
}

/// The lines of `s`.
pub fn lines_of(s: &str) -> (r: Vec<String>)
    ensures
        r.deep_view() == lines_from(s@, 0),
{
    lines_rec(s, 0)
}

/// The pieces of `s[i..]` split at every occurrence of `sep`,
/// empty pieces included.
pub open spec fn split_char_from(s: Seq<char>, sep: char, i: int) -> Seq<Seq<char>>
    decreases s.len() - i + 1,
    when 0 <= i <= s.len()
    via split_char_from_decreases
{
    let e = index_of_from(s, sep, i);
    if e < s.len() {
        seq![s.subrange(i, e)] + split_char_from(s, sep, e + 1)
    } else {
        seq![s.subrange(i, e)]
    }
}

#[via_fn]
proof fn split_char_from_decreases(s: Seq<char>, sep: char, i: int) {
    if 0 <= i <= s.len() {
        lemma_index_of_from(s, sep, i);
    }
}

fn split_char_rec(s: &str, sep: char, i: usize) -> (r: Vec<String>)
    requires
        i <= s@.len(),
    ensures
        r.deep_view() == split_char_from(s@, sep, i as int),
    decreases s@.len() - i + 1,
{
    let len = s.unicode_len();
    proof {
        lemma_index_of_from(s@, sep, i as int);
    }
    let e = find_char_from(s, sep, i);
    let piece = String::from_str(s.substring_char(i, e));
    let mut r: Vec<String> = Vec::new();
    r.push(piece);
    if e < len {
        let mut rest = split_char_rec(s, sep, e + 1);
        r.append(&mut rest);
    }
    proof {
        assert(r.deep_view() =~= split_char_from(s@, sep, i as int));
    }
    r
}

/// The pieces of `s` split at every occurrence of `sep`.
pub fn split_char(s: &str, sep: char) -> (r: Vec<String>)
    ensures
        r.deep_view() == split_char_from(s@, sep, 0),
{
    split_char_rec(s, sep, 0)
}

/// First index at or after `i` holding a non-whitespace character.
pub open spec fn skip_ws(s: Seq<char>, i: int) -> int
    decreases s.len() - i,
    when 0 <= i <= s.len()
{
    if i >= s.len() || !is_ws(s[i]) {
        i
    } else {
        skip_ws(s, i + 1)
    }
}

pub proof fn lemma_skip_ws(s: Seq<char>, i: int)
    requires
        0 <= i <= s.len(),
    ensures
        i <= skip_ws(s, i) <= s.len(),
    decreases s.len() - i,
{
    if i < s.len() && is_ws(s[i]) {
        lemma_skip_ws(s, i + 1);
    }
}

fn skip_ws_exec(s: &str, i: usize) -> (r: usize)
    requires
        i <= s@.len(),
    ensures
        r as int == skip_ws(s@, i as int),
    decreases s@.len() - i,
{
    let len = s.unicode_len();
    if i >= len || !is_ws_char(s.get_char(i)) {
        i
    } else {
        skip_ws_exec(s, i + 1)
    }
}

/// End of `s[..j]` once trailing whitespace is dropped.
pub open spec fn end_trim_at(s: Seq<char>, j: int) -> int
    decreases j,
    when 0 <= j <= s.len()
{
    if j <= 0 || !is_ws(s[j - 1]) {
        j
    } else {
        end_trim_at(s, j - 1)
    }
}

pub proof fn lemma_end_trim_at(s: Seq<char>, j: int)
    requires
        0 <= j <= s.len(),
    ensures
        0 <= end_trim_at(s, j) <= j,
    decreases j,
{
    if j > 0 && is_ws(s[j - 1]) {
        lemma_end_trim_at(s, j - 1);
    }
}

fn end_trim_exec(s: &str, j: usize) -> (r: usize)
    requires
        j <= s@.len(),
    ensures
        r as int == end_trim_at(s@, j as int),
    decreases j,
{
    if j == 0 || !is_ws_char(s.get_char(j - 1)) {
        j
    } else {
        end_trim_exec(s, j - 1)
    }
}

/// `s` with leading and trailing ASCII whitespace removed.
pub open spec fn trim_spec(s: Seq<char>) -> Seq<char> {
    let a = skip_ws(s, 0);
    let b = end_trim_at(s, s.len() as int);
    if a <= b {
        s.subrange(a, b)
    } else {
        Seq::empty()
    }
}

pub fn trim_str(s: &str) -> (r: String)
    ensures
        r@ == trim_spec(s@),
{
    let len = s.unicode_len();
    proof {
        lemma_skip_ws(s@, 0);
        lemma_end_trim_at(s@, s@.len() as int);
    }
    let a = skip_ws_exec(s, 0);
    let b = end_trim_exec(s, len);
    if a <= b {
        String::from_str(s.substring_char(a, b))
    } else {
        String::new()
    }
}

/// End of `s[..j]` once a trailing run of `c` is dropped.
pub open spec fn end_strip_char_at(s: Seq<char>, c: char, j: int) -> int
    decreases j,
    when 0 <= j <= s.len()
{
    if j <= 0 || s[j - 1] != c {
        j
    } else {
        end_strip_char_at(s, c, j - 1)
    }
}

pub proof fn lemma_end_strip_char_at(s: Seq<char>, c: char, j: int)
    requires
        0 <= j <= s.len(),
    ensures
        0 <= end_strip_char_at(s, c, j) <= j,
    decreases j,
{
    if j > 0 && s[j - 1] == c {
        lemma_end_strip_char_at(s, c, j - 1);
    }
}

/// `s` with every trailing occurrence of `c` removed.
pub fn strip_trailing_char(s: &str, c: char) -> (r: String)
    ensures
        r@ == s@.subrange(0, end_strip_char_at(s@, c, s@.len() as int)),
{
    let len = s.unicode_len();
    proof {
        lemma_end_strip_char_at(s@, c, s@.len() as int);
    }
    let b = strip_char_exec(s, c, len);
    String::from_str(s.substring_char(0, b))
}

fn strip_char_exec(s: &str, c: char, j: usize) -> (r: usize)
    requires
        j <= s@.len(),
    ensures
        r as int == end_strip_char_at(s@, c, j as int),
    decreases j,
{
    if j == 0 || s.get_char(j - 1) != c {
        j
    } else {
        strip_char_exec(s, c, j - 1)
    }
}

/// Start of the trailing run of decimal digits of `s[..j]`.
pub open spec fn start_of_digit_run(s: Seq<char>, j: int) -> int
    decreases j,
    when 0 <= j <= s.len()
{
    if j <= 0 || !is_digit(s[j - 1]) {
        j
    } else {
        start_of_digit_run(s, j - 1)
    }
}

pub proof fn lemma_start_of_digit_run(s: Seq<char>, j: int)
    requires
        0 <= j <= s.len(),
    ensures
        0 <= start_of_digit_run(s, j) <= j,
        forall|t: int| start_of_digit_run(s, j) <= t < j ==> is_digit(s[t]),
    decreases j,
{
    if j > 0 && is_digit(s[j - 1]) {
        lemma_start_of_digit_run(s, j - 1);
    }
}

pub fn start_of_digit_run_exec(s: &str, j: usize) -> (r: usize)
    requires
        j <= s@.len(),
    ensures
        r as int == start_of_digit_run(s@, j as int),
    decreases j,
{
    if j == 0 || !is_digit_char(s.get_char(j - 1)) {
        j
    } else {
        start_of_digit_run_exec(s, j - 1)
    }
}

/// Value of a digit string, most significant digit first.
pub open spec fn digits_value(s: Seq<char>) -> int
    decreases s.len(),
{
    if s.len() == 0 {
        0
    } else {
        digits_value(s.drop_last()) * 10 + digit_val(s.last())
    }
}

pub proof fn lemma_digits_value_nonneg(s: Seq<char>)
    requires
        all_digits(s),
    ensures
        digits_value(s) >= 0,
    decreases s.len(),
{
    if s.len() > 0 {
        assert(all_digits(s.drop_last()));
        lemma_digits_value_nonneg(s.drop_last());
    }
}

/// The digit part of a decimal literal: everything after an optional
/// leading plus sign.
pub open spec fn digits_part(s: Seq<char>) -> Seq<char> {
    if s.len() > 0 && s[0] == '+' {
        s.subrange(1, s.len() as int)
    } else {
        s
    }
}

/// What `str::parse::<u64>` accepts of the inputs used here: an optional
/// leading plus sign, then one or more decimal digits, value in range.
pub open spec fn spec_parse_u64(s: Seq<char>) -> Option<u64> {
    let d = digits_part(s);
    if d.len() > 0 && all_digits(d) && digits_value(d) <= u64::MAX {
        Some(digits_value(d) as u64)
    } else {
        None
    }
}

/// Decimal u64 parse, with the optional leading plus sign.
pub fn parse_u64(s: &str) -> (r: Option<u64>)
    ensures
        r == spec_parse_u64(s@),
{
    let len = s.unicode_len();
    let start: usize = if len > 0 && s.get_char(0) == '+' {
        1
    } else {
        0
    };
    let ghost d = digits_part(s@);
    proof {
        assert(d =~= s@.subrange(start as int, len as int));
    }
    if len == start {
        proof {
            assert(d.len() == 0);
        }
        return None;
    }
    let mut acc: u64 = 0;
    let mut overflow = false;
    let mut i: usize = start;
    while i < len
        invariant
            start <= i <= len,
            len == s@.len(),
            start <= 1,
            d == digits_part(s@),
            d =~= s@.subrange(start as int, len as int),
            all_digits(s@.subrange(start as int, i as int)),
            !overflow ==> acc == digits_value(s@.subrange(start as int, i as int)),
            overflow ==> digits_value(s@.subrange(start as int, i as int)) > u64::MAX,
        decreases len - i,
    {
        let ghost pre = s@.subrange(start as int, i as int);
        let ghost post = s@.subrange(start as int, i + 1);
        let c = s.get_char(i);
        proof {
            assert(post.drop_last() =~= pre);
            assert(post.last() == s@[i as int]);
        }
        if !is_digit_char(c) {
            proof {
                assert(d[i - start] == s@[i as int]);
                assert(0 <= i - start < d.len() && !is_digit(d[i - start]));
                assert(!all_digits(d));
                assert(spec_parse_u64(s@) == None::<u64>);
            }
            return None;
        }
        let dv: u64 = (c as u32 - 48) as u64;
        if overflow {
            proof {
                lemma_digits_value_nonneg(pre);
                assert(digits_value(post) == digits_value(pre) * 10 + digit_val(s@[i as int]));
                assert(digits_value(pre) * 10 >= digits_value(pre)) by {
                    assert(digits_value(pre) * 10 - digits_value(pre) == digits_value(pre) * 9);
                    assert(digits_value(pre) * 9 >= 0);
                }
            }
        } else {
            if acc > (u64::MAX - dv) / 10 {
                overflow = true;
                proof {
                    assert(digits_value(post) == digits_value(pre) * 10 + digit_val(s@[i as int]));
                    assert(acc * 10 + dv > u64::MAX) by {
                        assert(acc >= (u64::MAX - dv) / 10 + 1);
                        assert(((u64::MAX - dv) / 10 + 1) * 10 == ((u64::MAX - dv) / 10) * 10 + 10);
                        assert(((u64::MAX - dv) / 10) * 10 > (u64::MAX - dv) - 10);
                        assert(acc * 10 >= ((u64::MAX - dv) / 10 + 1) * 10) by (nonlinear_arith)
                            requires
                                acc >= (u64::MAX - dv) / 10 + 1,
                        ;
                    }
                }
            } else {
                proof {
                    assert(acc * 10 + dv <= u64::MAX) by {
                        assert(acc <= (u64::MAX - dv) / 10);
                        assert((u64::MAX - dv) / 10 * 10 <= u64::MAX - dv);
                        assert(acc * 10 <= (u64::MAX - dv) / 10 * 10) by (nonlinear_arith)
                            requires
                                acc <= (u64::MAX - dv) / 10,
                        ;
                    }
                    assert(digits_value(post) == digits_value(pre) * 10 + digit_val(s@[i as int]));
                }
                acc = acc * 10 + dv;
            }
        }
        i += 1;
    }
    proof {
        assert(s@.subrange(start as int, len as int) =~= d);
    }
    if overflow {
        None
    } else {
        Some(acc)
    }
}

/// What `str::parse::<u32>` accepts: as for u64, with the u32 range.
pub open spec fn spec_parse_u32(s: Seq<char>) -> Option<u32> {
    let d = digits_part(s);
    if d.len() > 0 && all_digits(d) && digits_value(d) <= u32::MAX {
        Some(digits_value(d) as u32)
    } else {
        None
    }
}

/// Decimal u32 parse, with the optional leading plus sign.
pub fn parse_u32(s: &str) -> (r: Option<u32>)
    ensures
        r == spec_parse_u32(s@),
{
    let ghost d = digits_part(s@);
    match parse_u64(s) {
        Some(v) => {
            proof {
                lemma_digits_value_nonneg(d);
                assert(v == digits_value(d));
            }
            if v <= 0xffff_ffff {
                Some(v as u32)
            } else {
                None
            }
        },
        None => {
            proof {
                if d.len() > 0 && all_digits(d) {
                    assert(digits_value(d) > u64::MAX);
                }
            }
            None
        },
    }
}

/// ASCII lowercase of one character.
pub open spec fn lower_char(c: char) -> char {
    if 65 <= c as int && c as int <= 90 {
        ((c as u8) + 32) as char
    } else {
        c
    }
}

/// ASCII lowercase of a character sequence.
pub open spec fn lower_seq(s: Seq<char>) -> Seq<char> {
    s.map_values(|c: char| lower_char(c))
}

pub fn to_lower_char(c: char) -> (r: char)
    ensures
        r == lower_char(c),
{
    let u = c as u32;
    if 65 <= u && u <= 90 {
        ((c as u8) + 32) as char
    } else {
        c
    }
}

/// ASCII-case-insensitive match of `s` against an already-lowercase `lit`.
pub fn eq_lowered(s: &str, lit: &str) -> (r: bool)
    ensures
        r == (lower_seq(s@) == lit@),
{
    let slen = s.unicode_len();
    let llen = lit.unicode_len();
    if slen != llen {
        proof {
            assert(lower_seq(s@).len() == s@.len());
        }
        return false;
    }
    let mut i: usize = 0;
    while i < slen
        invariant
            slen == s@.len(),
            slen == lit@.len(),
            0 <= i <= slen,
            forall|j: int| 0 <= j < i ==> lower_char(s@[j]) == lit@[j],
        decreases slen - i,
    {
        if to_lower_char(s.get_char(i)) != lit.get_char(i) {
            proof {
                assert(lower_seq(s@)[i as int] == lower_char(s@[i as int]));
            }
            return false;
        }
        i += 1;
    }
    proof {
        assert(lower_seq(s@) =~= lit@);
    }
    true
}

/// Relies on `String::push`: appends exactly the one character.
#[verifier::external_body]
fn push_char(s: &mut String, c: char)
    ensures
        final(s)@ == old(s)@.push(c),
{
    s.push(c);
}

/// `s` with every occurrence of `c` removed.
pub open spec fn remove_char_spec(s: Seq<char>, c: char) -> Seq<char>
    decreases s.len(),
{
    if s.len() == 0 {
        Seq::empty()
    } else {
        let rest = remove_char_spec(s.drop_last(), c);
        if s.last() == c {
            rest
        } else {
            rest.push(s.last())
        }
    }
}

pub fn remove_char(s: &str, c: char) -> (r: String)
    ensures
        r@ == remove_char_spec(s@, c),
{
    let len = s.unicode_len();
    let mut out = String::new();
    let mut i: usize = 0;
    while i < len
        invariant
            len == s@.len(),
            0 <= i <= len,
            out@ == remove_char_spec(s@.subrange(0, i as int), c),
        decreases len - i,
    {
        let ghost pre = s@.subrange(0, i as int);
        let ghost post = s@.subrange(0, i + 1);
        proof {
            assert(post.drop_last() =~= pre);
            assert(post.last() == s@[i as int]);
        }
        let ch = s.get_char(i);
        if ch != c {
            push_char(&mut out, ch);
        }
        i += 1;
    }
    proof {
        assert(s@.subrange(0, s@.len() as int) =~= s@);
    }
    out
}

} // verus!
