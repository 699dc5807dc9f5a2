//! Character and string helpers shared by the three stages: decimal
//! formatting and parsing of 16-bit values, whitespace trimming, substring
//! search, and splitting a line into whitespace-separated words.

use vstd::prelude::*;
use vstd::string::StrSliceExecFns;
use vstd::string::StringExecFns;

verus! {

broadcast use vstd::string::group_string_axioms;

/// Relies on String::push: appends exactly the one character.
pub assume_specification[ std::string::String::push ](s: &mut std::string::String, c: char)
    ensures
        final(s)@ == old(s)@.push(c),
;

pub open spec fn is_space(c: char) -> bool {
    c == ' ' || c == '\t' || c == '\n' || c == '\r' || c == '\u{b}' || c == '\u{c}'
}

/// Whether `c` is whitespace.
pub fn is_space_char(c: char) -> (r: bool)
    ensures
        r == is_space(c),
{
    c == ' ' || c == '\t' || c == '\n' || c == '\r' || c == '\u{b}' || c == '\u{c}'
}

pub open spec fn is_digit(c: char) -> bool {
    '0' <= c && c <= '9'
}

pub open spec fn digit_val(c: char) -> nat {
    (c as nat - '0' as nat) as nat
}

pub open spec fn digit_char(d: nat) -> char {
    if d == 0 { '0' }
    else if d == 1 { '1' }
    else if d == 2 { '2' }
    else if d == 3 { '3' }
    else if d == 4 { '4' }
    else if d == 5 { '5' }
    else if d == 6 { '6' }
    else if d == 7 { '7' }
    else if d == 8 { '8' }
    else { '9' }
}

/// Decimal digits of a non-negative number, most significant first,
/// without leading zeros (except for the number 0 itself).
pub open spec fn spec_dec_nat(n: nat) -> Seq<char>
    decreases n,
{
    if n < 10 {
        seq![digit_char(n)]
    } else {
        spec_dec_nat(n / 10).push(digit_char(n % 10))
    }
}

/// Decimal rendering of an integer: a minus sign for negative values,
/// then the digits of the magnitude.
pub open spec fn spec_dec_int(v: int) -> Seq<char> {
    if v < 0 {
        seq!['-'] + spec_dec_nat((-v) as nat)
    } else {
        spec_dec_nat(v as nat)
    }
}

fn digit_to_str(d: u16) -> (r: &'static str)
    requires
        d < 10,
    ensures
        r@ == seq![digit_char(d as nat)],
{
    proof {
        reveal_strlit("0");
        reveal_strlit("1");
        reveal_strlit("2");
        reveal_strlit("3");
        reveal_strlit("4");
        reveal_strlit("5");
        reveal_strlit("6");
        reveal_strlit("7");
        reveal_strlit("8");
        reveal_strlit("9");
    }
    let r = if d == 0 { "0" }
    else if d == 1 { "1" }
    else if d == 2 { "2" }
    else if d == 3 { "3" }
    else if d == 4 { "4" }
    else if d == 5 { "5" }
    else if d == 6 { "6" }
    else if d == 7 { "7" }
    else if d == 8 { "8" }
    else { "9" };
    proof {
        assert(r@ =~= seq![digit_char(d as nat)]);
    }
    r
}

fn push_dec_u16(n: u16, out: &mut String)
    ensures
        final(out)@ == old(out)@ + spec_dec_nat(n as nat),
    decreases n,
{
    if n < 10 {
        let d = digit_to_str(n);
        out.append(d);
        proof {
            assert(out@ =~= old(out)@ + spec_dec_nat(n as nat));
        }
    } else {
        push_dec_u16(n / 10, out);
        let d = digit_to_str(n % 10);
        out.append(d);
        proof {
            assert(out@ =~= old(out)@ + spec_dec_nat(n as nat));
        }
    }
}

/// Appends the decimal rendering of `v` to `out`.
pub fn push_dec_i16(v: i16, out: &mut String)
    ensures
        final(out)@ == old(out)@ + spec_dec_int(v as int),
{
    if v < 0 {
        out.push('-');
        let m: u16 = (-(v as i32)) as u16;
        push_dec_u16(m, out);
        proof {
            assert(out@ =~= old(out)@ + spec_dec_int(v as int));
        }
    } else {
        push_dec_u16(v as u16, out);
    }
}

/// The decimal rendering of `v` as a fresh string.
pub fn dec_i16_string(v: i16) -> (r: String)
    ensures
        r@ == spec_dec_int(v as int),
{
    let mut r = String::new();
    push_dec_i16(v, &mut r);
    proof {
        assert(r@ =~= spec_dec_int(v as int));
    }
    r
}

/// The value of a sequence of decimal digits, most significant first.
pub open spec fn spec_digits_value(s: Seq<char>) -> nat
    decreases s.len(),
{
    if s.len() == 0 {
        0
    } else {
        spec_digits_value(s.drop_last()) * 10 + digit_val(s.last())
    }
}

pub open spec fn spec_all_digits(s: Seq<char>) -> bool {
    forall|i: int| 0 <= i < s.len() ==> is_digit(#[trigger] s[i])
}

/// What a 16-bit signed decimal parse accepts: an optional single sign,
/// then one or more digits, with the signed value within i16 range.
pub open spec fn spec_parse_i16(s: Seq<char>) -> Option<int> {
    let signed = s.len() > 0 && (s[0] == '+' || s[0] == '-');
    let mag = if signed { s.drop_first() } else { s };
    if mag.len() == 0 || !spec_all_digits(mag) {
        None
    } else {
        let v = if s.len() > 0 && s[0] == '-' {
            -(spec_digits_value(mag) as int)
        } else {
            spec_digits_value(mag) as int
        };
        if -32768 <= v <= 32767 {
            Some(v)
        } else {
            None
        }
    }
}

proof fn lemma_digits_value_snoc(s: Seq<char>, c: char)
    ensures
        spec_digits_value(s.push(c)) == spec_digits_value(s) * 10 + digit_val(c),
{
    assert(s.push(c).drop_last() =~= s);
    assert(s.push(c).last() == c);
}

/// Parses a decimal 16-bit signed integer, exactly as the language's
/// standard string-to-i16 conversion does: an optional sign, one or more
/// digits, and a result within range; anything else is rejected.
pub fn parse_i16(s: &str) -> (r: Option<i16>)
    ensures
        match r {
            Some(v) => spec_parse_i16(s@) == Some(v as int),
            None => spec_parse_i16(s@) is None,
        },
{
    let len = s.unicode_len();
    let mut i: usize = 0;
    let mut neg = false;
    if len > 0 {
        let c0 = s.get_char(0);
        if c0 == '+' {
            i = 1;
        } else if c0 == '-' {
            neg = true;
            i = 1;
        }
    }
    let ghost mag: Seq<char> = if i == 1 { s@.drop_first() } else { s@ };
    let ghost start: int = i as int;
    proof {
        assert(mag =~= s@.subrange(start, s@.len() as int));
    }
    if i >= len {
        // no digits at all
        assert(mag.len() == 0);
        return None;
    }
    let mut acc: u32 = 0;
    while i < len
        invariant
            start <= i <= len,
            len == s@.len(),
            start == 0 || start == 1,
            (start == 1) == (s@.len() > 0 && (s@[0] == '+' || s@[0] == '-')),
            neg == (s@.len() > 0 && s@[0] == '-'),
            mag == s@.subrange(start, len as int),
            spec_all_digits(s@.subrange(start, i as int)),
            acc <= 32768 ==> acc == spec_digits_value(s@.subrange(start, i as int)),
            acc > 32768 ==> spec_digits_value(s@.subrange(start, i as int)) > 32768,
            acc <= 400000,
        decreases len - i,
    {
        let c = s.get_char(i);
        if c < '0' || c > '9' {
            proof {
                let k = i - start;
                assert(mag[k] == s@[i as int]);
                assert(!is_digit(mag[k]));
            }
            return None;
        }
        let d: u32 = (c as u32) - 48;
        proof {
            assert(d == digit_val(c));
            assert(s@.subrange(start, i + 1).drop_last() =~= s@.subrange(start, i as int));
        }
        if acc <= 32768 {
            acc = acc * 10 + d;
        } else {
            proof {
                lemma_digits_value_snoc(s@.subrange(start, i as int), c);
            }
        }
        i = i + 1;
    }
    proof {
        assert(s@.subrange(start, len as int) =~= mag);
        assert(spec_all_digits(mag));
        assert(mag.len() > 0);
    }
    if neg {
        if acc <= 32768 {
            let v: i16 = (-(acc as i32)) as i16;
            proof {
                assert(spec_parse_i16(s@) == Some(v as int));
            }
            Some(v)
        } else {
            None
        }
    } else {
        if acc <= 32767 {
            let v: i16 = acc as i16;
            Some(v)
        } else {
            None
        }
    }
}

/// Whether two string slices hold the same characters.
pub fn str_eq(a: &str, b: &str) -> (r: bool)
    ensures
        r == (a@ == b@),
{
    let alen = a.unicode_len();
    let blen = b.unicode_len();
    if alen != blen {
        return false;
    }
    let mut i: usize = 0;
    while i < alen
        invariant
            0 <= i <= alen,
            alen == a@.len(),
            alen == b@.len(),
            forall|k: int| 0 <= k < i ==> a@[k] == b@[k],
        decreases alen - i,
    {
        if a.get_char(i) != b.get_char(i) {
            return false;
        }
        i = i + 1;
    }
    proof {
        assert(a@ =~= b@);
    }
    true
}

pub open spec fn spec_trim_front(s: Seq<char>) -> Seq<char>
    decreases s.len(),
{
    if s.len() > 0 && is_space(s[0]) {
        spec_trim_front(s.drop_first())
    } else {
        s
    }
}

pub open spec fn spec_trim_back(s: Seq<char>) -> Seq<char>
    decreases s.len(),
{
    if s.len() > 0 && is_space(s.last()) {
        spec_trim_back(s.drop_last())
    } else {
        s
    }
}

/// The string with leading and trailing whitespace removed.
pub open spec fn spec_trim(s: Seq<char>) -> Seq<char> {
    spec_trim_back(spec_trim_front(s))
}

proof fn lemma_trim_front_skip(s: Seq<char>, i: int)
    requires
        0 <= i <= s.len(),
        forall|k: int| 0 <= k < i ==> is_space(s[k]),
    ensures
        spec_trim_front(s) == spec_trim_front(s.subrange(i, s.len() as int)),
    decreases i,
{
    if i > 0 {
        assert(is_space(s[0]));
        assert(spec_trim_front(s) == spec_trim_front(s.drop_first()));
        lemma_trim_front_skip(s.drop_first(), i - 1);
        assert(s.drop_first().subrange(i - 1, s.drop_first().len() as int)
            =~= s.subrange(i, s.len() as int));
    } else {
        assert(s.subrange(0, s.len() as int) =~= s);
    }
}

proof fn lemma_trim_back_take(s: Seq<char>, j: int)
    requires
        0 <= j <= s.len(),
        forall|k: int| j <= k < s.len() ==> is_space(s[k]),
    ensures
        spec_trim_back(s) == spec_trim_back(s.subrange(0, j)),
    decreases s.len() - j,
{
    if j < s.len() {
        assert(is_space(s.last()));
        lemma_trim_back_take(s.drop_last(), j);
        assert(s.drop_last().subrange(0, j) =~= s.subrange(0, j));
    } else {
        assert(s.subrange(0, j) =~= s);
    }
}

/// The slice with leading and trailing whitespace removed.
pub fn trim(s: &str) -> (r: &str)
    ensures
        r@ == spec_trim(s@),
{
    let len = s.unicode_len();
    let mut start: usize = 0;
    while start < len && is_space_char(s.get_char(start))
        invariant
            0 <= start <= len,
            len == s@.len(),
            forall|k: int| 0 <= k < start ==> is_space(s@[k]),
        decreases len - start,
    {
        start = start + 1;
    }
    let mut end: usize = len;
    while end > start && is_space_char(s.get_char(end - 1))
        invariant
            start <= end <= len,
            len == s@.len(),
            forall|k: int| 0 <= k < start ==> is_space(s@[k]),
            forall|k: int| end <= k < len ==> is_space(s@[k]),
        decreases end,
    {
        end = end - 1;
    }
    let r = s.substring_char(start, end);
    proof {
        lemma_trim_front_skip(s@, start as int);
        let t = s@.subrange(start as int, len as int);
        assert(t.len() > 0 ==> !is_space(t[0]));
        assert(spec_trim_front(t) == t);
        if end > start {
            assert(!is_space(s@[end - 1]));
        }
        lemma_trim_back_take(t, end - start);
        assert(t.subrange(0, end - start) =~= s@.subrange(start as int, end as int));
        let u = s@.subrange(start as int, end as int);
        assert(u.len() > 0 ==> !is_space(u.last()));
        assert(spec_trim_back(u) == u);
    }
    r
}

/// The first position at or after `i` where `pat` occurs in `s`.
pub open spec fn spec_find_from(s: Seq<char>, pat: Seq<char>, i: int) -> Option<int>
    decreases s.len() - i,
{
    if pat.len() == 0 || i < 0 || i + pat.len() > s.len() {
        None
    } else if s.subrange(i, i + pat.len() as int) == pat {
        Some(i)
    } else {
        spec_find_from(s, pat, i + 1)
    }
}

/// The first position where `pat` occurs in `s`, if any.
pub open spec fn spec_find(s: Seq<char>, pat: Seq<char>) -> Option<int> {
    spec_find_from(s, pat, 0)
}

/// Whether `pat` occurs in `s` starting at position `i` (an exec check).
fn matches_at(s: &str, slen: usize, pat: &str, plen: usize, i: usize) -> (r: bool)
    requires
        slen == s@.len(),
        plen == pat@.len(),
        i + plen <= slen,
    ensures
        r == (s@.subrange(i as int, i + plen as int) == pat@),
{
    let mut k: usize = 0;
    while k < plen
        invariant
            0 <= k <= plen,
            slen == s@.len(),
            plen == pat@.len(),
            i + plen <= slen,
            forall|m: int| 0 <= m < k ==> s@[i + m] == pat@[m],
        decreases plen - k,
    {
        if s.get_char(i + k) != pat.get_char(k) {
            proof {
                assert(s@.subrange(i as int, i + plen as int)[k as int] == s@[i + k]);
            }
            return false;
        }
        k = k + 1;
    }
    proof {
        assert(s@.subrange(i as int, i + plen as int) =~= pat@);
    }
    true
}

/// The first occurrence of `pat` in `s`, if any.
pub fn find(s: &str, pat: &str) -> (r: Option<usize>)
    requires
        pat@.len() > 0,
    ensures
        match r {
            Some(p) => spec_find(s@, pat@) == Some(p as int) && p + pat@.len() <= s@.len(),
            None => spec_find(s@, pat@) is None,
        },
{
    let slen = s.unicode_len();
    let plen = pat.unicode_len();
    if plen > slen {
        return None;
    }
    let mut i: usize = 0;
    while i <= slen - plen
        invariant
            0 <= i,
            i <= slen - plen + 1,
            slen == s@.len(),
            plen == pat@.len(),
            0 < plen <= slen,
            spec_find(s@, pat@) == spec_find_from(s@, pat@, i as int),
        decreases slen - plen - i + 1,
    {
        if matches_at(s, slen, pat, plen, i) {
            return Some(i);
        }
        i = i + 1;
    }
    None
}

/// Whether `s` begins with `pat`.
pub fn starts_with(s: &str, pat: &str) -> (r: bool)
    ensures
        r == (s@.len() >= pat@.len() && s@.subrange(0, pat@.len() as int) == pat@),
{
    let slen = s.unicode_len();
    let plen = pat.unicode_len();
    if plen > slen {
        return false;
    }
    matches_at(s, slen, pat, plen, 0)
}

/// Whether `s` ends with `pat`.
pub fn ends_with(s: &str, pat: &str) -> (r: bool)
    ensures
        r == (s@.len() >= pat@.len()
            && s@.subrange(s@.len() - pat@.len(), s@.len() as int) == pat@),
{
    let slen = s.unicode_len();
    let plen = pat.unicode_len();
    if plen > slen {
        return false;
    }
    matches_at(s, slen, pat, plen, slen - plen)
}

/// `s` with every occurrence of `pat` (scanned left to right) replaced
/// by `rep`.
pub open spec fn spec_replace_all(s: Seq<char>, pat: Seq<char>, rep: Seq<char>) -> Seq<char>
    decreases s.len() via replace_all_decreases
{
    if pat.len() == 0 || pat.len() > s.len() {
        s
    } else {
        match spec_find(s, pat) {
            None => s,
            Some(p) => {
                let rest = s.subrange(p + pat.len() as int, s.len() as int);
                s.subrange(0, p) + rep + spec_replace_all(rest, pat, rep)
            },
        }
    }
}

#[via_fn]
proof fn replace_all_decreases(s: Seq<char>, pat: Seq<char>, rep: Seq<char>) {
    if pat.len() > 0 && pat.len() <= s.len() {
        if let Some(p) = spec_find(s, pat) {
            lemma_find_from_ge(s, pat, 0);
        }
    }
}

proof fn lemma_find_from_ge(s: Seq<char>, pat: Seq<char>, i: int)
    requires
        0 <= i,
        pat.len() > 0,
    ensures
        match spec_find_from(s, pat, i) {
            Some(p) => i <= p && p + pat.len() <= s.len(),
            None => true,
        },
    decreases s.len() - i,
{
    if i + pat.len() <= s.len() && !(s.subrange(i, i + pat.len() as int) == pat) {
        lemma_find_from_ge(s, pat, i + 1);
    }
}

/// Replaces every occurrence of `pat` in `s` with `rep`, scanning left
/// to right.
pub fn replace_all(s: &str, pat: &str, rep: &str) -> (r: String)
    requires
        pat@.len() > 0,
    ensures
        r@ == spec_replace_all(s@, pat@, rep@),
    decreases s@.len(),
{
    let slen = s.unicode_len();
    let plen = pat.unicode_len();
    if plen > slen {
        return s.to_owned();
    }
    match find(s, pat) {
        None => s.to_owned(),
        Some(p) => {
            proof {
                lemma_find_from_ge(s@, pat@, 0);
            }
            let mut out = s.substring_char(0, p).to_owned();
            out.append(rep);
            let rest = s.substring_char(p + plen, slen);
            let tail = replace_all(rest, pat, rep);
            out.append(tail.as_str());
            proof {
                assert(out@ =~= spec_replace_all(s@, pat@, rep@));
            }
            out
        },
    }
}

/// The end of the word that starts at `i`: the first position at or
/// after `i` that is past the end or holds whitespace.
pub open spec fn spec_word_end(s: Seq<char>, i: int) -> int
    decreases s.len() - i,
{
    if i < 0 || i >= s.len() || is_space(s[i]) {
        i
    } else {
        spec_word_end(s, i + 1)
    }
}

proof fn lemma_word_end_bounds(s: Seq<char>, i: int)
    requires
        0 <= i <= s.len(),
    ensures
        i <= spec_word_end(s, i) <= s.len(),
        forall|k: int| i <= k < spec_word_end(s, i) ==> !is_space(s[k]),
    decreases s.len() - i,
{
    if !(i >= s.len() || is_space(s[i])) {
        lemma_word_end_bounds(s, i + 1);
    }
}

/// The whitespace-separated words of `s`, from position `i` on.
pub open spec fn spec_words_from(s: Seq<char>, i: int) -> Seq<Seq<char>>
    decreases s.len() - i when 0 <= i <= s.len() via words_from_decreases
{
    if i >= s.len() {
        seq![]
    } else if is_space(s[i]) {
        spec_words_from(s, i + 1)
    } else {
        seq![s.subrange(i, spec_word_end(s, i))] + spec_words_from(s, spec_word_end(s, i))
    }
}

#[via_fn]
proof fn words_from_decreases(s: Seq<char>, i: int) {
    if 0 <= i < s.len() && !is_space(s[i]) {
        assert(spec_word_end(s, i) == spec_word_end(s, i + 1));
        lemma_word_end_bounds(s, i + 1);
        assert(spec_word_end(s, i) > i);
    }
}

/// The whitespace-separated words of `s`.
pub open spec fn spec_words(s: Seq<char>) -> Seq<Seq<char>> {
    spec_words_from(s, 0)
}

/// Splits `s` into its whitespace-separated words.
pub fn words(s: &str) -> (r: Vec<String>)
    ensures
        r.deep_view() == spec_words(s@),
{
    let len = s.unicode_len();
    let mut r: Vec<String> = Vec::new();
    let mut i: usize = 0;
    while i < len
        invariant
            0 <= i <= len,
            len == s@.len(),
            r.deep_view() + spec_words_from(s@, i as int) == spec_words(s@),
        decreases len - i,
    {
        let c = s.get_char(i);
        if c == ' ' || c == '\t' || c == '\n' || c == '\r' || c == '\u{b}' || c == '\u{c}' {
            i = i + 1;
        } else {
            let mut j: usize = i + 1;
            while j < len && !is_space_char(s.get_char(j))
                invariant
                    i < j <= len,
                    len == s@.len(),
                    !is_space(s@[i as int]),
                    forall|k: int| i <= k < j ==> !is_space(s@[k]),
                decreases len - j,
            {
                j = j + 1;
            }
            proof {
                lemma_word_end_eq(s@, i as int, j as int);
            }
            let w = s.substring_char(i, j).to_owned();
            let ghost old_r = r.deep_view();
            r.push(w);
            proof {
                assert(r.deep_view() =~= old_r.push(w@));
                assert(r.deep_view() + spec_words_from(s@, j as int)
                    =~= old_r + spec_words_from(s@, i as int));
            }
            i = j;
        }
    }
    proof {
        assert(r.deep_view() + spec_words_from(s@, len as int) =~= r.deep_view());
    }
    r
}

proof fn lemma_word_end_eq(s: Seq<char>, i: int, j: int)
    requires
        0 <= i < j <= s.len(),
        forall|k: int| i <= k < j ==> !is_space(s[k]),
        j < s.len() ==> is_space(s[j]),
    ensures
        spec_word_end(s, i) == j,
    decreases j - i,
{
    if i + 1 < j {
        lemma_word_end_eq(s, i + 1, j);
    } else {
        assert(spec_word_end(s, i + 1) == j);
    }
}

/// The position of the last occurrence of `c` in `s`, if any.
pub open spec fn spec_rfind_char(s: Seq<char>, c: char) -> Option<int>
    decreases s.len(),
{
    if s.len() == 0 {
        None
    } else if s.last() == c {
        Some(s.len() - 1)
    } else {
        spec_rfind_char(s.drop_last(), c)
    }
}

/// What follows the last '/' of `s`; all of `s` when it has none.
pub open spec fn spec_last_component(s: Seq<char>) -> Seq<char> {
    match spec_rfind_char(s, '/') {
        Some(p) => s.subrange(p + 1, s.len() as int),
        None => s,
    }
}

proof fn lemma_rfind_char_at(s: Seq<char>, c: char, j: int)
    requires
        0 <= j < s.len(),
        s[j] == c,
        forall|k: int| j < k < s.len() ==> s[k] != c,
    ensures
        spec_rfind_char(s, c) == Some(j),
    decreases s.len(),
{
    if j < s.len() - 1 {
        lemma_rfind_char_at(s.drop_last(), c, j);
    }
}

proof fn lemma_rfind_char_none(s: Seq<char>, c: char)
    requires
        forall|k: int| 0 <= k < s.len() ==> s[k] != c,
    ensures
        spec_rfind_char(s, c) is None,
    decreases s.len(),
{
    if s.len() > 0 {
        lemma_rfind_char_none(s.drop_last(), c);
    }
}

/// The slice after the last '/' of `s`; all of `s` when it has none.
pub fn last_component(s: &str) -> (r: &str)
    ensures
        r@ == spec_last_component(s@),
{
    let len = s.unicode_len();
    let mut end: usize = len;
    while end > 0 && s.get_char(end - 1) != '/'
        invariant
            0 <= end <= len,
            len == s@.len(),
            forall|k: int| end <= k < len ==> s@[k] != '/',
        decreases end,
    {
        end = end - 1;
    }
    let r = s.substring_char(end, len);
    proof {
        if end > 0 {
            lemma_rfind_char_at(s@, '/', end - 1);
        } else {
            lemma_rfind_char_none(s@, '/');
            assert(r@ =~= s@);
        }
    }
    r
}

/// Equal concatenations with the same left part have equal right
/// parts.
pub proof fn lemma_append_cancel_left(a: Seq<char>, b: Seq<char>, c: Seq<char>)
    requires
        a + b == a + c,
    ensures
        b == c,
{
    assert((a + b).subrange(a.len() as int, (a + b).len() as int) =~= b);
    assert((a + c).subrange(a.len() as int, (a + c).len() as int) =~= c);
}

/// Equal concatenations with the same right part have equal left
/// parts.
pub proof fn lemma_append_cancel_right(a: Seq<char>, b: Seq<char>, c: Seq<char>)
    requires
        a + c == b + c,
    ensures
        a == b,
{
    assert((a + c).len() == a.len() + c.len());
    assert((b + c).len() == b.len() + c.len());
    assert(a.len() == b.len());
    assert((a + c).subrange(0, a.len() as int) =~= a);
    assert((b + c).subrange(0, b.len() as int) =~= b);
}

/// Where `spec_rfind_char` points, the character stands.
pub proof fn lemma_rfind_char_found(s: Seq<char>, c: char)
    ensures
        match spec_rfind_char(s, c) {
            Some(p) => 0 <= p < s.len() && s[p] == c,
            None => true,
        },
    decreases s.len(),
{
    if s.len() > 0 && s.last() != c {
        lemma_rfind_char_found(s.drop_last(), c);
    }
}

/// A lower-case ASCII letter mapped to upper case; anything else
/// unchanged.
pub open spec fn spec_upper_char(c: char) -> char {
    if 'a' <= c && c <= 'z' {
        (((c as u32) - 32) as u8) as char
    } else {
        c
    }
}

pub open spec fn spec_to_upper(s: Seq<char>) -> Seq<char> {
    Seq::new(s.len(), |i: int| spec_upper_char(s[i]))
}

/// The string with ASCII letters upper-cased.
pub fn to_upper(s: &str) -> (r: String)
    ensures
        r@ == spec_to_upper(s@),
{
    let len = s.unicode_len();
    let mut r = String::new();
    let mut i: usize = 0;
    while i < len
        invariant
            0 <= i <= len,
            len == s@.len(),
            r@ == spec_to_upper(s@).subrange(0, i as int),
        decreases len - i,
    {
        let c = s.get_char(i);
        let u: char = if 'a' <= c && c <= 'z' {
            (((c as u32) - 32) as u8) as char
        } else {
            c
        };
        r.push(u);
        proof {
            assert(u == spec_upper_char(s@[i as int]));
            assert(r@ =~= spec_to_upper(s@).subrange(0, i + 1));
        }
        i = i + 1;
    }
    proof {
        assert(spec_to_upper(s@).subrange(0, len as int) =~= spec_to_upper(s@));
    }
    r
}

/// Digit sequences hold digits only, so they never hold a separator
/// such as '.', '_' or a letter.
pub proof fn lemma_dec_nat_digits(n: nat)
    ensures
        spec_dec_nat(n).len() > 0,
        spec_all_digits(spec_dec_nat(n)),
    decreases n,
{
    if n >= 10 {
        lemma_dec_nat_digits(n / 10);
    }
}

/// The decimal rendering parses back to the value it was made from.
pub proof fn lemma_dec_nat_value(n: nat)
    ensures
        spec_digits_value(spec_dec_nat(n)) == n,
    decreases n,
{
    if n < 10 {
        assert(spec_dec_nat(n) =~= Seq::empty().push(digit_char(n)));
        lemma_digits_value_snoc(Seq::empty(), digit_char(n));
    } else {
        lemma_dec_nat_value(n / 10);
        lemma_digits_value_snoc(spec_dec_nat(n / 10), digit_char(n % 10));
    }
}

/// Distinct numbers render to distinct digit strings.
pub proof fn lemma_dec_nat_injective(a: nat, b: nat)
    requires
        spec_dec_nat(a) == spec_dec_nat(b),
    ensures
        a == b,
{
    lemma_dec_nat_value(a);
    lemma_dec_nat_value(b);
}

} // verus!
