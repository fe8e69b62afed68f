//! Verified text utilities: substring matching, equality up to ASCII case,
//! decimal digits, and replacement of a fixed pattern.

use vstd::prelude::*;

verus! {

/// True when `pat` occurs in `s` starting at position `i`.
pub open spec fn matches_at(s: Seq<char>, pat: Seq<char>, i: int) -> bool {
    0 <= i && i + pat.len() <= s.len() && s.subrange(i, i + pat.len()) == pat
}

/// True when `pat` occurs somewhere in `s`.
pub open spec fn contains_seq(s: Seq<char>, pat: Seq<char>) -> bool {
    exists|i: int| matches_at(s, pat, i)
}

/// A match of `pat` inside a suffix of `s` is a match inside `s`, shifted.
pub proof fn lemma_matches_at_skip(s: Seq<char>, pat: Seq<char>, k: int, i: int)
    requires
        0 <= k <= s.len(),
        0 <= i,
    ensures
        matches_at(s.skip(k), pat, i) == matches_at(s, pat, i + k),
{
    if matches_at(s.skip(k), pat, i) {
        assert(s.subrange(i + k, i + k + pat.len() as int) =~= s.skip(k).subrange(
            i,
            i + pat.len() as int,
        ));
    }
    if matches_at(s, pat, i + k) {
        assert(s.skip(k).subrange(i, i + pat.len() as int) =~= s.subrange(
            i + k,
            i + k + pat.len() as int,
        ));
    }
}

/// A match of `pat` in a concatenation that begins in the right part is a
/// match in the right part.
pub proof fn lemma_matches_at_concat_right(a: Seq<char>, b: Seq<char>, pat: Seq<char>, i: int)
    requires
        i >= a.len(),
    ensures
        matches_at(a + b, pat, i) == matches_at(b, pat, i - a.len()),
{
    lemma_matches_at_skip(a + b, pat, a.len() as int, i - a.len());
    assert((a + b).skip(a.len() as int) =~= b);
}

/// Whether `pat` occurs in `text` at position `i`.
pub fn str_matches_at(text: &str, i: usize, pat: &str) -> (r: bool)
    ensures
        r == matches_at(text@, pat@, i as int),
{
    let tlen = text.unicode_len();
    let plen = pat.unicode_len();
    if i > tlen || plen > tlen - i {
        return false;
    }
    let mut j: usize = 0;
    while j < plen
        invariant
            tlen == text@.len(),
            plen == pat@.len(),
            i + plen <= tlen,
            j <= plen,
            forall|k: int| 0 <= k < j ==> text@[i + k] == pat@[k],
        decreases plen - j,
    {
        if text.get_char(i + j) != pat.get_char(j) {
            assert(text@.subrange(i as int, i + plen) != pat@) by {
                assert(text@.subrange(i as int, i + plen)[j as int] == text@[i + j]);
            }
            return false;
        }
        j += 1;
    }
    assert(text@.subrange(i as int, i + plen) =~= pat@);
    true
}

/// Whether `pat` occurs anywhere in `text`.
pub fn str_contains(text: &str, pat: &str) -> (r: bool)
    ensures
        r == contains_seq(text@, pat@),
{
    let tlen = text.unicode_len();
    let plen = pat.unicode_len();
    if plen == 0 {
        assert(matches_at(text@, pat@, 0)) by {
            assert(text@.subrange(0, 0) =~= pat@);
        }
        return true;
    }
    let mut i: usize = 0;
    while i < tlen
        invariant
            tlen == text@.len(),
            plen == pat@.len(),
            i <= tlen,
            forall|k: int| 0 <= k < i ==> !matches_at(text@, pat@, k),
        decreases tlen - i,
    {
        if str_matches_at(text, i, pat) {
            return true;
        }
        i += 1;
    }
    assert forall|k: int| !matches_at(text@, pat@, k) by {
        if matches_at(text@, pat@, k) {
            assert(0 <= k && k + pat@.len() <= text@.len());
        }
    }
    false
}

/// Whether two string slices hold the same characters.
pub fn str_eq(a: &str, b: &str) -> (r: bool)
    ensures
        r == (a@ == b@),
{
    let alen = a.unicode_len();
    let blen = b.unicode_len();
    if alen != blen {
        return false;
    }
    let mut j: usize = 0;
    while j < alen
        invariant
            alen == a@.len(),
            alen == b@.len(),
            j <= alen,
            forall|k: int| 0 <= k < j ==> a@[k] == b@[k],
        decreases alen - j,
    {
        if a.get_char(j) != b.get_char(j) {
            return false;
        }
        j += 1;
    }
    assert(a@ =~= b@);
    true
}

/// A character lowered to ASCII lower case: letters `A`..`Z` gain 32,
/// everything else is unchanged.
pub open spec fn lower_char(c: char) -> char {
    if 'A' <= c && c <= 'Z' {
        ((c as u8) + 32) as char
    } else {
        c
    }
}

/// A character sequence lowered to ASCII lower case.
pub open spec fn lower_seq(s: Seq<char>) -> Seq<char> {
    s.map_values(|c: char| lower_char(c))
}

/// Lower one character to ASCII lower case.
pub fn to_lower_char(c: char) -> (r: char)
    ensures
        r == lower_char(c),
{
    if 'A' <= c && c <= 'Z' {
        ((c as u8) + 32) as char
    } else {
        c
    }
}

/// Whether two string slices are equal up to ASCII case.
pub fn str_eq_ignore_ascii_case(a: &str, b: &str) -> (r: bool)
    ensures
        r == (lower_seq(a@) == lower_seq(b@)),
{
    let alen = a.unicode_len();
    let blen = b.unicode_len();
    if alen != blen {
        assert(lower_seq(a@).len() != lower_seq(b@).len());
        return false;
    }
    let mut j: usize = 0;
    while j < alen
        invariant
            alen == a@.len(),
            alen == b@.len(),
            j <= alen,
            forall|k: int| 0 <= k < j ==> lower_char(a@[k]) == lower_char(b@[k]),
        decreases alen - j,
    {
        if to_lower_char(a.get_char(j)) != to_lower_char(b.get_char(j)) {
            assert(lower_seq(a@)[j as int] != lower_seq(b@)[j as int]);
            return false;
        }
        j += 1;
    }
    assert(lower_seq(a@) =~= lower_seq(b@));
    true
}

/// Whether `c` is a decimal digit.
pub open spec fn is_digit(c: char) -> bool {
    '0' <= c && c <= '9'
}

/// The value of a decimal digit.
pub open spec fn digit_val(c: char) -> int {
    c as int - '0' as int
}

/// Whether every character of `s` is a decimal digit.
pub open spec fn all_digits(s: Seq<char>) -> bool {
    forall|i: int| 0 <= i < s.len() ==> is_digit(#[trigger] s[i])
}

/// The number denoted by a sequence of decimal digits (most significant
/// first); 0 for the empty sequence.
pub open spec fn digits_value(s: Seq<char>) -> int
    decreases s.len(),
{
    if s.len() == 0 {
        0
    } else {
        digits_value(s.drop_last()) * 10 + digit_val(s.last())
    }
}

/// The decimal digit character for `d` in 0..=9.
pub open spec fn digit_char(d: int) -> char {
    if d == 0 {
        '0'
    } else if d == 1 {
        '1'
    } else if d == 2 {
        '2'
    } else if d == 3 {
        '3'
    } else if d == 4 {
        '4'
    } else if d == 5 {
        '5'
    } else if d == 6 {
        '6'
    } else if d == 7 {
        '7'
    } else if d == 8 {
        '8'
    } else {
        '9'
    }
}

/// The decimal rendering of a non-negative number.
pub open spec fn dec_digits(n: int) -> Seq<char>
    decreases n,
{
    if n < 10 {
        seq![digit_char(n)]
    } else {
        dec_digits(n / 10).push(digit_char(n % 10))
    }
}

/// The decimal rendering of a number, with a leading minus sign when negative.
pub open spec fn int_digits(n: int) -> Seq<char> {
    if n < 0 {
        seq!['-'] + dec_digits(-n)
    } else {
        dec_digits(n)
    }
}

fn digit_str(d: u64) -> (r: &'static str)
    requires
        d < 10,
    ensures
        r@ == seq![digit_char(d as int)],
{
    proof {
        reveal_strlit("0");
        reveal_strlit("1");
        reveal_strlit("2");
        reveal_strlit("3");
        reveal_strlit("4");
        reveal_strlit("5");
        reveal_strlit("6");
        reveal_strlit("7");
        reveal_strlit("8");
        reveal_strlit("9");
    }
    let r = match d {
        0 => "0",
        1 => "1",
        2 => "2",
        3 => "3",
        4 => "4",
        5 => "5",
        6 => "6",
        7 => "7",
        8 => "8",
        _ => "9",
    };
    assert(r@ =~= seq![digit_char(d as int)]);
    r
}

/// Render a number in decimal.
pub fn u64_to_string(n: u64) -> (r: String)
    ensures
        r@ == dec_digits(n as int),
    decreases n,
{
    if n < 10 {
        String::from_str(digit_str(n))
    } else {
        let mut s = u64_to_string(n / 10);
        s.append(digit_str(n % 10));
        assert(s@ =~= dec_digits(n as int));
        s
    }
}

/// Render a signed number in decimal.
pub fn i64_to_string(n: i64) -> (r: String)
    ensures
        r@ == int_digits(n as int),
{
    if n >= 0 {
        u64_to_string(n as u64)
    } else {
        let m: u64 = if n == i64::MIN {
            9223372036854775808u64
        } else {
            (-n) as u64
        };
        assert(m as int == -(n as int));
        let digits = u64_to_string(m);
        let mut r = String::from_str("-");
        proof {
            reveal_strlit("-");
            assert("-"@ =~= seq!['-']);
        }
        r.append(digits.as_str());
        r
    }
}

/// `s` with every occurrence of `pat` replaced by `rep`, scanning left to
/// right without overlap, as string replacement does.
pub open spec fn replace_seq(s: Seq<char>, pat: Seq<char>, rep: Seq<char>) -> Seq<char>
    decreases s.len(),
{
    if pat.len() == 0 || s.len() < pat.len() {
        s
    } else if s.take(pat.len() as int) == pat {
        rep + replace_seq(s.skip(pat.len() as int), pat, rep)
    } else {
        seq![s[0]] + replace_seq(s.skip(1), pat, rep)
    }
}

/// A text without any occurrence of `pat` is unchanged by replacement.
pub proof fn lemma_replace_none(s: Seq<char>, pat: Seq<char>, rep: Seq<char>)
    requires
        pat.len() > 0,
        !contains_seq(s, pat),
    ensures
        replace_seq(s, pat, rep) == s,
    decreases s.len(),
{
    if s.len() >= pat.len() {
        if s.take(pat.len() as int) == pat {
            assert(s.subrange(0, pat.len() as int) =~= s.take(pat.len() as int));
            assert(matches_at(s, pat, 0));
            assert(false);
        }
        if contains_seq(s.skip(1), pat) {
            let i = choose|i: int| matches_at(s.skip(1), pat, i);
            lemma_matches_at_skip(s, pat, 1, i);
            assert(matches_at(s, pat, i + 1));
            assert(false);
        }
        lemma_replace_none(s.skip(1), pat, rep);
        assert(replace_seq(s, pat, rep) =~= s);
    }
}

/// Replace every occurrence of `pat` in `s` by `rep`, scanning left to right
/// without overlap.
pub fn replace_all(s: &str, pat: &str, rep: &str) -> (r: String)
    requires
        pat@.len() > 0,
    ensures
        r@ == replace_seq(s@, pat@, rep@),
{
    let slen = s.unicode_len();
    let plen = pat.unicode_len();
    let mut out = String::new();
    let mut i: usize = 0;
    proof {
        assert(s@.skip(0) =~= s@);
        assert(out@ + replace_seq(s@, pat@, rep@) =~= replace_seq(s@, pat@, rep@));
    }
    while plen <= slen - i && i < slen
        invariant
            slen == s@.len(),
            plen == pat@.len(),
            plen > 0,
            i <= slen,
            replace_seq(s@, pat@, rep@) == out@ + replace_seq(s@.skip(i as int), pat@, rep@),
        decreases slen - i,
    {
        assert(s@.skip(i as int).len() >= plen);
        if str_matches_at(s, i, pat) {
            proof {
                assert(s@.skip(i as int).take(plen as int) =~= s@.subrange(
                    i as int,
                    i + plen,
                ));
                assert(s@.skip(i as int).skip(plen as int) =~= s@.skip(i + plen));
            }
            out.append(rep);
            i += plen;
        } else {
            proof {
                assert(s@.skip(i as int).take(plen as int) =~= s@.subrange(
                    i as int,
                    i + plen,
                ));
                assert(s@.skip(i as int)[0] == s@[i as int]);
                assert(s@.skip(i as int).skip(1) =~= s@.skip(i + 1));
                assert(s@.subrange(i as int, i + 1) =~= seq![s@[i as int]]);
            }
            let c = s.substring_char(i, i + 1);
            out.append(c);
            i += 1;
        }
    }
    let tail = s.substring_char(i, slen);
    out.append(tail);
    proof {
        assert(s@.subrange(i as int, slen as int) =~= s@.skip(i as int));
        if i < slen {
            assert(s@.skip(i as int).len() < plen);
        } else {
            assert(s@.skip(i as int).len() == 0);
        }
        assert(replace_seq(s@.skip(i as int), pat@, rep@) == s@.skip(i as int));
    }
    out
}

} // verus!
