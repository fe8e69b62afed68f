//! URL recovery: candidate log-file locations per platform, scanning log text
//! for the last occurrence of either known endpoint-URL shape, and
//! normalization of the legacy path suffix to the canonical one.

use vstd::prelude::*;

use crate::error::WishError;
use crate::text::contains_seq;
use crate::text::lemma_matches_at_concat_right;
use crate::text::lemma_replace_none;
use crate::text::matches_at;
use crate::text::replace_all;
use crate::text::replace_seq;
use crate::text::str_matches_at;

verus! {

// --- The URL grammar ---
//
// A captured URL is a maximal run of URL characters. Two shapes are scanned
// for: the primary endpoint (fixed prefix, a `log?` or `index.html?` path
// tail, then at least one more URL character) and the legacy endpoint (fixed
// prefix, then a `gacha` marker inside the same run, then at least one more
// URL character).

/// A character that can stand inside a captured URL: anything but blanks,
/// line breaks and a double quote.
pub open spec fn url_char(c: char) -> bool {
    c != ' ' && c != '\t' && c != '\n' && c != '\r' && c != '\u{b}' && c != '\u{c}' && c != '"'
}

/// The position at or after `i` where the run of URL characters ends.
pub open spec fn run_end(s: Seq<char>, i: int) -> int
    decreases s.len() - i
        when 0 <= i <= s.len()
{
    if i == s.len() {
        i
    } else if !url_char(s[i]) {
        i
    } else {
        run_end(s, i + 1)
    }
}

pub proof fn lemma_run_end(s: Seq<char>, i: int)
    requires
        0 <= i <= s.len(),
    ensures
        i <= run_end(s, i) <= s.len(),
        forall|k: int| i <= k < run_end(s, i) ==> url_char(s[k]),
        run_end(s, i) < s.len() ==> !url_char(s[run_end(s, i)]),
    decreases s.len() - i,
{
    if i < s.len() && url_char(s[i]) {
        lemma_run_end(s, i + 1);
    }
}

/// The fixed prefix of the primary endpoint shape.
pub open spec fn primary_prefix() -> Seq<char> {
    "https://gs.hoyoverse.com/genshin/event/e20190909gacha-v3/"@
}

/// The fixed prefix of the legacy endpoint shape.
pub open spec fn legacy_prefix() -> Seq<char> {
    "https://hk4e-api"@
}

/// The marker that must occur inside a legacy-shape URL.
pub open spec fn gacha_marker() -> Seq<char> {
    "gacha"@
}

/// The canonical path tail of the primary shape.
pub open spec fn log_variant() -> Seq<char> {
    "log?"@
}

/// The legacy path tail of the primary shape.
pub open spec fn index_variant() -> Seq<char> {
    "index.html?"@
}

/// The path-suffix variant that normalization rewrites.
pub open spec fn legacy_suffix() -> Seq<char> {
    "/index.html?"@
}

/// What the legacy path suffix is rewritten to.
pub open spec fn canonical_suffix() -> Seq<char> {
    "/log?"@
}

/// The two URL shapes, in the priority order they are tried in.
#[derive(Clone, Copy, Debug, PartialEq, Eq, Structural)]
pub enum WishPattern {
    Primary,
    Legacy,
}

/// Whether the primary shape matches at `i`: its prefix, then one of the two
/// path tails, then at least one further URL character.
pub open spec fn primary_match_at(s: Seq<char>, i: int) -> bool {
    matches_at(s, primary_prefix(), i) && {
        let j = i + primary_prefix().len() as int;
        if matches_at(s, log_variant(), j) {
            run_end(s, j + log_variant().len() as int) > j + log_variant().len() as int
        } else {
            matches_at(s, index_variant(), j) && run_end(s, j + index_variant().len() as int) > j
                + index_variant().len() as int
        }
    }
}

/// Where a primary-shape match starting at `i` ends: at the end of the run of
/// URL characters after the path tail.
pub open spec fn primary_match_end(s: Seq<char>, i: int) -> int
    recommends
        primary_match_at(s, i),
{
    let j = i + primary_prefix().len() as int;
    if matches_at(s, log_variant(), j) {
        run_end(s, j + log_variant().len() as int)
    } else {
        run_end(s, j + index_variant().len() as int)
    }
}

/// Whether `g` places the marker of a legacy-shape match starting at `i`:
/// inside the run that starts after the prefix, with at least one further URL
/// character after it.
pub open spec fn legacy_gacha_at(s: Seq<char>, i: int, g: int) -> bool {
    let k = i + legacy_prefix().len() as int;
    g >= k && matches_at(s, gacha_marker(), g) && g + gacha_marker().len() < run_end(s, k)
}

/// Whether the legacy shape matches at `i`: its prefix, then the marker
/// somewhere in the same run, then at least one further URL character.
pub open spec fn legacy_match_at(s: Seq<char>, i: int) -> bool {
    matches_at(s, legacy_prefix(), i) && exists|g: int| #[trigger] legacy_gacha_at(s, i, g)
}

/// Where a legacy-shape match starting at `i` ends.
pub open spec fn legacy_match_end(s: Seq<char>, i: int) -> int
    recommends
        legacy_match_at(s, i),
{
    run_end(s, i + legacy_prefix().len() as int)
}

/// Whether shape `p` matches at `i`.
pub open spec fn pattern_match_at(s: Seq<char>, i: int, p: WishPattern) -> bool {
    match p {
        WishPattern::Primary => primary_match_at(s, i),
        WishPattern::Legacy => legacy_match_at(s, i),
    }
}

/// Where a match of shape `p` starting at `i` ends.
pub open spec fn pattern_match_end(s: Seq<char>, i: int, p: WishPattern) -> int
    recommends
        pattern_match_at(s, i, p),
{
    match p {
        WishPattern::Primary => primary_match_end(s, i),
        WishPattern::Legacy => legacy_match_end(s, i),
    }
}

pub proof fn lemma_pattern_match_end(s: Seq<char>, i: int, p: WishPattern)
    requires
        0 <= i <= s.len(),
        pattern_match_at(s, i, p),
    ensures
        i < pattern_match_end(s, i, p) <= s.len(),
{
    match p {
        WishPattern::Primary => {
            let j = i + primary_prefix().len() as int;
            if matches_at(s, log_variant(), j) {
                lemma_run_end(s, j + log_variant().len() as int);
            } else {
                lemma_run_end(s, j + index_variant().len() as int);
            }
        },
        WishPattern::Legacy => {
            let k = i + legacy_prefix().len() as int;
            let g = choose|g: int| legacy_gacha_at(s, i, g);
            lemma_run_end(s, k);
        },
    }
}

/// The non-overlapping matches of shape `p` in `s` from position `i` on, in
/// scan order: after a match the scan resumes at the match's end.
pub open spec fn matches_from(s: Seq<char>, i: int, p: WishPattern) -> Seq<(int, int)>
    decreases s.len() - i
        when 0 <= i <= s.len()
        via matches_from_decreases
{
    if i >= s.len() {
        Seq::empty()
    } else if pattern_match_at(s, i, p) {
        seq![(i, pattern_match_end(s, i, p))] + matches_from(s, pattern_match_end(s, i, p), p)
    } else {
        matches_from(s, i + 1, p)
    }
}

#[via_fn]
proof fn matches_from_decreases(s: Seq<char>, i: int, p: WishPattern) {
    if 0 <= i < s.len() && pattern_match_at(s, i, p) {
        lemma_pattern_match_end(s, i, p);
    }
}

/// Every scanned match is a real match of the shape, lies within `s`, and the
/// matches appear in strictly increasing order of starting offset.
pub proof fn lemma_matches_from_properties(s: Seq<char>, i: int, p: WishPattern)
    requires
        0 <= i <= s.len(),
    ensures
        forall|k: int|
            0 <= k < matches_from(s, i, p).len() ==> {
                let m = #[trigger] matches_from(s, i, p)[k];
                i <= m.0 && m.0 < m.1 <= s.len() && pattern_match_at(s, m.0, p) && m.1
                    == pattern_match_end(s, m.0, p)
            },
        forall|a: int, b: int|
            0 <= a < b < matches_from(s, i, p).len() ==> #[trigger] matches_from(
                s,
                i,
                p,
            )[a].0 < #[trigger] matches_from(s, i, p)[b].0,
    decreases s.len() - i,
{
    if i < s.len() {
        if pattern_match_at(s, i, p) {
            lemma_pattern_match_end(s, i, p);
            let e = pattern_match_end(s, i, p);
            lemma_matches_from_properties(s, e, p);
            let ms = matches_from(s, i, p);
            let rest = matches_from(s, e, p);
            assert(ms == seq![(i, e)] + rest);
            assert(ms.len() == 1 + rest.len());
            assert(ms[0] == (i, e));
            assert forall|k: int| 1 <= k < ms.len() implies #[trigger] ms[k] == rest[k - 1] by {
                assert((seq![(i, e)] + rest)[k] == rest[k - 1]);
            }
            assert forall|k: int|
                0 <= k < ms.len() implies {
                    let m = #[trigger] ms[k];
                    i <= m.0 && m.0 < m.1 <= s.len() && pattern_match_at(s, m.0, p) && m.1
                        == pattern_match_end(s, m.0, p)
                } by {
                if k >= 1 {
                    assert(ms[k] == rest[k - 1]);
                    assert(e <= rest[k - 1].0);
                }
            }
            assert forall|a: int, b: int| 0 <= a < b < ms.len() implies #[trigger] ms[a].0
                < #[trigger] ms[b].0 by {
                assert(ms[b] == rest[b - 1]);
                assert(e <= rest[b - 1].0);
                if a >= 1 {
                    assert(ms[a] == rest[a - 1]);
                }
            }
        } else {
            lemma_matches_from_properties(s, i + 1, p);
            assert(matches_from(s, i, p) == matches_from(s, i + 1, p));
        }
    }
}

/// Law: among the scanned matches of a shape, the selected (last) one has the
/// greatest starting offset — the latest occurrence wins.
pub proof fn lemma_last_match_is_latest(s: Seq<char>, p: WishPattern)
    requires
        matches_from(s, 0, p).len() > 0,
    ensures
        forall|k: int|
            0 <= k < matches_from(s, 0, p).len() ==> #[trigger] matches_from(s, 0, p)[k].0
                <= matches_from(s, 0, p).last().0,
{
    lemma_matches_from_properties(s, 0, p);
}

// --- Executable scanning ---

/// Whether `c` can stand inside a captured URL.
pub fn url_char_exec(c: char) -> (r: bool)
    ensures
        r == url_char(c),
{
    c != ' ' && c != '\t' && c != '\n' && c != '\r' && c != '\u{b}' && c != '\u{c}' && c != '"'
}

/// The position at or after `i` where the run of URL characters ends.
fn run_end_exec(text: &str, i: usize) -> (r: usize)
    requires
        i as int <= text@.len(),
    ensures
        r as int == run_end(text@, i as int),
{
    let tlen = text.unicode_len();
    let mut j = i;
    while j < tlen && url_char_exec(text.get_char(j))
        invariant
            tlen == text@.len(),
            i <= j <= tlen,
            run_end(text@, i as int) == run_end(text@, j as int),
        decreases tlen - j,
    {
        proof {
            assert(run_end(text@, j as int) == run_end(text@, j + 1));
        }
        j += 1;
    }
    proof {
        assert(run_end(text@, j as int) == j as int);
    }
    j
}

/// Whether the run of URL characters starting at `t` is non-empty.
fn has_url_char_at(text: &str, t: usize) -> (r: bool)
    requires
        t as int <= text@.len(),
    ensures
        r == (run_end(text@, t as int) > t as int),
{
    let tlen = text.unicode_len();
    if t < tlen {
        let u = url_char_exec(text.get_char(t));
        proof {
            if url_char(text@[t as int]) {
                lemma_run_end(text@, t + 1);
                assert(run_end(text@, t as int) == run_end(text@, t + 1));
            } else {
                assert(run_end(text@, t as int) == t as int);
            }
        }
        u
    } else {
        proof {
            assert(run_end(text@, t as int) == t as int);
        }
        false
    }
}

/// Whether shape `p` matches `text` at position `i`.
pub fn wish_match_at(text: &str, i: usize, p: WishPattern) -> (r: bool)
    requires
        i as int <= text@.len(),
    ensures
        r == pattern_match_at(text@, i as int, p),
{
    let tlen = text.unicode_len();
    match p {
        WishPattern::Primary => {
            if !str_matches_at(text, i, "https://gs.hoyoverse.com/genshin/event/e20190909gacha-v3/") {
                return false;
            }
            assert(i + primary_prefix().len() <= tlen);
            let j = i + "https://gs.hoyoverse.com/genshin/event/e20190909gacha-v3/".unicode_len();
            if str_matches_at(text, j, "log?") {
                assert(j + log_variant().len() <= tlen);
                has_url_char_at(text, j + "log?".unicode_len())
            } else if str_matches_at(text, j, "index.html?") {
                assert(j + index_variant().len() <= tlen);
                has_url_char_at(text, j + "index.html?".unicode_len())
            } else {
                false
            }
        },
        WishPattern::Legacy => {
            if !str_matches_at(text, i, "https://hk4e-api") {
                return false;
            }
            assert(i + legacy_prefix().len() <= tlen);
            let k = i + "https://hk4e-api".unicode_len();
            let re = run_end_exec(text, k);
            let glen = "gacha".unicode_len();
            let mut g = k;
            while g < re && re - g > glen
                invariant
                    p == WishPattern::Legacy,
                    k as int <= text@.len(),
                    re as int == run_end(text@, k as int),
                    glen == gacha_marker().len(),
                    k == i + legacy_prefix().len(),
                    matches_at(text@, legacy_prefix(), i as int),
                    k <= g,
                    forall|g2: int| k <= g2 < g ==> !legacy_gacha_at(text@, i as int, g2),
                decreases re - g,
            {
                if str_matches_at(text, g, "gacha") {
                    assert(legacy_gacha_at(text@, i as int, g as int));
                    assert(legacy_match_at(text@, i as int));
                    return true;
                }
                g += 1;
            }
            proof {
                assert forall|g2: int| !legacy_gacha_at(text@, i as int, g2) by {
                    if legacy_gacha_at(text@, i as int, g2) {
                        assert(g2 >= k);
                        if g2 < g {
                        } else {
                            assert(g2 + gacha_marker().len() >= g + glen >= re);
                        }
                    }
                }
            }
            false
        },
    }
}

/// Where the match of shape `p` at position `i` ends.
pub fn wish_match_end(text: &str, i: usize, p: WishPattern) -> (r: usize)
    requires
        i as int <= text@.len(),
        pattern_match_at(text@, i as int, p),
    ensures
        r as int == pattern_match_end(text@, i as int, p),
{
    let tlen = text.unicode_len();
    match p {
        WishPattern::Primary => {
            assert(i + primary_prefix().len() <= tlen);
            let j = i + "https://gs.hoyoverse.com/genshin/event/e20190909gacha-v3/".unicode_len();
            if str_matches_at(text, j, "log?") {
                assert(j + log_variant().len() <= tlen);
                run_end_exec(text, j + "log?".unicode_len())
            } else {
                assert(j + index_variant().len() <= tlen);
                run_end_exec(text, j + "index.html?".unicode_len())
            }
        },
        WishPattern::Legacy => {
            assert(i + legacy_prefix().len() <= tlen);
            run_end_exec(text, i + "https://hk4e-api".unicode_len())
        },
    }
}

/// The last match of shape `p` in `text`, in scan order; `None` when the
/// shape does not occur.
pub fn find_last_wish_match(text: &str, p: WishPattern) -> (r: Option<(usize, usize)>)
    ensures
        ({
            let ms = matches_from(text@, 0, p);
            match r {
                None => ms.len() == 0,
                Some(m) => ms.len() > 0 && ms.last() == (m.0 as int, m.1 as int),
            }
        }),
{
    let tlen = text.unicode_len();
    let mut best: Option<(usize, usize)> = None;
    let ghost mut found: Seq<(int, int)> = Seq::empty();
    let mut i: usize = 0;
    proof {
        assert(matches_from(text@, 0, p) =~= found + matches_from(text@, 0, p));
    }
    while i < tlen
        invariant
            tlen == text@.len(),
            i <= tlen,
            matches_from(text@, 0, p) == found + matches_from(text@, i as int, p),
            match best {
                None => found.len() == 0,
                Some(m) => found.len() > 0 && found.last() == (m.0 as int, m.1 as int),
            },
        decreases tlen - i,
    {
        if wish_match_at(text, i, p) {
            let e = wish_match_end(text, i, p);
            proof {
                lemma_pattern_match_end(text@, i as int, p);
            }
            best = Some((i, e));
            proof {
                found = found + seq![(i as int, e as int)];
                assert(matches_from(text@, i as int, p) == seq![(i as int, e as int)]
                    + matches_from(text@, e as int, p));
                assert(matches_from(text@, 0, p) =~= found + matches_from(text@, e as int, p));
            }
            i = e;
        } else {
            proof {
                assert(matches_from(text@, i as int, p) == matches_from(text@, i + 1, p));
            }
            i += 1;
        }
    }
    proof {
        assert(matches_from(text@, i as int, p) =~= Seq::empty());
        assert(matches_from(text@, 0, p) =~= found);
    }
    best
}

// --- Extraction and normalization ---

/// The match that extraction selects: the last match of the primary shape,
/// or, when the primary shape never occurs, the last match of the legacy one.
pub open spec fn selected_wish_match(s: Seq<char>) -> Option<(int, int)> {
    let prim = matches_from(s, 0, WishPattern::Primary);
    let leg = matches_from(s, 0, WishPattern::Legacy);
    if prim.len() > 0 {
        Some(prim.last())
    } else if leg.len() > 0 {
        Some(leg.last())
    } else {
        None
    }
}

/// The canonical wish-history URL recovered from log text `s`, when either
/// shape occurs: the selected match with the legacy path suffix rewritten.
pub open spec fn extracted_wish_url(s: Seq<char>) -> Option<Seq<char>> {
    match selected_wish_match(s) {
        Some(m) => Some(replace_seq(s.subrange(m.0, m.1), legacy_suffix(), canonical_suffix())),
        None => None,
    }
}

/// Rewrite the one known legacy path-suffix variant to the canonical suffix;
/// nothing else is changed.
pub fn normalize_wish_url(url: &str) -> (r: String)
    ensures
        r@ == replace_seq(url@, legacy_suffix(), canonical_suffix()),
{
    proof {
        reveal_strlit("/index.html?");
    }
    replace_all(url, "/index.html?", "/log?")
}

/// Scan log text for the most recent occurrence of either endpoint-URL shape
/// and return it in canonical form; the shapes are tried in priority order
/// and within a shape the last match wins.
pub fn extract_wish_url(content: &str) -> (r: Result<String, WishError>)
    ensures
        match r {
            Ok(url) => extracted_wish_url(content@) == Some(url@),
            Err(e) => e is PatternNotFound && extracted_wish_url(content@) is None,
        },
{
    match find_last_wish_match(content, WishPattern::Primary) {
        Some((b, e)) => {
            proof {
                lemma_matches_from_properties(content@, 0, WishPattern::Primary);
            }
            let raw = content.substring_char(b, e);
            Ok(normalize_wish_url(raw))
        },
        None => {
            match find_last_wish_match(content, WishPattern::Legacy) {
                Some((b, e)) => {
                    proof {
                        lemma_matches_from_properties(content@, 0, WishPattern::Legacy);
                    }
                    let raw = content.substring_char(b, e);
                    Ok(normalize_wish_url(raw))
                },
                None => Err(WishError::PatternNotFound),
            }
        },
    }
}

// --- Idempotence of normalization ---

/// If normalized text begins with the tail `pat[j..]` of the legacy suffix
/// (for `j >= 1`), the text itself already began with that tail: replacement
/// can neither produce nor consume such a prefix.
proof fn lemma_tail_prefix(s: Seq<char>, j: int)
    requires
        1 <= j <= 11,
        matches_at(replace_seq(s, legacy_suffix(), canonical_suffix()), legacy_suffix().skip(j), 0),
    ensures
        matches_at(s, legacy_suffix().skip(j), 0),
    decreases s.len(),
{
    reveal_strlit("/index.html?");
    reveal_strlit("/log?");
    let pat = legacy_suffix();
    let rep = canonical_suffix();
    let t = pat.skip(j);
    let r = replace_seq(s, pat, rep);
    assert(pat.len() == 12);
    assert(rep.len() == 5);
    assert(t.len() == 12 - j);
    assert(t[0] == pat[j]);
    assert(pat[j] != '/');
    if s.len() < pat.len() {
        assert(r == s);
    } else if s.take(pat.len() as int) == pat {
        assert(r == rep + replace_seq(s.skip(pat.len() as int), pat, rep));
        assert(r.subrange(0, t.len() as int)[0] == r[0]);
        assert(r[0] == rep[0]);
        assert(rep[0] == '/');
        assert(false);
    } else {
        let r2 = replace_seq(s.skip(1), pat, rep);
        assert(r == seq![s[0]] + r2);
        assert(r.subrange(0, t.len() as int)[0] == r[0]);
        assert(r[0] == s[0]);
        assert(s[0] == t[0]);
        if j == 11 {
            assert(s.subrange(0, 1) =~= t);
        } else {
            assert(matches_at(r2, pat.skip(j + 1), 0)) by {
                assert forall|k: int| 0 <= k < 11 - j implies #[trigger] r2.subrange(0, 11 - j)[k]
                    == pat.skip(j + 1)[k] by {
                    assert(r2[k] == r[k + 1]);
                    assert(r.subrange(0, 12 - j)[k + 1] == r[k + 1]);
                    assert(pat.skip(j)[k + 1] == pat.skip(j + 1)[k]);
                }
                assert(r2.subrange(0, 11 - j) =~= pat.skip(j + 1));
            }
            lemma_tail_prefix(s.skip(1), j + 1);
            assert(matches_at(s.skip(1), pat.skip(j + 1), 0));
            assert(s.subrange(0, 12 - j) =~= t) by {
                assert forall|k: int| 0 <= k < 12 - j implies #[trigger] s.subrange(0, 12 - j)[k] == t[k] by {
                    if k > 0 {
                        assert(s.skip(1).subrange(0, 11 - j)[k - 1] == s[k]);
                        assert(pat.skip(j + 1)[k - 1] == t[k]);
                    }
                }
            }
        }
    }
}

/// After normalization, no occurrence of the legacy suffix remains.
pub proof fn lemma_normalized_free_of_legacy(s: Seq<char>)
    ensures
        !contains_seq(replace_seq(s, legacy_suffix(), canonical_suffix()), legacy_suffix()),
    decreases s.len(),
{
    reveal_strlit("/index.html?");
    reveal_strlit("/log?");
    let pat = legacy_suffix();
    let rep = canonical_suffix();
    let r = replace_seq(s, pat, rep);
    assert(pat.len() == 12);
    assert(rep.len() == 5);
    if s.len() < pat.len() {
        assert(r == s);
        if contains_seq(r, pat) {
            let i = choose|i: int| matches_at(r, pat, i);
            assert(false);
        }
    } else if s.take(pat.len() as int) == pat {
        lemma_normalized_free_of_legacy(s.skip(pat.len() as int));
        let r2 = replace_seq(s.skip(pat.len() as int), pat, rep);
        assert(r == rep + r2);
        if contains_seq(r, pat) {
            let i = choose|i: int| matches_at(r, pat, i);
            if i >= rep.len() {
                lemma_matches_at_concat_right(rep, r2, pat, i);
                assert(matches_at(r2, pat, i - rep.len() as int));
                assert(false);
            } else if i == 0 {
                assert(r.subrange(0, 12)[1] == r[1]);
                assert(r[1] == rep[1]);
                assert(pat[1] == 'i' && rep[1] == 'l');
                assert(false);
            } else {
                assert(r.subrange(i, i + 12)[0] == r[i]);
                assert(r[i] == rep[i]);
                assert(pat[0] == '/');
                assert(rep[1] == 'l' && rep[2] == 'o' && rep[3] == 'g' && rep[4] == '?');
                assert(false);
            }
        }
    } else {
        lemma_normalized_free_of_legacy(s.skip(1));
        let r2 = replace_seq(s.skip(1), pat, rep);
        assert(r == seq![s[0]] + r2);
        if contains_seq(r, pat) {
            let i = choose|i: int| matches_at(r, pat, i);
            if i >= 1 {
                lemma_matches_at_concat_right(seq![s[0]], r2, pat, i);
                assert(matches_at(r2, pat, i - 1));
                assert(false);
            } else {
                assert(r.subrange(0, 12)[0] == r[0]);
                assert(r[0] == s[0]);
                assert(s[0] == pat[0]);
                assert(matches_at(r2, pat.skip(1), 0)) by {
                    assert forall|k: int| 0 <= k < 11 implies #[trigger] r2.subrange(0, 11)[k] == pat.skip(
                        1,
                    )[k] by {
                        assert(r2[k] == r[k + 1]);
                        assert(r.subrange(0, 12)[k + 1] == r[k + 1]);
                    }
                    assert(r2.subrange(0, 11) =~= pat.skip(1));
                }
                lemma_tail_prefix(s.skip(1), 1);
                assert(matches_at(s.skip(1), pat.skip(1), 0));
                assert(s.take(12) =~= pat) by {
                    assert forall|k: int| 0 <= k < 12 implies #[trigger] s.take(12)[k] == pat[k] by {
                        if k > 0 {
                            assert(s.skip(1).subrange(0, 11)[k - 1] == s[k]);
                            assert(pat.skip(1)[k - 1] == pat[k]);
                        }
                    }
                }
                assert(false);
            }
        }
    }
}

/// Law: normalization is idempotent — normalizing already-normalized text
/// returns it unchanged, so a canonical URL passes through untouched.
pub proof fn lemma_normalize_idempotent(s: Seq<char>)
    ensures
        replace_seq(
            replace_seq(s, legacy_suffix(), canonical_suffix()),
            legacy_suffix(),
            canonical_suffix(),
        ) == replace_seq(s, legacy_suffix(), canonical_suffix()),
{
    reveal_strlit("/index.html?");
    lemma_normalized_free_of_legacy(s);
    lemma_replace_none(
        replace_seq(s, legacy_suffix(), canonical_suffix()),
        legacy_suffix(),
        canonical_suffix(),
    );
}

// --- Locating the log file ---

/// The deployment variants whose log locations differ.
#[derive(Clone, Copy, Debug, PartialEq, Eq, Structural)]
pub enum Platform {
    Windows,
    MacOs,
    Linux,
    Other,
}

/// The candidate locations under a Windows profile directory: the global
/// install, then the regional one.
pub open spec fn windows_log_paths(home: Seq<char>) -> Seq<Seq<char>> {
    seq![
        home + "\\AppData\\LocalLow\\miHoYo\\Genshin Impact\\output_log.txt"@,
        home + "\\AppData\\LocalLow\\miHoYo\\原神\\output_log.txt"@,
    ]
}

/// The candidate location under a macOS home directory.
pub open spec fn macos_log_paths(home: Seq<char>) -> Seq<Seq<char>> {
    seq![home + "/Library/Application Support/miHoYo/Genshin Impact/output_log.txt"@]
}

/// The candidate locations under a Linux home directory: the Wine prefix for
/// `user`, then the Steam compatibility prefix.
pub open spec fn linux_log_paths(home: Seq<char>, user: Seq<char>) -> Seq<Seq<char>> {
    seq![
        home + "/.wine/drive_c/users/"@ + user
            + "/AppData/LocalLow/miHoYo/Genshin Impact/output_log.txt"@,
        home
            + "/.local/share/Steam/steamapps/compatdata/1938010/pfx/drive_c/users/steamuser/AppData/LocalLow/miHoYo/Genshin Impact/output_log.txt"@,
    ]
}

/// The ordered candidate locations of the game's log file; `username` only
/// matters on Linux and defaults to the Steam user name.
pub open spec fn candidate_log_paths_spec(
    platform: Platform,
    home: Seq<char>,
    username: Option<Seq<char>>,
) -> Seq<Seq<char>> {
    match platform {
        Platform::Windows => windows_log_paths(home),
        Platform::MacOs => macos_log_paths(home),
        Platform::Linux => linux_log_paths(
            home,
            match username {
                Some(u) => u,
                None => "steamuser"@,
            },
        ),
        Platform::Other => Seq::empty(),
    }
}

/// The ordered candidate locations of the game's log file under the given
/// home/profile directory, in probe priority order.
pub fn candidate_log_paths(platform: Platform, home: &str, username: Option<&str>) -> (r: Vec<
    String,
>)
    ensures
        r.deep_view() == candidate_log_paths_spec(platform, home@, username.deep_view()),
{
    let mut r: Vec<String> = Vec::new();
    match platform {
        Platform::Windows => {
            r.push(
                String::from_str(home).concat(
                    "\\AppData\\LocalLow\\miHoYo\\Genshin Impact\\output_log.txt",
                ),
            );
            r.push(
                String::from_str(home).concat("\\AppData\\LocalLow\\miHoYo\\原神\\output_log.txt"),
            );
        },
        Platform::MacOs => {
            r.push(
                String::from_str(home).concat(
                    "/Library/Application Support/miHoYo/Genshin Impact/output_log.txt",
                ),
            );
        },
        Platform::Linux => {
            let user = match username {
                Some(u) => u,
                None => "steamuser",
            };
            r.push(
                String::from_str(home).concat("/.wine/drive_c/users/").concat(user).concat(
                    "/AppData/LocalLow/miHoYo/Genshin Impact/output_log.txt",
                ),
            );
            r.push(
                String::from_str(home).concat(
                    "/.local/share/Steam/steamapps/compatdata/1938010/pfx/drive_c/users/steamuser/AppData/LocalLow/miHoYo/Genshin Impact/output_log.txt",
                ),
            );
        },
        Platform::Other => {},
    }
    proof {
        assert(r.deep_view() =~~= candidate_log_paths_spec(platform, home@, username.deep_view()));
    }
    r
}

/// Pick the first candidate path that exists; `present[k]` says whether
/// `paths[k]` exists. Fails with `NotFound` when none does.
pub fn select_log_path(paths: &Vec<String>, present: &Vec<bool>) -> (r: Result<String, WishError>)
    requires
        paths@.len() == present@.len(),
    ensures
        match r {
            Ok(p) => exists|i: int|
                0 <= i < present@.len() && present@[i] && (forall|k: int|
                    0 <= k < i ==> !present@[k]) && #[trigger] paths.deep_view()[i] == p@,
            Err(e) => e is NotFound && forall|k: int| 0 <= k < present@.len() ==> !present@[k],
        },
{
    let n = paths.len();
    let mut i: usize = 0;
    while i < n
        invariant
            n == paths@.len(),
            paths@.len() == present@.len(),
            i <= n,
            forall|k: int| 0 <= k < i ==> !present@[k],
        decreases n - i,
    {
        if present[i] {
            let p = paths[i].clone();
            assert(paths.deep_view()[i as int] == p@);
            return Ok(p);
        }
        i += 1;
    }
    Err(WishError::NotFound)
}

/// What probing the environment for a log file yielded.
pub enum LogSource {
    /// The home/profile directory could not be determined.
    MissingHome,
    /// No candidate path held a file.
    NoLogFile,
    /// A log file exists but could not be read as text.
    Unreadable,
    /// The text of the log file that was found.
    Text(String),
}

/// The URL-recovery decision on a probed log source: each probing failure
/// maps to its error kind, and recovered log text is scanned for the
/// endpoint URL.
pub fn auto_extract_wish_url(source: &LogSource) -> (r: Result<String, WishError>)
    ensures
        match source {
            LogSource::MissingHome => r matches Err(e) && e is EnvironmentError,
            LogSource::NoLogFile => r matches Err(e) && e is NotFound,
            LogSource::Unreadable => r matches Err(e) && e is ReadError,
            LogSource::Text(content) => match r {
                Ok(url) => extracted_wish_url(content@) == Some(url@),
                Err(e) => e is PatternNotFound && extracted_wish_url(content@) is None,
            },
        },
{
    match source {
        LogSource::MissingHome => Err(WishError::EnvironmentError),
        LogSource::NoLogFile => Err(WishError::NotFound),
        LogSource::Unreadable => Err(WishError::ReadError),
        LogSource::Text(content) => extract_wish_url(content.as_str()),
    }
}

} // verus!
