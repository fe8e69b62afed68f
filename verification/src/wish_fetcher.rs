//! The paginated fetch-and-merge engine: the provider's wire records, the
//! fixed code-to-banner table, per-code pagination state with cross-page
//! de-duplication, request construction, and the merge of per-category
//! results.

use vstd::prelude::*;

use crate::error::WishError;
use crate::text::all_digits;
use crate::text::contains_seq;
use crate::text::dec_digits;
use crate::text::digits_value;
use crate::text::lower_seq;
use crate::text::str_contains;
use crate::text::str_eq;
use crate::text::str_eq_ignore_ascii_case;
use crate::text::u64_to_string;
use crate::weburl::url_append_params;
use crate::weburl::url_host;
use crate::weburl::url_host_of;
use crate::weburl::url_query_pairs;
use crate::weburl::url_query_pairs_of;
use crate::weburl::url_with_params_of;

verus! {

/// The page size requested from the provider.
pub const PAGE_SIZE: usize = 20;

/// The pause between two successive page requests, in milliseconds.
pub const PAGE_DELAY_MS: u64 = 500;

/// The rarity used when the provider's rank-type field is unparseable.
pub const FALLBACK_RARITY: u8 = 3;

/// A provider wire record, with the string-or-number fields already coerced
/// to strings by the decoding boundary.
#[derive(Clone, Debug, PartialEq)]
pub struct RawWishItem {
    pub id: String,
    pub name: String,
    pub rank_type: String,
    pub item_type: String,
    pub time: String,
    pub gacha_type: String,
}

/// A decoded provider response: status code, optional message, optional
/// record list.
#[derive(Clone, Debug, PartialEq)]
pub struct ApiResponse {
    pub retcode: i64,
    pub message: Option<String>,
    pub data: Option<Vec<RawWishItem>>,
}

/// A canonical output record.
#[derive(Clone, Debug, PartialEq)]
pub struct WishHistoryItem {
    pub id: String,
    pub name: String,
    pub rarity: u8,
    pub item_type: String,
    pub time: String,
    pub banner: String,
}

// --- Pure field derivations ---

/// The banner category of a provider type code: a total, fixed function of
/// the code alone. Code 400 (the second character event wish) counts as
/// "character".
pub open spec fn banner_of(code: Seq<char>) -> Seq<char> {
    if code == "301"@ || code == "400"@ {
        "character"@
    } else if code == "302"@ {
        "weapon"@
    } else if code == "200"@ {
        "standard"@
    } else if code == "500"@ {
        "chronicled"@
    } else {
        "unknown"@
    }
}

/// Map a provider type code to its banner category.
pub fn map_gacha_type(gacha_type: &str) -> (r: String)
    ensures
        r@ == banner_of(gacha_type@),
{
    if str_eq(gacha_type, "301") || str_eq(gacha_type, "400") {
        String::from_str("character")
    } else if str_eq(gacha_type, "302") {
        String::from_str("weapon")
    } else if str_eq(gacha_type, "200") {
        String::from_str("standard")
    } else if str_eq(gacha_type, "500") {
        String::from_str("chronicled")
    } else {
        String::from_str("unknown")
    }
}

/// The rarity denoted by the provider's rank-type field: its decimal value
/// when the field is all digits and the value fits, else the fallback.
pub open spec fn rarity_of(s: Seq<char>) -> u8 {
    if s.len() > 0 && all_digits(s) && 0 <= digits_value(s) <= 255 {
        digits_value(s) as u8
    } else {
        FALLBACK_RARITY
    }
}

/// Parse the rank-type field as a rarity, falling back on anything that is
/// not a small decimal number.
pub fn parse_rarity(s: &str) -> (r: u8)
    ensures
        r == rarity_of(s@),
{
    let len = s.unicode_len();
    let mut i: usize = 0;
    // The running value, capped at 300 so that it stays small; 300 marks
    // "already too large for a rarity".
    let mut cap: u32 = 0;
    proof {
        assert(s@.take(0) =~= Seq::<char>::empty());
    }
    while i < len
        invariant
            len == s@.len(),
            i <= len,
            all_digits(s@.take(i as int)),
            0 <= digits_value(s@.take(i as int)),
            digits_value(s@.take(i as int)) <= 300 ==> cap == digits_value(s@.take(i as int)),
            digits_value(s@.take(i as int)) > 300 ==> cap == 300,
            cap <= 300,
        decreases len - i,
    {
        let c = s.get_char(i);
        if c < '0' || c > '9' {
            assert(!all_digits(s@)) by {
                assert(!crate::text::is_digit(s@[i as int]));
            }
            return FALLBACK_RARITY;
        }
        let d: u32 = (c as u32) - 48;
        let next: u32 = cap * 10 + d;
        proof {
            assert(s@.take(i + 1).drop_last() =~= s@.take(i as int));
            assert(s@.take(i + 1).last() == s@[i as int]);
            assert(digits_value(s@.take(i + 1)) == digits_value(s@.take(i as int)) * 10
                + crate::text::digit_val(s@[i as int]));
            assert forall|k: int| 0 <= k < i + 1 implies crate::text::is_digit(
                #[trigger] s@.take(i + 1)[k],
            ) by {
                if k < i {
                    assert(s@.take(i as int)[k] == s@.take(i + 1)[k]);
                }
            }
        }
        cap = if next > 300 {
            300
        } else {
            next
        };
        i += 1;
    }
    proof {
        assert(s@.take(len as int) =~= s@);
    }
    if len > 0 && cap <= 255 {
        cap as u8
    } else {
        FALLBACK_RARITY
    }
}

/// The item-type normalization: "character" when the provider's string says
/// so up to ASCII case, anything else collapses to "weapon".
pub open spec fn item_type_of(s: Seq<char>) -> Seq<char> {
    if lower_seq(s) == "character"@ {
        "character"@
    } else {
        "weapon"@
    }
}

proof fn lemma_character_is_lowercase()
    ensures
        lower_seq("character"@) == "character"@,
{
    reveal_strlit("character");
    assert(lower_seq("character"@) =~= "character"@);
}

/// Normalize the provider's item-type string to the closed two-valued form.
pub fn normalize_item_type(s: &str) -> (r: String)
    ensures
        r@ == item_type_of(s@),
{
    proof {
        lemma_character_is_lowercase();
    }
    if str_eq_ignore_ascii_case(s, "character") {
        String::from_str("character")
    } else {
        String::from_str("weapon")
    }
}

/// How a canonical record is derived from a wire record. The banner depends
/// on the record's own type code alone, never on the code that was requested.
pub open spec fn wish_item_matches(w: WishHistoryItem, raw: RawWishItem) -> bool {
    &&& w.id@ == raw.id@
    &&& w.name@ == raw.name@
    &&& w.rarity == rarity_of(raw.rank_type@)
    &&& w.item_type@ == item_type_of(raw.item_type@)
    &&& w.time@ == raw.time@
    &&& w.banner@ == banner_of(raw.gacha_type@)
}

/// Transform one wire record into the canonical shape.
pub fn make_wish_item(raw: &RawWishItem) -> (w: WishHistoryItem)
    ensures
        wish_item_matches(w, *raw),
{
    WishHistoryItem {
        id: raw.id.clone(),
        name: raw.name.clone(),
        rarity: parse_rarity(raw.rank_type.as_str()),
        item_type: normalize_item_type(raw.item_type.as_str()),
        time: raw.time.clone(),
        banner: map_gacha_type(raw.gacha_type.as_str()),
    }
}

/// Whether some element of `v` holds the characters of `s`.
pub fn vec_contains_string(v: &Vec<String>, s: &str) -> (r: bool)
    ensures
        r == v.deep_view().contains(s@),
{
    let n = v.len();
    let mut i: usize = 0;
    while i < n
        invariant
            n == v@.len(),
            i <= n,
            forall|k: int| 0 <= k < i ==> v.deep_view()[k] != s@,
        decreases n - i,
    {
        assert(v.deep_view()[i as int] == v@[i as int]@);
        if str_eq(v[i].as_str(), s) {
            return true;
        }
        i += 1;
    }
    assert(!v.deep_view().contains(s@));
    false
}

// --- Per-code pagination ---

/// Which records of one returned page survive: those whose type code is the
/// requested one and whose id has not been seen, checked in order with the
/// seen set growing as records are taken.
pub open spec fn surviving(
    list: Seq<RawWishItem>,
    gacha: Seq<char>,
    seen: Seq<Seq<char>>,
) -> Seq<RawWishItem>
    decreases list.len(),
{
    if list.len() == 0 {
        Seq::empty()
    } else {
        if list[0].gacha_type@ == gacha && !seen.contains(list[0].id@) {
            seq![list[0]] + surviving(list.skip(1), gacha, seen.push(list[0].id@))
        } else {
            surviving(list.skip(1), gacha, seen)
        }
    }
}

/// What the page loop does next after one processed response.
#[derive(Clone, Debug, PartialEq)]
pub enum PageStep {
    /// The history is exhausted; the fetch for this code is complete.
    Finished,
    /// Request the next page after pausing for `delay_ms` milliseconds.
    NextPage { delay_ms: u64 },
    /// The fetch failed; the whole call fails with this error.
    Failed(WishError),
}

/// The pagination state of one provider-code stream.
pub struct BannerFetch {
    /// The provider type code this stream requests.
    pub gacha_type: String,
    /// The 1-based page counter.
    pub page: u64,
    /// The id of the last record taken — the provider's continuation cursor;
    /// "0" is the sentinel meaning "from the start".
    pub end_id: String,
    /// Every id taken so far in this stream.
    pub seen_ids: Vec<String>,
    /// The records taken so far, in page order.
    pub items: Vec<WishHistoryItem>,
}

impl BannerFetch {
    /// The ids already taken, as character sequences.
    pub open spec fn seen(&self) -> Seq<Seq<char>> {
        self.seen_ids.deep_view()
    }

    /// Well-formedness: the page counter started at one, ids never repeat —
    /// neither in the seen set nor among the output records — and every
    /// output record's id has been seen.
    pub open spec fn wf(&self) -> bool {
        &&& 1 <= self.page
        &&& forall|a: int, b: int|
            0 <= a < b < self.seen().len() ==> #[trigger] self.seen()[a] != #[trigger] self.seen()[b]
        &&& forall|a: int, b: int|
            0 <= a < b < self.items@.len() ==> #[trigger] self.items@[a].id@
                != #[trigger] self.items@[b].id@
        &&& forall|k: int|
            0 <= k < self.items@.len() ==> self.seen().contains(#[trigger] self.items@[k].id@)
    }

    /// A fresh stream for one provider type code: page 1, the sentinel
    /// cursor, nothing seen, nothing taken.
    pub fn new(gacha_type: String) -> (r: BannerFetch)
        ensures
            r.wf(),
            r.gacha_type == gacha_type,
            r.page == 1,
            r.end_id@ == "0"@,
            r.seen() == Seq::<Seq<char>>::empty(),
            r.items@ == Seq::<WishHistoryItem>::empty(),
    {
        let r = BannerFetch {
            gacha_type,
            page: 1,
            end_id: String::from_str("0"),
            seen_ids: Vec::new(),
            items: Vec::new(),
        };
        proof {
            assert(r.seen() =~= Seq::<Seq<char>>::empty());
        }
        r
    }

    /// Process one decoded response for this stream, as the page loop asks:
    /// a non-zero status fails (-101 specifically as expired credentials), a
    /// missing record list fails as a schema mismatch, and otherwise the
    /// surviving records are taken in order, the cursor advances to the last
    /// taken id, and only a full page of survivors asks for another page,
    /// after the fixed pause. An empty or fully-filtered page thus ends the
    /// stream without error.
    pub fn process_page(&mut self, resp: &ApiResponse) -> (step: PageStep)
        requires
            old(self).wf(),
            old(self).page < u64::MAX,
        ensures
            final(self).wf(),
            final(self).gacha_type == old(self).gacha_type,
            resp.retcode == -101 ==> (step matches PageStep::Failed(e) && e is AuthExpired),
            resp.retcode != 0 && resp.retcode != -101 ==> (step matches PageStep::Failed(e) && (
            e matches WishError::ApiError { retcode, message } && retcode == resp.retcode
                && message == resp.message)),
            resp.retcode == 0 && resp.data is None ==> (step matches PageStep::Failed(e)
                && e is DecodeError),
            resp.retcode != 0 || resp.data is None ==> *final(self) == *old(self),
            resp.data matches Some(list) ==> resp.retcode == 0 ==> {
                let surv = surviving(list@, old(self).gacha_type@, old(self).seen());
                &&& final(self).items@.len() == old(self).items@.len() + surv.len()
                &&& (forall|k: int|
                    0 <= k < old(self).items@.len() ==> final(self).items@[k] == old(self).items@[k])
                &&& (forall|k: int|
                    0 <= k < surv.len() ==> wish_item_matches(
                        final(self).items@[old(self).items@.len() + k],
                        surv[k],
                    ))
                &&& final(self).seen() == old(self).seen() + surv.map_values(|it: RawWishItem| it.id@)
                &&& final(self).end_id@ == (if surv.len() > 0 {
                    surv.last().id@
                } else {
                    old(self).end_id@
                })
                &&& (surv.len() < PAGE_SIZE ==> step == PageStep::Finished && final(self).page == old(
                    self,
                ).page)
                &&& (surv.len() >= PAGE_SIZE ==> step == (PageStep::NextPage {
                    delay_ms: PAGE_DELAY_MS,
                }) && final(self).page == old(self).page + 1)
            },
    {
        if resp.retcode != 0 {
            if resp.retcode == -101 {
                return PageStep::Failed(WishError::AuthExpired);
            }
            let message = match &resp.message {
                Some(m) => Some(m.clone()),
                None => None,
            };
            return PageStep::Failed(WishError::ApiError { retcode: resp.retcode, message });
        }
        let list = match &resp.data {
            Some(l) => l,
            None => {
                return PageStep::Failed(
                    WishError::DecodeError { message: String::from_str("no data in response") },
                );
            },
        };
        let n = list.len();
        let ghost seen0 = self.seen();
        let ghost items0 = self.items@;
        let ghost g = self.gacha_type@;
        let mut j: usize = 0;
        let mut taken: usize = 0;
        let ghost mut surv_prefix: Seq<RawWishItem> = Seq::empty();
        proof {
            assert(list@.skip(0) =~= list@);
            assert(surv_prefix + surviving(list@, g, seen0) =~= surviving(list@, g, seen0));
            assert(seen0 + surv_prefix.map_values(|it: RawWishItem| it.id@) =~= seen0);
        }
        while j < n
            invariant
                n == list@.len(),
                j <= n,
                taken == surv_prefix.len(),
                taken <= j,
                self.wf(),
                self.page == old(self).page,
                self.gacha_type == old(self).gacha_type,
                self.gacha_type@ == g,
                items0 == old(self).items@,
                seen0 == old(self).seen(),
                surviving(list@, g, seen0) == surv_prefix + surviving(
                    list@.skip(j as int),
                    g,
                    self.seen(),
                ),
                self.seen() == seen0 + surv_prefix.map_values(|it: RawWishItem| it.id@),
                self.end_id@ == (if surv_prefix.len() > 0 {
                    surv_prefix.last().id@
                } else {
                    old(self).end_id@
                }),
                self.items@.len() == items0.len() + surv_prefix.len(),
                forall|k: int| 0 <= k < items0.len() ==> self.items@[k] == items0[k],
                forall|k: int|
                    0 <= k < surv_prefix.len() ==> wish_item_matches(
                        self.items@[items0.len() + k],
                        surv_prefix[k],
                    ),
            decreases n - j,
        {
            let item = &list[j];
            let same_code = str_eq(item.gacha_type.as_str(), self.gacha_type.as_str());
            let fresh = !vec_contains_string(&self.seen_ids, item.id.as_str());
            proof {
                assert(list@.skip(j as int)[0] == list@[j as int]);
                assert(list@.skip(j as int).skip(1) =~= list@.skip(j + 1));
            }
            if same_code && fresh {
                let ghost seen_before = self.seen();
                let w = make_wish_item(item);
                self.seen_ids.push(item.id.clone());
                self.items.push(w);
                self.end_id = item.id.clone();
                taken += 1;
                proof {
                    let ghost prev = surv_prefix;
                    surv_prefix = surv_prefix.push(list@[j as int]);
                    assert(self.seen() =~= seen_before.push(list@[j as int].id@));
                    assert(surviving(list@.skip(j as int), g, seen_before) == seq![
                        list@[j as int],
                    ] + surviving(list@.skip(j + 1), g, self.seen()));
                    assert(surviving(list@, g, seen0) =~= surv_prefix + surviving(
                        list@.skip(j + 1),
                        g,
                        self.seen(),
                    ));
                    assert(self.seen() =~= seen0 + surv_prefix.map_values(
                        |it: RawWishItem| it.id@,
                    ));
                    assert(surv_prefix.last() == list@[j as int]);
                    // Well-formedness is preserved: the taken id was fresh.
                    assert forall|a: int, b: int|
                        0 <= a < b < self.seen().len() implies #[trigger] self.seen()[a]
                        != #[trigger] self.seen()[b] by {
                        if b < seen_before.len() {
                            assert(self.seen()[a] == seen_before[a]);
                            assert(self.seen()[b] == seen_before[b]);
                        } else {
                            assert(self.seen()[a] == seen_before[a]);
                            assert(seen_before.contains(seen_before[a]));
                        }
                    }
                    assert forall|a: int, b: int|
                        0 <= a < b < self.items@.len() implies #[trigger] self.items@[a].id@
                        != #[trigger] self.items@[b].id@ by {
                        if b == self.items@.len() - 1 {
                            assert(self.items@[b].id@ == list@[j as int].id@);
                            if a < items0.len() + prev.len() {
                                assert(seen_before.contains(self.items@[a].id@));
                            }
                        }
                    }
                    assert forall|k: int|
                        0 <= k < self.items@.len() implies self.seen().contains(
                        #[trigger] self.items@[k].id@,
                    ) by {
                        if k < items0.len() + prev.len() {
                            assert(seen_before.contains(self.items@[k].id@));
                            let idx = choose|idx: int|
                                0 <= idx < seen_before.len() && seen_before[idx]
                                    == self.items@[k].id@;
                            assert(self.seen()[idx] == self.items@[k].id@);
                        } else {
                            assert(self.seen()[self.seen().len() - 1] == list@[j as int].id@);
                        }
                    }
                }
            } else {
                proof {
                    assert(surviving(list@.skip(j as int), g, self.seen()) == surviving(
                        list@.skip(j + 1),
                        g,
                        self.seen(),
                    ));
                }
            }
            j += 1;
        }
        proof {
            assert(list@.skip(n as int) =~= Seq::<RawWishItem>::empty());
            assert(surviving(list@.skip(n as int), g, self.seen()) =~= Seq::<RawWishItem>::empty());
            assert(surviving(list@, g, seen0) =~= surv_prefix);
        }
        if taken < PAGE_SIZE {
            return PageStep::Finished;
        }
        self.page = self.page + 1;
        PageStep::NextPage { delay_ms: PAGE_DELAY_MS }
    }

    /// The request parameters for this stream's next page.
    pub fn request_params(&self, auth: &Vec<(String, String)>) -> (r: Vec<(String, String)>)
        ensures
            r.deep_view() == request_params_spec(
                auth.deep_view(),
                self.gacha_type@,
                self.page as int,
                self.end_id@,
            ),
    {
        let mut r: Vec<(String, String)> = Vec::new();
        let n = auth.len();
        let mut i: usize = 0;
        proof {
            assert(r.deep_view() =~= auth.deep_view().take(0));
        }
        while i < n
            invariant
                n == auth@.len(),
                i <= n,
                r.deep_view() == auth.deep_view().take(i as int),
            decreases n - i,
        {
            let ghost before = r.deep_view();
            let p = &auth[i];
            r.push((p.0.clone(), p.1.clone()));
            proof {
                assert(r.deep_view() =~= before.push(auth.deep_view()[i as int]));
                assert(r.deep_view() =~= auth.deep_view().take(i + 1));
            }
            i += 1;
        }
        proof {
            assert(auth.deep_view().take(n as int) =~= auth.deep_view());
        }
        r.push((String::from_str("gacha_type"), self.gacha_type.clone()));
        r.push((String::from_str("page"), u64_to_string(self.page)));
        r.push((String::from_str("size"), String::from_str("20")));
        if !str_eq(self.end_id.as_str(), "0") {
            r.push((String::from_str("end_id"), self.end_id.clone()));
        }
        proof {
            assert(r.deep_view() =~= request_params_spec(
                auth.deep_view(),
                self.gacha_type@,
                self.page as int,
                self.end_id@,
            ));
        }
        r
    }

    /// The full request URL for this stream's next page against `endpoint`,
    /// or a malformed-URL failure when the endpoint does not parse.
    pub fn page_request_url(&self, endpoint: &str, auth: &Vec<(String, String)>) -> (r: Result<
        String,
        WishError,
    >)
        ensures
            ({
                let ps = request_params_spec(
                    auth.deep_view(),
                    self.gacha_type@,
                    self.page as int,
                    self.end_id@,
                );
                match url_with_params_of(endpoint@, ps) {
                    Some(u) => r matches Ok(s) && s@ == u,
                    None => r matches Err(e) && e is InvalidUrl,
                }
            }),
    {
        let params = self.request_params(auth);
        match url_append_params(endpoint, &params) {
            Some(s) => Ok(s),
            None => Err(WishError::InvalidUrl),
        }
    }
}

// --- Request construction ---

/// The request parameter sequence for one page: the authentication pairs,
/// then the type code, page number and page size, then — except on the first
/// page, where the cursor still holds the sentinel — the continuation cursor.
pub open spec fn request_params_spec(
    auth: Seq<(Seq<char>, Seq<char>)>,
    gacha: Seq<char>,
    page: int,
    end_id: Seq<char>,
) -> Seq<(Seq<char>, Seq<char>)> {
    auth + seq![("gacha_type"@, gacha), ("page"@, dec_digits(page)), ("size"@, "20"@)] + (
    if end_id != "0"@ {
        seq![("end_id"@, end_id)]
    } else {
        Seq::<(Seq<char>, Seq<char>)>::empty()
    })
}

/// Whether `k` is one of the authentication/session query keys that are
/// forwarded to the provider.
pub open spec fn auth_key_allowed(k: Seq<char>) -> bool {
    ||| k == "authkey"@
    ||| k == "authkey_ver"@
    ||| k == "sign_type"@
    ||| k == "auth_appid"@
    ||| k == "lang"@
    ||| k == "device_type"@
    ||| k == "game_biz"@
    ||| k == "region"@
}

/// Whether key `k` is forwarded to the provider.
pub fn is_auth_key(k: &str) -> (r: bool)
    ensures
        r == auth_key_allowed(k@),
{
    str_eq(k, "authkey") || str_eq(k, "authkey_ver") || str_eq(k, "sign_type") || str_eq(
        k,
        "auth_appid",
    ) || str_eq(k, "lang") || str_eq(k, "device_type") || str_eq(k, "game_biz") || str_eq(
        k,
        "region",
    )
}

/// The allow-listed pairs of `pairs`, in order.
pub open spec fn filtered_params(pairs: Seq<(Seq<char>, Seq<char>)>) -> Seq<(Seq<char>, Seq<char>)>
    decreases pairs.len(),
{
    if pairs.len() == 0 {
        Seq::empty()
    } else if auth_key_allowed(pairs[0].0) {
        seq![pairs[0]] + filtered_params(pairs.skip(1))
    } else {
        filtered_params(pairs.skip(1))
    }
}

/// Whether some pair of `pairs` carries the key `k`.
pub open spec fn has_key(pairs: Seq<(Seq<char>, Seq<char>)>, k: Seq<char>) -> bool {
    exists|i: int| 0 <= i < pairs.len() && #[trigger] pairs[i].0 == k
}

/// Whether some pair of `v` carries the key `k`.
pub fn vec_has_key(pairs: &Vec<(String, String)>, k: &str) -> (r: bool)
    ensures
        r == has_key(pairs.deep_view(), k@),
{
    let n = pairs.len();
    let mut i: usize = 0;
    while i < n
        invariant
            n == pairs@.len(),
            i <= n,
            forall|j: int| 0 <= j < i ==> #[trigger] pairs.deep_view()[j].0 != k@,
        decreases n - i,
    {
        assert(pairs.deep_view()[i as int].0 == pairs@[i as int].0@);
        if str_eq(pairs[i].0.as_str(), k) {
            return true;
        }
        i += 1;
    }
    false
}

/// Whether the host belongs to the global deployment.
pub open spec fn is_global_host(h: Seq<char>) -> bool {
    ||| contains_seq(h, "webstatic-sea"@)
    ||| contains_seq(h, "hk4e-api-os"@)
    ||| contains_seq(h, "hoyoverse.com"@)
}

fn host_is_global(h: &str) -> (r: bool)
    ensures
        r == is_global_host(h@),
{
    str_contains(h, "webstatic-sea") || str_contains(h, "hk4e-api-os") || str_contains(
        h,
        "hoyoverse.com",
    )
}

/// The global deployment's history endpoint.
pub open spec fn global_endpoint() -> Seq<char> {
    "https://public-operation-hk4e-sg.hoyoverse.com/gacha_info/api/getGachaLog"@
}

/// The domestic deployment's history endpoint.
pub open spec fn domestic_endpoint() -> Seq<char> {
    "https://public-operation-hk4e.mihoyo.com/gacha_info/api/getGachaLog"@
}

/// Select the provider endpoint from the captured URL's host: the global
/// endpoint for global-deployment hosts, the domestic one for domestic
/// hosts; any other host — or a URL without one — is malformed.
pub fn get_api_endpoint(web_url: &str) -> (r: Result<String, WishError>)
    ensures
        match url_host_of(web_url@) {
            Some(h) => {
                if is_global_host(h) {
                    r matches Ok(s) && s@ == global_endpoint()
                } else if contains_seq(h, "mihoyo.com"@) {
                    r matches Ok(s) && s@ == domestic_endpoint()
                } else {
                    r matches Err(e) && e is InvalidUrl
                }
            },
            None => r matches Err(e) && e is InvalidUrl,
        },
{
    match url_host(web_url) {
        Some(h) => {
            if host_is_global(h.as_str()) {
                Ok(
                    String::from_str(
                        "https://public-operation-hk4e-sg.hoyoverse.com/gacha_info/api/getGachaLog",
                    ),
                )
            } else if str_contains(h.as_str(), "mihoyo.com") {
                Ok(
                    String::from_str(
                        "https://public-operation-hk4e.mihoyo.com/gacha_info/api/getGachaLog",
                    ),
                )
            } else {
                Err(WishError::InvalidUrl)
            }
        },
        None => Err(WishError::InvalidUrl),
    }
}

/// The authentication parameters extracted from the captured URL: its
/// allow-listed query pairs in order, with a business-id pair synthesized
/// from the host when the URL carries none. Fails as malformed when the URL
/// does not parse, has no host, or carries no credential key.
pub fn extract_auth_params(web_url: &str) -> (r: Result<Vec<(String, String)>, WishError>)
    ensures
        match (url_host_of(web_url@), url_query_pairs_of(web_url@)) {
            (Some(h), Some(pairs)) => {
                let kept = filtered_params(pairs);
                if !has_key(kept, "authkey"@) {
                    r matches Err(e) && e is InvalidUrl
                } else if has_key(kept, "game_biz"@) {
                    r matches Ok(v) && v.deep_view() == kept
                } else {
                    r matches Ok(v) && v.deep_view() == kept.push(
                        (
                            "game_biz"@,
                            if is_global_host(h) {
                                "hk4e_global"@
                            } else {
                                "hk4e_cn"@
                            },
                        ),
                    )
                }
            },
            _ => r matches Err(e) && e is InvalidUrl,
        },
{
    let host = match url_host(web_url) {
        Some(h) => h,
        None => {
            return Err(WishError::InvalidUrl);
        },
    };
    let pairs = match url_query_pairs(web_url) {
        Some(p) => p,
        None => {
            return Err(WishError::InvalidUrl);
        },
    };
    let n = pairs.len();
    let mut kept: Vec<(String, String)> = Vec::new();
    let mut i: usize = 0;
    proof {
        assert(pairs.deep_view().skip(0) =~= pairs.deep_view());
        assert(kept.deep_view() + filtered_params(pairs.deep_view()) =~= filtered_params(
            pairs.deep_view(),
        ));
    }
    while i < n
        invariant
            n == pairs@.len(),
            i <= n,
            filtered_params(pairs.deep_view()) == kept.deep_view() + filtered_params(
                pairs.deep_view().skip(i as int),
            ),
        decreases n - i,
    {
        proof {
            assert(pairs.deep_view().skip(i as int)[0] == pairs.deep_view()[i as int]);
            assert(pairs.deep_view().skip(i as int).skip(1) =~= pairs.deep_view().skip(i + 1));
            assert(pairs.deep_view()[i as int] == (pairs@[i as int].0@, pairs@[i as int].1@));
        }
        let ghost before = kept.deep_view();
        let p = &pairs[i];
        if is_auth_key(p.0.as_str()) {
            kept.push((p.0.clone(), p.1.clone()));
            proof {
                assert(kept.deep_view() =~= before.push(pairs.deep_view()[i as int]));
                assert(kept.deep_view() + filtered_params(pairs.deep_view().skip(i + 1))
                    =~= filtered_params(pairs.deep_view()));
            }
        }
        i += 1;
    }
    proof {
        assert(pairs.deep_view().skip(n as int) =~= Seq::<(Seq<char>, Seq<char>)>::empty());
        assert(kept.deep_view() =~= filtered_params(pairs.deep_view()));
    }
    if !vec_has_key(&kept, "authkey") {
        return Err(WishError::InvalidUrl);
    }
    if !vec_has_key(&kept, "game_biz") {
        let ghost before = kept.deep_view();
        let global = host_is_global(host.as_str());
        let biz = if global {
            String::from_str("hk4e_global")
        } else {
            String::from_str("hk4e_cn")
        };
        kept.push((String::from_str("game_biz"), biz));
        proof {
            assert(kept.deep_view() =~= before.push(
                (
                    "game_biz"@,
                    if is_global_host(host@) {
                        "hk4e_global"@
                    } else {
                        "hk4e_cn"@
                    },
                ),
            ));
        }
    }
    Ok(kept)
}

// --- The category table and the merge ---

/// The provider type codes fetched for the requested categories, in the
/// fixed table order: character (codes 301 and 400), weapon (302), standard
/// (200), chronicled (500). Categories not requested are skipped; unknown
/// category names are ignored.
pub open spec fn banner_plan(selected: Seq<Seq<char>>) -> Seq<Seq<char>> {
    (if selected.contains("character"@) {
        seq!["301"@, "400"@]
    } else {
        Seq::<Seq<char>>::empty()
    }) + (if selected.contains("weapon"@) {
        seq!["302"@]
    } else {
        Seq::<Seq<char>>::empty()
    }) + (if selected.contains("standard"@) {
        seq!["200"@]
    } else {
        Seq::<Seq<char>>::empty()
    }) + (if selected.contains("chronicled"@) {
        seq!["500"@]
    } else {
        Seq::<Seq<char>>::empty()
    })
}

/// The ordered list of provider type codes to fetch for the requested
/// category names.
pub fn banner_codes(selected: &Vec<String>) -> (r: Vec<String>)
    ensures
        r.deep_view() == banner_plan(selected.deep_view()),
{
    let mut r: Vec<String> = Vec::new();
    if vec_contains_string(selected, "character") {
        r.push(String::from_str("301"));
        r.push(String::from_str("400"));
    }
    if vec_contains_string(selected, "weapon") {
        r.push(String::from_str("302"));
    }
    if vec_contains_string(selected, "standard") {
        r.push(String::from_str("200"));
    }
    if vec_contains_string(selected, "chronicled") {
        r.push(String::from_str("500"));
    }
    proof {
        assert(r.deep_view() =~= banner_plan(selected.deep_view()));
    }
    r
}

/// Law: de-duplication — in a well-formed stream, which `new` establishes
/// and `process_page` preserves across any pages, no two output records
/// share an id.
pub proof fn lemma_no_duplicate_ids(f: BannerFetch, a: int, b: int)
    requires
        f.wf(),
        0 <= a < b < f.items@.len(),
    ensures
        f.items@[a].id@ != f.items@[b].id@,
{
}

/// Law: the banner of every taken record is a function of the record's own
/// provider type code alone — which code the stream requested plays no part.
pub proof fn lemma_banner_depends_on_code_alone(w: WishHistoryItem, raw: RawWishItem)
    requires
        wish_item_matches(w, raw),
    ensures
        w.banner@ == banner_of(raw.gacha_type@),
{
}

/// The views of the per-code result lists.
pub open spec fn views_of(parts: Seq<Vec<WishHistoryItem>>) -> Seq<Seq<WishHistoryItem>> {
    parts.map_values(|p: Vec<WishHistoryItem>| p@)
}

/// Concatenate the per-code result lists into one merged list, preserving
/// the list order and the record order within each list.
pub fn merge_results(parts: Vec<Vec<WishHistoryItem>>) -> (r: Vec<WishHistoryItem>)
    ensures
        r@ == views_of(parts@).flatten(),
{
    let mut rest = parts;
    let ghost orig = rest@;
    let mut r: Vec<WishHistoryItem> = Vec::new();
    proof {
        assert(views_of(orig).flatten() =~= r@ + views_of(rest@).flatten());
    }
    while rest.len() > 0
        invariant
            views_of(orig).flatten() == r@ + views_of(rest@).flatten(),
        decreases rest@.len(),
    {
        let ghost ro = rest@;
        let mut part = rest.remove(0);
        r.append(&mut part);
        proof {
            assert(views_of(ro).len() > 0);
            assert(views_of(ro).flatten() == views_of(ro).first() + views_of(
                ro,
            ).drop_first().flatten());
            assert(views_of(ro).first() == ro[0]@);
            assert(views_of(ro).drop_first() =~= views_of(rest@));
        }
    }
    proof {
        assert(views_of(rest@).len() == 0);
        assert(views_of(rest@).flatten() =~= Seq::<WishHistoryItem>::empty());
        assert(r@ =~= views_of(orig).flatten());
    }
    r
}

} // verus!
