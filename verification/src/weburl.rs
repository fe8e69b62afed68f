//! Trusted boundary to the `url` crate: host extraction, decoded query
//! pairs, and query-appending for building request URLs. Each result is a
//! function of the URL text alone, so it is given a name that the callers'
//! contracts speak of.

use vstd::prelude::*;

verus! {

/// The host of the URL written as `s`, as `url::Url::parse` followed by
/// `host_str` yields it; `None` when `s` does not parse as an absolute URL or
/// the URL has no host.
pub uninterp spec fn url_host_of(s: Seq<char>) -> Option<Seq<char>>;

/// The decoded query pairs of the URL written as `s`, in order, as
/// `url::Url::parse` followed by `query_pairs` yields them; `None` when `s`
/// does not parse.
pub uninterp spec fn url_query_pairs_of(s: Seq<char>) -> Option<Seq<(Seq<char>, Seq<char>)>>;

/// The URL `base` with `params` appended to its query, percent-encoded, as
/// `url::Url::query_pairs_mut` followed by `append_pair` builds it; `None`
/// when `base` does not parse.
pub uninterp spec fn url_with_params_of(
    base: Seq<char>,
    params: Seq<(Seq<char>, Seq<char>)>,
) -> Option<Seq<char>>;

/// Relies on url::Url::parse and url::Url::host_str: both are deterministic
/// in the URL text, and `host_str` reads the parsed host back.
#[verifier::external_body]
pub fn url_host(s: &str) -> (r: Option<String>)
    ensures
        r.deep_view() == url_host_of(s@),
{
    match url::Url::parse(s) {
        Ok(u) => u.host_str().map(|h| h.to_string()),
        Err(_) => None,
    }
}

/// Relies on url::Url::parse and url::Url::query_pairs: the decoded query
/// pairs are deterministic in the URL text.
#[verifier::external_body]
pub fn url_query_pairs(s: &str) -> (r: Option<Vec<(String, String)>>)
    ensures
        r.deep_view() == url_query_pairs_of(s@),
{
    match url::Url::parse(s) {
        Ok(u) => Some(u.query_pairs().map(|(k, v)| (k.into_owned(), v.into_owned())).collect()),
        Err(_) => None,
    }
}

/// Relies on url::Url::parse and form_urlencoded::Serializer::append_pair
/// (reached through url::Url::query_pairs_mut): the rebuilt URL is
/// deterministic in the base URL text and the appended pairs.
#[verifier::external_body]
pub fn url_append_params(base: &str, params: &Vec<(String, String)>) -> (r: Option<String>)
    ensures
        r.deep_view() == url_with_params_of(base@, params.deep_view()),
{
    match url::Url::parse(base) {
        Ok(mut u) => {
            let mut q = u.query_pairs_mut();
            for (k, v) in params {
                q.append_pair(k, v);
            }
            drop(q);
            Some(u.into())
        },
        Err(_) => None,
    }
}

} // verus!
