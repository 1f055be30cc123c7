//! URL parsing, delegated to the `url` crate.
use vstd::prelude::*;

use crate::text::opt_view;

verus! {

/// The parts of a parsed URL that the library reads.
pub struct UrlParts {
    /// The scheme, such as `https`.
    pub scheme: String,
    /// The host, when the URL has one.
    pub host: Option<String>,
    /// The path, such as `/api/data`.
    pub path: String,
    /// The query after `?`, when the URL has one.
    pub query: Option<String>,
}

/// What `url::Url::parse` yields for a text: `None` when it is refused,
/// otherwise the scheme, host (if any), path and query (if any) of the
/// parsed URL.
pub uninterp spec fn parsed_url(text: Seq<char>) -> Option<(Seq<char>, Option<Seq<char>>, Seq<char>, Option<Seq<char>>)>;

/// What `url::Url::query_pairs` yields for the URL parsed from a text:
/// `None` when the text is refused, otherwise the decoded query pairs in order.
pub uninterp spec fn parsed_query_pairs(text: Seq<char>) -> Option<Seq<(Seq<char>, Seq<char>)>>;

/// What resolving a reference against a base URL yields (`url::Url::parse`
/// of the base, then `Url::join`): the serialisation of the joined URL, or
/// the text of the parse error met on the way.
pub uninterp spec fn joined_url(base: Seq<char>, reference: Seq<char>) -> Result<Seq<char>, Seq<char>>;

/// `url::Url::parse` followed by `scheme`, `host_str`, `path` and `query`. The
/// result is the name `parsed_url` applied to the text; the URL grammar
/// itself (WHATWG URL standard) is not restated.
#[verifier::external_body]
pub(crate) fn parse_url(text: &str) -> (r: Option<UrlParts>)
    ensures
        match r {
            Some(p) => parsed_url(text@) == Some((p.scheme@, opt_view(p.host), p.path@, opt_view(p.query))),
            None => parsed_url(text@) is None,
        },
{
    match url::Url::parse(text) {
        Ok(u) => Some(
            UrlParts {
                scheme: u.scheme().to_string(),
                host: u.host_str().map(|h| h.to_string()),
                path: u.path().to_string(),
                query: u.query().map(|q| q.to_string()),
            },
        ),
        Err(_) => None,
    }
}

/// `url::Url::parse` followed by `query_pairs`: the decoded
/// `application/x-www-form-urlencoded` pairs of the query, named
/// `parsed_query_pairs`. The result is absent exactly when parsing fails,
/// as for `parse_url`, since both start with the same `Url::parse`.
#[verifier::external_body]
pub(crate) fn url_query_pairs(text: &str) -> (r: Option<Vec<(String, String)>>)
    ensures
        match r {
            Some(v) => parsed_query_pairs(text@) == Some(crate::text::pairs_view(v@)),
            None => parsed_query_pairs(text@) is None,
        },
        r is None <==> parsed_url(text@) is None,
{
    match url::Url::parse(text) {
        Ok(u) => Some(u.query_pairs().map(|(k, v)| (k.to_string(), v.to_string())).collect()),
        Err(_) => None,
    }
}

/// `url::Url::parse` of `base` followed by `Url::join` with `reference` and
/// `to_string`: the resolved URL or the error's text, named `joined_url`.
#[verifier::external_body]
pub(crate) fn join_url(base: &str, reference: &str) -> (r: Result<String, String>)
    ensures
        match r {
            Ok(s) => joined_url(base@, reference@) == Ok::<Seq<char>, Seq<char>>(s@),
            Err(e) => joined_url(base@, reference@) == Err::<Seq<char>, Seq<char>>(e@),
        },
{
    match url::Url::parse(base) {
        Ok(b) => match b.join(reference) {
            Ok(j) => Ok(j.to_string()),
            Err(e) => Err(e.to_string()),
        },
        Err(e) => Err(e.to_string()),
    }
}

} // verus!
