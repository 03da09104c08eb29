//! URLs: their parts, what may be shown of them, and query strings.
use vstd::prelude::*;

use crate::text;

verus! {

/// What `url::Url` says of a URL.
#[derive(Clone, Debug)]
pub struct UrlParts {
    pub scheme: String,
    pub username: String,
    pub has_password: bool,
    pub host: Option<String>,
    pub path: String,
    /// The URL without its query and its fragment.
    pub bare: String,
}

/// What the contracts say of the parts of a URL.
pub struct UrlModel {
    pub scheme: Seq<char>,
    pub username: Seq<char>,
    pub has_password: bool,
    pub host: Option<Seq<char>>,
    pub path: Seq<char>,
    pub bare: Seq<char>,
}

impl View for UrlParts {
    type V = UrlModel;

    open spec fn view(&self) -> UrlModel {
        UrlModel {
            scheme: self.scheme@,
            username: self.username@,
            has_password: self.has_password,
            host: text::opt_text(self.host),
            path: self.path@,
            bare: self.bare@,
        }
    }
}

/// What the contracts say of the parts, where there are any.
pub open spec fn opt_parts(parts: Option<UrlParts>) -> Option<UrlModel> {
    match parts {
        Some(parts) => Some(parts@),
        None => None,
    }
}

/// The parts of the URL that `url::Url::parse` reads from a text.
pub uninterp spec fn url_parts(value: Seq<char>) -> Option<UrlModel>;

/// `url::Url::parse`, with the scheme, the user's name, the password, the host and the path of
/// what it reads, and the text of it once `set_query` and `set_fragment` have taken the query and
/// the fragment away.
#[verifier::external_body]
pub(crate) fn split_url(value: &str) -> (parts: Option<UrlParts>)
    ensures
        opt_parts(parts) == url_parts(value@),
{
    let mut url = url::Url::parse(value).ok()?;
    let scheme = url.scheme().to_owned();
    let username = url.username().to_owned();
    let has_password = url.password().is_some();
    let host = url.host_str().map(str::to_owned);
    let path = url.path().to_owned();
    url.set_query(None);
    url.set_fragment(None);
    Some(UrlParts { scheme, username, has_password, host, path, bare: url.into() })
}

/// What may be shown of a URL: nothing where it is not one of the web or carries credentials.
pub open spec fn shown_url(parts: Option<UrlModel>) -> Option<Seq<char>> {
    match parts {
        None => None,
        Some(parts) => if (parts.scheme == "http"@ || parts.scheme == "https"@)
            && parts.username.len() == 0 && !parts.has_password {
            Some(parts.bare)
        } else {
            None
        },
    }
}

/// What may be shown of a URL that was taken apart.
pub fn safe_url(parts: Option<UrlParts>) -> (url: Option<String>)
    ensures
        text::opt_text(url) == shown_url(opt_parts(parts)),
{
    match parts {
        None => None,
        Some(parts) => {
            if (text::same(parts.scheme.as_str(), "http") || text::same(
                parts.scheme.as_str(),
                "https",
            )) && parts.username.as_str().is_empty() && !parts.has_password {
                Some(parts.bare)
            } else {
                None
            }
        },
    }
}

/// A name and a value of a query string.
#[derive(Clone, Debug)]
pub struct QueryPair {
    pub name: String,
    pub value: String,
}

/// What the contracts say of the pairs of a query string.
pub open spec fn query_pairs(pairs: Seq<QueryPair>) -> Seq<(Seq<char>, Seq<char>)> {
    pairs.map_values(|pair: QueryPair| (pair.name@, pair.value@))
}

/// The pairs that `url::form_urlencoded::parse` reads from a query string.
pub uninterp spec fn form_pairs(query: Seq<char>) -> Seq<(Seq<char>, Seq<char>)>;

/// `url::form_urlencoded::parse`: the decoded pairs of a query string, in their order.
#[verifier::external_body]
pub(crate) fn read_query(query: &str) -> (pairs: Vec<QueryPair>)
    ensures
        query_pairs(pairs@) == form_pairs(query@),
{
    url::form_urlencoded::parse(query.as_bytes())
        .map(|(name, value)| QueryPair { name: name.into_owned(), value: value.into_owned() })
        .collect()
}

} // verus!
