//! What a URL holds, as far as a repository identity needs it: the scheme,
//! the host and the path. The URL grammar itself is the `url` crate's.

use crate::text::{split, split_str, starts_with, has_prefix, tail, views, SEPARATOR};
use vstd::prelude::*;

verus! {

/// The parts of an absolute URL that an identity is read from.
#[derive(Debug, Clone, PartialEq, Eq)]
pub struct UrlParts {
    /// The scheme, without the colon.
    pub scheme: String,
    /// The host, where the URL has one.
    pub host: Option<String>,
    /// The path, from its leading separator on.
    pub path: String,
}

/// [`UrlParts`] as sequences of characters.
pub struct UrlPartsView {
    pub scheme: Seq<char>,
    pub host: Option<Seq<char>>,
    pub path: Seq<char>,
}

impl View for UrlParts {
    type V = UrlPartsView;

    open spec fn view(&self) -> UrlPartsView {
        UrlPartsView {
            scheme: self.scheme@,
            host: match self.host {
                Some(h) => Some(h@),
                None => None,
            },
            path: self.path@,
        }
    }
}

/// The view of parts that may be missing.
pub open spec fn parts_view(parts: Option<UrlParts>) -> Option<UrlPartsView> {
    match parts {
        Some(p) => Some(p@),
        None => None,
    }
}

/// What the `url` crate makes of `input` as an absolute URL: its scheme,
/// host and path, or `None` where it is no absolute URL.
pub uninterp spec fn url_parts(input: Seq<char>) -> Option<UrlPartsView>;

/// Parses `input` as an absolute URL with `url::Url::parse` and reads the
/// scheme, host and path of the result with `Url::scheme`, `Url::host_str`
/// and `Url::path`.
///
/// Not proved, but taken from the `url` crate: that the outcome depends on
/// `input` alone, and that text without a colon is never an absolute URL
/// (the parser asks for a scheme, which a colon ends, and has no base to
/// resolve a relative reference against).
#[verifier::external_body]
pub(crate) fn parse_url(input: &str) -> (parts: Option<UrlParts>)
    ensures
        parts_view(parts) == url_parts(input@),
        !input@.contains(':') ==> parts is None,
{
    match url::Url::parse(input) {
        Ok(parsed) => Some(
            UrlParts {
                scheme: parsed.scheme().to_owned(),
                host: parsed.host_str().map(str::to_owned),
                path: parsed.path().to_owned(),
            },
        ),
        Err(_) => None,
    }
}

/// A URL was parsed and names a host.
pub open spec fn is_absolute(url: Option<UrlPartsView>) -> bool {
    url matches Some(u) && u.host is Some
}

/// The segments of a URL path: what stands between the separators after
/// the leading one. A path that does not begin with a separator has none.
pub open spec fn path_segments(path: Seq<char>) -> Seq<Seq<char>> {
    if starts_with(path, "/"@) {
        split(path.skip("/"@.len() as int), SEPARATOR)
    } else {
        Seq::empty()
    }
}

/// The segments of a URL path.
pub fn segments_of(path: &str) -> (segments: Vec<String>)
    ensures
        views(segments@) == path_segments(path@),
{
    if has_prefix(path, "/") {
        proof {
            reveal_strlit("/");
        }
        let rest = tail(path, 1);
        split_str(rest.as_str(), SEPARATOR)
    } else {
        let none: Vec<String> = Vec::new();
        proof {
            assert(views(none@) == Seq::<Seq<char>>::empty());
        }
        none
    }
}

} // verus!
