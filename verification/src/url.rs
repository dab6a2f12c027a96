//! The parts of a URL that the relay reads, as the `url` crate parses them.

use vstd::prelude::*;

verus! {

/// A parsed absolute URL, as plain strings.
pub struct UrlParts {
    /// Lower-cased, without the `:`.
    pub scheme: String,
    pub host: Option<String>,
    pub username: String,
    pub password: Option<String>,
    pub path: String,
    pub query: Option<String>,
    pub fragment: Option<String>,
}

/// A parsed URL as values.
pub struct UrlView {
    pub scheme: Seq<char>,
    pub host: Option<Seq<char>>,
    pub username: Seq<char>,
    pub password: Option<Seq<char>>,
    pub path: Seq<char>,
    pub query: Option<Seq<char>>,
    pub fragment: Option<Seq<char>>,
}

pub open spec fn opt_view(s: Option<String>) -> Option<Seq<char>> {
    match s {
        Some(s) => Some(s@),
        None => None,
    }
}

impl View for UrlParts {
    type V = UrlView;

    open spec fn view(&self) -> UrlView {
        UrlView {
            scheme: self.scheme@,
            host: opt_view(self.host),
            username: self.username@,
            password: opt_view(self.password),
            path: self.path@,
            query: opt_view(self.query),
            fragment: opt_view(self.fragment),
        }
    }
}

/// A URL parse outcome as values: the parts, or the error's message.
pub open spec fn parsed_view(r: Result<UrlParts, String>) -> Result<UrlView, Seq<char>> {
    match r {
        Ok(u) => Ok(u@),
        Err(e) => Err(e@),
    }
}

/// What `url::Url::parse` makes of a string: the URL's scheme, host (as `host_str` gives
/// it), user name, password, path, query and fragment, or the `Display` text of its error.
pub uninterp spec fn url_parse(input: Seq<char>) -> Result<UrlView, Seq<char>>;

/// Parses an absolute URL with `url::Url::parse` and reads its parts with `Url::scheme`,
/// `Url::host_str`, `Url::username`, `Url::password`, `Url::path`, `Url::query` and
/// `Url::fragment`; an error becomes its `Display` text. The outcome is trusted to be
/// `url_parse` of the input: a function of the input alone.
#[verifier::external_body]
pub(crate) fn parse_url(input: &str) -> (r: Result<UrlParts, String>)
    ensures
        parsed_view(r) == url_parse(input@),
{
    match ::url::Url::parse(input) {
        Ok(u) => Ok(UrlParts {
            scheme: u.scheme().to_owned(),
            host: u.host_str().map(str::to_owned),
            username: u.username().to_owned(),
            password: u.password().map(str::to_owned),
            path: u.path().to_owned(),
            query: u.query().map(str::to_owned),
            fragment: u.fragment().map(str::to_owned),
        }),
        Err(e) => Err(e.to_string()),
    }
}

} // verus!
