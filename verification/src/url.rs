//! What the library reads of a URL.
use vstd::prelude::*;

verus! {

broadcast use vstd::string::group_string_axioms;

/// The scheme and the host of a URL.
#[derive(Debug, PartialEq, Eq)]
pub struct UrlParts {
    pub scheme: String,
    pub host: Option<String>,
}

pub struct UrlView {
    pub scheme: Seq<char>,
    pub host: Option<Seq<char>>,
}

impl View for UrlParts {
    type V = UrlView;

    open spec fn view(&self) -> UrlView {
        UrlView {
            scheme: self.scheme@,
            host: match self.host {
                Some(host) => Some(host@),
                None => None,
            },
        }
    }
}

/// The result of parsing a URL, by its views.
pub open spec fn parsed_view(parsed: Result<UrlParts, String>) -> Result<UrlView, Seq<char>> {
    match parsed {
        Ok(parts) => Ok(parts@),
        Err(e) => Err(e@),
    }
}

/// The scheme and the host of a URL as the URL standard parses it, or the message of
/// the error.
pub uninterp spec fn url_of(text: Seq<char>) -> Result<UrlView, Seq<char>>;

/// `reqwest::Url::parse`, with `scheme` and `host_str` of the result: both are
/// determined by the text alone. Which texts are URLs is not stated.
#[verifier::external_body]
pub(crate) fn parse_url(text: &str) -> (r: Result<UrlParts, String>)
    ensures
        parsed_view(r) == url_of(text@),
{
    match reqwest::Url::parse(text) {
        Ok(url) => Ok(
            UrlParts {
                scheme: url.scheme().to_owned(),
                host: url.host_str().map(|host| host.to_owned()),
            },
        ),
        Err(e) => Err(e.to_string()),
    }
}

} // verus!
