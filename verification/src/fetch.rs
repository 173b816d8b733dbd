//! Fetching a page through the proxy: which proxies are accepted, and what is kept of
//! a response.
use vstd::prelude::*;
use crate::protocol::{error, ErrorCode, ErrorEnvelope, ErrorView};
use crate::settings::{ipv4_of, is_loopback_host, names_loopback};
use crate::text::{concat2, same_text};
use crate::url::{parse_url, parsed_view, url_of, UrlParts, UrlView};

verus! {

broadcast use vstd::string::group_string_axioms;

/// What one request brought. A body that was too long is cut.
#[derive(Debug, PartialEq, Eq, Clone)]
pub struct HttpFetchOutcome {
    pub status: u16,
    pub location: Option<String>,
    pub body: Vec<u8>,
    pub truncated: bool,
}

/// Why a proxy is refused: it must be an HTTP endpoint of the machine itself.
pub open spec fn proxy_error(parsed: Result<UrlView, Seq<char>>) -> Option<ErrorView> {
    match parsed {
        Err(e) => Some(error(ErrorCode::Internal, "代理 URL 非法: "@ + e)),
        Ok(url) => if url.scheme == "http"@ && url.host is Some && is_loopback_host(url.host->0) {
            None
        } else {
            Some(
                error(
                    ErrorCode::SandboxDenied,
                    "fetch 代理必须是本机回环地址上的 http:// 端点"@,
                ),
            )
        },
    }
}

/// Decides on a proxy whose URL is parsed already.
pub fn check_parsed_proxy(parsed: &Result<UrlParts, String>) -> (r: Result<(), ErrorEnvelope>)
    ensures
        match r {
            Ok(()) => proxy_error(parsed_view(*parsed)) is None,
            Err(e) => proxy_error(parsed_view(*parsed)) == Some(e@),
        },
{
    match parsed {
        Err(e) => Err(ErrorEnvelope::new(ErrorCode::Internal, concat2("代理 URL 非法: ", e))),
        Ok(url) => {
            let local = match &url.host {
                Some(host) => names_loopback(host),
                None => false,
            };
            if same_text(&url.scheme, "http") && local {
                Ok(())
            } else {
                Err(
                    ErrorEnvelope::of(
                        ErrorCode::SandboxDenied,
                        "fetch 代理必须是本机回环地址上的 http:// 端点",
                    ),
                )
            }
        },
    }
}

/// Decides on a proxy.
pub fn check_fetch_proxy(proxy_url: &str) -> (r: Result<(), ErrorEnvelope>)
    ensures
        match r {
            Ok(()) => proxy_error(url_of(proxy_url@)) is None,
            Err(e) => proxy_error(url_of(proxy_url@)) == Some(e@),
        },
{
    let parsed = parse_url(proxy_url);
    check_parsed_proxy(&parsed)
}

/// What is kept of a response: of its body at most `max_bytes`.
pub fn fetch_outcome(
    status: u16,
    location: Option<String>,
    body: Vec<u8>,
    max_bytes: usize,
) -> (r: HttpFetchOutcome)
    ensures
        r.status == status,
        r.location == location,
        r.truncated == (body@.len() > max_bytes),
        body@.len() <= max_bytes ==> r.body@ == body@,
        body@.len() > max_bytes ==> r.body@ == body@.subrange(0, max_bytes as int),
{
    let mut kept = body;
    let truncated = kept.len() > max_bytes;
    if truncated {
        kept.truncate(max_bytes);
    }
    HttpFetchOutcome { status, location, body: kept, truncated }
}

/// The host of a provider, through whose proxy everything goes; a URL without one is
/// refused.
pub fn provider_host(parsed: Result<UrlParts, String>) -> (r: Result<String, String>)
    ensures
        match parsed {
            Err(e) => r == Err::<String, String>(e),
            Ok(url) => match url.host {
                Some(host) => r == Ok::<String, String>(host),
                None => r is Err && r->Err_0@ == "provider base_url 缺少主机名"@,
            },
        },
{
    match parsed {
        Err(e) => Err(e),
        Ok(url) => match url.host {
            Some(host) => Ok(host),
            None => Err("provider base_url 缺少主机名".to_string()),
        },
    }
}

/// The host in the URL of a provider.
pub fn host_of_provider(base_url: &str) -> (r: Result<String, String>)
    ensures
        match url_of(base_url@) {
            Err(e) => r is Err && r->Err_0@ == e,
            Ok(url) => match url.host {
                Some(host) => r is Ok && r->Ok_0@ == host,
                None => r is Err && r->Err_0@ == "provider base_url 缺少主机名"@,
            },
        },
{
    provider_host(parse_url(base_url))
}

// ---------------------------------------------------------------------------
// Laws
// ---------------------------------------------------------------------------

/// A proxy is fit where its URL is one, its scheme is `http` and its host is this machine
/// itself; anything else is refused by the sandbox, and what is no URL is an error.
pub proof fn only_local_proxies_are_fit(url: UrlView, e: Seq<char>)
    ensures
        proxy_error(Ok(url)) is None <==> url.scheme == "http"@ && url.host is Some && {
            ||| url.host->0 == "localhost"@
            ||| url.host->0 == "[::1]"@
            ||| (ipv4_of(url.host->0) is Some && (ipv4_of(url.host->0)->0).0 == 127)
        },
        proxy_error(Ok(url)) is Some ==> proxy_error(Ok(url))->0.code == ErrorCode::SandboxDenied,
        proxy_error(Err(e)) is Some,
        proxy_error(Err(e))->0.code == ErrorCode::Internal,
{
}

} // verus!
