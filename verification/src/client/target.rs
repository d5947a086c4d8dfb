//! The server that a base URL names.
use vstd::prelude::*;
use vstd::utf8::*;

verus! {

/// `url::ParseError`.
#[verifier::external_type_specification]
#[verifier::external_body]
pub struct ExUrlParseError(url::ParseError);

/// The host of the URL that `url::Url::parse` reads from a text: `None` if the text is no URL,
/// `Some(None)` if the URL has no host.
pub uninterp spec fn url_host(base: Seq<char>) -> Option<Option<Seq<char>>>;

/// The domain of the URL that `url::Url::parse` reads from a text: `None` if the text is no URL,
/// `Some(None)` if its host is missing or an address.
pub uninterp spec fn url_domain(base: Seq<char>) -> Option<Option<Seq<char>>>;

/// An optional string as characters.
pub open spec fn text_view(s: Option<String>) -> Option<Seq<char>> {
    match s {
        Some(t) => Some(t@),
        None => None,
    }
}

/// `Url::parse`, then `Url::host_str`. The result depends on the text alone.
#[verifier::external_body]
fn parse_host(base: &str) -> (r: Result<Option<String>, url::ParseError>)
    ensures
        match r {
            Ok(h) => url_host(base@) == Some(text_view(h)),
            Err(_) => url_host(base@) is None,
        },
{
    match url::Url::parse(base) {
        Ok(u) => Ok(u.host_str().map(String::from)),
        Err(e) => Err(e),
    }
}

/// `Url::parse`, then `Url::domain`. The result depends on the text alone; it fails for the same
/// texts as reading the host does, and a domain is the host.
#[verifier::external_body]
fn parse_domain(base: &str) -> (r: Result<Option<String>, url::ParseError>)
    ensures
        match r {
            Ok(d) => url_domain(base@) == Some(text_view(d)) && url_host(base@) is Some && (
            d is Some ==> url_host(base@) == Some(text_view(d))),
            Err(_) => url_domain(base@) is None && url_host(base@) is None,
        },
{
    match url::Url::parse(base) {
        Ok(u) => Ok(u.domain().map(String::from)),
        Err(e) => Err(e),
    }
}

/// Where requests go.
pub struct Target {
    /// The value of `:authority`.
    pub authority: Vec<u8>,
    /// The name that the TLS handshake asks for; none for an address.
    pub server_name: Option<String>,
}

/// Why a base URL names no server.
#[derive(Debug)]
pub enum TargetError {
    /// The text is no URL.
    Url(url::ParseError),
    /// The URL has no host.
    NoHost,
}

/// Builds the target from a host and a domain as found in a URL.
pub fn target_of_parts(host: Option<String>, domain: Option<String>) -> (r: Option<Target>)
    ensures
        match host {
            Some(h) => r matches Some(t) && t.authority@ == encode_utf8(h@) && t.server_name
                == domain,
            None => r is None,
        },
{
    match host {
        Some(h) => Some(
            Target {
                authority: vstd::slice::slice_to_vec(h.as_str().as_bytes()),
                server_name: domain,
            },
        ),
        None => None,
    }
}

/// Finds the server that a base URL names.
pub fn target_of(base: &str) -> (r: Result<Target, TargetError>)
    ensures
        match url_host(base@) {
            None => r matches Err(TargetError::Url(_)),
            Some(None) => r matches Err(TargetError::NoHost),
            Some(Some(host)) => r matches Ok(t) && t.authority@ == encode_utf8(host) && url_domain(
                base@,
            ) == Some(text_view(t.server_name)) && (t.server_name matches Some(d) ==> d@ == host),
        },
{
    let host = match parse_host(base) {
        Ok(h) => h,
        Err(e) => {
            return Err(TargetError::Url(e));
        },
    };
    let domain = match parse_domain(base) {
        Ok(d) => d,
        Err(e) => {
            return Err(TargetError::Url(e));
        },
    };
    match target_of_parts(host, domain) {
        Some(t) => Ok(t),
        None => Err(TargetError::NoHost),
    }
}

} // verus!
