//! Absolute HTTP(S) URLs, parsed and joined by the `url` crate.
use vstd::prelude::*;
use crate::error::{opt_chars, HttpError};

verus! {

/// The parts of a parsed URL as plain values: serialization, scheme, host,
/// domain (the host when it is a domain name, not an IP address) and path.
pub type UrlParts = (Seq<char>, Seq<char>, Option<Seq<char>>, Option<Seq<char>>, Seq<char>);

/// What `url::Url::parse` gives for a text, read through `as_str`, `scheme`,
/// `host_str`, `domain` and `path`; or the text of its `ParseError`.
pub uninterp spec fn url_parse_outcome(s: Seq<char>) -> Result<UrlParts, Seq<char>>;

/// What `url::Url::join` gives for a base URL (given by its serialization)
/// and an input, read through `as_str`; or the text of its `ParseError`.
pub uninterp spec fn url_join_outcome(base: Seq<char>, input: Seq<char>) -> Result<
    Seq<char>,
    Seq<char>,
>;

/// A parsed URL, read into plain values.
pub struct ParsedUrl {
    pub serialization: String,
    pub scheme: String,
    pub host: Option<String>,
    pub domain: Option<String>,
    pub path: String,
}

impl View for ParsedUrl {
    type V = UrlParts;

    open spec fn view(&self) -> UrlParts {
        (
            self.serialization@,
            self.scheme@,
            opt_chars(self.host),
            opt_chars(self.domain),
            self.path@,
        )
    }
}

/// The plain values of a parse outcome.
pub open spec fn parse_view(r: Result<ParsedUrl, String>) -> Result<UrlParts, Seq<char>> {
    match r {
        Ok(p) => Ok(p@),
        Err(e) => Err(e@),
    }
}

/// The plain values of a text-or-error outcome.
pub open spec fn text_result_view(r: Result<String, String>) -> Result<Seq<char>, Seq<char>> {
    match r {
        Ok(t) => Ok(t@),
        Err(e) => Err(e@),
    }
}

/// Calls `url::Url::parse` on `s`, and reads the parsed URL into plain values
/// (`as_str`, `scheme`, `host_str`, `domain`, `path`); on failure, the error's
/// text. The contract states only that the outcome is the named outcome for `s`.
#[verifier::external_body]
fn parse_url_parts(s: &str) -> (r: Result<ParsedUrl, String>)
    ensures
        parse_view(r) == url_parse_outcome(s@),
{
    match url::Url::parse(s) {
        Ok(u) => Ok(
            ParsedUrl {
                serialization: u.as_str().to_string(),
                scheme: u.scheme().to_string(),
                host: u.host_str().map(String::from),
                domain: u.domain().map(String::from),
                path: u.path().to_string(),
            },
        ),
        Err(e) => Err(e.to_string()),
    }
}

/// Calls `url::Url::join` with the URL whose serialization is `base` (parsed
/// by `url::Url::parse`) and `input`, and returns the joined URL's
/// serialization, or the error's text. The contract states only that the
/// outcome is the named outcome for `base` and `input`.
#[verifier::external_body]
fn join_url(base: &str, input: &str) -> (r: Result<String, String>)
    ensures
        text_result_view(r) == url_join_outcome(base@, input@),
{
    match url::Url::parse(base) {
        Ok(b) => match b.join(input) {
            Ok(j) => Ok(j.as_str().to_string()),
            Err(e) => Err(e.to_string()),
        },
        Err(e) => Err(e.to_string()),
    }
}

/// The plain values of a `Url`: its serialization, host, domain and path.
pub struct UrlV {
    pub raw: Seq<char>,
    pub host: Seq<char>,
    pub domain: Option<Seq<char>>,
    pub path: Seq<char>,
}

/// An absolute URL whose scheme is `http` or `https`.
#[derive(Debug)]
pub struct Url {
    raw: String,
    host: String,
    domain: Option<String>,
    path: String,
}

impl View for Url {
    type V = UrlV;

    closed spec fn view(&self) -> UrlV {
        UrlV { raw: self.raw@, host: self.host@, domain: opt_chars(self.domain), path: self.path@ }
    }
}

/// Reason given for a URL whose scheme is neither `http` nor `https`.
pub open spec fn missing_protocol() -> Seq<char> {
    "Missing protocol http or https"@
}

/// Reason given for a URL that has no host.
pub open spec fn missing_host() -> Seq<char> {
    "Missing host"@
}

/// The URL that a text denotes, or the reason it denotes none.
pub open spec fn url_from_text(s: Seq<char>) -> Result<UrlV, Seq<char>> {
    match url_parse_outcome(s) {
        Err(e) => Err(e),
        Ok(p) => if p.1 != "http"@ && p.1 != "https"@ {
            Err(missing_protocol())
        } else {
            match p.2 {
                None => Err(missing_host()),
                Some(h) => Ok(UrlV { raw: p.0, host: h, domain: p.3, path: p.4 }),
            }
        },
    }
}

/// Reason given when a location can not be joined to a URL.
pub open spec fn relative_path_reason(input: Seq<char>) -> Seq<char> {
    "Can not use relative path '"@ + input + "'"@
}

/// The URL reached from `base` by following `input`, or the invalid URL and
/// the reason.
pub open spec fn url_joined(base: UrlV, input: Seq<char>) -> Result<UrlV, (Seq<char>, Seq<char>)> {
    match url_join_outcome(base.raw, input) {
        Err(_) => Err((base.raw, relative_path_reason(input))),
        Ok(j) => match url_from_text(j) {
            Ok(u) => Ok(u),
            Err(reason) => Err((j, reason)),
        },
    }
}

impl Url {
    /// Every `Url` is what some text parses to: an `http` or `https` URL
    /// with a host.
    #[verifier::type_invariant]
    closed spec fn parsed_from_text(self) -> bool {
        exists|s: Seq<char>| url_from_text(s) == Ok::<UrlV, Seq<char>>(self@)
    }

    /// Parses an absolute `http` or `https` URL.
    pub fn from_str(s: &str) -> (r: Result<Url, HttpError>)
        ensures
            r matches Ok(u) ==> url_from_text(s@) == Ok::<UrlV, Seq<char>>(u@),
            r matches Err(e) ==> e matches HttpError::InvalidUrl(text, reason) && text@ == s@
                && url_from_text(s@) == Err::<UrlV, Seq<char>>(reason@),
            r is Err ==> url_from_text(s@) is Err,
    {
        match parse_url_parts(s) {
            Err(e) => Err(HttpError::InvalidUrl(s.to_owned(), e)),
            Ok(p) => {
                let http = "http";
                let https = "https";
                proof {
                    reveal_strlit("http");
                    reveal_strlit("https");
                }
                if !crate::text::str_eq(p.scheme.as_str(), http) && !crate::text::str_eq(
                    p.scheme.as_str(),
                    https,
                ) {
                    return Err(HttpError::InvalidUrl(s.to_owned(), "Missing protocol http or https".to_owned()));
                }
                match p.host {
                    None => Err(HttpError::InvalidUrl(s.to_owned(), "Missing host".to_owned())),
                    Some(host) => {
                        let u = Url { raw: p.serialization, host, domain: p.domain, path: p.path };
                        Ok(u)
                    },
                }
            },
        }
    }

    /// The URL's serialization.
    pub fn raw(&self) -> (r: String)
        ensures
            r@ == self@.raw,
    {
        self.raw.clone()
    }

    /// The URL's host.
    pub fn host(&self) -> (r: String)
        ensures
            r@ == self@.host,
    {
        self.host.clone()
    }

    /// The URL's host when it is a domain name.
    pub fn domain(&self) -> (r: Option<String>)
        ensures
            opt_chars(r) == self@.domain,
    {
        match &self.domain {
            Some(d) => Some(d.clone()),
            None => None,
        }
    }

    /// The URL's path.
    pub fn path(&self) -> (r: String)
        ensures
            r@ == self@.path,
    {
        self.path.clone()
    }


    /// The URL reached from this one by following `input` (a relative or
    /// absolute reference), which must itself be an `http` or `https` URL.
    pub fn join(&self, input: &str) -> (r: Result<Url, HttpError>)
        ensures
            r matches Ok(u) ==> url_joined(self@, input@) == Ok::<UrlV, (Seq<char>, Seq<char>)>(
                u@,
            ),
            r matches Err(e) ==> e matches HttpError::InvalidUrl(text, reason)
                && url_joined(self@, input@) == Err::<UrlV, (Seq<char>, Seq<char>)>(
                (text@, reason@),
            ),
    {
        match join_url(self.raw.as_str(), input) {
            Err(_) => {
                let mut reason = "Can not use relative path '".to_owned();
                reason.append(input);
                reason.append("'");
                Err(HttpError::InvalidUrl(self.raw.clone(), reason))
            },
            Ok(j) => match Url::from_str(j.as_str()) {
                Ok(u) => Ok(u),
                Err(e) => Err(e),
            },
        }
    }
}

impl Clone for Url {
    /// A copy of this URL.
    fn clone(&self) -> (r: Url)
        ensures
            r@ == self@,
    {
        proof {
            use_type_invariant(self);
        }
        Url { raw: self.raw(), host: self.host(), domain: self.domain(), path: self.path() }
    }
}

} // verus!
