//! Cookies: those of a cookie store and those sent with a request.
use vstd::prelude::*;
use crate::text::{ends_with, joined, starts_with, str_eq};
use crate::url::{Url, UrlV};

verus! {

/// A cookie of a cookie store, with the fields of a Netscape cookie line.
#[derive(Debug)]
pub struct Cookie {
    pub domain: String,
    pub include_subdomain: String,
    pub path: String,
    pub https: String,
    pub expires: String,
    pub name: String,
    pub value: String,
    pub http_only: bool,
}

/// The plain values of a `Cookie`.
pub struct CookieV {
    pub domain: Seq<char>,
    pub include_subdomain: Seq<char>,
    pub path: Seq<char>,
    pub https: Seq<char>,
    pub expires: Seq<char>,
    pub name: Seq<char>,
    pub value: Seq<char>,
    pub http_only: bool,
}

impl View for Cookie {
    type V = CookieV;

    open spec fn view(&self) -> CookieV {
        CookieV {
            domain: self.domain@,
            include_subdomain: self.include_subdomain@,
            path: self.path@,
            https: self.https@,
            expires: self.expires@,
            name: self.name@,
            value: self.value@,
            http_only: self.http_only,
        }
    }
}

/// A cookie's Netscape line: an optional `#HttpOnly_` mark, then domain,
/// subdomain flag, path, https flag, expiry, name and value, separated by tabs.
pub open spec fn netscape_line(c: CookieV) -> Seq<char> {
    (if c.http_only {
        "#HttpOnly_"@
    } else {
        Seq::empty()
    }) + c.domain + "\t"@ + c.include_subdomain + "\t"@ + c.path + "\t"@ + c.https + "\t"@
        + c.expires + "\t"@ + c.name + "\t"@ + c.value
}

impl Cookie {
    /// The cookie as a Netscape cookie line.
    pub fn to_string(&self) -> (r: String)
        ensures
            r@ == netscape_line(self@),
    {
        let tab = "\t";
        let mark = "#HttpOnly_";
        proof {
            reveal_strlit("\t");
            reveal_strlit("#HttpOnly_");
        }
        let mut s = String::new();
        if self.http_only {
            s.append(mark);
        }
        s.append(self.domain.as_str());
        s.append(tab);
        s.append(self.include_subdomain.as_str());
        s.append(tab);
        s.append(self.path.as_str());
        s.append(tab);
        s.append(self.https.as_str());
        s.append(tab);
        s.append(self.expires.as_str());
        s.append(tab);
        s.append(self.name.as_str());
        s.append(tab);
        s.append(self.value.as_str());
        s
    }
}

/// A cookie sent with a request: a name and a value.
#[derive(Clone, Debug)]
pub struct RequestCookie {
    pub name: String,
    pub value: String,
}

impl View for RequestCookie {
    type V = (Seq<char>, Seq<char>);

    open spec fn view(&self) -> (Seq<char>, Seq<char>) {
        (self.name@, self.value@)
    }
}

/// A request cookie as text: `name=value`.
pub open spec fn cookie_pair(c: (Seq<char>, Seq<char>)) -> Seq<char> {
    c.0 + "="@ + c.1
}

/// The `Cookie` header value for a list of request cookies: their pairs
/// joined by `; `.
pub open spec fn cookie_header(cs: Seq<(Seq<char>, Seq<char>)>) -> Seq<char> {
    joined(cs.map_values(|c: (Seq<char>, Seq<char>)| cookie_pair(c)), "; "@)
}

impl RequestCookie {
    /// The cookie as `name=value`.
    pub fn to_string(&self) -> (r: String)
        ensures
            r@ == cookie_pair(self@),
    {
        let eq = "=";
        proof {
            reveal_strlit("=");
        }
        let mut s = String::new();
        s.append(self.name.as_str());
        s.append(eq);
        s.append(self.value.as_str());
        s
    }
}

/// Whether a stored cookie applies to a URL: when the URL has a domain, a
/// host-only cookie (`include_subdomain` is `FALSE`) needs that exact domain
/// and any other cookie needs its domain to end the URL's domain; and the
/// cookie's path must start the URL's path.
pub open spec fn cookie_matches(c: CookieV, u: UrlV) -> bool {
    &&& match u.domain {
        Some(d) => if c.include_subdomain == "FALSE"@ {
            c.domain == d
        } else {
            c.domain.is_suffix_of(d)
        },
        None => true,
    }
    &&& c.path.is_prefix_of(u.path)
}

/// Matches cookie for a given URL.
pub fn match_cookie(cookie: &Cookie, url: &Url) -> (r: bool)
    ensures
        r == cookie_matches(cookie@, url@),
{
    let false_flag = "FALSE";
    proof {
        reveal_strlit("FALSE");
    }
    if let Some(domain) = url.domain() {
        if str_eq(cookie.include_subdomain.as_str(), false_flag) {
            if !str_eq(cookie.domain.as_str(), domain.as_str()) {
                return false;
            }
        } else if !ends_with(domain.as_str(), cookie.domain.as_str()) {
            return false;
        }
    }
    starts_with(url.path().as_str(), cookie.path.as_str())
}

impl Clone for Cookie {
    /// A copy of this cookie.
    fn clone(&self) -> (r: Cookie)
        ensures
            r@ == self@,
    {
        Cookie {
            domain: self.domain.clone(),
            include_subdomain: self.include_subdomain.clone(),
            path: self.path.clone(),
            https: self.https.clone(),
            expires: self.expires.clone(),
            name: self.name.clone(),
            value: self.value.clone(),
            http_only: self.http_only,
        }
    }
}


/// A stored cookie matches a URL only when its path is a prefix of the
/// URL's path, character by character; when the URL has a domain, a
/// host-only cookie (`include_subdomain` is `FALSE`) needs exactly that
/// domain, and any other cookie needs its domain to be a suffix of it.
pub proof fn law_cookie_match(c: CookieV, u: UrlV)
    ensures
        cookie_matches(c, u) ==> c.path.len() <= u.path.len() && forall|i: int|
            0 <= i < c.path.len() ==> #[trigger] c.path[i] == u.path[i],
        cookie_matches(c, u) && u.domain is Some && c.include_subdomain == seq![
            'F',
            'A',
            'L',
            'S',
            'E',
        ] ==> c.domain == u.domain->0,
        cookie_matches(c, u) && u.domain is Some ==> c.domain.len() <= (u.domain->0).len()
            && forall|i: int|
            0 <= i < c.domain.len() ==> #[trigger] c.domain[i] == (u.domain->0)[(u.domain->0).len()
                - c.domain.len() + i],
{
    reveal_strlit("FALSE");
    assert("FALSE"@ =~= seq!['F', 'A', 'L', 'S', 'E']);
    if cookie_matches(c, u) {
        assert forall|i: int| 0 <= i < c.path.len() implies #[trigger] c.path[i] == u.path[i] by {
            assert(c.path[i] == u.path.subrange(0, c.path.len() as int)[i]);
        }
        if u.domain is Some {
            let d = u.domain->0;
            assert forall|i: int| 0 <= i < c.domain.len() implies #[trigger] c.domain[i] == d[d.len()
                - c.domain.len() + i] by {
                if c.include_subdomain != "FALSE"@ {
                    assert(c.domain[i] == d.subrange(d.len() - c.domain.len(), d.len() as int)[i]);
                }
            }
        }
    }
}

} // verus!
