//! The HTTP client of the WebAssembly build: building the request URL and
//! its `Cookie` header, choosing cookies from a store, and the decisions
//! taken between two calls while following redirections.
use vstd::prelude::*;
use crate::cookie::{cookie_header, cookie_matches, cookie_pair, match_cookie, netscape_line, Cookie, CookieV, RequestCookie};
use crate::error::HttpError;
use crate::header::{aggregated, first_named, has_named, lemma_without_named, strings_view, without_named, HeaderV, HeaderVec};
use crate::text::{chars_of, contains_char, joined, lemma_joined_nonempty, lemma_joined_step};
use crate::uri::{encode_uri_component, uri_component_encoded};
use crate::url::{url_joined, Url, UrlV};

verus! {

/// Name of the header that carries a redirection's target.
pub open spec fn location_name() -> Seq<char> {
    "Location"@
}

/// Name of the header that carries credentials.
pub open spec fn authorization_name() -> Seq<char> {
    "Authorization"@
}

/// An HTTP method, such as `GET`.
#[derive(Clone, Debug)]
pub struct Method(pub String);

impl View for Method {
    type V = Seq<char>;

    open spec fn view(&self) -> Seq<char> {
        self.0@
    }
}

/// A query-string or form parameter.
#[derive(Clone, Debug)]
pub struct Param {
    pub name: String,
    pub value: String,
}

impl View for Param {
    type V = (Seq<char>, Seq<char>);

    open spec fn view(&self) -> (Seq<char>, Seq<char>) {
        (self.name@, self.value@)
    }
}

/// A count that may be unbounded.
#[derive(Clone, Copy, Debug, PartialEq, Eq)]
pub enum Count {
    Finite(usize),
    Infinite,
}

/// Options of the client.
#[derive(Clone, Debug)]
pub struct ClientOptions {
    /// Whether redirections are followed.
    pub follow_location: bool,
    /// Whether credentials are still sent when a redirection changes host.
    pub follow_location_trusted: bool,
    /// The most redirections followed.
    pub max_redirect: Count,
    /// User credentials, `user:password`.
    pub user: Option<String>,
    /// Extra header lines (`name: value`) added to every request.
    pub headers: Vec<String>,
    /// Timeout of a call, in seconds; 0 means none.
    pub timeout_secs: u64,
}

/// What to send: method, URL, headers, query string, form, cookies and body.
#[derive(Clone, Debug)]
pub struct RequestSpec {
    pub method: Method,
    pub url: Url,
    pub headers: HeaderVec,
    pub querystring: Vec<Param>,
    pub form: Vec<Param>,
    pub cookies: Vec<RequestCookie>,
    pub body: Vec<u8>,
}

/// An HTTP protocol version.
#[derive(Clone, Copy, Debug, PartialEq, Eq)]
pub enum HttpVersion {
    Http10,
    Http11,
    Http2,
    Http3,
}

/// What came back: protocol version, status code, headers, body, how long
/// the call took, the URL that answered and the address of the server.
#[derive(Debug)]
pub struct Response {
    pub version: HttpVersion,
    pub status: u32,
    pub headers: HeaderVec,
    pub body: Vec<u8>,
    pub duration: std::time::Duration,
    pub url: Url,
    pub ip_addr: String,
}

impl Clone for Response {
    /// A copy of this response.
    fn clone(&self) -> (r: Response)
        ensures
            r.version == self.version,
            r.status == self.status,
            r.headers@ == self.headers@,
            r.body@ == self.body@,
            r.duration == self.duration,
            r.url@ == self.url@,
            r.ip_addr@ == self.ip_addr@,
    {
        Response {
            version: self.version,
            status: self.status,
            headers: self.headers.duplicate(),
            body: self.body.clone(),
            duration: self.duration,
            url: self.url.clone(),
            ip_addr: self.ip_addr.clone(),
        }
    }
}

/// What a request sends as its body.
#[derive(Clone, Copy, Debug, PartialEq, Eq)]
pub enum BodyKind {
    /// No body.
    Empty,
    /// The form parameters, URL-encoded.
    Form,
    /// The body bytes, as text.
    Text,
}

/// What a request sends as its body: its bytes when it has any, otherwise
/// its form when it has one, otherwise nothing.
pub open spec fn body_kind_of(spec: RequestSpec) -> BodyKind {
    if spec.body@.len() > 0 {
        BodyKind::Text
    } else if spec.form@.len() > 0 {
        BodyKind::Form
    } else {
        BodyKind::Empty
    }
}

impl RequestSpec {
    /// What this request sends as its body: its bytes when it has any (they
    /// replace a form), otherwise its form when it has one, otherwise nothing.
    pub fn body_kind(&self) -> (r: BodyKind)
        ensures
            r == body_kind_of(*self),
    {
        if self.body.len() > 0 {
            BodyKind::Text
        } else if self.form.len() > 0 {
            BodyKind::Form
        } else {
            BodyKind::Empty
        }
    }
}

impl ClientOptions {
    /// Whether a call can be aborted on timeout: the timeout is not zero.
    pub fn has_timeout(&self) -> (r: bool)
        ensures
            r == (self.timeout_secs > 0),
    {
        self.timeout_secs > 0
    }
}

/// The plain values of a list of parameters.
pub open spec fn params_view(ps: Seq<Param>) -> Seq<(Seq<char>, Seq<char>)> {
    ps.map_values(|p: Param| p@)
}

/// The plain values of a list of request cookies.
pub open spec fn request_cookies_view(cs: Seq<RequestCookie>) -> Seq<(Seq<char>, Seq<char>)> {
    cs.map_values(|c: RequestCookie| c@)
}

/// The plain values of a list of stored cookies.
pub open spec fn cookies_view(cs: Seq<Cookie>) -> Seq<CookieV> {
    cs.map_values(|c: Cookie| c@)
}

/// Parameters as `name=value` pairs joined by `&`, each name paired with the
/// value of the same position in `values`.
pub open spec fn params_text(ps: Seq<(Seq<char>, Seq<char>)>, values: Seq<Seq<char>>) -> Seq<char> {
    joined(Seq::new(ps.len(), |i: int| ps[i].0 + "="@ + values[i]), "&"@)
}

/// Parameters URL-encoded: `name=encodeURIComponent(value)` joined by `&`.
pub open spec fn encoded_params(ps: Seq<(Seq<char>, Seq<char>)>) -> Seq<char> {
    params_text(ps, Seq::new(ps.len(), |i: int| uri_component_encoded(ps[i].1)))
}

/// What goes between a URL and its added parameters: nothing when the URL
/// ends with `?`, `&` when it holds a `?` elsewhere, `?` otherwise.
pub open spec fn query_separator(raw: Seq<char>) -> Seq<char> {
    if raw.len() > 0 && raw.last() == '?' {
        Seq::empty()
    } else if raw.contains('?') {
        "&"@
    } else {
        "?"@
    }
}

/// A URL with parameters added: unchanged without parameters, otherwise the
/// URL, its separator and the encoded parameters.
pub open spec fn url_with_params(raw: Seq<char>, ps: Seq<(Seq<char>, Seq<char>)>) -> Seq<char> {
    if ps.len() == 0 {
        raw
    } else {
        raw + query_separator(raw) + encoded_params(ps)
    }
}

/// The method of the request that follows a redirection with status
/// `status`: `GET` for 301, 302 and 303, the original method otherwise.
pub open spec fn redirect_method_spec(status: u32, original: Seq<char>) -> Seq<char> {
    if 301 <= status <= 303 {
        "GET"@
    } else {
        original
    }
}

/// The stored cookies sent with a request to `u`: those not expired
/// (`expires` is not `1`) that match `u`, as name and value, in store order.
pub open spec fn selected_cookies(store: Seq<CookieV>, u: UrlV) -> Seq<(Seq<char>, Seq<char>)>
    decreases store.len(),
{
    if store.len() == 0 {
        Seq::empty()
    } else {
        let rest = selected_cookies(store.drop_last(), u);
        let c = store.last();
        if c.expires != "1"@ && cookie_matches(c, u) {
            rest.push((c.name, c.value))
        } else {
            rest
        }
    }
}

/// The target of a redirection, read from a response: the value of its first
/// `Location` header when the status is a 3xx, nothing otherwise.
pub open spec fn redirect_location(status: u32, hs: Seq<HeaderV>) -> Option<Seq<char>> {
    if !(300 <= status < 400) {
        None
    } else {
        match first_named(hs, location_name()) {
            Some(i) => Some(hs[i].1),
            None => None,
        }
    }
}

/// What following a response from `request_url` gives: nothing to follow,
/// the next URL, or an invalid URL error.
pub open spec fn follow_outcome(
    request_url: UrlV,
    status: u32,
    hs: Seq<HeaderV>,
    r: Result<Option<Url>, HttpError>,
) -> bool {
    match redirect_location(status, hs) {
        None => r matches Ok(None),
        Some(loc) => match url_joined(request_url, loc) {
            Ok(u) => r matches Ok(Some(v)) && v@ == u,
            Err(e) => r matches Err(HttpError::InvalidUrl(t, reason)) && t@ == e.0 && reason@
                == e.1,
        },
    }
}

/// The client of the WebAssembly build. It holds the cookies added to its
/// cookie jar.
#[derive(Debug)]
pub struct Client {
    cookies: Vec<Cookie>,
}

/// Where a chain of redirections stands: the request to send next, the
/// options in force, and how many redirections were followed so far.
#[derive(Clone, Debug)]
pub struct RedirectState {
    pub request_spec: RequestSpec,
    pub options: ClientOptions,
    pub redirect_count: usize,
}

/// Whether following a redirection from `from` to `to` drops the
/// credentials: the host changes and the options do not trust the new host.
pub open spec fn drops_credentials(from: UrlV, to: UrlV, options: ClientOptions) -> bool {
    from.host != to.host && !options.follow_location_trusted
}

/// Whether one more redirection goes beyond the options' limit.
pub open spec fn too_many_redirects(state: RedirectState) -> bool {
    match state.options.max_redirect {
        Count::Finite(max) => state.redirect_count + 1 > max,
        Count::Infinite => false,
    }
}

/// The state after following a redirection with status `status` from
/// `request_url` to `target`: one more redirection; the method as
/// `redirect_method_spec` says; the target URL; the same headers, less every
/// `Authorization` header when the credentials are dropped; no query string,
/// form, cookies or body; the same options, less the user when the
/// credentials are dropped.
pub open spec fn redirected(
    old: RedirectState,
    request_url: UrlV,
    status: u32,
    target: UrlV,
    new: RedirectState,
) -> bool {
    let drop = drops_credentials(request_url, target, old.options);
    &&& new.redirect_count == old.redirect_count + 1
    &&& new.request_spec.method@ == redirect_method_spec(status, old.request_spec.method@)
    &&& new.request_spec.url@ == target
    &&& new.request_spec.headers@ == if drop {
        without_named(old.request_spec.headers@, authorization_name())
    } else {
        old.request_spec.headers@
    }
    &&& new.request_spec.querystring@.len() == 0
    &&& new.request_spec.form@.len() == 0
    &&& new.request_spec.cookies@.len() == 0
    &&& new.request_spec.body@.len() == 0
    &&& new.options.follow_location == old.options.follow_location
    &&& new.options.follow_location_trusted == old.options.follow_location_trusted
    &&& new.options.max_redirect == old.options.max_redirect
    &&& new.options.headers@ == old.options.headers@
    &&& new.options.timeout_secs == old.options.timeout_secs
    &&& new.options.user == if drop {
        None
    } else {
        old.options.user
    }
}

/// The method of the request that follows a redirection. As curl does, a
/// 301, 302 or 303 turns the method into `GET`; any other status keeps it.
pub fn redirect_method(response_status: u32, original_method: Method) -> (r: Method)
    ensures
        r@ == redirect_method_spec(response_status, original_method@),
{
    if 301 <= response_status && response_status <= 303 {
        let get = "GET";
        proof {
            reveal_strlit("GET");
        }
        Method(get.to_owned())
    } else {
        original_method
    }
}

/// The request cookies of `request_spec`, followed by the cookies of
/// `cookie_storage` that are not expired and match the request's URL.
pub fn all_cookies(cookie_storage: &[Cookie], request_spec: &RequestSpec) -> (r: Vec<RequestCookie>)
    ensures
        request_cookies_view(r@) == request_cookies_view(request_spec.cookies@) + selected_cookies(
            cookies_view(cookie_storage@),
            request_spec.url@,
        ),
{
    let mut cookies: Vec<RequestCookie> = Vec::new();
    let mut i: usize = 0;
    while i < request_spec.cookies.len()
        invariant
            i <= request_spec.cookies.len(),
            cookies@.len() == i,
            forall|k: int| 0 <= k < i ==> #[trigger] cookies@[k]@ == request_spec.cookies@[k]@,
        decreases request_spec.cookies.len() - i,
    {
        let c = &request_spec.cookies[i];
        cookies.push(RequestCookie { name: c.name.clone(), value: c.value.clone() });
        i = i + 1;
    }
    assert(request_cookies_view(cookies@) =~= request_cookies_view(request_spec.cookies@));
    let ghost base = request_cookies_view(request_spec.cookies@);
    let ghost store = cookies_view(cookie_storage@);
    let expired = "1";
    proof {
        reveal_strlit("1");
    }
    let mut j: usize = 0;
    while j < cookie_storage.len()
        invariant
            j <= cookie_storage.len(),
            store == cookies_view(cookie_storage@),
            expired@ == "1"@,
            request_cookies_view(cookies@) == base + selected_cookies(store.take(j as int), request_spec.url@),
        decreases cookie_storage.len() - j,
    {
        assert(store.take(j + 1).drop_last() =~= store.take(j as int));
        assert(store.take(j + 1).last() == cookie_storage@[j as int]@);
        let c = &cookie_storage[j];
        if !crate::text::str_eq(c.expires.as_str(), expired) && match_cookie(c, &request_spec.url) {
            let ghost before = cookies@;
            let rc = RequestCookie { name: c.name.clone(), value: c.value.clone() };
            cookies.push(rc);
            proof {
                lemma_request_cookies_view_push(before, rc);
                let sel = selected_cookies(store.take(j as int), request_spec.url@);
                assert(selected_cookies(store.take(j + 1), request_spec.url@) == sel.push(rc@));
                assert((base + sel).push(rc@) =~= base + sel.push(rc@));
            }
        }
        j = j + 1;
    }
    assert(store.take(cookie_storage.len() as int) =~= store);
    cookies
}

/// Viewing a list after a push views the list, then the pushed cookie.
proof fn lemma_request_cookies_view_push(cs: Seq<RequestCookie>, c: RequestCookie)
    ensures
        request_cookies_view(cs.push(c)) == request_cookies_view(cs).push(c@),
{
    assert(request_cookies_view(cs.push(c)) =~= request_cookies_view(cs).push(c@));
}

impl Client {
    /// The cookies of this client's cookie jar, in the order they were added.
    pub closed spec fn cookie_jar(&self) -> Seq<CookieV> {
        cookies_view(self.cookies@)
    }

    /// A new client, with an empty cookie jar.
    pub fn new() -> (r: Client)
        ensures
            r.cookie_jar() == Seq::<CookieV>::empty(),
    {
        let r = Client { cookies: Vec::new() };
        assert(r.cookie_jar() =~= Seq::<CookieV>::empty());
        r
    }

    /// A URL with a separator appended, ready for parameters: nothing when
    /// the URL ends with `?`, `&` when it holds a `?`, `?` otherwise.
    pub fn with_query_separator(raw: &str) -> (r: String)
        ensures
            r@ == raw@ + query_separator(raw@),
    {
        let v = chars_of(raw);
        let mut s = raw.to_owned();
        if v.len() > 0 && v[v.len() - 1] == '?' {
            assert(s@ =~= raw@ + query_separator(raw@));
        } else if contains_char(raw, '?') {
            let amp = "&";
            proof {
                reveal_strlit("&");
            }
            s.append(amp);
        } else {
            let q = "?";
            proof {
                reveal_strlit("?");
            }
            s.append(q);
        }
        s
    }

    /// Parameters as `name=value` pairs joined by `&`, where each value is
    /// taken already encoded from `encoded_values`, at the same position.
    pub fn join_encoded_params(params: &[Param], encoded_values: &Vec<String>) -> (r: String)
        requires
            encoded_values.len() == params.len(),
        ensures
            r@ == params_text(
                params_view(params@),
                Seq::new(params@.len(), |i: int| encoded_values@[i]@),
            ),
    {
        let ghost ps = params_view(params@);
        let ghost items = Seq::new(
            ps.len(),
            |i: int| ps[i].0 + "="@ + Seq::new(params@.len(), |k: int| encoded_values@[k]@)[i],
        );
        let amp = "&";
        let eq = "=";
        proof {
            reveal_strlit("&");
            reveal_strlit("=");
        }
        let mut s = String::new();
        let mut i: usize = 0;
        while i < params.len()
            invariant
                i <= params.len(),
                encoded_values.len() == params.len(),
                amp@ == "&"@,
                eq@ == "="@,
                ps == params_view(params@),
                items == Seq::new(
                    ps.len(),
                    |i: int| ps[i].0 + "="@ + Seq::new(params@.len(), |k: int| encoded_values@[k]@)[i],
                ),
                s@ == joined(items.take(i as int), "&"@),
            decreases params.len() - i,
        {
            proof {
                lemma_joined_step(items, "&"@, i as int);
            }
            if i > 0 {
                s.append(amp);
            }
            let ghost mid = s@;
            s.append(params[i].name.as_str());
            s.append(eq);
            s.append(encoded_values[i].as_str());
            assert(items[i as int] == params@[i as int].name@ + "="@ + encoded_values@[i as int]@);
            assert(s@ =~= mid + items[i as int]);
            if i == 0 {
                assert(mid =~= Seq::<char>::empty());
                assert(s@ =~= items[0]);
            }
            i = i + 1;
        }
        assert(items.take(params.len() as int) =~= items);
        s
    }

    /// Parameters URL-encoded with `encodeURIComponent`, as `name=value`
    /// pairs joined by `&`.
    pub fn url_encode_params(&mut self, params: &[Param]) -> (r: String)
        ensures
            *final(self) == *old(self),
            r@ == encoded_params(params_view(params@)),
    {
        let mut values: Vec<String> = Vec::new();
        let mut i: usize = 0;
        while i < params.len()
            invariant
                i <= params.len(),
                values.len() == i,
                forall|k: int| 0 <= k < i ==> #[trigger] values@[k]@ == uri_component_encoded(
                    params@[k].value@,
                ),
            decreases params.len() - i,
        {
            values.push(encode_uri_component(params[i].value.as_str()));
            i = i + 1;
        }
        let r = Self::join_encoded_params(params, &values);
        assert(Seq::new(params@.len(), |k: int| values@[k]@) =~= Seq::new(
            params_view(params@).len(),
            |k: int| uri_component_encoded(params_view(params@)[k].1),
        ));
        r
    }

    /// The URL to call: `url` with `params` added as its query string.
    pub fn generate_url(&mut self, url: &Url, params: &[Param]) -> (r: String)
        ensures
            *final(self) == *old(self),
            r@ == url_with_params(url@.raw, params_view(params@)),
    {
        let raw = url.raw();
        if params.len() == 0 {
            raw
        } else {
            let mut u = Self::with_query_separator(raw.as_str());
            let s = self.url_encode_params(params);
            u.append(s.as_str());
            u
        }
    }

    /// The URL to call, the method and the headers: the request's headers
    /// aggregated with the options' header lines.
    pub fn configure(&mut self, request_spec: &RequestSpec, options: &ClientOptions) -> (r: Result<
        (String, Method, HeaderVec),
        HttpError,
    >)
        ensures
            *final(self) == *old(self),
            r matches Ok((u, m, h)) && u@ == url_with_params(
                request_spec.url@.raw,
                params_view(request_spec.querystring@),
            ) && m@ == request_spec.method@ && h@ == aggregated(
                request_spec.headers@,
                strings_view(options.headers@),
            ),
    {
        let url = self.generate_url(&request_spec.url, request_spec.querystring.as_slice());
        let headers = request_spec.headers.aggregate_raw_headers(options.headers.as_slice());
        Ok((url, Method(request_spec.method.0.clone()), headers))
    }

    /// The cookies of this client's cookie jar, in the order they were added.
    pub fn cookie_storage(&mut self) -> (r: Vec<Cookie>)
        ensures
            cookies_view(r@) == old(self).cookie_jar(),
            *final(self) == *old(self),
    {
        let mut r: Vec<Cookie> = Vec::new();
        let mut i: usize = 0;
        while i < self.cookies.len()
            invariant
                i <= self.cookies.len(),
                r@.len() == i,
                forall|k: int| 0 <= k < i ==> #[trigger] r@[k]@ == self.cookies@[k]@,
            decreases self.cookies.len() - i,
        {
            r.push(self.cookies[i].clone());
            i = i + 1;
        }
        assert(cookies_view(r@) =~= cookies_view(self.cookies@));
        r
    }

    /// Empties this client's cookie jar, and gives the debug message to log.
    pub fn clear_cookie_storage(&mut self) -> (r: String)
        ensures
            final(self).cookie_jar() == Seq::<CookieV>::empty(),
            r@ == "Clear cookie storage (experimental)"@,
    {
        self.cookies = Vec::new();
        assert(self.cookie_jar() =~= Seq::<CookieV>::empty());
        "Clear cookie storage (experimental)".to_owned()
    }

    /// Adds a cookie to the cookie jar, and gives the debug message to log,
    /// which shows the cookie's Netscape line.
    pub fn add_cookie(&mut self, cookie: &Cookie) -> (r: String)
        ensures
            final(self).cookie_jar() == old(self).cookie_jar().push(cookie@),
            r@ == "Add to cookie store <"@ + netscape_line(cookie@) + "> (experimental)"@,
    {
        let mut s = "Add to cookie store <".to_owned();
        let line = cookie.to_string();
        s.append(line.as_str());
        s.append("> (experimental)");
        self.cookies.push(cookie.clone());
        assert(self.cookie_jar() =~= old(self).cookie_jar().push(cookie@));
        s
    }

    /// The `Cookie` header value for `cookies`: their `name=value` pairs
    /// joined by `; `, or nothing when there is no cookie.
    pub fn get_cookies(&mut self, cookies: &[RequestCookie]) -> (r: Option<String>)
        ensures
            *final(self) == *old(self),
            r is None <==> cookies@.len() == 0,
            r matches Some(s) ==> s@ == cookie_header(request_cookies_view(cookies@)),
    {
        let ghost items = request_cookies_view(cookies@).map_values(
            |c: (Seq<char>, Seq<char>)| cookie_pair(c),
        );
        let sep = "; ";
        proof {
            reveal_strlit("; ");
        }
        let mut s = String::new();
        let mut i: usize = 0;
        while i < cookies.len()
            invariant
                i <= cookies.len(),
                sep@ == "; "@,
                items == request_cookies_view(cookies@).map_values(
                    |c: (Seq<char>, Seq<char>)| cookie_pair(c),
                ),
                s@ == joined(items.take(i as int), "; "@),
            decreases cookies.len() - i,
        {
            proof {
                lemma_joined_step(items, "; "@, i as int);
            }
            if i > 0 {
                s.append(sep);
            }
            let ghost mid = s@;
            let pair = cookies[i].to_string();
            s.append(pair.as_str());
            assert(items[i as int] == cookie_pair(cookies@[i as int]@));
            if i == 0 {
                assert(mid =~= Seq::<char>::empty());
                assert(s@ =~= items[0]);
            }
            i = i + 1;
        }
        assert(items.take(cookies.len() as int) =~= items);
        proof {
            if cookies@.len() > 0 {
                reveal_strlit("=");
                assert forall|k: int| 0 <= k < items.len() implies #[trigger] items[k].len() > 0 by {
                    assert(items[k] =~= cookies@[k].name@ + "="@ + cookies@[k].value@);
                }
                lemma_joined_nonempty(items, "; "@);
            }
        }
        if !s.as_str().is_empty() {
            Some(s)
        } else {
            None
        }
    }

    /// The URL that a response redirects to, if it does: for a 3xx status,
    /// the request URL joined with the first `Location` header's value.
    pub fn follow_location(&mut self, request_url: &Url, response: &Response) -> (r: Result<
        Option<Url>,
        HttpError,
    >)
        ensures
            *final(self) == *old(self),
            follow_outcome(request_url@, response.status, response.headers@, r),
    {
        let response_code = response.status;
        if !(300 <= response_code && response_code < 400) {
            return Ok(None);
        }
        let location_header = "Location";
        proof {
            reveal_strlit("Location");
        }
        let location = match response.headers.get(location_header) {
            Some(h) => h,
            None => {
                return Ok(None);
            },
        };
        match request_url.join(location.value.as_str()) {
            Ok(url) => Ok(Some(url)),
            Err(e) => Err(e),
        }
    }

    /// What follows the call made for `state`, once the URL it redirects to
    /// is known: nothing when there is none; an error when one more
    /// redirection goes beyond the limit; otherwise the next state.
    pub fn next_redirect(
        state: RedirectState,
        request_url: &Url,
        status: u32,
        redirect_url: Option<Url>,
    ) -> (r: Result<Option<RedirectState>, HttpError>)
        requires
            state.redirect_count < usize::MAX,
        ensures
            redirect_url is None ==> r matches Ok(None),
            redirect_url matches Some(target) ==> if too_many_redirects(state) {
                r matches Err(HttpError::TooManyRedirect)
            } else {
                r matches Ok(Some(next)) && redirected(state, request_url@, status, target@, next)
            },
    {
        let redirect_url = match redirect_url {
            None => {
                return Ok(None);
            },
            Some(u) => u,
        };
        let ghost old_state = state;
        let RedirectState { request_spec, mut options, redirect_count } = state;
        let redirect_count = redirect_count + 1;
        if let Count::Finite(max_redirect) = options.max_redirect {
            if redirect_count > max_redirect {
                return Err(HttpError::TooManyRedirect);
            }
        }
        let RequestSpec { method, url: _, headers, querystring: _, form: _, cookies: _, body: _ } =
            request_spec;
        let method = redirect_method(status, method);
        let mut headers = headers;
        let host_changed = !crate::text::str_eq(
            request_url.host().as_str(),
            redirect_url.host().as_str(),
        );
        if host_changed && !options.follow_location_trusted {
            let authorization = "Authorization";
            proof {
                reveal_strlit("Authorization");
            }
            headers.remove_named(authorization);
            options.user = None;
        }
        let request_spec = RequestSpec {
            method,
            url: redirect_url,
            headers,
            querystring: Vec::new(),
            form: Vec::new(),
            cookies: Vec::new(),
            body: Vec::new(),
        };
        Ok(Some(RedirectState { request_spec, options, redirect_count }))
    }

    /// One turn of following redirections, once the call for `state` has
    /// been made to `request_url` and `response` came back: nothing more to
    /// do when the options do not follow redirections or the response does
    /// not redirect; otherwise the next state, or the error met.
    pub fn redirect_step(
        &mut self,
        state: RedirectState,
        request_url: &Url,
        response: &Response,
    ) -> (r: Result<Option<RedirectState>, HttpError>)
        requires
            state.redirect_count < usize::MAX,
        ensures
            *final(self) == *old(self),
            !state.options.follow_location ==> r matches Ok(None),
            state.options.follow_location ==> match redirect_location(
                response.status,
                response.headers@,
            ) {
                None => r matches Ok(None),
                Some(loc) => match url_joined(request_url@, loc) {
                    Err(e) => r matches Err(HttpError::InvalidUrl(t, reason)) && t@ == e.0
                        && reason@ == e.1,
                    Ok(target) => if too_many_redirects(state) {
                        r matches Err(HttpError::TooManyRedirect)
                    } else {
                        r matches Ok(Some(next)) && redirected(
                            state,
                            request_url@,
                            response.status,
                            target,
                            next,
                        )
                    },
                },
            },
    {
        if !state.options.follow_location {
            return Ok(None);
        }
        let redirect_url = self.follow_location(request_url, response)?;
        Self::next_redirect(state, request_url, response.status, redirect_url)
    }
}

impl RedirectState {
    /// The state before the first call: the request as given, no redirection yet.
    pub fn new(request_spec: RequestSpec, options: ClientOptions) -> (r: RedirectState)
        ensures
            r.request_spec == request_spec,
            r.options == options,
            r.redirect_count == 0,
    {
        RedirectState { request_spec, options, redirect_count: 0 }
    }
}


/// A redirection to another host, when the options do not trust it, sends
/// no `Authorization` header (whatever the case of its name) and no user.
pub proof fn law_no_credentials_to_untrusted_host(
    old: RedirectState,
    request_url: UrlV,
    status: u32,
    target: UrlV,
    new: RedirectState,
)
    requires
        redirected(old, request_url, status, target, new),
        request_url.host != target.host,
        !old.options.follow_location_trusted,
    ensures
        !has_named(new.request_spec.headers@, authorization_name()),
        new.options.user is None,
{
    lemma_without_named(old.request_spec.headers@, authorization_name());
}

/// A redirection that stays on the same host, or that the options trust,
/// keeps every header and the user.
pub proof fn law_trusted_redirect_keeps_credentials(
    old: RedirectState,
    request_url: UrlV,
    status: u32,
    target: UrlV,
    new: RedirectState,
)
    requires
        redirected(old, request_url, status, target, new),
        request_url.host == target.host || old.options.follow_location_trusted,
    ensures
        new.request_spec.headers@ == old.request_spec.headers@,
        new.options.user == old.options.user,
{
}

/// However many redirections are followed, their count never goes beyond a
/// finite limit, and the limit itself is kept from state to state.
pub proof fn law_redirect_count_within_limit(
    old: RedirectState,
    request_url: UrlV,
    status: u32,
    target: UrlV,
    new: RedirectState,
    max: usize,
)
    requires
        old.options.max_redirect == Count::Finite(max),
        !too_many_redirects(old),
        redirected(old, request_url, status, target, new),
    ensures
        new.redirect_count <= max,
        new.options.max_redirect == Count::Finite(max),
{
}

/// Every cookie taken from the store for a URL is one that is not expired
/// and matches the URL; every such cookie is taken.
pub proof fn law_selected_cookies(store: Seq<CookieV>, u: UrlV)
    ensures
        forall|k: int|
            0 <= k < selected_cookies(store, u).len() ==> exists|i: int|
                0 <= i < store.len() && store[i].expires != "1"@ && cookie_matches(store[i], u)
                    && #[trigger] selected_cookies(store, u)[k] == (store[i].name, store[i].value),
        forall|i: int|
            0 <= i < store.len() && #[trigger] store[i].expires != "1"@ && cookie_matches(
                store[i],
                u,
            ) ==> selected_cookies(store, u).contains((store[i].name, store[i].value)),
    decreases store.len(),
{
    if store.len() > 0 {
        let d = store.drop_last();
        law_selected_cookies(d, u);
        let rest = selected_cookies(d, u);
        let sel = selected_cookies(store, u);
        assert forall|k: int| 0 <= k < sel.len() implies exists|i: int|
            0 <= i < store.len() && store[i].expires != "1"@ && cookie_matches(store[i], u)
                && #[trigger] sel[k] == (store[i].name, store[i].value) by {
            if k < rest.len() {
                assert(sel[k] == rest[k]);
                let i = choose|i: int|
                    0 <= i < d.len() && d[i].expires != "1"@ && cookie_matches(d[i], u)
                        && #[trigger] rest[k] == (d[i].name, d[i].value);
                assert(store[i] == d[i]);
            } else {
                assert(store[store.len() - 1] == store.last());
            }
        }
        assert forall|i: int|
            0 <= i < store.len() && #[trigger] store[i].expires != "1"@ && cookie_matches(
                store[i],
                u,
            ) implies sel.contains((store[i].name, store[i].value)) by {
            if i < store.len() - 1 {
                assert(d[i] == store[i]);
                assert(d[i].expires != "1"@);
                assert(rest.contains((d[i].name, d[i].value)));
                let k = choose|k: int| 0 <= k < rest.len() && rest[k] == (d[i].name, d[i].value);
                assert(sel[k] == rest[k]);
            } else {
                assert(sel[sel.len() - 1] == (store[i].name, store[i].value));
            }
        }
    }
}


/// Taking cookies from two stores put end to end takes them from the first
/// store, then from the second.
pub proof fn law_selected_cookies_concat(s1: Seq<CookieV>, s2: Seq<CookieV>, u: UrlV)
    ensures
        selected_cookies(s1 + s2, u) == selected_cookies(s1, u) + selected_cookies(s2, u),
    decreases s2.len(),
{
    if s2.len() == 0 {
        assert(s1 + s2 =~= s1);
        assert(selected_cookies(s1, u) + selected_cookies(s2, u) =~= selected_cookies(s1, u));
    } else {
        law_selected_cookies_concat(s1, s2.drop_last(), u);
        assert((s1 + s2).drop_last() =~= s1 + s2.drop_last());
        assert((s1 + s2).last() == s2.last());
        let a = selected_cookies(s1, u);
        let b = selected_cookies(s2.drop_last(), u);
        let c = s2.last();
        if c.expires != "1"@ && cookie_matches(c, u) {
            assert((a + b).push((c.name, c.value)) =~= a + b.push((c.name, c.value)));
        }
    }
}

/// Viewing two stores put end to end views the first, then the second.
pub proof fn lemma_cookies_view_concat(s1: Seq<Cookie>, s2: Seq<Cookie>)
    ensures
        cookies_view(s1 + s2) == cookies_view(s1) + cookies_view(s2),
{
    assert(cookies_view(s1 + s2) =~= cookies_view(s1) + cookies_view(s2));
}

/// What `all_cookies` gives for two stores put end to end is what it gives
/// for the first store, followed by what it gives for the second store and a
/// request without cookies of its own.
pub proof fn law_all_cookies_concat(
    s1: Seq<Cookie>,
    s2: Seq<Cookie>,
    request_cookies: Seq<(Seq<char>, Seq<char>)>,
    u: UrlV,
)
    ensures
        request_cookies + selected_cookies(cookies_view(s1 + s2), u) == (request_cookies
            + selected_cookies(cookies_view(s1), u)) + (Seq::<(Seq<char>, Seq<char>)>::empty()
            + selected_cookies(cookies_view(s2), u)),
{
    lemma_cookies_view_concat(s1, s2);
    law_selected_cookies_concat(cookies_view(s1), cookies_view(s2), u);
    assert(request_cookies + selected_cookies(cookies_view(s1 + s2), u) =~= (request_cookies
        + selected_cookies(cookies_view(s1), u)) + (Seq::<(Seq<char>, Seq<char>)>::empty()
        + selected_cookies(cookies_view(s2), u)));
}

/// A chain of followed redirections: each state is reached from the one
/// before by following a redirection from `request_urls[i]` with status
/// `statuses[i]` to `targets[i]`, within the options' limit.
pub open spec fn redirect_chain(
    states: Seq<RedirectState>,
    request_urls: Seq<UrlV>,
    statuses: Seq<u32>,
    targets: Seq<UrlV>,
) -> bool {
    &&& states.len() >= 1
    &&& request_urls.len() == states.len() - 1
    &&& statuses.len() == states.len() - 1
    &&& targets.len() == states.len() - 1
    &&& forall|i: int|
        0 <= i < states.len() - 1 ==> !too_many_redirects(#[trigger] states[i]) && redirected(
            states[i],
            request_urls[i],
            statuses[i],
            targets[i],
            states[i + 1],
        )
}

/// Along a chain that starts with no redirection, the i-th request has
/// followed i redirections and, under a finite limit, the number of
/// requests made is at most the limit plus one.
pub proof fn law_chain_calls_within_limit(
    states: Seq<RedirectState>,
    request_urls: Seq<UrlV>,
    statuses: Seq<u32>,
    targets: Seq<UrlV>,
    max: usize,
)
    requires
        redirect_chain(states, request_urls, statuses, targets),
        states[0].redirect_count == 0,
        states[0].options.max_redirect == Count::Finite(max),
    ensures
        forall|i: int| 0 <= i < states.len() ==> #[trigger] states[i].redirect_count == i && states[i].redirect_count <= max,
        states.len() <= max + 1,
{
    lemma_chain_prefix(states, request_urls, statuses, targets, states.len() - 1, max);
    assert(states[states.len() - 1].redirect_count == states.len() - 1);
}

/// Induction for `law_chain_calls_within_limit`, up to position `n`.
proof fn lemma_chain_prefix(
    states: Seq<RedirectState>,
    request_urls: Seq<UrlV>,
    statuses: Seq<u32>,
    targets: Seq<UrlV>,
    n: int,
    max: usize,
)
    requires
        redirect_chain(states, request_urls, statuses, targets),
        states[0].redirect_count == 0,
        states[0].options.max_redirect == Count::Finite(max),
        0 <= n < states.len(),
    ensures
        forall|i: int| 0 <= i <= n ==> #[trigger] states[i].redirect_count == i && states[i].redirect_count <= max && states[i].options.max_redirect == Count::Finite(max),
    decreases n,
{
    if n > 0 {
        lemma_chain_prefix(states, request_urls, statuses, targets, n - 1, max);
        assert(!too_many_redirects(states[n - 1]));
        assert(redirected(states[n - 1], request_urls[n - 1], statuses[n - 1], targets[n - 1], states[n]));
    }
}

/// Along a chain, once the user is dropped it stays dropped, and once a
/// redirection drops the credentials, no later request carries an
/// `Authorization` header.
pub proof fn law_chain_credentials_stay_dropped(
    states: Seq<RedirectState>,
    request_urls: Seq<UrlV>,
    statuses: Seq<u32>,
    targets: Seq<UrlV>,
    k: int,
)
    requires
        redirect_chain(states, request_urls, statuses, targets),
        0 <= k < states.len(),
    ensures
        states[k].options.user is None ==> forall|j: int| k <= j < states.len() ==> (#[trigger] states[j]).options.user is None,
        !has_named(states[k].request_spec.headers@, authorization_name()) ==> forall|j: int|
            k <= j < states.len() ==> !has_named((#[trigger] states[j]).request_spec.headers@, authorization_name()),
        k + 1 < states.len() && drops_credentials(request_urls[k], targets[k], states[k].options) ==> forall|j: int|
            k < j < states.len() ==> !has_named((#[trigger] states[j]).request_spec.headers@, authorization_name())
                && states[j].options.user is None,
    decreases states.len() - k,
{
    if k + 1 < states.len() {
        law_chain_credentials_stay_dropped(states, request_urls, statuses, targets, k + 1);
        assert(redirected(states[k], request_urls[k], statuses[k], targets[k], states[k + 1]));
        let old_h = states[k].request_spec.headers@;
        lemma_without_named(old_h, authorization_name());
        if !has_named(old_h, authorization_name()) {
            assert(!has_named(states[k + 1].request_spec.headers@, authorization_name()));
        }
        if drops_credentials(request_urls[k], targets[k], states[k].options) {
            assert(!has_named(states[k + 1].request_spec.headers@, authorization_name()));
            assert(states[k + 1].options.user is None);
        }
    }
}


/// What a call of a `Client` method does to its cookie jar.
pub enum JarEvent {
    /// `add_cookie` with this cookie.
    Added(CookieV),
    /// `clear_cookie_storage`.
    Cleared,
    /// Any other method: the client is left as it was.
    Untouched,
}

/// How a client changes over one call, as each method's contract says.
pub open spec fn jar_step(before: Client, event: JarEvent, after: Client) -> bool {
    match event {
        JarEvent::Added(c) => after.cookie_jar() == before.cookie_jar().push(c),
        JarEvent::Cleared => after.cookie_jar() == Seq::<CookieV>::empty(),
        JarEvent::Untouched => after == before,
    }
}

/// The jar after a sequence of calls, starting from `jar`.
pub open spec fn jar_after(jar: Seq<CookieV>, events: Seq<JarEvent>) -> Seq<CookieV>
    decreases events.len(),
{
    if events.len() == 0 {
        jar
    } else {
        let rest = jar_after(jar, events.drop_last());
        match events.last() {
            JarEvent::Added(c) => rest.push(c),
            JarEvent::Cleared => Seq::empty(),
            JarEvent::Untouched => rest,
        }
    }
}

/// Over any sequence of calls on a client, the jar is what the calls made of
/// it; and a cookie added by some call, with no `clear_cookie_storage` after
/// it, is in the jar (and so in what `cookie_storage` returns).
pub proof fn law_cookie_jar_keeps_added_cookies(
    clients: Seq<Client>,
    events: Seq<JarEvent>,
    k: int,
    c: CookieV,
)
    requires
        clients.len() == events.len() + 1,
        forall|i: int| 0 <= i < events.len() ==> jar_step(clients[i], #[trigger] events[i], clients[i + 1]),
    ensures
        clients.last().cookie_jar() == jar_after(clients[0].cookie_jar(), events),
        0 <= k < events.len() && events[k] == JarEvent::Added(c) && (forall|j: int|
            k < j < events.len() ==> !(#[trigger] events[j] is Cleared))
            ==> clients.last().cookie_jar().contains(c),
    decreases events.len(),
{
    if events.len() > 0 {
        let n = events.len() as int;
        let cs = clients.drop_last();
        let es = events.drop_last();
        assert forall|i: int| 0 <= i < es.len() implies jar_step(cs[i], #[trigger] es[i], cs[i + 1]) by {
            assert(jar_step(clients[i], events[i], clients[i + 1]));
        }
        law_cookie_jar_keeps_added_cookies(cs, es, k, c);
        assert(cs.last() == clients[n - 1]);
        assert(jar_step(clients[n - 1], events[n - 1], clients[n]));
        let before = jar_after(clients[0].cookie_jar(), es);
        if 0 <= k < n && events[k] == JarEvent::Added(c) && (forall|j: int|
            k < j < n ==> !(#[trigger] events[j] is Cleared)) {
            if k == n - 1 {
                assert(before.push(c)[before.len() as int] == c);
            } else {
                assert forall|j: int| k < j < es.len() implies !(#[trigger] es[j] is Cleared) by {
                    assert(es[j] == events[j]);
                }
                assert(es[k] == events[k]);
                assert(before.contains(c));
                let p = choose|p: int| 0 <= p < before.len() && before[p] == c;
                assert(!(events[n - 1] is Cleared));
                match events[n - 1] {
                    JarEvent::Added(d) => {
                        assert(before.push(d)[p] == c);
                    },
                    _ => {},
                }
            }
        }
    }
}


/// After a 301, 302 or 303, the next request is a `GET`, whatever the
/// method of the request that was redirected; after any other status the
/// method is kept.
pub proof fn law_redirect_method(status: u32, original: Seq<char>)
    ensures
        301 <= status <= 303 ==> redirect_method_spec(status, original) == seq!['G', 'E', 'T'],
        !(301 <= status <= 303) ==> redirect_method_spec(status, original) == original,
{
    reveal_strlit("GET");
    assert("GET"@ =~= seq!['G', 'E', 'T']);
}

/// A followed 301, 302 or 303 turns the next request into a `GET`, whatever
/// its method was; any other followed status keeps the method.
pub proof fn law_redirect_step_method(
    old: RedirectState,
    request_url: UrlV,
    status: u32,
    target: UrlV,
    new: RedirectState,
)
    requires
        redirected(old, request_url, status, target, new),
    ensures
        301 <= status <= 303 ==> new.request_spec.method@ == seq!['G', 'E', 'T'],
        !(301 <= status <= 303) ==> new.request_spec.method@ == old.request_spec.method@,
{
    law_redirect_method(status, old.request_spec.method@);
}

/// Only a 3xx response can redirect: for any status below 300 or above 399,
/// whatever its headers, nothing is followed. A 3xx response without a
/// `Location` header (any case) redirects nowhere either.
pub proof fn law_only_3xx_redirects(
    request_url: UrlV,
    status: u32,
    hs: Seq<HeaderV>,
    r: Result<Option<Url>, HttpError>,
)
    requires
        follow_outcome(request_url, status, hs, r),
    ensures
        (status < 300 || status > 399) ==> r matches Ok(None),
        !has_named(hs, location_name()) ==> r matches Ok(None),
        r matches Ok(Some(_)) ==> 300 <= status <= 399 && has_named(hs, location_name()),
{
    crate::header::lemma_first_named(hs, location_name());
}

/// What is put between a URL and its parameters: nothing after a final
/// `?`; a `&` when the URL already holds a `?` elsewhere, so that a second
/// `?` is never added; a `?` only when the URL holds none.
pub proof fn law_query_separator(raw: Seq<char>)
    ensures
        raw.len() > 0 && raw[raw.len() - 1] == '?' ==> query_separator(raw).len() == 0,
        (exists|i: int| 0 <= i < raw.len() && raw[i] == '?') && !(raw.len() > 0 && raw[raw.len()
            - 1] == '?') ==> query_separator(raw) == seq!['&'],
        (forall|i: int| 0 <= i < raw.len() ==> raw[i] != '?') ==> query_separator(raw) == seq![
            '?',
        ],
        !query_separator(raw).contains('?') || (forall|i: int|
            0 <= i < raw.len() ==> raw[i] != '?'),
{
    reveal_strlit("&");
    reveal_strlit("?");
    assert("&"@ =~= seq!['&']);
    assert("?"@ =~= seq!['?']);
    if query_separator(raw).contains('?') {
        if exists|i: int| 0 <= i < raw.len() && raw[i] == '?' {
            let i = choose|i: int| 0 <= i < raw.len() && raw[i] == '?';
            assert(raw.contains('?'));
            if raw.len() > 0 && raw.last() == '?' {
                assert(query_separator(raw).len() == 0);
            } else {
                assert(query_separator(raw) == seq!['&']);
                assert(seq!['&'][0] != '?');
            }
        }
    }
}

} // verus!
