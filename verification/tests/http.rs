use hurl_wasm::uri::encode_uri_component;
use hurl_wasm::client::{
    all_cookies, BodyKind, redirect_method, Client, ClientOptions, Count, HttpVersion, Method, Param,
    RedirectState, RequestSpec, Response,
};
use hurl_wasm::cookie::{match_cookie, Cookie, RequestCookie};
use hurl_wasm::error::HttpError;
use hurl_wasm::header::{Header, HeaderVec};
use hurl_wasm::text::{ends_with, starts_with, str_eq, trim_str};
use hurl_wasm::url::Url;

fn url(s: &str) -> Url {
    Url::from_str(s).unwrap()
}

fn cookie(domain: &str, include_subdomain: &str, path: &str, expires: &str, name: &str, value: &str) -> Cookie {
    Cookie {
        domain: domain.to_string(),
        include_subdomain: include_subdomain.to_string(),
        path: path.to_string(),
        https: "FALSE".to_string(),
        expires: expires.to_string(),
        name: name.to_string(),
        value: value.to_string(),
        http_only: false,
    }
}

fn options(follow: bool, trusted: bool, max: Count) -> ClientOptions {
    ClientOptions {
        follow_location: follow,
        follow_location_trusted: trusted,
        max_redirect: max,
        user: Some("bob:secret".to_string()),
        headers: vec![],
        timeout_secs: 0,
    }
}

fn spec(method: &str, u: &str, headers: Vec<Header>) -> RequestSpec {
    let mut hs = HeaderVec::new();
    for h in headers {
        hs.push(h);
    }
    RequestSpec {
        method: Method(method.to_string()),
        url: url(u),
        headers: hs,
        querystring: vec![Param { name: "q".to_string(), value: "1".to_string() }],
        form: vec![],
        cookies: vec![RequestCookie { name: "a".to_string(), value: "b".to_string() }],
        body: b"data".to_vec(),
    }
}

fn response(status: u32, headers: Vec<Header>) -> Response {
    let mut hs = HeaderVec::new();
    for h in headers {
        hs.push(h);
    }
    Response {
        version: HttpVersion::Http11,
        status,
        headers: hs,
        body: vec![],
        duration: std::time::Duration::from_millis(3),
        url: url("http://localhost:8000/"),
        ip_addr: "0.0.0.0".to_string(),
    }
}

#[test]
fn test_trim_and_compare() {
    assert_eq!(trim_str("  \t a b \u{3000}\n"), "a b");
    assert_eq!(trim_str("   "), "");
    assert!(starts_with("/hello/world", "/hello"));
    assert!(!starts_with("/he", "/hello"));
    assert!(ends_with("www.example.com", "example.com"));
    assert!(!ends_with("example.com", "www.example.com"));
    assert!(str_eq("FALSE", "FALSE"));
    assert!(!str_eq("FALSE", "TRUE"));
}

#[test]
fn test_header_parse() {
    let h = Header::parse("Content-Type: text/html; charset=utf-8").unwrap();
    assert_eq!(h.name, "Content-Type");
    assert_eq!(h.value, "text/html; charset=utf-8");
    let h = Header::parse("  Location :http://a.com:8080/x  ").unwrap();
    assert_eq!(h.name, "Location");
    assert_eq!(h.value, "http://a.com:8080/x");
    let h = Header::parse("Empty:").unwrap();
    assert_eq!(h.name, "Empty");
    assert_eq!(h.value, "");
    assert!(Header::parse("HTTP/1.1 200 OK").is_none());
    assert!(Header::parse("").is_none());
}

#[test]
fn test_header_line_roundtrip() {
    let line = format!("{}: {}", "X-Token", "abc def");
    let h = Header::parse(&line).unwrap();
    assert_eq!(h.name, "X-Token");
    assert_eq!(h.value, "abc def");
}

#[test]
fn test_header_name_eq_ignores_case() {
    let h = Header::new("Content-Type", "text/plain");
    assert!(h.name_eq("content-type"));
    assert!(h.name_eq("CONTENT-TYPE"));
    assert!(!h.name_eq("Content-Length"));
}

#[test]
fn test_header_vec_get_and_remove() {
    let mut hs = HeaderVec::new();
    hs.push(Header::new("Authorization", "Basic x"));
    hs.push(Header::new("Accept", "*/*"));
    hs.push(Header::new("authorization", "Bearer y"));
    assert_eq!(hs.get("AUTHORIZATION").unwrap().value, "Basic x");
    assert!(hs.get("Host").is_none());
    assert!(hs.contains_key("accept"));
    hs.remove_named("Authorization");
    assert_eq!(hs.len(), 1);
    assert_eq!(hs.headers[0].name, "Accept");
    assert!(!hs.contains_key("Authorization"));
}

#[test]
fn test_aggregate_raw_headers() {
    let mut hs = HeaderVec::new();
    hs.push(Header::new("Host", "localhost:8000"));
    let raw = vec![
        "User-Agent: hurl/test".to_string(),
        "Invalid-Header".to_string(),
        "host: other".to_string(),
        "X-A: 1".to_string(),
    ];
    let agg = hs.aggregate_raw_headers(&raw);
    assert_eq!(agg.len(), 3);
    assert_eq!(agg.headers[0].name, "Host");
    assert_eq!(agg.headers[0].value, "localhost:8000");
    assert_eq!(agg.headers[1].name, "User-Agent");
    assert_eq!(agg.headers[1].value, "hurl/test");
    assert_eq!(agg.headers[2].name, "X-A");
}

#[test]
fn test_url_from_str() {
    let u = url("http://localhost:8000/hello?x=1");
    assert_eq!(u.raw(), "http://localhost:8000/hello?x=1");
    assert_eq!(u.host(), "localhost");
    assert_eq!(u.domain(), Some("localhost".to_string()));
    assert_eq!(u.path(), "/hello");
    let u = url("https://Example.COM/a/../b");
    assert_eq!(u.raw(), "https://example.com/b");
    assert_eq!(u.path(), "/b");
    let u = url("http://127.0.0.1/x");
    assert_eq!(u.domain(), None);
    assert_eq!(u.host(), "127.0.0.1");
}

#[test]
fn test_url_from_str_errors() {
    match Url::from_str("localhost") {
        Err(HttpError::InvalidUrl(u, reason)) => {
            assert_eq!(u, "localhost");
            assert_eq!(reason, "relative URL without a base");
        }
        _ => panic!("expected an invalid URL"),
    }
    match Url::from_str("ftp://example.com/") {
        Err(HttpError::InvalidUrl(u, reason)) => {
            assert_eq!(u, "ftp://example.com/");
            assert_eq!(reason, "Missing protocol http or https");
        }
        _ => panic!("expected an invalid URL"),
    }
}

#[test]
fn test_url_join() {
    let base = url("http://localhost:8000/a/b");
    assert_eq!(base.join("c").unwrap().raw(), "http://localhost:8000/a/c");
    assert_eq!(base.join("/redirected").unwrap().raw(), "http://localhost:8000/redirected");
    assert_eq!(base.join("https://other.org/x").unwrap().host(), "other.org");
    match base.join("ftp://files.org/") {
        Err(HttpError::InvalidUrl(u, reason)) => {
            assert_eq!(u, "ftp://files.org/");
            assert_eq!(reason, "Missing protocol http or https");
        }
        _ => panic!("expected an invalid URL"),
    }
    match base.join("http://[::1") {
        Err(HttpError::InvalidUrl(u, reason)) => {
            assert_eq!(u, "http://localhost:8000/a/b");
            assert_eq!(reason, "Can not use relative path 'http://[::1'");
        }
        _ => panic!("expected an invalid URL"),
    }
}

#[test]
fn test_match_cookie() {
    let u = url("http://sub.example.com/api/users");
    assert!(match_cookie(&cookie("example.com", "TRUE", "/api", "0", "n", "v"), &u));
    assert!(!match_cookie(&cookie("example.com", "FALSE", "/api", "0", "n", "v"), &u));
    assert!(match_cookie(&cookie("sub.example.com", "FALSE", "/", "0", "n", "v"), &u));
    assert!(!match_cookie(&cookie("other.com", "TRUE", "/", "0", "n", "v"), &u));
    assert!(!match_cookie(&cookie("example.com", "TRUE", "/admin", "0", "n", "v"), &u));
    // No domain (an IP address): only the path counts.
    let ip = url("http://127.0.0.1/api");
    assert!(match_cookie(&cookie("other.com", "FALSE", "/api", "0", "n", "v"), &ip));
}

#[test]
fn test_all_cookies() {
    let s = spec("GET", "http://example.com/api/x", vec![]);
    let store = vec![
        cookie("example.com", "FALSE", "/", "0", "c1", "v1"),
        cookie("example.com", "FALSE", "/", "1", "expired", "v"),
        cookie("other.com", "FALSE", "/", "0", "c3", "v3"),
        cookie("example.com", "TRUE", "/api", "0", "c4", "v4"),
    ];
    let cs = all_cookies(&store, &s);
    let names: Vec<(String, String)> = cs.into_iter().map(|c| (c.name, c.value)).collect();
    assert_eq!(
        names,
        vec![
            ("a".to_string(), "b".to_string()),
            ("c1".to_string(), "v1".to_string()),
            ("c4".to_string(), "v4".to_string()),
        ]
    );
}

#[test]
fn test_get_cookies() {
    let mut client = Client::new();
    assert_eq!(client.get_cookies(&[]), None);
    let cs = vec![
        RequestCookie { name: "a".to_string(), value: "1".to_string() },
        RequestCookie { name: "b".to_string(), value: "".to_string() },
    ];
    assert_eq!(client.get_cookies(&cs), Some("a=1; b=".to_string()));
    let empty = vec![RequestCookie { name: "".to_string(), value: "".to_string() }];
    assert_eq!(client.get_cookies(&empty), Some("=".to_string()));
}

#[test]
fn test_cookie_lines() {
    let c = RequestCookie { name: "id".to_string(), value: "42".to_string() };
    assert_eq!(c.to_string(), "id=42");
    let mut s = cookie("example.com", "FALSE", "/", "0", "n", "v");
    assert_eq!(s.to_string(), "example.com\tFALSE\t/\tFALSE\t0\tn\tv");
    s.http_only = true;
    assert_eq!(s.to_string(), "#HttpOnly_example.com\tFALSE\t/\tFALSE\t0\tn\tv");
    let mut client = Client::new();
    assert_eq!(
        client.add_cookie(&s),
        "Add to cookie store <#HttpOnly_example.com\tFALSE\t/\tFALSE\t0\tn\tv> (experimental)"
    );
    assert_eq!(client.clear_cookie_storage(), "Clear cookie storage (experimental)");
    assert!(client.cookie_storage().is_empty());
}

#[test]
fn test_cookie_jar() {
    let mut client = Client::new();
    assert!(client.cookie_storage().is_empty());
    let c1 = cookie("example.com", "FALSE", "/", "0", "n1", "v1");
    let c2 = cookie("other.org", "TRUE", "/api", "0", "n2", "v2");
    client.add_cookie(&c1);
    client.add_cookie(&c2);
    let stored = client.cookie_storage();
    assert_eq!(stored.len(), 2);
    assert_eq!(stored[0].name, "n1");
    assert_eq!(stored[1].domain, "other.org");
    assert_eq!(client.cookie_storage().len(), 2);
    client.clear_cookie_storage();
    assert!(client.cookie_storage().is_empty());
}

#[test]
fn test_all_cookies_concat() {
    let s = spec("GET", "http://example.com/api/x", vec![]);
    let s1 = vec![
        cookie("example.com", "FALSE", "/", "0", "c1", "v1"),
        cookie("example.com", "FALSE", "/", "1", "expired", "v"),
    ];
    let s2 = vec![
        cookie("other.com", "FALSE", "/", "0", "c3", "v3"),
        cookie("example.com", "TRUE", "/api", "0", "c4", "v4"),
    ];
    let both: Vec<Cookie> = s1.iter().chain(s2.iter()).cloned().collect();
    let mut no_cookies = s.clone();
    no_cookies.cookies = vec![];
    let whole: Vec<String> = all_cookies(&both, &s).iter().map(|c| c.to_string()).collect();
    let mut parts: Vec<String> = all_cookies(&s1, &s).iter().map(|c| c.to_string()).collect();
    parts.extend(all_cookies(&s2, &no_cookies).iter().map(|c| c.to_string()));
    assert_eq!(whole, parts);
    assert_eq!(whole, vec!["a=b", "c1=v1", "c4=v4"]);
}

#[test]
fn test_redirect_method() {
    for status in [301, 302, 303] {
        assert_eq!(redirect_method(status, Method("POST".to_string())).0, "GET");
    }
    for status in [300, 304, 307, 308] {
        assert_eq!(redirect_method(status, Method("POST".to_string())).0, "POST");
    }
}

#[test]
fn test_query_separator() {
    assert_eq!(Client::with_query_separator("http://a.com/x"), "http://a.com/x?");
    assert_eq!(Client::with_query_separator("http://a.com/x?"), "http://a.com/x?");
    assert_eq!(Client::with_query_separator("http://a.com/x?a=1"), "http://a.com/x?a=1&");
}

#[test]
fn test_join_encoded_params() {
    let params = vec![
        Param { name: "a".to_string(), value: "x y".to_string() },
        Param { name: "b".to_string(), value: "é".to_string() },
    ];
    let encoded = vec!["x%20y".to_string(), "%C3%A9".to_string()];
    assert_eq!(Client::join_encoded_params(&params, &encoded), "a=x%20y&b=%C3%A9");
    assert_eq!(Client::join_encoded_params(&[], &vec![]), "");
}

#[test]
fn test_generate_url_without_params() {
    let mut client = Client::new();
    let u = url("http://localhost:8000/hello?x=1");
    assert_eq!(client.generate_url(&u, &[]), "http://localhost:8000/hello?x=1");
}

#[test]
fn test_follow_location() {
    let mut client = Client::new();
    let base = url("http://localhost:8000/redirect");
    let r = response(302, vec![Header::new("location", "/target")]);
    assert_eq!(client.follow_location(&base, &r).unwrap().unwrap().raw(), "http://localhost:8000/target");
    let r = response(200, vec![Header::new("Location", "/target")]);
    assert!(client.follow_location(&base, &r).unwrap().is_none());
    let r = response(301, vec![]);
    assert!(client.follow_location(&base, &r).unwrap().is_none());
    let r = response(400, vec![Header::new("Location", "/target")]);
    assert!(client.follow_location(&base, &r).unwrap().is_none());
    let r = response(307, vec![Header::new("Location", "ftp://x.org/")]);
    assert!(matches!(client.follow_location(&base, &r), Err(HttpError::InvalidUrl(_, _))));
}

#[test]
fn test_redirect_step_not_following() {
    let mut client = Client::new();
    let s = spec("POST", "http://localhost:8000/a", vec![]);
    let state = RedirectState::new(s, options(false, false, Count::Finite(10)));
    let r = response(302, vec![Header::new("Location", "/b")]);
    let u = url("http://localhost:8000/a?q=1");
    assert!(client.redirect_step(state, &u, &r).unwrap().is_none());
}

#[test]
fn test_redirect_step_same_host() {
    let mut client = Client::new();
    let s = spec("POST", "http://localhost:8000/a", vec![Header::new("Authorization", "Basic x")]);
    let state = RedirectState::new(s, options(true, false, Count::Finite(10)));
    let r = response(303, vec![Header::new("Location", "/b")]);
    let u = url("http://localhost:8000/a?q=1");
    let next = client.redirect_step(state, &u, &r).unwrap().unwrap();
    assert_eq!(next.redirect_count, 1);
    assert_eq!(next.request_spec.method.0, "GET");
    assert_eq!(next.request_spec.url.raw(), "http://localhost:8000/b");
    assert_eq!(next.request_spec.headers.len(), 1);
    assert!(next.request_spec.querystring.is_empty());
    assert!(next.request_spec.cookies.is_empty());
    assert!(next.request_spec.body.is_empty());
    assert_eq!(next.options.user, Some("bob:secret".to_string()));
}

#[test]
fn test_redirect_step_other_host_drops_credentials() {
    let mut client = Client::new();
    let s = spec(
        "PUT",
        "http://localhost:8000/a",
        vec![Header::new("authorization", "Basic x"), Header::new("Accept", "*/*")],
    );
    let state = RedirectState::new(s, options(true, false, Count::Infinite));
    let r = response(307, vec![Header::new("Location", "http://other.org/b")]);
    let u = url("http://localhost:8000/a");
    let next = client.redirect_step(state, &u, &r).unwrap().unwrap();
    assert_eq!(next.request_spec.method.0, "PUT");
    assert_eq!(next.request_spec.headers.len(), 1);
    assert_eq!(next.request_spec.headers.headers[0].name, "Accept");
    assert_eq!(next.options.user, None);
}

#[test]
fn test_redirect_step_other_host_trusted() {
    let mut client = Client::new();
    let s = spec("GET", "http://localhost:8000/a", vec![Header::new("Authorization", "Basic x")]);
    let state = RedirectState::new(s, options(true, true, Count::Infinite));
    let r = response(302, vec![Header::new("Location", "http://other.org/b")]);
    let u = url("http://localhost:8000/a");
    let next = client.redirect_step(state, &u, &r).unwrap().unwrap();
    assert_eq!(next.request_spec.headers.len(), 1);
    assert_eq!(next.options.user, Some("bob:secret".to_string()));
}

#[test]
fn test_redirect_chain_within_limit() {
    let mut client = Client::new();
    let s = spec("POST", "http://localhost:8000/a", vec![Header::new("Authorization", "Basic x")]);
    let mut state = RedirectState::new(s, options(true, false, Count::Finite(2)));
    let hops = ["http://other.org/b", "/c", "http://localhost:8000/d"];
    let mut calls = 1;
    let mut outcome = Ok(());
    for hop in hops {
        let u = state.request_spec.url.clone();
        let r = response(302, vec![Header::new("Location", hop)]);
        match client.redirect_step(state.clone(), &u, &r) {
            Ok(Some(next)) => {
                calls += 1;
                assert!(!next.request_spec.headers.contains_key("authorization"));
                assert_eq!(next.options.user, None);
                state = next;
            }
            Ok(None) => break,
            Err(e) => {
                outcome = Err(e);
                break;
            }
        }
    }
    assert_eq!(calls, 3);
    assert!(matches!(outcome, Err(HttpError::TooManyRedirect)));
}

#[test]
fn test_response_clone() {
    let r = response(200, vec![Header::new("A", "1")]);
    let c = r.clone();
    assert_eq!(c.status, 200);
    assert_eq!(c.version, HttpVersion::Http11);
    assert_eq!(c.headers.len(), 1);
    assert_eq!(c.url.raw(), "http://localhost:8000/");
    assert_eq!(c.duration, std::time::Duration::from_millis(3));
    assert_eq!(c.ip_addr, "0.0.0.0");
}

#[test]
fn test_redirect_step_too_many() {
    let mut client = Client::new();
    let s = spec("GET", "http://localhost:8000/a", vec![]);
    let state = RedirectState::new(s, options(true, false, Count::Finite(1)));
    let r = response(302, vec![Header::new("Location", "/b")]);
    let u = url("http://localhost:8000/a");
    let next = client.redirect_step(state, &u, &r).unwrap().unwrap();
    assert_eq!(next.redirect_count, 1);
    let u2 = url("http://localhost:8000/b");
    assert!(matches!(client.redirect_step(next, &u2, &r), Err(HttpError::TooManyRedirect)));
}

#[test]
fn test_redirect_step_no_redirection() {
    let mut client = Client::new();
    let s = spec("GET", "http://localhost:8000/a", vec![]);
    let state = RedirectState::new(s, options(true, false, Count::Finite(0)));
    let r = response(200, vec![]);
    let u = url("http://localhost:8000/a");
    assert!(client.redirect_step(state, &u, &r).unwrap().is_none());
}

#[test]
fn test_next_redirect_none() {
    let s = spec("GET", "http://localhost:8000/a", vec![]);
    let state = RedirectState::new(s, options(true, false, Count::Finite(0)));
    let u = url("http://localhost:8000/a");
    assert!(Client::next_redirect(state, &u, 302, None).unwrap().is_none());
}

#[test]
fn test_configure_without_query() {
    let mut client = Client::new();
    let mut s = spec("GET", "http://localhost:8000/a", vec![Header::new("Host", "h")]);
    s.querystring = vec![];
    let mut o = options(true, false, Count::Infinite);
    o.headers = vec!["X-Extra: 1".to_string(), "host: other".to_string()];
    let (u, m, hs) = client.configure(&s, &o).unwrap();
    assert_eq!(u, "http://localhost:8000/a");
    assert_eq!(m.0, "GET");
    assert_eq!(hs.len(), 2);
    assert_eq!(hs.headers[1].name, "X-Extra");
}

#[test]
fn test_encode_uri_component() {
    assert_eq!(encode_uri_component("x y&z"), "x%20y%26z");
    assert_eq!(encode_uri_component("AZaz09-_.!~*'()"), "AZaz09-_.!~*'()");
    assert_eq!(encode_uri_component("é"), "%C3%A9");
    assert_eq!(encode_uri_component("€"), "%E2%82%AC");
    assert_eq!(encode_uri_component("😀"), "%F0%9F%98%80");
    assert_eq!(encode_uri_component("a/b?c=d#e"), "a%2Fb%3Fc%3Dd%23e");
    assert_eq!(encode_uri_component(""), "");
}

#[test]
fn test_url_encode_params() {
    let mut client = Client::new();
    let params = vec![
        Param { name: "q".to_string(), value: "x y&z".to_string() },
        Param { name: "lang".to_string(), value: "é".to_string() },
    ];
    assert_eq!(client.url_encode_params(&params), "q=x%20y%26z&lang=%C3%A9");
    assert_eq!(client.url_encode_params(&[]), "");
}

#[test]
fn test_generate_url_with_params() {
    let mut client = Client::new();
    let params = vec![Param { name: "a".to_string(), value: "1 2".to_string() }];
    assert_eq!(client.generate_url(&url("http://localhost:8000/x"), &params), "http://localhost:8000/x?a=1%202");
    assert_eq!(client.generate_url(&url("http://localhost:8000/x?"), &params), "http://localhost:8000/x?a=1%202");
    assert_eq!(client.generate_url(&url("http://localhost:8000/x?b=3"), &params), "http://localhost:8000/x?b=3&a=1%202");
}

#[test]
fn test_configure_with_query() {
    let mut client = Client::new();
    let s = spec("GET", "http://localhost:8000/a", vec![]);
    let o = options(true, false, Count::Infinite);
    let (u, m, hs) = client.configure(&s, &o).unwrap();
    assert_eq!(u, "http://localhost:8000/a?q=1");
    assert_eq!(m.0, "GET");
    assert_eq!(hs.len(), 0);
}

#[test]
fn test_body_kind_and_timeout() {
    let mut s = spec("POST", "http://localhost:8000/a", vec![]);
    assert_eq!(s.body_kind(), BodyKind::Text);
    s.form = vec![Param { name: "f".to_string(), value: "1".to_string() }];
    assert_eq!(s.body_kind(), BodyKind::Text);
    s.body = vec![];
    assert_eq!(s.body_kind(), BodyKind::Form);
    s.form = vec![];
    assert_eq!(s.body_kind(), BodyKind::Empty);
    let mut o = options(true, false, Count::Infinite);
    assert!(!o.has_timeout());
    o.timeout_secs = 5;
    assert!(o.has_timeout());
}
