//! The routes and responses of the built-in mock HTTP server, and the
//! decisions it takes for one request: which route answers, and the text of
//! the answer.
//!
//! Listening, reading requests and writing answers are left to the caller.

use vstd::prelude::*;
use vstd::utf8::encode_utf8;
use crate::text::{chars_eq, chars_of, decimal, push_decimal, to_ascii_lower, to_ascii_lower_chars, words, words_chars, string_from_chars};

verus! {

/// A canned response.
#[derive(Debug, Clone)]
pub struct MockResponse {
    pub status: u16,
    /// Header names and values; no name occurs twice.
    pub headers: Vec<(String, String)>,
    pub body: String,
}

/// The header names and values of a response.
pub open spec fn mock_headers_view(h: Seq<(String, String)>) -> Seq<(Seq<char>, Seq<char>)> {
    h.map_values(|p: (String, String)| (p.0@, p.1@))
}

/// The headers every canned response carries.
pub open spec fn default_mock_headers() -> Seq<(Seq<char>, Seq<char>)> {
    seq![("Content-Type"@, "application/json"@), ("Access-Control-Allow-Origin"@, "*"@)]
}

impl MockResponse {
    /// A response with the given status and body, declaring JSON content and
    /// allowing any origin.
    pub fn new(status: u16, body: &str) -> (r: Self)
        ensures
            r.status == status,
            r.body@ == body@,
            mock_headers_view(r.headers@) == default_mock_headers(),
    {
        let headers = vec![
            (String::from_str("Content-Type"), String::from_str("application/json")),
            (String::from_str("Access-Control-Allow-Origin"), String::from_str("*")),
        ];
        assert(mock_headers_view(headers@) =~= default_mock_headers());
        MockResponse { status, headers, body: body.to_string() }
    }

    /// A response with status 200.
    pub fn ok(body: &str) -> (r: Self)
        ensures
            r.status == 200,
            r.body@ == body@,
            mock_headers_view(r.headers@) == default_mock_headers(),
    {
        MockResponse::new(200, body)
    }
}

/// A route of the mock server.
#[derive(Debug, Clone)]
pub struct MockRoute {
    pub method: String,
    pub path: String,
    pub response: MockResponse,
}

/// The route that answers `method` and `path`: the first whose method equals
/// `method` without regard to ASCII case and whose path equals `path`.
pub open spec fn route_matches(r: MockRoute, method: Seq<char>, path: Seq<char>) -> bool {
    to_ascii_lower(r.method@) == to_ascii_lower(method) && r.path@ == path
}

/// Finds the route answering a request.
pub fn find_route(routes: &Vec<MockRoute>, method: &str, path: &str) -> (r: Option<usize>)
    ensures
        match r {
            Some(i) => i < routes@.len() && route_matches(routes@[i as int], method@, path@)
                && forall|k: int| 0 <= k < i ==> !route_matches(#[trigger] routes@[k], method@, path@),
            None => forall|k: int| 0 <= k < routes@.len() ==> !route_matches(#[trigger] routes@[k], method@, path@),
        },
{
    let m = to_ascii_lower_chars(&chars_of(method));
    let p = chars_of(path);
    let mut i: usize = 0;
    while i < routes.len()
        invariant
            i <= routes.len(),
            m@ == to_ascii_lower(method@),
            p@ == path@,
            forall|k: int| 0 <= k < i ==> !route_matches(#[trigger] routes@[k], method@, path@),
        decreases routes.len() - i,
    {
        let rm = to_ascii_lower_chars(&chars_of(routes[i].method.as_str()));
        let rp = chars_of(routes[i].path.as_str());
        if chars_eq(&rm, &m) && chars_eq(&rp, &p) {
            return Some(i);
        }
        i += 1;
    }
    None
}

/// The method and the path of an HTTP request line: its first two
/// white-space separated words, when it has two.
pub fn parse_request_line(line: &str) -> (r: Option<(String, String)>)
    ensures
        match r {
            Some((m, p)) => words(line@).len() >= 2 && m@ == words(line@)[0] && p@ == words(line@)[1],
            None => words(line@).len() < 2,
        },
{
    let ws = words_chars(&chars_of(line));
    if ws.len() < 2 {
        return None;
    }
    assert(ws@.map_values(|w: Vec<char>| w@)[0] == ws@[0]@);
    assert(ws@.map_values(|w: Vec<char>| w@)[1] == ws@[1]@);
    Some((string_from_chars(&ws[0]), string_from_chars(&ws[1])))
}

/// The text of an HTTP answer with a JSON body: status line, the fixed
/// headers, the body length in bytes, and the body.
pub open spec fn http_response_spec(status: u16, reason: Seq<char>, body: Seq<char>) -> Seq<char> {
    "HTTP/1.1 "@ + decimal(status as nat) + " "@ + reason + "\r\nContent-Type: application/json\r\nAccess-Control-Allow-Origin: *\r\nContent-Length: "@
        + decimal(encode_utf8(body).len()) + "\r\nConnection: close\r\n\r\n"@ + body
}

/// Writes the answer to a request.
pub fn http_response(status: u16, reason: &str, body: &str) -> (r: String)
    requires
        encode_utf8(body@).len() <= usize::MAX,
    ensures
        r@ == http_response_spec(status, reason@, body@),
{
    let mut s = String::from_str("HTTP/1.1 ");
    push_decimal(&mut s, status as usize);
    s.append(" ");
    s.append(reason);
    s.append("\r\nContent-Type: application/json\r\nAccess-Control-Allow-Origin: *\r\nContent-Length: ");
    push_decimal(&mut s, body.len());
    s.append("\r\nConnection: close\r\n\r\n");
    s.append(body);
    assert(s@ =~= http_response_spec(status, reason@, body@));
    s
}

/// The answer of a route: its status with the reason "OK" and its body.
pub fn route_response(route: &MockRoute) -> (r: String)
    requires
        encode_utf8(route.response.body@).len() <= usize::MAX,
    ensures
        r@ == http_response_spec(route.response.status, "OK"@, route.response.body@),
{
    http_response(route.response.status, "OK", route.response.body.as_str())
}

/// The message of the answer to a request no route answers.
pub fn not_found_message(method: &str, path: &str) -> (r: String)
    ensures
        r@ == method@ + " "@ + path@ + " 不存在"@,
{
    let mut s = method.to_string();
    s.append(" ");
    s.append(path);
    s.append(" 不存在");
    s
}

/// The address of the mock server listening on `port`.
pub fn mock_base_url(port: u16) -> (r: String)
    ensures
        r@ == "http://localhost:"@ + decimal(port as nat),
{
    let mut s = String::from_str("http://localhost:");
    push_decimal(&mut s, port as usize);
    s
}

/// A route whose method is put in Unicode upper case.
pub fn make_route(method: &str, path: &str, response: MockResponse) -> (r: MockRoute)
    ensures
        r.method@ == crate::api::unicode_upper(method@),
        r.path@ == path@,
        r.response == response,
{
    MockRoute { method: crate::api::upper_case(method), path: path.to_string(), response }
}

/// A route answers a request only for its own path, exactly, and for its
/// method without regard to ASCII case; it answers no two different paths;
/// and a route with that path and method always answers.
pub proof fn law_routes_match_exact_paths(r: MockRoute, method: Seq<char>, path: Seq<char>, other: Seq<char>)
    ensures
        route_matches(r, method, path) ==> r.path@ == path && to_ascii_lower(r.method@) == to_ascii_lower(method),
        route_matches(r, method, path) && route_matches(r, method, other) ==> path == other,
        r.path@ == path && to_ascii_lower(r.method@) == to_ascii_lower(method) ==> route_matches(r, method, path),
{
}

} // verus!
