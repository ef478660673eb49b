//! Requests and responses of the API tester, and the URL a request is sent to.

use vstd::prelude::*;
use vstd::utf8::encode_utf8;
use crate::text::{all_ascii, chars_of, decimal, join, push_char, push_decimal, to_ascii_lower, to_ascii_upper};

verus! {

/// HTTP request method.
#[derive(Debug, Clone, Copy, PartialEq, Eq)]
pub enum HttpMethod {
    Get,
    Post,
    Put,
    Delete,
    Patch,
    Head,
    Options,
}

/// The name of a method, in upper case.
pub open spec fn method_name(m: HttpMethod) -> Seq<char> {
    match m {
        HttpMethod::Get => "GET"@,
        HttpMethod::Post => "POST"@,
        HttpMethod::Put => "PUT"@,
        HttpMethod::Delete => "DELETE"@,
        HttpMethod::Patch => "PATCH"@,
        HttpMethod::Head => "HEAD"@,
        HttpMethod::Options => "OPTIONS"@,
    }
}

/// The method whose name is exactly `s`, if any.
pub open spec fn method_named(s: Seq<char>) -> Option<HttpMethod> {
    if s == "GET"@ {
        Some(HttpMethod::Get)
    } else if s == "POST"@ {
        Some(HttpMethod::Post)
    } else if s == "PUT"@ {
        Some(HttpMethod::Put)
    } else if s == "DELETE"@ {
        Some(HttpMethod::Delete)
    } else if s == "PATCH"@ {
        Some(HttpMethod::Patch)
    } else if s == "HEAD"@ {
        Some(HttpMethod::Head)
    } else if s == "OPTIONS"@ {
        Some(HttpMethod::Options)
    } else {
        None
    }
}

/// What `str::to_uppercase` gives for `s` (Unicode upper case).
pub uninterp spec fn unicode_upper(s: Seq<char>) -> Seq<char>;

/// `str::to_uppercase`: the Unicode upper case of `s`, named by
/// [`unicode_upper`]. Claimed beyond the name: on ASCII text it is the ASCII
/// upper case (Unicode maps `a` to `z` onto `A` to `Z` and leaves the other
/// ASCII characters alone). What it gives for other characters is not stated.
#[verifier::external_body]
pub(crate) fn upper_case(s: &str) -> (r: String)
    ensures
        r@ == unicode_upper(s@),
        all_ascii(s@) ==> r@ == to_ascii_upper(s@),
{
    s.to_uppercase()
}

impl HttpMethod {
    /// Every method, in the order offered to the user.
    pub fn all() -> (r: Vec<HttpMethod>)
        ensures
            r@ == seq![
                HttpMethod::Get,
                HttpMethod::Post,
                HttpMethod::Put,
                HttpMethod::Delete,
                HttpMethod::Patch,
                HttpMethod::Head,
                HttpMethod::Options,
            ],
    {
        vec![
            HttpMethod::Get,
            HttpMethod::Post,
            HttpMethod::Put,
            HttpMethod::Delete,
            HttpMethod::Patch,
            HttpMethod::Head,
            HttpMethod::Options,
        ]
    }

    /// The name of the method, in upper case.
    pub fn as_str(&self) -> (r: &'static str)
        ensures
            r@ == method_name(*self),
    {
        match self {
            HttpMethod::Get => "GET",
            HttpMethod::Post => "POST",
            HttpMethod::Put => "PUT",
            HttpMethod::Delete => "DELETE",
            HttpMethod::Patch => "PATCH",
            HttpMethod::Head => "HEAD",
            HttpMethod::Options => "OPTIONS",
        }
    }

    /// The method named by an upper-case name, if any.
    pub fn from_upper(s: &str) -> (r: Option<HttpMethod>)
        ensures
            r == method_named(s@),
    {
        let v = chars_of(s);
        let names = HttpMethod::all();
        let mut i: usize = 0;
        proof {
            reveal_strlit("GET");
            reveal_strlit("POST");
            reveal_strlit("PUT");
            reveal_strlit("DELETE");
            reveal_strlit("PATCH");
            reveal_strlit("HEAD");
            reveal_strlit("OPTIONS");
        }
        while i < names.len()
            invariant
                i <= names.len(),
                v@ == s@,
                names@ == HttpMethod::all_spec(),
                forall|k: int| 0 <= k < i ==> method_name(#[trigger] names@[k]) != s@,
            decreases names.len() - i,
        {
            let m = names[i];
            let n = chars_of(m.as_str());
            if crate::text::chars_eq(&n, &v) {
                return Some(m);
            }
            i += 1;
        }
        assert(method_name(names@[0]) != s@);
        assert(method_name(names@[1]) != s@);
        assert(method_name(names@[2]) != s@);
        assert(method_name(names@[3]) != s@);
        assert(method_name(names@[4]) != s@);
        assert(method_name(names@[5]) != s@);
        assert(method_name(names@[6]) != s@);
        None
    }

    /// The methods in the order of [`HttpMethod::all`].
    pub open spec fn all_spec() -> Seq<HttpMethod> {
        seq![
            HttpMethod::Get,
            HttpMethod::Post,
            HttpMethod::Put,
            HttpMethod::Delete,
            HttpMethod::Patch,
            HttpMethod::Head,
            HttpMethod::Options,
        ]
    }

    /// Parses a method name without regard to case (the name is put in
    /// Unicode upper case first; for ASCII text that is the ASCII upper case).
    pub fn from_str(s: &str) -> (r: Option<HttpMethod>)
        ensures
            r == method_named(unicode_upper(s@)),
            all_ascii(s@) ==> r == method_named(to_ascii_upper(s@)),
    {
        let u = upper_case(s);
        HttpMethod::from_upper(u.as_str())
    }
}

/// Every method's name is ASCII, and its name, in upper or in lower case,
/// names the method again once put in ASCII upper case; with the contract of
/// [`HttpMethod::from_str`], `from_str(m.as_str())` and `from_str` of the
/// lower-case name both give `Some(m)`.
pub proof fn law_method_name_round_trip(m: HttpMethod)
    ensures
        all_ascii(method_name(m)),
        method_named(to_ascii_upper(method_name(m))) == Some(m),
        all_ascii(to_ascii_lower(method_name(m))),
        method_named(to_ascii_upper(to_ascii_lower(method_name(m)))) == Some(m),
{
    reveal_strlit("GET");
    reveal_strlit("POST");
    reveal_strlit("PUT");
    reveal_strlit("DELETE");
    reveal_strlit("PATCH");
    reveal_strlit("HEAD");
    reveal_strlit("OPTIONS");
    let n = method_name(m);
    assert(to_ascii_upper(n) =~= n);
    assert(to_ascii_upper(to_ascii_lower(n)) =~= n);
    assert("GET"@[0] == 'G' && "POST"@[0] == 'P' && "PUT"@[0] == 'P' && "DELETE"@[0] == 'D');
    assert("PATCH"@[0] == 'P' && "HEAD"@[0] == 'H' && "OPTIONS"@[0] == 'O');
    assert("POST"@[1] == 'O' && "PUT"@[1] == 'U' && "PATCH"@[1] == 'A');
    match m {
        HttpMethod::Get => assert(method_named(n) == Some(m)),
        HttpMethod::Post => assert(n != "GET"@),
        HttpMethod::Put => assert(n != "GET"@ && n != "POST"@),
        HttpMethod::Delete => assert(n != "GET"@ && n != "POST"@ && n != "PUT"@),
        HttpMethod::Patch => assert(n != "GET"@ && n != "POST"@ && n != "PUT"@ && n != "DELETE"@),
        HttpMethod::Head => assert(n != "GET"@ && n != "POST"@ && n != "PUT"@ && n != "DELETE"@ && n != "PATCH"@),
        HttpMethod::Options => assert(n != "GET"@ && n != "POST"@ && n != "PUT"@ && n != "DELETE"@ && n != "PATCH"@ && n != "HEAD"@),
    }
}

/// The names and values of form fields.
pub open spec fn fields_view(v: Seq<(String, String)>) -> Seq<(Seq<char>, Seq<char>)> {
    v.map_values(|p: (String, String)| (p.0@, p.1@))
}

/// What `serde_json` reads from `s` as a list of name and value pairs: the
/// pairs, or the message of its error.
pub uninterp spec fn json_form_data(s: Seq<char>) -> Result<Seq<(Seq<char>, Seq<char>)>, Seq<char>>;

/// `serde_json::from_str::<Vec<(String, String)>>`: the pairs, or the
/// error's message; named by [`json_form_data`].
#[verifier::external_body]
fn form_pairs(s: &str) -> (r: Result<Vec<(String, String)>, String>)
    ensures
        r is Ok <==> json_form_data(s@) is Ok,
        r matches Ok(v) ==> (json_form_data(s@) matches Ok(f) && f == fields_view(v@)),
        r matches Err(m) ==> (json_form_data(s@) matches Err(e) && e == m@),
{
    serde_json::from_str::<Vec<(String, String)>>(s).map_err(|e| e.to_string())
}

/// The fields of a form body, given as a JSON list of name and value pairs;
/// the error is the message of the JSON reader.
pub fn parse_form_data(body: &str) -> (r: Result<Vec<(String, String)>, String>)
    ensures
        match json_form_data(body@) {
            Ok(f) => r matches Ok(v) && fields_view(v@) == f,
            Err(m) => r matches Err(e) && e@ == m,
        },
{
    form_pairs(body)
}

/// How a response status is shown: success below 300, redirection below
/// 400, error otherwise.
#[derive(Debug, Clone, Copy, PartialEq, Eq)]
pub enum StatusClass {
    Success,
    Redirect,
    Error,
}

/// The class of a response status.
pub fn status_class(status: i32) -> (r: StatusClass)
    ensures
        r == if status < 300 {
            StatusClass::Success
        } else if status < 400 {
            StatusClass::Redirect
        } else {
            StatusClass::Error
        },
{
    if status < 300 {
        StatusClass::Success
    } else if status < 400 {
        StatusClass::Redirect
    } else {
        StatusClass::Error
    }
}

/// Kind of request body.
#[derive(Debug, Clone, Copy, PartialEq, Eq)]
pub enum BodyType {
    Empty,
    Json,
    Form,
    Raw,
}

/// The label of a body kind.
pub open spec fn body_type_name(b: BodyType) -> Seq<char> {
    match b {
        BodyType::Empty => "None"@,
        BodyType::Json => "JSON"@,
        BodyType::Form => "Form"@,
        BodyType::Raw => "Raw"@,
    }
}

impl BodyType {
    /// Every body kind, in the order offered to the user.
    pub fn all() -> (r: Vec<BodyType>)
        ensures
            r@ == seq![BodyType::Empty, BodyType::Json, BodyType::Form, BodyType::Raw],
    {
        vec![BodyType::Empty, BodyType::Json, BodyType::Form, BodyType::Raw]
    }

    /// The label of the body kind.
    pub fn as_str(&self) -> (r: &'static str)
        ensures
            r@ == body_type_name(*self),
    {
        match self {
            BodyType::Empty => "None",
            BodyType::Json => "JSON",
            BodyType::Form => "Form",
            BodyType::Raw => "Raw",
        }
    }
}

/// A header or query parameter: key, value and whether it is sent.
#[derive(Debug, Clone, PartialEq, Eq)]
pub struct HeaderEntry {
    pub key: String,
    pub value: String,
    pub enabled: bool,
}

/// Mathematical model of a [`HeaderEntry`].
pub struct HeaderView {
    pub key: Seq<char>,
    pub value: Seq<char>,
    pub enabled: bool,
}

impl View for HeaderEntry {
    type V = HeaderView;

    open spec fn view(&self) -> HeaderView {
        HeaderView { key: self.key@, value: self.value@, enabled: self.enabled }
    }
}

/// The models of a sequence of entries.
pub open spec fn headers_view(v: Seq<HeaderEntry>) -> Seq<HeaderView> {
    v.map_values(|h: HeaderEntry| h@)
}

impl HeaderEntry {
    /// An enabled entry.
    pub fn new(key: &str, value: &str) -> (r: Self)
        ensures
            r.key@ == key@,
            r.value@ == value@,
            r.enabled,
    {
        HeaderEntry { key: key.to_string(), value: value.to_string(), enabled: true }
    }

    /// An enabled entry with empty key and value.
    pub fn empty() -> (r: Self)
        ensures
            r.key@.len() == 0,
            r.value@.len() == 0,
            r.enabled,
    {
        HeaderEntry { key: String::new(), value: String::new(), enabled: true }
    }
}

/// Whether a byte is left as it is by percent-encoding: an ASCII letter or
/// digit, `-`, `.`, `_` or `~`.
pub open spec fn is_unreserved(b: u8) -> bool {
    (48 <= b && b <= 57) || (65 <= b && b <= 90) || (97 <= b && b <= 122) || b == 45 || b == 46 || b == 95
        || b == 126
}

/// The upper-case hexadecimal digit for `d` (below sixteen).
pub open spec fn hex_upper(d: u8) -> char {
    if d < 10 {
        (48 + d) as char
    } else {
        (55 + d) as char
    }
}

/// One byte, percent-encoded.
pub open spec fn percent_byte(b: u8) -> Seq<char> {
    if is_unreserved(b) {
        seq![b as char]
    } else {
        seq!['%', hex_upper(b / 16), hex_upper(b % 16)]
    }
}

/// Bytes, percent-encoded one by one.
pub open spec fn percent_encode(bs: Seq<u8>) -> Seq<char>
    decreases bs.len(),
{
    if bs.len() == 0 {
        seq![]
    } else {
        percent_byte(bs[0]) + percent_encode(bs.drop_first())
    }
}

/// `urlencoding::encode`: every byte of the UTF-8 encoding of `s` other than
/// ASCII letters, digits, `-`, `.`, `_` and `~` is written as `%` and two
/// upper-case hexadecimal digits.
#[verifier::external_body]
fn url_encode(s: &str) -> (r: String)
    ensures
        r@ == percent_encode(encode_utf8(s@)),
{
    urlencoding::encode(s).into_owned()
}

/// The parameters sent: enabled, with a key.
pub open spec fn sent_params(ps: Seq<HeaderView>) -> Seq<HeaderView>
    decreases ps.len(),
{
    if ps.len() == 0 {
        seq![]
    } else {
        let r = sent_params(ps.drop_last());
        let p = ps.last();
        if p.enabled && p.key.len() > 0 {
            r.push(p)
        } else {
            r
        }
    }
}

/// One parameter of a query string.
pub open spec fn query_pair(p: HeaderView) -> Seq<char> {
    percent_encode(encode_utf8(p.key)) + "="@ + percent_encode(encode_utf8(p.value))
}

/// The URL with the parameters sent appended as a query string, after `&`
/// when the URL already holds a `?`, after `?` otherwise.
pub open spec fn build_url_spec(url: Seq<char>, params: Seq<HeaderView>) -> Seq<char> {
    let q = sent_params(params);
    if q.len() == 0 {
        url
    } else {
        url + (if url.contains('?') { "&"@ } else { "?"@ }) + join(
            q.map_values(|p: HeaderView| query_pair(p)),
            "&"@,
        )
    }
}

/// Whether a UUID string has the hyphenated lower-case form.
pub open spec fn is_hyphenated_uuid(s: Seq<char>) -> bool {
    &&& s.len() == 36
    &&& forall|i: int|
        0 <= i < 36 ==> if i == 8 || i == 13 || i == 18 || i == 23 {
            #[trigger] s[i] == '-'
        } else {
            ('0' <= s[i] && s[i] <= '9') || ('a' <= s[i] && s[i] <= 'f')
        }
}

/// `uuid::Uuid::new_v4().to_string()`: a random UUID, written in hyphenated
/// lower-case form. Which UUID comes out is left open.
#[verifier::external_body]
fn new_uuid_string() -> (r: String)
    ensures
        is_hyphenated_uuid(r@),
{
    uuid::Uuid::new_v4().to_string()
}

/// A request as edited in the API tester.
#[derive(Debug, Clone)]
pub struct ApiRequest {
    pub id: String,
    pub name: String,
    pub method: HttpMethod,
    pub url: String,
    pub headers: Vec<HeaderEntry>,
    pub params: Vec<HeaderEntry>,
    pub body_type: BodyType,
    pub body: String,
}

impl ApiRequest {
    /// A new request: a fresh random id, the name "New Request", `GET`, no
    /// URL, a JSON content type header, no parameters and no body.
    pub fn new() -> (r: Self)
        ensures
            is_hyphenated_uuid(r.id@),
            r.name@ == "New Request"@,
            r.method == HttpMethod::Get,
            r.url@.len() == 0,
            headers_view(r.headers@) == seq![HeaderView { key: "Content-Type"@, value: "application/json"@, enabled: true }],
            r.params@.len() == 0,
            r.body_type == BodyType::Empty,
            r.body@.len() == 0,
    {
        let h = HeaderEntry::new("Content-Type", "application/json");
        let headers = vec![h];
        assert(headers_view(headers@) =~= seq![h@]);
        ApiRequest {
            id: new_uuid_string(),
            name: String::from_str("New Request"),
            method: HttpMethod::Get,
            url: String::new(),
            headers,
            params: Vec::new(),
            body_type: BodyType::Empty,
            body: String::new(),
        }
    }

    /// The URL with the enabled parameters that have a key appended as a
    /// percent-encoded query string.
    pub fn build_url(&self) -> (r: String)
        ensures
            r@ == build_url_spec(self.url@, headers_view(self.params@)),
    {
        let ghost pv = headers_view(self.params@);
        let mut query = String::new();
        let mut any = false;
        let mut i: usize = 0;
        while i < self.params.len()
            invariant
                i <= self.params.len(),
                pv == headers_view(self.params@),
                any == (sent_params(pv.take(i as int)).len() > 0),
                query@ == join(sent_params(pv.take(i as int)).map_values(|p: HeaderView| query_pair(p)), "&"@),
            decreases self.params.len() - i,
        {
            let p = &self.params[i];
            let ghost before = sent_params(pv.take(i as int));
            let ghost q_before = query@;
            assert(pv.take(i + 1).drop_last() =~= pv.take(i as int));
            assert(pv.take(i + 1).last() == p@);
            if p.enabled && !p.key.as_str().is_empty() {
                assert(p.key@.len() > 0);
                if any {
                    query.append("&");
                }
                let k = url_encode(p.key.as_str());
                query.append(k.as_str());
                query.append("=");
                let v = url_encode(p.value.as_str());
                query.append(v.as_str());
                proof {
                    let after = sent_params(pv.take(i + 1));
                    assert(after == before.push(p@));
                    let m = after.map_values(|x: HeaderView| query_pair(x));
                    assert(m.drop_last() =~= before.map_values(|x: HeaderView| query_pair(x)));
                    assert(m.last() == query_pair(p@));
                    if !any {
                        assert(before.map_values(|x: HeaderView| query_pair(x)) =~= Seq::<Seq<char>>::empty());
                        assert(query@ =~= query_pair(p@));
                    } else {
                        assert(query@ =~= q_before + "&"@ + query_pair(p@));
                    }
                }
                any = true;
            } else {
                if p.key.as_str().is_empty() {
                    assert(p.key@.len() == 0);
                }
            }
            i += 1;
        }
        assert(pv.take(pv.len() as int) =~= pv);
        let mut url = self.url.clone();
        if any {
            let uv = chars_of(url.as_str());
            let qpos = crate::text::find_char(&uv, '?');
            proof {
                crate::text::lemma_first_index_of(uv@, '?');
                if qpos < uv.len() {
                    assert(uv@.contains('?'));
                } else {
                    assert(!uv@.contains('?'));
                }
            }
            if qpos < uv.len() {
                push_char(&mut url, '&');
            } else {
                push_char(&mut url, '?');
            }
            url.append(query.as_str());
            proof {
                reveal_strlit("&");
                reveal_strlit("?");
                assert(url@ =~= build_url_spec(self.url@, pv));
            }
        }
        url
    }
}

/// A response received by the API tester.
#[derive(Debug, Clone)]
pub struct ApiResponse {
    pub status_code: u16,
    pub status_text: String,
    pub headers: Vec<(String, String)>,
    pub body: String,
    pub elapsed_ms: u64,
    pub size_bytes: usize,
}

impl ApiResponse {
    /// The status line shown: code and reason, separated by a space.
    pub fn status_display(&self) -> (r: String)
        ensures
            r@ == decimal(self.status_code as nat) + " "@ + self.status_text@,
    {
        let mut s = String::new();
        push_decimal(&mut s, self.status_code as usize);
        s.append(" ");
        s.append(self.status_text.as_str());
        s
    }
}

/// A request in the history.
#[derive(Debug, Clone)]
pub struct RequestHistory {
    pub id: i64,
    pub request_id: String,
    pub method: String,
    pub url: String,
    pub status_code: Option<i32>,
    pub elapsed_ms: Option<i64>,
    pub executed_at: String,
}

/// Tab of the response panel.
#[derive(Debug, Clone, Copy, PartialEq, Eq)]
pub enum ResponseTab {
    Body,
    Headers,
    Cookies,
}

/// Tab of the request panel.
#[derive(Debug, Clone, Copy, PartialEq, Eq)]
pub enum RequestTab {
    Headers,
    Body,
    Params,
}

/// A request saved in a collection.
#[derive(Debug, Clone)]
pub struct SavedApiRequest {
    pub id: i64,
    pub collection_id: Option<i64>,
    pub name: String,
    pub method: HttpMethod,
    pub url: String,
    pub headers: Vec<HeaderEntry>,
    pub params: Vec<HeaderEntry>,
    pub body_type: BodyType,
    pub body: String,
    pub created_at: String,
    pub updated_at: String,
}

/// A collection of saved requests; collections nest through `parent_id`.
#[derive(Debug, Clone)]
pub struct ApiCollection {
    pub id: i64,
    pub name: String,
    pub parent_id: Option<i64>,
    pub description: Option<String>,
    pub sort_order: i64,
    pub created_at: String,
}

/// Whether a request still needs a name of its own: its name is blank, or it
/// is the default name of a new request that was never renamed.
pub open spec fn needs_fallback_name(name: Seq<char>, is_default_name: bool) -> bool {
    crate::text::trim(name).len() == 0 || (is_default_name && name == "New Request"@)
}

/// Whether the request name is blank or the untouched default.
fn uses_fallback_name(request: &ApiRequest, is_default_name: bool) -> (r: bool)
    ensures
        r == needs_fallback_name(request.name@, is_default_name),
{
    let t = crate::text::trim_chars(&chars_of(request.name.as_str()));
    if t.len() == 0 {
        return true;
    }
    if !is_default_name {
        return false;
    }
    let d = chars_of("New Request");
    crate::text::chars_eq(&chars_of(request.name.as_str()), &d)
}

/// The full name shown for a request in tabs and collections: its name, or
/// when it has none of its own, its URL, or "新建请求" without a URL.
pub fn request_display_name(request: &ApiRequest, is_default_name: bool) -> (r: String)
    ensures
        r@ == if needs_fallback_name(request.name@, is_default_name) {
            if request.url@.len() == 0 { "新建请求"@ } else { request.url@ }
        } else {
            request.name@
        },
{
    if uses_fallback_name(request, is_default_name) {
        if request.url.as_str().is_empty() {
            String::from_str("新建请求")
        } else {
            request.url.clone()
        }
    } else {
        request.name.clone()
    }
}

/// The name a request is saved under, never shortened: its trimmed name, or
/// when it has none of its own, its URL, or "未命名请求" without a URL.
pub fn saved_request_name(request: &ApiRequest, is_default_name: bool) -> (r: String)
    ensures
        r@ == if needs_fallback_name(request.name@, is_default_name) {
            if request.url@.len() == 0 { "未命名请求"@ } else { request.url@ }
        } else {
            crate::text::trim(request.name@)
        },
{
    if uses_fallback_name(request, is_default_name) {
        if request.url.as_str().is_empty() {
            String::from_str("未命名请求")
        } else {
            request.url.clone()
        }
    } else {
        let t = crate::text::trim_chars(&chars_of(request.name.as_str()));
        crate::text::string_from_chars(&t)
    }
}

/// A URL shortened to at most `max_chars` characters: a longer one keeps
/// its first `max_chars - 3` characters followed by "...", or only its first
/// `max_chars` characters when there is no room for the dots.
pub fn truncate_url(url: &str, max_chars: usize) -> (r: String)
    ensures
        r@ == if url@.len() <= max_chars {
            url@
        } else if max_chars <= 3 {
            url@.take(max_chars as int)
        } else {
            url@.take(max_chars - 3) + "..."@
        },
{
    let v = chars_of(url);
    if v.len() <= max_chars {
        return url.to_string();
    }
    if max_chars <= 3 {
        let s = crate::text::string_from_range(&v, 0, max_chars);
        assert(v@.subrange(0, max_chars as int) =~= v@.take(max_chars as int));
        return s;
    }
    let mut s = crate::text::string_from_range(&v, 0, max_chars - 3);
    assert(v@.subrange(0, max_chars - 3) =~= v@.take(max_chars - 3));
    s.append("...");
    s
}

/// Whether some collection with id `child` has the parent `parent`.
pub open spec fn is_child_of(cs: Seq<ApiCollection>, child: i64, parent: i64) -> bool {
    exists|j: int| 0 <= j < cs.len() && #[trigger] cs[j].id == child && cs[j].parent_id == Some(parent)
}

/// `ids` after scanning the collections from position `j` on for children of
/// `parent`: each child not listed yet is appended, in the order of the
/// collections.
pub open spec fn add_children(cs: Seq<ApiCollection>, ids: Seq<i64>, parent: i64, j: nat) -> Seq<i64>
    decreases cs.len() - j,
{
    if j >= cs.len() {
        ids
    } else {
        let c = cs[j as int];
        let next = if c.parent_id == Some(parent) && !ids.contains(c.id) { ids.push(c.id) } else { ids };
        add_children(cs, next, parent, j + 1)
    }
}

/// The breadth-first listing from position `index` of `ids` on: the
/// children of each listed collection are appended in turn.
pub open spec fn descendants_from(cs: Seq<ApiCollection>, ids: Seq<i64>, index: nat) -> Seq<i64>
    decreases cs.len() + 1 - index,
{
    if index >= ids.len() || index > cs.len() {
        ids
    } else {
        descendants_from(cs, add_children(cs, ids, ids[index as int], 0), index + 1)
    }
}

/// Whether `id` occurs in `ids`.
fn contains_id(ids: &Vec<i64>, id: i64) -> (r: bool)
    ensures
        r == ids@.contains(id),
{
    let mut i: usize = 0;
    while i < ids.len()
        invariant
            i <= ids.len(),
            forall|k: int| 0 <= k < i ==> ids@[k] != id,
        decreases ids.len() - i,
    {
        if ids[i] == id {
            return true;
        }
        i += 1;
    }
    false
}

proof fn lemma_ids_bound(ids: Seq<i64>, cs: Seq<ApiCollection>)
    requires
        ids.len() >= 1,
        ids.no_duplicates(),
        forall|i: int| #![trigger ids[i]] 1 <= i < ids.len() ==> exists|j: int| 0 <= j < cs.len() && #[trigger] cs[j].id == ids[i],
    ensures
        ids.len() <= cs.len() + 1,
{
    let rest = ids.drop_first();
    let all = cs.map_values(|c: ApiCollection| c.id);
    assert(rest.no_duplicates()) by {
        assert forall|a: int, b: int| 0 <= a < rest.len() && 0 <= b < rest.len() && a != b implies rest[a] != rest[b] by {
            assert(rest[a] == ids[a + 1]);
            assert(rest[b] == ids[b + 1]);
        }
    }
    rest.unique_seq_to_set();
    all.lemma_cardinality_of_set();
    assert(rest.to_set().subset_of(all.to_set())) by {
        assert forall|x: i64| rest.to_set().contains(x) implies all.to_set().contains(x) by {
            let a = choose|a: int| 0 <= a < rest.len() && rest[a] == x;
            assert(ids[a + 1] == x);
            let j = choose|j: int| 0 <= j < cs.len() && #[trigger] cs[j].id == ids[a + 1];
            assert(all[j] == x);
        }
    }
    vstd::seq_lib::seq_to_set_is_finite(all);
    vstd::set_lib::lemma_len_subset(rest.to_set(), all.to_set());
}

/// The id of a collection followed by the ids of all collections nested in
/// it, at any depth, each once: every id after the first belongs to a child
/// of a collection listed before it, and every child of a listed collection
/// is listed.
pub fn collection_and_descendant_ids(collections: &[ApiCollection], collection_id: i64) -> (r: Vec<i64>)
    ensures
        r@ == descendants_from(collections@, seq![collection_id], 0),
        r@.len() >= 1,
        r@[0] == collection_id,
        r@.no_duplicates(),
        forall|i: int| 1 <= i < r@.len() ==> exists|k: int| 0 <= k < i && is_child_of(collections@, #[trigger] r@[i], r@[k]),
        forall|j: int, k: int|
            0 <= j < collections@.len() && 0 <= k < r@.len() && collections@[j].parent_id == Some(#[trigger] r@[k])
                ==> r@.contains(#[trigger] collections@[j].id),
{
    let ghost cs = collections@;
    let mut ids: Vec<i64> = vec![collection_id];
    let mut index: usize = 0;
    assert(ids@ == seq![collection_id]);
    while index < ids.len()
        invariant
            cs == collections@,
            index <= ids.len(),
            descendants_from(cs, ids@, index as nat) == descendants_from(cs, seq![collection_id], 0),
            ids@.len() >= 1,
            ids@[0] == collection_id,
            ids@.no_duplicates(),
            ids@.len() <= cs.len() + 1,
            forall|i: int| 1 <= i < ids@.len() ==> exists|k: int| 0 <= k < i && is_child_of(cs, #[trigger] ids@[i], ids@[k]),
            forall|j: int, k: int|
                0 <= j < cs.len() && 0 <= k < index && cs[j].parent_id == Some(#[trigger] ids@[k])
                    ==> ids@.contains(#[trigger] cs[j].id),
        decreases cs.len() + 1 - index,
    {
        let parent_id = ids[index];
        let ghost start = ids@;
        let mut j: usize = 0;
        while j < collections.len()
            invariant
                cs == collections@,
                add_children(cs, ids@, parent_id, j as nat) == add_children(cs, start, parent_id, 0),
                start.len() >= 1 && index < start.len() && start[index as int] == parent_id,
                descendants_from(cs, start, index as nat) == descendants_from(cs, seq![collection_id], 0),
                index < ids.len(),
                parent_id == ids@[index as int],
                j <= collections.len(),
                ids@.len() >= 1,
                ids@[0] == collection_id,
                ids@.no_duplicates(),
                ids@.len() <= cs.len() + 1,
                forall|i: int| 1 <= i < ids@.len() ==> exists|k: int| 0 <= k < i && is_child_of(cs, #[trigger] ids@[i], ids@[k]),
                forall|jj: int, k: int|
                    0 <= jj < cs.len() && 0 <= k < index && cs[jj].parent_id == Some(#[trigger] ids@[k])
                        ==> ids@.contains(#[trigger] cs[jj].id),
                forall|jj: int| 0 <= jj < j && cs[jj].parent_id == Some(parent_id) ==> ids@.contains(#[trigger] cs[jj].id),
            decreases collections.len() - j,
        {
            let c = &collections[j];
            let is_child = match c.parent_id {
                Some(p) => p == parent_id,
                None => false,
            };
            if is_child && !contains_id(&ids, c.id) {
                let ghost old_ids = ids@;
                ids.push(c.id);
                proof {
                    assert(is_child_of(cs, c.id, parent_id));
                    assert(ids@.no_duplicates()) by {
                        assert forall|a: int, b: int| 0 <= a < ids@.len() && 0 <= b < ids@.len() && a != b implies ids@[a] != ids@[b] by {
                            if a < old_ids.len() && b < old_ids.len() {
                                assert(ids@[a] == old_ids[a]);
                                assert(ids@[b] == old_ids[b]);
                            } else if a < old_ids.len() {
                                assert(ids@[a] == old_ids[a]);
                                assert(old_ids.contains(old_ids[a]));
                            } else {
                                assert(ids@[b] == old_ids[b]);
                                assert(old_ids.contains(old_ids[b]));
                            }
                        }
                    }
                    assert forall|i: int| 1 <= i < ids@.len() implies exists|k: int| 0 <= k < i && is_child_of(cs, #[trigger] ids@[i], ids@[k]) by {
                        if i < old_ids.len() {
                            assert(ids@[i] == old_ids[i]);
                            let k = choose|k: int| 0 <= k < i && is_child_of(cs, #[trigger] old_ids[i], old_ids[k]);
                            assert(ids@[k] == old_ids[k]);
                        } else {
                            assert(ids@[index as int] == parent_id);
                            assert(is_child_of(cs, ids@[i], ids@[index as int]));
                        }
                    }
                    assert forall|x: i64| old_ids.contains(x) implies ids@.contains(x) by {
                        let a = choose|a: int| 0 <= a < old_ids.len() && old_ids[a] == x;
                        assert(ids@[a] == x);
                    }
                    assert(ids@[old_ids.len() as int] == c.id);
                    assert forall|i: int| #![trigger ids@[i]] 1 <= i < ids@.len() implies exists|jj: int| 0 <= jj < cs.len() && #[trigger] cs[jj].id == ids@[i] by {
                        let k = choose|k: int| 0 <= k < i && is_child_of(cs, #[trigger] ids@[i], ids@[k]);
                        let jj = choose|jj: int| 0 <= jj < cs.len() && #[trigger] cs[jj].id == ids@[i] && cs[jj].parent_id == Some(ids@[k]);
                    }
                    lemma_ids_bound(ids@, cs);
                }
            }
            j += 1;
        }
        proof {
            assert(index <= cs.len());
            assert(add_children(cs, ids@, parent_id, j as nat) == ids@);
        }
        index += 1;
    }
    ids
}

/// A tab as [`OpenRequestTab::new`] opens it: on the request a fresh
/// random id, the name "New Request", `GET`, no URL, the JSON content-type
/// header, no params and no body; on the tab the JSON content-type and
/// accept-all headers, no params, no body, showing the headers and the
/// response body, with no response, no saved request, the default name, and
/// not sending.
pub open spec fn fresh_tab(t: OpenRequestTab) -> bool {
    &&& is_hyphenated_uuid(t.request.id@)
    &&& t.request.name@ == "New Request"@
    &&& t.request.method == HttpMethod::Get
    &&& t.request.url@.len() == 0
    &&& headers_view(t.request.headers@) == seq![HeaderView { key: "Content-Type"@, value: "application/json"@, enabled: true }]
    &&& t.request.params@.len() == 0
    &&& t.request.body_type == BodyType::Empty
    &&& t.request.body@.len() == 0
    &&& t.response is None
    &&& headers_view(t.headers@) == seq![
        HeaderView { key: "Content-Type"@, value: "application/json"@, enabled: true },
        HeaderView { key: "Accept"@, value: "*/*"@, enabled: true },
    ]
    &&& t.params@.len() == 0
    &&& t.body_type == BodyType::Empty
    &&& t.body@.len() == 0
    &&& t.request_tab == RequestTab::Headers
    &&& t.response_tab == ResponseTab::Body
    &&& t.saved_request_id is None
    &&& t.collection_id is None
    &&& t.is_default_name
    &&& !t.is_sending
}

/// A tab as [`OpenRequestTab::from_saved_request`] opens the saved request:
/// on the request a fresh random id and the saved name, method, URL,
/// headers, params, body kind and body; on the tab the saved headers,
/// params, body kind and body, showing the headers and the response body,
/// with no response, the saved id and collection, a name of its own, and not
/// sending.
pub open spec fn holds_request(t: OpenRequestTab, request: SavedApiRequest) -> bool {
    &&& is_hyphenated_uuid(t.request.id@)
    &&& t.request.name == request.name
    &&& t.request.method == request.method
    &&& t.request.url == request.url
    &&& headers_view(t.request.headers@) == headers_view(request.headers@)
    &&& headers_view(t.request.params@) == headers_view(request.params@)
    &&& t.request.body_type == request.body_type
    &&& t.request.body == request.body
    &&& t.headers == request.headers
    &&& t.params == request.params
    &&& t.body_type == request.body_type
    &&& t.body == request.body
    &&& t.response is None
    &&& t.request_tab == RequestTab::Headers
    &&& t.response_tab == ResponseTab::Body
    &&& t.saved_request_id == Some(request.id)
    &&& t.collection_id == request.collection_id
    &&& !t.is_default_name
    &&& !t.is_sending
}

/// The state of one open request tab.
#[derive(Debug, Clone)]
pub struct OpenRequestTab {
    pub request: ApiRequest,
    pub response: Option<ApiResponse>,
    pub headers: Vec<HeaderEntry>,
    pub params: Vec<HeaderEntry>,
    pub body_type: BodyType,
    pub body: String,
    pub request_tab: RequestTab,
    pub response_tab: ResponseTab,
    pub saved_request_id: Option<i64>,
    pub collection_id: Option<i64>,
    pub is_default_name: bool,
    pub is_sending: bool,
}

impl OpenRequestTab {
    /// A tab holding a new request, with JSON content-type and accept-all
    /// headers, showing the headers and the response body.
    pub fn new() -> (r: Self)
        ensures
            fresh_tab(r),
    {
        let h1 = HeaderEntry::new("Content-Type", "application/json");
        let h2 = HeaderEntry::new("Accept", "*/*");
        let headers = vec![h1, h2];
        assert(headers_view(headers@) =~= seq![h1@, h2@]);
        OpenRequestTab {
            request: ApiRequest::new(),
            response: None,
            headers,
            params: Vec::new(),
            body_type: BodyType::Empty,
            body: String::new(),
            request_tab: RequestTab::Headers,
            response_tab: ResponseTab::Body,
            saved_request_id: None,
            collection_id: None,
            is_default_name: true,
            is_sending: false,
        }
    }

    /// A tab holding a saved request, under a fresh request id.
    pub fn from_saved_request(request: SavedApiRequest) -> (r: Self)
        ensures
            holds_request(r, request),
    {
        let headers = copy_entries(&request.headers);
        let params = copy_entries(&request.params);
        let body = request.body.clone();
        OpenRequestTab {
            request: ApiRequest {
                id: new_uuid_string(),
                name: request.name,
                method: request.method,
                url: request.url,
                headers,
                params,
                body_type: request.body_type,
                body,
            },
            response: None,
            headers: request.headers,
            params: request.params,
            body_type: request.body_type,
            body: request.body,
            request_tab: RequestTab::Headers,
            response_tab: ResponseTab::Body,
            saved_request_id: Some(request.id),
            collection_id: request.collection_id,
            is_default_name: false,
            is_sending: false,
        }
    }
}

/// A copy of a list of entries.
pub fn copy_entries(v: &Vec<HeaderEntry>) -> (r: Vec<HeaderEntry>)
    ensures
        headers_view(r@) == headers_view(v@),
{
    let mut r: Vec<HeaderEntry> = Vec::new();
    let mut i: usize = 0;
    while i < v.len()
        invariant
            i <= v.len(),
            headers_view(r@) == headers_view(v@.take(i as int)),
        decreases v.len() - i,
    {
        let e = HeaderEntry { key: v[i].key.clone(), value: v[i].value.clone(), enabled: v[i].enabled };
        assert(e@ == v@[i as int]@);
        let ghost before = headers_view(r@);
        r.push(e);
        assert(headers_view(r@) =~= before.push(e@));
        assert(headers_view(v@.take(i + 1)) =~= headers_view(v@.take(i as int)).push(v@[i as int]@));
        assert(headers_view(r@) =~= headers_view(v@.take(i + 1)));
        i += 1;
    }
    assert(v@.take(v.len() as int) =~= v@);
    r
}

/// The tab to show after closing tab `index` while tab `active` was shown,
/// `remaining` tabs being left: the shown tab keeps its place, moving down
/// by one when a tab before it closed; when the shown tab itself closed, the
/// tab now at its place, or the last tab.
pub fn tab_after_close(index: usize, active: usize, remaining: usize) -> (r: usize)
    requires
        remaining > 0,
        index <= remaining,
        active <= remaining,
    ensures
        r == if index < active {
            (active - 1) as int
        } else if index == active {
            if active < remaining - 1 { active as int } else { remaining - 1 }
        } else {
            active as int
        },
{
    if index < active {
        active - 1
    } else if index == active {
        if active < remaining - 1 { active } else { remaining - 1 }
    } else {
        active
    }
}

/// The first tab holding the saved request `id`, if any.
pub fn find_saved_tab(tabs: &Vec<OpenRequestTab>, id: i64) -> (r: Option<usize>)
    ensures
        match r {
            Some(i) => i < tabs@.len() && tabs@[i as int].saved_request_id == Some(id)
                && forall|k: int| 0 <= k < i ==> #[trigger] tabs@[k].saved_request_id != Some(id),
            None => forall|k: int| 0 <= k < tabs@.len() ==> #[trigger] tabs@[k].saved_request_id != Some(id),
        },
{
    let mut i: usize = 0;
    while i < tabs.len()
        invariant
            i <= tabs.len(),
            forall|k: int| 0 <= k < i ==> #[trigger] tabs@[k].saved_request_id != Some(id),
        decreases tabs.len() - i,
    {
        let found = match tabs[i].saved_request_id {
            Some(s) => s == id,
            None => false,
        };
        if found {
            return Some(i);
        }
        i += 1;
    }
    None
}

/// A response body as shown: pretty-printed (named by
/// [`crate::json::json_pretty`]) when it is a JSON document, otherwise
/// unchanged.
pub fn format_json(json_str: &str) -> (r: String)
    ensures
        crate::json::is_json(json_str@) ==> r@ == crate::json::json_pretty(json_str@),
        !crate::json::is_json(json_str@) ==> r@ == json_str@,
{
    match crate::json::pretty_document(json_str) {
        Some(pretty) => pretty,
        None => json_str.to_string(),
    }
}

/// The name a request from the history opens under: its name, or its URL
/// when it was saved without one.
pub fn history_request_name(name: &str, url: &str) -> (r: String)
    ensures
        r@ == if name@.len() == 0 { url@ } else { name@ },
{
    if name.is_empty() {
        url.to_string()
    } else {
        name.to_string()
    }
}

/// The kind of a body from the history: none when it is empty, JSON when it
/// is a JSON document, raw text otherwise.
pub fn detect_body_type(body: &str) -> (r: BodyType)
    ensures
        r == if body@.len() == 0 {
            BodyType::Empty
        } else if crate::json::is_json(body@) {
            BodyType::Json
        } else {
            BodyType::Raw
        },
{
    if body.is_empty() {
        BodyType::Empty
    } else if crate::json::parse_error(body).is_none() {
        BodyType::Json
    } else {
        BodyType::Raw
    }
}

/// The parameters sent are exactly the enabled parameters with a non-empty
/// key, in order, whatever their values.
pub proof fn law_sent_params_are_enabled_with_key(ps: Seq<HeaderView>)
    ensures
        sent_params(ps) == ps.filter(|p: HeaderView| p.enabled && p.key.len() > 0),
    decreases ps.len(),
{
    reveal(Seq::filter);
    if ps.len() > 0 {
        law_sent_params_are_enabled_with_key(ps.drop_last());
    }
}

} // verus!
