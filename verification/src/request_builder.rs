//! The request being edited, and how it becomes a request to send: query
//! parameters appended to the URL, headers, authentication, the body and its
//! content type, and multipart fields. Also the substitution of an
//! environment's variables into the edited request.
use vstd::prelude::*;
use vstd::utf8::encode_utf8;

use crate::database::Environment;
use crate::http::{HttpMethod, HttpRequest, MultipartField, MultipartValue, ProxyAuth, ProxyConfig, RequestConfig, TlsConfig, method_parsed};
use crate::request_view::{BodyType, ContentType, MultipartEntry, ResponseTab, TabId, entry_for_field, multipart_entries};
use crate::scripts::resolve_with;
use crate::send::base64_of;
use crate::text::{chars_of, contains, contains_chars, pairs_view, push_str, replace_chars, string_of, trim, trim_str};

verus! {

/// Where an API key is sent.
#[derive(Debug, Clone, Copy, PartialEq, Eq, Structural)]
pub enum ApiKeyLocation {
    Header,
    Query,
}

/// The settings of an OAuth 2.0 authorization.
#[derive(Debug, Clone)]
pub struct OAuth2Config {
    pub auth_url: String,
    pub token_url: String,
    pub device_auth_url: String,
    pub client_id: String,
    pub client_secret: String,
    pub scopes: String,
    pub redirect_uri: String,
    pub access_token: String,
    pub refresh_token: String,
}

/// How a request authenticates.
#[derive(Debug, Clone)]
pub enum Auth {
    NoAuth,
    BearerToken(String),
    Basic { user: String, pass: String },
    ApiKey { key: String, value: String, location: ApiKeyLocation },
    Digest { user: String, pass: String },
    OAuth2(Box<OAuth2Config>),
}

/// A request as edited: the URL and method typed in, parameter and header
/// rows, authentication, the body with its kind and content type, the
/// multipart rows and the number the next one gets, the settings, and the
/// state of the editor's tabs, toggles and response search.
#[derive(Debug, Clone)]
pub struct RequestDraft {
    pub url_input: String,
    pub method: String,
    pub params: Vec<(String, String)>,
    pub headers: Vec<(String, String)>,
    pub auth: Auth,
    pub body_text: String,
    pub body_type: BodyType,
    pub request_content_type: ContentType,
    pub multipart_entries: Vec<MultipartEntry>,
    pub multipart_next_id: usize,
    pub request_config: RequestConfig,
    pub active_tab: TabId,
    pub active_response_tab: ResponseTab,
    pub word_wrap: bool,
    pub show_snippets: bool,
    pub show_response_search: bool,
    pub response_search_query: String,
    pub response_search_matches: Vec<(usize, usize)>,
    pub response_search_index: usize,
    pub show_image_preview: bool,
}

impl Default for RequestDraft {
    /// A `GET` of the sample URL with a JSON text body, default settings,
    /// one empty multipart row and the body tabs open.
    fn default() -> (r: Self)
        ensures
            r.url_input@ == "https://jsonplaceholder.typicode.com/todos/1"@,
            r.method@ == "GET"@,
            r.params@.len() == 0,
            r.headers@.len() == 0,
            r.auth is NoAuth,
            r.body_text@.len() == 0,
            r.body_type == BodyType::Text,
            r.request_content_type == ContentType::Json,
            r.multipart_entries@.len() == 1,
            r.multipart_entries@[0].id == 0,
            r.multipart_entries@[0].name@.len() == 0,
            r.multipart_entries@[0].value@.len() == 0,
            !r.multipart_entries@[0].is_file,
            r.multipart_next_id == 1,
            r.active_tab == TabId::Body,
            r.active_response_tab == ResponseTab::Body,
            !r.word_wrap,
            !r.show_snippets,
            !r.show_response_search,
            r.response_search_query@.len() == 0,
            r.response_search_matches@.len() == 0,
            r.response_search_index == 0,
            !r.show_image_preview,
            r.request_config.timeout_ms == 30000,
            r.request_config.redirect_policy == crate::http::RedirectPolicy::Follow,
            r.request_config.tls.verify_ssl,
    {
        RequestDraft {
            url_input: string_of(&chars_of("https://jsonplaceholder.typicode.com/todos/1")),
            method: string_of(&chars_of("GET")),
            params: Vec::new(),
            headers: Vec::new(),
            auth: Auth::NoAuth,
            body_text: String::new(),
            body_type: BodyType::Text,
            request_content_type: ContentType::Json,
            multipart_entries: vec![
                MultipartEntry { id: 0, name: String::new(), value: String::new(), is_file: false },
            ],
            multipart_next_id: 1,
            request_config: RequestConfig::default(),
            active_tab: TabId::Body,
            active_response_tab: ResponseTab::Body,
            word_wrap: false,
            show_snippets: false,
            show_response_search: false,
            response_search_query: String::new(),
            response_search_matches: Vec::new(),
            response_search_index: 0,
            show_image_preview: false,
        }
    }
}

// ---------------------------------------------------------------------------
// Percent-encoding (done by the `urlencoding` crate).
// ---------------------------------------------------------------------------

/// A byte that `urlencoding::encode` keeps as it is: an ASCII letter or
/// digit, or one of `-`, `.`, `_`, `~`.
pub open spec fn url_safe_byte(b: u8) -> bool {
    (48 <= b <= 57) || (65 <= b <= 90) || (97 <= b <= 122) || b == 45 || b == 46 || b == 95 || b
        == 126
}

/// The uppercase hexadecimal digit for `n` below 16.
pub open spec fn hex_upper(n: u8) -> char {
    if n < 10 {
        (48 + n) as char
    } else {
        (55 + n) as char
    }
}

/// Percent-encoding of bytes: a kept byte as its character, any other as
/// `%` and two uppercase hexadecimal digits.
pub open spec fn percent_encoded(bs: Seq<u8>) -> Seq<char>
    decreases bs.len(),
{
    if bs.len() == 0 {
        Seq::empty()
    } else {
        let b = bs.last();
        percent_encoded(bs.drop_last()) + if url_safe_byte(b) {
            seq![b as char]
        } else {
            seq!['%', hex_upper(b / 16), hex_upper(b % 16)]
        }
    }
}

/// What `urlencoding::encode` gives for a text: its UTF-8 bytes
/// percent-encoded (see `percent_encoded`).
pub open spec fn url_encoded_of(s: Seq<char>) -> Seq<char> {
    percent_encoded(encode_utf8(s))
}

/// `urlencoding::encode`: every UTF-8 byte of the text is written as `%XX`
/// (uppercase hex), except ASCII letters, digits and `-`, `.`, `_`, `~`,
/// which are kept (see `url_encoded_of`).
#[verifier::external_body]
fn url_encode(s: &str) -> (r: String)
    ensures
        r@ == url_encoded_of(s@),
{
    urlencoding::encode(s).into_owned()
}

// ---------------------------------------------------------------------------
// Building the request.
// ---------------------------------------------------------------------------

/// The rows whose key is not empty, in order.
pub open spec fn keyed(rows: Seq<(Seq<char>, Seq<char>)>) -> Seq<(Seq<char>, Seq<char>)>
    decreases rows.len(),
{
    if rows.len() == 0 {
        rows
    } else if rows.last().0.len() > 0 {
        keyed(rows.drop_last()).push(rows.last())
    } else {
        keyed(rows.drop_last())
    }
}

/// The query string of parameter rows: `key=value` with both sides
/// percent-encoded, joined by `&`.
pub open spec fn query_of(rows: Seq<(Seq<char>, Seq<char>)>) -> Seq<char>
    decreases rows.len(),
{
    if rows.len() == 0 {
        Seq::empty()
    } else {
        let item = url_encoded_of(rows.last().0) + "="@ + url_encoded_of(rows.last().1);
        if rows.len() == 1 {
            item
        } else {
            query_of(rows.drop_last()) + "&"@ + item
        }
    }
}

/// `url` with `query` appended after `?`, or after `&` when the URL already
/// has a `?`; the URL itself when the query is empty.
pub open spec fn with_query(url: Seq<char>, query: Seq<char>) -> Seq<char> {
    if query.len() == 0 {
        url
    } else if contains(url, "?"@) {
        url + "&"@ + query
    } else {
        url + "?"@ + query
    }
}

/// The header that `Content-Type` takes for a text body.
pub open spec fn content_type_header(ct: ContentType) -> Seq<char> {
    match ct {
        ContentType::Json => "application/json"@,
        ContentType::Text => "text/plain"@,
        ContentType::Html => "text/html"@,
        ContentType::Xml => "application/xml"@,
    }
}

/// What authentication adds: the URL after it and the headers it adds.
pub open spec fn auth_effect(auth: Auth, url: Seq<char>) -> (Seq<char>, Seq<(Seq<char>, Seq<char>)>) {
    match auth {
        Auth::BearerToken(t) => if t@.len() > 0 {
            (url, seq![("Authorization"@, "Bearer "@ + t@)])
        } else {
            (url, Seq::empty())
        },
        Auth::Basic { user, pass } => if user@.len() > 0 || pass@.len() > 0 {
            (
                url,
                seq![
                    ("Authorization"@, "Basic "@ + base64_of(
                        vstd::utf8::encode_utf8(user@ + ":"@ + pass@),
                    )),
                ],
            )
        } else {
            (url, Seq::empty())
        },
        Auth::ApiKey { key, value, location } => if key@.len() > 0 {
            match location {
                ApiKeyLocation::Header => (url, seq![(key@, value@)]),
                ApiKeyLocation::Query => (
                    url + (if contains(url, "?"@) {
                        "&"@
                    } else {
                        "?"@
                    }) + url_encoded_of(key@) + "="@ + url_encoded_of(value@),
                    Seq::empty(),
                ),
            }
        } else {
            (url, Seq::empty())
        },
        Auth::OAuth2(c) => if c.access_token@.len() > 0 {
            (url, seq![("Authorization"@, "Bearer "@ + c.access_token@)])
        } else {
            (url, Seq::empty())
        },
        _ => (url, Seq::empty()),
    }
}

/// The body sent: none when the text is blank.
pub open spec fn body_of(text: Seq<char>) -> Option<Seq<char>> {
    if trim(text).len() == 0 {
        None
    } else {
        Some(text)
    }
}

/// The multipart fields of the rows with a name, in order: a file row names
/// a file by its path, any other row is text.
pub open spec fn fields_of(rows: Seq<MultipartEntry>) -> Seq<(Seq<char>, bool, Seq<char>)>
    decreases rows.len(),
{
    if rows.len() == 0 {
        Seq::empty()
    } else if rows.last().name@.len() > 0 {
        fields_of(rows.drop_last()).push(
            (rows.last().name@, rows.last().is_file, rows.last().value@),
        )
    } else {
        fields_of(rows.drop_last())
    }
}

/// The shape of a multipart field: its name, whether it is a file, and its
/// text or path.
pub open spec fn field_shape(f: MultipartField) -> (Seq<char>, bool, Seq<char>) {
    match f.value {
        MultipartValue::Text(t) => (f.name@, false, t@),
        MultipartValue::File { path, filename } => (f.name@, true, path@),
    }
}

/// A file field names no file name of its own.
pub open spec fn no_file_name(f: MultipartField) -> bool {
    match f.value {
        MultipartValue::File { filename, .. } => filename is None,
        _ => true,
    }
}

/// The bytes of the Basic credentials fit the base64 encoder.
pub open spec fn basic_fits(auth: Auth) -> bool {
    match auth {
        Auth::Basic { user, pass } => vstd::utf8::encode_utf8(user@ + ":"@ + pass@).len()
            <= usize::MAX / 2,
        _ => true,
    }
}

/// Whether the UTF-8 encoding of `s` takes at most `limit` bytes.
fn utf8_len_at_most(s: &[char], limit: usize) -> (r: bool)
    requires
        limit <= usize::MAX - 4,
    ensures
        r == (encode_utf8(s@).len() <= limit),
{
    let mut total: usize = 0;
    let mut i: usize = 0;
    proof {
        assert(s@.skip(0) =~= s@);
    }
    while i < s.len()
        invariant
            i <= s@.len(),
            total <= limit <= usize::MAX - 4,
            total + encode_utf8(s@.skip(i as int)).len() == encode_utf8(s@).len(),
        decreases s.len() - i,
    {
        let c = s[i];
        let v = c as u32;
        let w: usize = if v <= 0x7F {
            1
        } else if v <= 0x7FF {
            2
        } else if v <= 0xFFFF && !(0xD800 <= v && v <= 0xDFFF) {
            3
        } else {
            4
        };
        proof {
            let t = s@.skip(i as int);
            assert(t[0] == c);
            assert(t.drop_first() =~= s@.skip(i + 1));
            assert(encode_utf8(t) == vstd::utf8::encode_scalar(c as u32) + encode_utf8(
                t.drop_first(),
            ));
            assert(vstd::utf8::encode_scalar(v).len() == w);
        }
        total = total + w;
        i = i + 1;
        if total > limit {
            return false;
        }
    }
    proof {
        assert(s@.skip(s@.len() as int) =~= Seq::<char>::empty());
    }
    true
}

fn basic_fits_check(auth: &Auth) -> (r: bool)
    ensures
        r == basic_fits(*auth),
{
    match auth {
        Auth::Basic { user, pass } => {
            let mut c = chars_of(user.as_str());
            push_str(&mut c, ":");
            push_str(&mut c, pass.as_str());
            utf8_len_at_most(&c, usize::MAX / 2)
        },
        _ => true,
    }
}

/// `r` is the request built from the draft `d`.
pub open spec fn built_from(r: HttpRequest, d: RequestDraft) -> bool {
    let query = query_of(keyed(pairs_view(d.params@)));
    let (url, auth_headers) = auth_effect(d.auth, with_query(d.url_input@, query));
    let body = body_of(d.body_text@);
    let ct = if body is Some && d.body_type == BodyType::Text {
        seq![("Content-Type"@, content_type_header(d.request_content_type))]
    } else {
        Seq::empty()
    };
    &&& Some(r.method) == method_parsed(d.method@)
    &&& r.url@ == url
    &&& pairs_view(r.headers@) == keyed(pairs_view(d.headers@)) + auth_headers + ct
    &&& crate::text::opt_view(r.body) == body
    &&& r.config == d.request_config
    &&& r.auth == Some(d.auth)
    &&& r.multipart_fields@.map_values(|f: MultipartField| field_shape(f)) == (if d.body_type
        == BodyType::Multipart {
        fields_of(d.multipart_entries@)
    } else {
        Seq::empty()
    })
    &&& forall|i: int|
        0 <= i < r.multipart_fields@.len() ==> no_file_name(#[trigger] r.multipart_fields@[i])
}

fn keyed_rows(rows: &Vec<(String, String)>) -> (r: Vec<(String, String)>)
    ensures
        pairs_view(r@) == keyed(pairs_view(rows@)),
{
    let mut out: Vec<(String, String)> = Vec::new();
    let mut i: usize = 0;
    proof {
        assert(pairs_view(rows@).take(0) =~= Seq::<(Seq<char>, Seq<char>)>::empty());
        assert(pairs_view(out@) =~= Seq::<(Seq<char>, Seq<char>)>::empty());
    }
    while i < rows.len()
        invariant
            i <= rows@.len(),
            pairs_view(out@) == keyed(pairs_view(rows@).take(i as int)),
        decreases rows.len() - i,
    {
        proof {
            let t = pairs_view(rows@).take(i as int + 1);
            assert(t.drop_last() =~= pairs_view(rows@).take(i as int));
            assert(t.last() == (rows@[i as int].0@, rows@[i as int].1@));
        }
        let k = chars_of(rows[i].0.as_str());
        if k.len() > 0 {
            let ghost before = out@;
            out.push((rows[i].0.clone(), rows[i].1.clone()));
            proof {
                assert(pairs_view(out@) =~= pairs_view(before).push(
                    (rows@[i as int].0@, rows@[i as int].1@),
                ));
            }
        }
        i = i + 1;
    }
    proof {
        assert(pairs_view(rows@).take(i as int) =~= pairs_view(rows@));
    }
    out
}

fn query_string(rows: &Vec<(String, String)>) -> (r: Vec<char>)
    ensures
        r@ == query_of(pairs_view(rows@)),
{
    let mut out: Vec<char> = Vec::new();
    let mut i: usize = 0;
    proof {
        assert(pairs_view(rows@).take(0) =~= Seq::<(Seq<char>, Seq<char>)>::empty());
    }
    while i < rows.len()
        invariant
            i <= rows@.len(),
            out@ == query_of(pairs_view(rows@).take(i as int)),
        decreases rows.len() - i,
    {
        proof {
            let t = pairs_view(rows@).take(i as int + 1);
            assert(t.drop_last() =~= pairs_view(rows@).take(i as int));
            assert(t.last() == (rows@[i as int].0@, rows@[i as int].1@));
        }
        let ghost before = out@;
        if i > 0 {
            out.push('&');
        }
        let k = url_encode(rows[i].0.as_str());
        let v = url_encode(rows[i].1.as_str());
        push_str(&mut out, k.as_str());
        out.push('=');
        push_str(&mut out, v.as_str());
        proof {
            reveal_strlit("&");
            reveal_strlit("=");
            if i > 0 {
                assert(out@ =~= before + "&"@ + (k@ + "="@ + v@));
            } else {
                assert(out@ =~= k@ + "="@ + v@);
            }
        }
        i = i + 1;
    }
    proof {
        assert(pairs_view(rows@).take(i as int) =~= pairs_view(rows@));
    }
    out
}

fn dup_opt(s: &Option<String>) -> (r: Option<String>)
    ensures
        r == *s,
{
    match s {
        Some(x) => Some(x.clone()),
        None => None,
    }
}

fn dup_auth(a: &Auth) -> (r: Auth)
    ensures
        r == *a,
{
    match a {
        Auth::NoAuth => Auth::NoAuth,
        Auth::BearerToken(t) => Auth::BearerToken(t.clone()),
        Auth::Basic { user, pass } => Auth::Basic { user: user.clone(), pass: pass.clone() },
        Auth::ApiKey { key, value, location } => Auth::ApiKey {
            key: key.clone(),
            value: value.clone(),
            location: *location,
        },
        Auth::Digest { user, pass } => Auth::Digest { user: user.clone(), pass: pass.clone() },
        Auth::OAuth2(c) => Auth::OAuth2(
            Box::new(
                OAuth2Config {
                    auth_url: c.auth_url.clone(),
                    token_url: c.token_url.clone(),
                    device_auth_url: c.device_auth_url.clone(),
                    client_id: c.client_id.clone(),
                    client_secret: c.client_secret.clone(),
                    scopes: c.scopes.clone(),
                    redirect_uri: c.redirect_uri.clone(),
                    access_token: c.access_token.clone(),
                    refresh_token: c.refresh_token.clone(),
                },
            ),
        ),
    }
}

fn dup_config(c: &RequestConfig) -> (r: RequestConfig)
    ensures
        r == *c,
{
    let proxy = match &c.proxy {
        Some(p) => Some(
            ProxyConfig {
                url: p.url.clone(),
                auth: match &p.auth {
                    Some(a) => Some(
                        ProxyAuth { username: a.username.clone(), password: a.password.clone() },
                    ),
                    None => None,
                },
            },
        ),
        None => None,
    };
    RequestConfig {
        timeout_ms: c.timeout_ms,
        redirect_policy: c.redirect_policy,
        max_redirects: c.max_redirects,
        retry: c.retry,
        proxy_url: dup_opt(&c.proxy_url),
        proxy,
        tls: TlsConfig {
            verify_ssl: c.tls.verify_ssl,
            ca_cert_path: dup_opt(&c.tls.ca_cert_path),
            client_cert_path: dup_opt(&c.tls.client_cert_path),
            client_key_path: dup_opt(&c.tls.client_key_path),
        },
    }
}

fn multipart_fields_of(rows: &Vec<MultipartEntry>) -> (r: Vec<MultipartField>)
    ensures
        r@.map_values(|f: MultipartField| field_shape(f)) == fields_of(rows@),
        forall|i: int|
            0 <= i < r@.len() ==> no_file_name(#[trigger] r@[i]),
{
    let mut out: Vec<MultipartField> = Vec::new();
    let mut i: usize = 0;
    proof {
        assert(rows@.take(0) =~= Seq::<MultipartEntry>::empty());
        assert(out@.map_values(|f: MultipartField| field_shape(f)) =~= Seq::<
            (Seq<char>, bool, Seq<char>),
        >::empty());
    }
    while i < rows.len()
        invariant
            i <= rows@.len(),
            out@.map_values(|f: MultipartField| field_shape(f)) == fields_of(rows@.take(i as int)),
            forall|k: int|
                0 <= k < out@.len() ==> no_file_name(#[trigger] out@[k]),
        decreases rows.len() - i,
    {
        proof {
            assert(rows@.take(i as int + 1).drop_last() =~= rows@.take(i as int));
        }
        let e = &rows[i];
        let n = chars_of(e.name.as_str());
        if n.len() > 0 {
            let value = if e.is_file {
                MultipartValue::File { path: e.value.clone(), filename: None }
            } else {
                MultipartValue::Text(e.value.clone())
            };
            let ghost before = out@;
            out.push(MultipartField { name: e.name.clone(), value });
            proof {
                assert(out@.map_values(|f: MultipartField| field_shape(f)) =~= before.map_values(
                    |f: MultipartField| field_shape(f),
                ).push((e.name@, e.is_file, e.value@)));
            }
        }
        i = i + 1;
    }
    proof {
        assert(rows@.take(i as int) =~= rows@);
    }
    out
}

fn pair(a: &str, b: Vec<char>) -> (r: (String, String))
    ensures
        r.0@ == a@,
        r.1@ == b@,
{
    (string_of(&chars_of(a)), string_of(&b))
}

impl RequestDraft {
    /// Puts back the multipart rows of a saved request: one row per field,
    /// numbered from 0, holding the field's name and its text or file path;
    /// the next row gets the number of fields.
    pub fn restore_multipart(&mut self, fields: &[MultipartField])
        ensures
            final(self).multipart_entries@.len() == fields@.len(),
            forall|i: int|
                0 <= i < fields@.len() ==> entry_for_field(
                    #[trigger] final(self).multipart_entries@[i],
                    fields@[i],
                    i,
                ),
            *final(self) == (RequestDraft {
                multipart_entries: final(self).multipart_entries,
                multipart_next_id: fields@.len() as usize,
                ..*old(self)
            }),
    {
        let (entries, next) = multipart_entries(fields);
        self.multipart_entries = entries;
        self.multipart_next_id = next;
    }

    /// The request to send when the method names an HTTP method (see
    /// `build_request`); `None` when it does not, or when Basic credentials
    /// are too long to encode in memory.
    pub fn try_build_request(&self) -> (r: Option<HttpRequest>)
        ensures
            r is Some <==> (method_parsed(self.method@) is Some && basic_fits(self.auth)),
            r matches Some(q) ==> built_from(q, *self),
    {
        if HttpMethod::parse(self.method.as_str()).is_none() {
            return None;
        }
        if !basic_fits_check(&self.auth) {
            return None;
        }
        Some(self.build_request())
    }

    /// The request to send: the URL with the parameter rows that have a key
    /// appended as a query, the header rows that have a key, the
    /// authentication's header or query parameter, the body unless blank
    /// with a `Content-Type` header for a text body, and the named multipart
    /// rows for a multipart body (see `built_from`). The method must name an
    /// HTTP method.
    pub fn build_request(&self) -> (r: HttpRequest)
        requires
            method_parsed(self.method@) is Some,
            basic_fits(self.auth),
        ensures
            built_from(r, *self),
    {
        let kept_params = keyed_rows(&self.params);
        let q = query_string(&kept_params);
        let url_chars = chars_of(self.url_input.as_str());
        let mut url: Vec<char> = url_chars.clone();
        if q.len() > 0 {
            if contains_chars(&url_chars, &chars_of("?")) {
                url.push('&');
            } else {
                url.push('?');
            }
            crate::text::push_chars(&mut url, &q);
            proof {
                reveal_strlit("&");
                reveal_strlit("?");
            }
        }
        let ghost url0 = url@;
        assert(url0 == with_query(self.url_input@, query_of(keyed(pairs_view(self.params@))))) by {
            reveal_strlit("&");
            reveal_strlit("?");
        }
        let mut headers = keyed_rows(&self.headers);
        let ghost h0 = pairs_view(headers@);
        match &self.auth {
            Auth::BearerToken(token) => {
                if !token.as_str().is_empty() {
                    let mut v: Vec<char> = Vec::new();
                    push_str(&mut v, "Bearer ");
                    push_str(&mut v, token.as_str());
                    headers.push(pair("Authorization", v));
                }
            },
            Auth::Basic { user, pass } => {
                if !user.as_str().is_empty() || !pass.as_str().is_empty() {
                    let mut cred: Vec<char> = Vec::new();
                    push_str(&mut cred, user.as_str());
                    push_str(&mut cred, ":");
                    push_str(&mut cred, pass.as_str());
                    let cs = string_of(&cred);
                    let encoded = crate::send::base64_encode(cs.as_str().as_bytes());
                    let mut v: Vec<char> = Vec::new();
                    push_str(&mut v, "Basic ");
                    push_str(&mut v, encoded.as_str());
                    headers.push(pair("Authorization", v));
                }
            },
            Auth::ApiKey { key, value, location } => {
                if !key.as_str().is_empty() {
                    match location {
                        ApiKeyLocation::Header => {
                            headers.push((key.clone(), value.clone()));
                        },
                        ApiKeyLocation::Query => {
                            let has_q = contains_chars(&url, &chars_of("?"));
                            if has_q {
                                url.push('&');
                            } else {
                                url.push('?');
                            }
                            let k = url_encode(key.as_str());
                            let v = url_encode(value.as_str());
                            push_str(&mut url, k.as_str());
                            url.push('=');
                            push_str(&mut url, v.as_str());
                            proof {
                                reveal_strlit("&");
                                reveal_strlit("?");
                                reveal_strlit("=");
                            }
                        },
                    }
                }
            },
            Auth::OAuth2(config) => {
                if !config.access_token.as_str().is_empty() {
                    let mut v: Vec<char> = Vec::new();
                    push_str(&mut v, "Bearer ");
                    push_str(&mut v, config.access_token.as_str());
                    headers.push(pair("Authorization", v));
                }
            },
            _ => {},
        }
        proof {
            let (u, ah) = auth_effect(self.auth, url0);
            assert(url@ =~= u);
            assert(pairs_view(headers@) =~= h0 + ah);
        }
        let ghost h1 = pairs_view(headers@);
        let trimmed = trim_str(self.body_text.as_str());
        let body = if trimmed.len() == 0 {
            None
        } else {
            Some(self.body_text.clone())
        };
        let is_text = match self.body_type {
            BodyType::Text => true,
            BodyType::Multipart => false,
        };
        if body.is_some() && is_text {
            let ct = match self.request_content_type {
                ContentType::Json => "application/json",
                ContentType::Text => "text/plain",
                ContentType::Html => "text/html",
                ContentType::Xml => "application/xml",
            };
            headers.push(pair("Content-Type", chars_of(ct)));
        }
        proof {
            let ct = if body_of(self.body_text@) is Some && self.body_type == BodyType::Text {
                seq![("Content-Type"@, content_type_header(self.request_content_type))]
            } else {
                Seq::empty()
            };
            assert(pairs_view(headers@) =~= h1 + ct);
        }
        let multipart_fields = if is_text {
            Vec::new()
        } else {
            multipart_fields_of(&self.multipart_entries)
        };
        proof {
            if is_text {
                assert(multipart_fields@.map_values(|f: MultipartField| field_shape(f)) =~= Seq::<
                    (Seq<char>, bool, Seq<char>),
                >::empty());
            }
        }
        let method = match HttpMethod::parse(self.method.as_str()) {
            Some(m) => m,
            None => HttpMethod::Get,
        };
        HttpRequest {
            method,
            url: string_of(&url),
            headers,
            body,
            config: dup_config(&self.request_config),
            multipart_fields,
            auth: Some(dup_auth(&self.auth)),
        }
    }

    /// Substitutes the environment's variables, one after another, into the
    /// URL, the body, the values of header and parameter rows, and every text
    /// of the authentication (see `resolve_with`).
    pub fn apply_environment(&mut self, env: &Environment)
        ensures
            final(self).url_input@ == resolve_with(pairs_view(env.variables@), old(self).url_input@),
            final(self).body_text@ == resolve_with(pairs_view(env.variables@), old(self).body_text@),
            rows_resolved(pairs_view(final(self).headers@), pairs_view(old(self).headers@), pairs_view(env.variables@)),
            rows_resolved(pairs_view(final(self).params@), pairs_view(old(self).params@), pairs_view(env.variables@)),
            auth_resolved(final(self).auth, old(self).auth, pairs_view(env.variables@)),
            *final(self) == (RequestDraft {
                url_input: final(self).url_input,
                body_text: final(self).body_text,
                headers: final(self).headers,
                params: final(self).params,
                auth: final(self).auth,
                ..*old(self)
            }),
    {
        let vars = &env.variables;
        let mut i: usize = 0;
        let ghost vs = pairs_view(vars@);
        proof {
            assert(vs.take(0) =~= Seq::<(Seq<char>, Seq<char>)>::empty());
            lemma_rows_resolved_refl(pairs_view(self.headers@));
            lemma_rows_resolved_refl(pairs_view(self.params@));
            lemma_auth_resolved_refl(self.auth);
        }
        while i < vars.len()
            invariant
                i <= vars@.len(),
                vs == pairs_view(vars@),
                self.url_input@ == resolve_with(vs.take(i as int), old(self).url_input@),
                self.body_text@ == resolve_with(vs.take(i as int), old(self).body_text@),
                rows_resolved(pairs_view(self.headers@), pairs_view(old(self).headers@), vs.take(i as int)),
                rows_resolved(pairs_view(self.params@), pairs_view(old(self).params@), vs.take(i as int)),
                auth_resolved(self.auth, old(self).auth, vs.take(i as int)),
                *self == (RequestDraft {
                    url_input: self.url_input,
                    body_text: self.body_text,
                    headers: self.headers,
                    params: self.params,
                    auth: self.auth,
                    ..*old(self)
                }),
            decreases vars.len() - i,
        {
            let mut ph: Vec<char> = Vec::new();
            ph.push('{');
            ph.push('{');
            push_str(&mut ph, vars[i].0.as_str());
            ph.push('}');
            ph.push('}');
            let value = chars_of(vars[i].1.as_str());
            proof {
                let t = vs.take(i as int + 1);
                assert(t.drop_last() =~= vs.take(i as int));
                assert(t.last() == (vars@[i as int].0@, vars@[i as int].1@));
                assert(ph@ =~= crate::scripts::placeholder(vars@[i as int].0@));
            }
            let ghost prev_h = pairs_view(self.headers@);
            let ghost prev_p = pairs_view(self.params@);
            self.url_input = replace_in(&self.url_input, &ph, &value);
            self.body_text = replace_in(&self.body_text, &ph, &value);
            let h = replace_in_rows(&self.headers, &ph, &value);
            self.headers = h;
            let p = replace_in_rows(&self.params, &ph, &value);
            self.params = p;
            let a = replace_in_auth(&self.auth, &ph, &value);
            self.auth = a;
            proof {
                let t = vs.take(i as int + 1);
                assert(t.drop_last() =~= vs.take(i as int));
                let hb = pairs_view(old(self).headers@);
                let hn = pairs_view(self.headers@);
                assert forall|k: int| 0 <= k < hn.len() implies (#[trigger] hn[k]).0 == hb[k].0
                    && hn[k].1 == resolve_with(t, hb[k].1) by {
                    assert(hn[k].1 == crate::text::replace_all(prev_h[k].1, ph@, value@));
                    assert(prev_h[k].1 == resolve_with(vs.take(i as int), hb[k].1));
                }
                let pb = pairs_view(old(self).params@);
                let pn = pairs_view(self.params@);
                assert forall|k: int| 0 <= k < pn.len() implies (#[trigger] pn[k]).0 == pb[k].0
                    && pn[k].1 == resolve_with(t, pb[k].1) by {
                    assert(pn[k].1 == crate::text::replace_all(prev_p[k].1, ph@, value@));
                    assert(prev_p[k].1 == resolve_with(vs.take(i as int), pb[k].1));
                }
            }
            i = i + 1;
        }
        proof {
            assert(vs.take(i as int) =~= vs);
        }
    }
}

/// Header or parameter rows after substitution: the same keys, each value
/// resolved against `vars`.
pub open spec fn rows_resolved(
    now: Seq<(Seq<char>, Seq<char>)>,
    before: Seq<(Seq<char>, Seq<char>)>,
    vars: Seq<(Seq<char>, Seq<char>)>,
) -> bool {
    now.len() == before.len() && forall|k: int|
        0 <= k < now.len() ==> (#[trigger] now[k]).0 == before[k].0 && now[k].1 == resolve_with(
            vars,
            before[k].1,
        )
}

/// An authentication after substitution: the same kind, every text resolved
/// against `vars`.
pub open spec fn auth_resolved(now: Auth, before: Auth, vars: Seq<(Seq<char>, Seq<char>)>) -> bool {
    match (now, before) {
        (Auth::NoAuth, Auth::NoAuth) => true,
        (Auth::BearerToken(a), Auth::BearerToken(b)) => a@ == resolve_with(vars, b@),
        (Auth::Basic { user: u1, pass: p1 }, Auth::Basic { user: u0, pass: p0 }) => u1@
            == resolve_with(vars, u0@) && p1@ == resolve_with(vars, p0@),
        (
            Auth::ApiKey { key: k1, value: v1, location: l1 },
            Auth::ApiKey { key: k0, value: v0, location: l0 },
        ) => k1@ == resolve_with(vars, k0@) && v1@ == resolve_with(vars, v0@) && l1 == l0,
        (Auth::Digest { user: u1, pass: p1 }, Auth::Digest { user: u0, pass: p0 }) => u1@
            == resolve_with(vars, u0@) && p1@ == resolve_with(vars, p0@),
        (Auth::OAuth2(c1), Auth::OAuth2(c0)) => {
            &&& c1.auth_url@ == resolve_with(vars, c0.auth_url@)
            &&& c1.token_url@ == resolve_with(vars, c0.token_url@)
            &&& c1.device_auth_url@ == resolve_with(vars, c0.device_auth_url@)
            &&& c1.client_id@ == resolve_with(vars, c0.client_id@)
            &&& c1.client_secret@ == resolve_with(vars, c0.client_secret@)
            &&& c1.scopes@ == resolve_with(vars, c0.scopes@)
            &&& c1.redirect_uri@ == resolve_with(vars, c0.redirect_uri@)
            &&& c1.access_token@ == resolve_with(vars, c0.access_token@)
            &&& c1.refresh_token@ == resolve_with(vars, c0.refresh_token@)
        },
        _ => false,
    }
}

proof fn lemma_rows_resolved_refl(rows: Seq<(Seq<char>, Seq<char>)>)
    ensures
        rows_resolved(rows, rows, Seq::empty()),
{
}

proof fn lemma_auth_resolved_refl(a: Auth)
    ensures
        auth_resolved(a, a, Seq::empty()),
{
}

fn replace_in(s: &String, ph: &Vec<char>, value: &Vec<char>) -> (r: String)
    requires
        ph@.len() > 0,
    ensures
        r@ == crate::text::replace_all(s@, ph@, value@),
{
    let c = chars_of(s.as_str());
    string_of(&replace_chars(&c, ph, value))
}

fn replace_in_rows(rows: &Vec<(String, String)>, ph: &Vec<char>, value: &Vec<char>) -> (r: Vec<(String, String)>)
    requires
        ph@.len() > 0,
    ensures
        r@.len() == rows@.len(),
        forall|k: int|
            0 <= k < r@.len() ==> (#[trigger] r@[k]).0@ == rows@[k].0@ && r@[k].1@
                == crate::text::replace_all(rows@[k].1@, ph@, value@),
{
    let mut out: Vec<(String, String)> = Vec::new();
    let mut i: usize = 0;
    while i < rows.len()
        invariant
            i <= rows@.len(),
            ph@.len() > 0,
            out@.len() == i,
            forall|k: int|
                0 <= k < i ==> (#[trigger] out@[k]).0@ == rows@[k].0@ && out@[k].1@
                    == crate::text::replace_all(rows@[k].1@, ph@, value@),
        decreases rows.len() - i,
    {
        let v = replace_in(&rows[i].1, ph, value);
        out.push((rows[i].0.clone(), v));
        i = i + 1;
    }
    out
}

fn replace_in_auth(a: &Auth, ph: &Vec<char>, value: &Vec<char>) -> (r: Auth)
    requires
        ph@.len() > 0,
    ensures
        match (r, *a) {
            (Auth::NoAuth, Auth::NoAuth) => true,
            (Auth::BearerToken(x), Auth::BearerToken(y)) => x@ == crate::text::replace_all(
                y@,
                ph@,
                value@,
            ),
            (Auth::Basic { user: u1, pass: p1 }, Auth::Basic { user: u0, pass: p0 }) => u1@
                == crate::text::replace_all(u0@, ph@, value@) && p1@ == crate::text::replace_all(
                p0@,
                ph@,
                value@,
            ),
            (
                Auth::ApiKey { key: k1, value: v1, location: l1 },
                Auth::ApiKey { key: k0, value: v0, location: l0 },
            ) => k1@ == crate::text::replace_all(k0@, ph@, value@) && v1@
                == crate::text::replace_all(v0@, ph@, value@) && l1 == l0,
            (Auth::Digest { user: u1, pass: p1 }, Auth::Digest { user: u0, pass: p0 }) => u1@
                == crate::text::replace_all(u0@, ph@, value@) && p1@ == crate::text::replace_all(
                p0@,
                ph@,
                value@,
            ),
            (Auth::OAuth2(c1), Auth::OAuth2(c0)) => {
                &&& c1.auth_url@ == crate::text::replace_all(c0.auth_url@, ph@, value@)
                &&& c1.token_url@ == crate::text::replace_all(c0.token_url@, ph@, value@)
                &&& c1.device_auth_url@ == crate::text::replace_all(
                    c0.device_auth_url@,
                    ph@,
                    value@,
                )
                &&& c1.client_id@ == crate::text::replace_all(c0.client_id@, ph@, value@)
                &&& c1.client_secret@ == crate::text::replace_all(c0.client_secret@, ph@, value@)
                &&& c1.scopes@ == crate::text::replace_all(c0.scopes@, ph@, value@)
                &&& c1.redirect_uri@ == crate::text::replace_all(c0.redirect_uri@, ph@, value@)
                &&& c1.access_token@ == crate::text::replace_all(c0.access_token@, ph@, value@)
                &&& c1.refresh_token@ == crate::text::replace_all(c0.refresh_token@, ph@, value@)
            },
            _ => false,
        },
{
    match a {
        Auth::NoAuth => Auth::NoAuth,
        Auth::BearerToken(t) => Auth::BearerToken(replace_in(t, ph, value)),
        Auth::Basic { user, pass } => Auth::Basic {
            user: replace_in(user, ph, value),
            pass: replace_in(pass, ph, value),
        },
        Auth::ApiKey { key, value: v, location } => Auth::ApiKey {
            key: replace_in(key, ph, value),
            value: replace_in(v, ph, value),
            location: *location,
        },
        Auth::Digest { user, pass } => Auth::Digest {
            user: replace_in(user, ph, value),
            pass: replace_in(pass, ph, value),
        },
        Auth::OAuth2(c) => Auth::OAuth2(
            Box::new(
                OAuth2Config {
                    auth_url: replace_in(&c.auth_url, ph, value),
                    token_url: replace_in(&c.token_url, ph, value),
                    device_auth_url: replace_in(&c.device_auth_url, ph, value),
                    client_id: replace_in(&c.client_id, ph, value),
                    client_secret: replace_in(&c.client_secret, ph, value),
                    scopes: replace_in(&c.scopes, ph, value),
                    redirect_uri: replace_in(&c.redirect_uri, ph, value),
                    access_token: replace_in(&c.access_token, ph, value),
                    refresh_token: replace_in(&c.refresh_token, ph, value),
                },
            ),
        ),
    }
}

/// A request built with an OAuth 2.0 authorization that holds an access
/// token carries it as a bearer token: `Authorization: Bearer <token>`.
pub proof fn lemma_oauth2_sends_bearer(r: HttpRequest, d: RequestDraft)
    requires
        built_from(r, d),
        d.auth is OAuth2,
        d.auth->OAuth2_0.access_token@.len() > 0,
    ensures
        pairs_view(r.headers@).contains(
            ("Authorization"@, "Bearer "@ + d.auth->OAuth2_0.access_token@),
        ),
{
    let k = keyed(pairs_view(d.headers@)).len() as int;
    assert(pairs_view(r.headers@)[k] == ("Authorization"@, "Bearer "@ + d.auth->OAuth2_0.access_token@));
}

/// A request built with a non-empty bearer token carries it:
/// `Authorization: Bearer <token>`.
pub proof fn lemma_bearer_token_sent(r: HttpRequest, d: RequestDraft)
    requires
        built_from(r, d),
        d.auth is BearerToken,
        d.auth->BearerToken_0@.len() > 0,
    ensures
        pairs_view(r.headers@).contains(("Authorization"@, "Bearer "@ + d.auth->BearerToken_0@)),
{
    let k = keyed(pairs_view(d.headers@)).len() as int;
    assert(pairs_view(r.headers@)[k] == ("Authorization"@, "Bearer "@ + d.auth->BearerToken_0@));
}

/// A request built with an API key sent in a header carries that header,
/// whenever the key is not empty.
pub proof fn lemma_api_key_header_sent(r: HttpRequest, d: RequestDraft)
    requires
        built_from(r, d),
        d.auth is ApiKey,
        d.auth->ApiKey_location == ApiKeyLocation::Header,
        d.auth->ApiKey_key@.len() > 0,
    ensures
        pairs_view(r.headers@).contains((d.auth->ApiKey_key@, d.auth->ApiKey_value@)),
{
    let k = keyed(pairs_view(d.headers@)).len() as int;
    assert(pairs_view(r.headers@)[k] == (d.auth->ApiKey_key@, d.auth->ApiKey_value@));
}

/// A text body is sent with the `Content-Type` of its chosen kind: JSON as
/// `application/json`, plain text as `text/plain`, HTML as `text/html` and
/// XML as `application/xml`; the body itself is sent as written.
pub proof fn lemma_text_body_content_type(r: HttpRequest, d: RequestDraft)
    requires
        built_from(r, d),
        d.body_type == BodyType::Text,
        trim(d.body_text@).len() > 0,
    ensures
        r.body is Some && r.body->0@ == d.body_text@,
        pairs_view(r.headers@).contains(
            (
                "Content-Type"@,
                match d.request_content_type {
                    ContentType::Json => "application/json"@,
                    ContentType::Text => "text/plain"@,
                    ContentType::Html => "text/html"@,
                    ContentType::Xml => "application/xml"@,
                },
            ),
        ),
{
    let query = query_of(keyed(pairs_view(d.params@)));
    let (url, auth_headers) = auth_effect(d.auth, with_query(d.url_input@, query));
    let k = keyed(pairs_view(d.headers@)).len() + auth_headers.len();
    assert(pairs_view(r.headers@)[k as int] == ("Content-Type"@, content_type_header(
        d.request_content_type,
    )));
}

/// A blank body (empty or only whitespace) is not sent.
pub proof fn lemma_blank_body_not_sent(r: HttpRequest, d: RequestDraft)
    requires
        built_from(r, d),
        trim(d.body_text@).len() == 0,
    ensures
        r.body is None,
{
}

/// The URL sent starts with the URL as typed: parameters and an API key are
/// only ever appended to it.
pub proof fn lemma_url_extends_input(r: HttpRequest, d: RequestDraft)
    requires
        built_from(r, d),
    ensures
        r.url@.len() >= d.url_input@.len(),
        r.url@.subrange(0, d.url_input@.len() as int) == d.url_input@,
{
    let query = query_of(keyed(pairs_view(d.params@)));
    let u = with_query(d.url_input@, query);
    assert(u.subrange(0, d.url_input@.len() as int) =~= d.url_input@);
    let (url, h) = auth_effect(d.auth, u);
    assert(url.subrange(0, u.len() as int) =~= u);
    assert(url.subrange(0, d.url_input@.len() as int) =~= d.url_input@);
}

} // verus!
