//! HTTP request and response values, request settings, and the small
//! decisions made about them: the method names, which content types are
//! read as binary, and the key under which a configured client is cached.
use vstd::prelude::*;

use crate::text::{all_ascii, ascii_upper, chars_of, contains, contains_chars, dec, push_dec, push_dec_wide, push_str, string_of, to_uppercase, uppercase_of};

use crate::request_builder::Auth;

verus! {

/// An HTTP method.
#[derive(Debug, Clone, Copy, PartialEq, Eq, Structural)]
pub enum HttpMethod {
    Get,
    Post,
    Put,
    Delete,
    Patch,
    Head,
    Options,
    Trace,
    Connect,
}

/// The name of a method, as sent on the wire.
pub open spec fn method_name(m: HttpMethod) -> Seq<char> {
    match m {
        HttpMethod::Get => "GET"@,
        HttpMethod::Post => "POST"@,
        HttpMethod::Put => "PUT"@,
        HttpMethod::Delete => "DELETE"@,
        HttpMethod::Patch => "PATCH"@,
        HttpMethod::Head => "HEAD"@,
        HttpMethod::Options => "OPTIONS"@,
        HttpMethod::Trace => "TRACE"@,
        HttpMethod::Connect => "CONNECT"@,
    }
}

/// The method whose wire name is exactly `s`, if any.
pub open spec fn method_named(s: Seq<char>) -> Option<HttpMethod> {
    if s == "GET"@ {
        Some(HttpMethod::Get)
    } else if s == "POST"@ {
        Some(HttpMethod::Post)
    } else if s == "PUT"@ {
        Some(HttpMethod::Put)
    } else if s == "DELETE"@ {
        Some(HttpMethod::Delete)
    } else if s == "PATCH"@ {
        Some(HttpMethod::Patch)
    } else if s == "HEAD"@ {
        Some(HttpMethod::Head)
    } else if s == "OPTIONS"@ {
        Some(HttpMethod::Options)
    } else if s == "TRACE"@ {
        Some(HttpMethod::Trace)
    } else if s == "CONNECT"@ {
        Some(HttpMethod::Connect)
    } else {
        None
    }
}

/// The method a text names, ignoring case: the one whose wire name is the
/// Unicode uppercase of the text.
pub open spec fn method_parsed(s: Seq<char>) -> Option<HttpMethod> {
    method_named(uppercase_of(s))
}

fn literal_eq(a: &[char], lit: &str) -> (r: bool)
    ensures
        r == (a@ == lit@),
{
    let b = chars_of(lit);
    crate::text::chars_eq(a, &b)
}

impl HttpMethod {
    /// The wire name of the method (`GET`, `POST`, ...).
    pub fn to_string(&self) -> (r: String)
        ensures
            r@ == method_name(*self),
    {
        let s = match self {
            HttpMethod::Get => "GET",
            HttpMethod::Post => "POST",
            HttpMethod::Put => "PUT",
            HttpMethod::Delete => "DELETE",
            HttpMethod::Patch => "PATCH",
            HttpMethod::Head => "HEAD",
            HttpMethod::Options => "OPTIONS",
            HttpMethod::Trace => "TRACE",
            HttpMethod::Connect => "CONNECT",
        };
        let v = chars_of(s);
        string_of(&v)
    }

    /// The method with exactly the given wire name.
    pub fn from_wire_name(s: &str) -> (r: Option<HttpMethod>)
        ensures
            r == method_named(s@),
    {
        let c = chars_of(s);
        if literal_eq(&c, "GET") {
            Some(HttpMethod::Get)
        } else if literal_eq(&c, "POST") {
            Some(HttpMethod::Post)
        } else if literal_eq(&c, "PUT") {
            Some(HttpMethod::Put)
        } else if literal_eq(&c, "DELETE") {
            Some(HttpMethod::Delete)
        } else if literal_eq(&c, "PATCH") {
            Some(HttpMethod::Patch)
        } else if literal_eq(&c, "HEAD") {
            Some(HttpMethod::Head)
        } else if literal_eq(&c, "OPTIONS") {
            Some(HttpMethod::Options)
        } else if literal_eq(&c, "TRACE") {
            Some(HttpMethod::Trace)
        } else if literal_eq(&c, "CONNECT") {
            Some(HttpMethod::Connect)
        } else {
            None
        }
    }

    /// The method a text names, whatever its case.
    pub fn parse(s: &str) -> (r: Option<HttpMethod>)
        ensures
            r == method_parsed(s@),
            all_ascii(s@) ==> r == method_named(s@.map_values(|c: char| ascii_upper(c))),
    {
        let upper = to_uppercase(s);
        HttpMethod::from_wire_name(upper.as_str())
    }
}

/// How a response body is carried in `HttpResponse::body`.
#[derive(Debug, Clone, Copy, PartialEq, Eq, Structural)]
pub enum BodyEncoding {
    /// The body as received, read as text.
    Text,
    /// The body's bytes in standard base64.
    Base64,
}

/// What the client does on a redirect status.
#[derive(Debug, Clone, Copy, PartialEq, Eq, Structural)]
pub enum RedirectPolicy {
    NoFollow,
    Follow,
    Limited(u32),
}

/// How often a failed request is tried again, and how long to wait.
#[derive(Debug, Clone, Copy, PartialEq, Eq, Structural)]
pub struct RetryConfig {
    pub max_retries: u32,
    pub backoff_ms: u64,
}

/// Credentials for a proxy.
#[derive(Debug, Clone)]
pub struct ProxyAuth {
    pub username: String,
    pub password: String,
}

/// A proxy with optional credentials.
#[derive(Debug, Clone)]
pub struct ProxyConfig {
    pub url: String,
    pub auth: Option<ProxyAuth>,
}

/// Certificate settings.
#[derive(Debug, Clone)]
pub struct TlsConfig {
    pub verify_ssl: bool,
    pub ca_cert_path: Option<String>,
    pub client_cert_path: Option<String>,
    pub client_key_path: Option<String>,
}

/// The settings a request is sent with.
#[derive(Debug, Clone)]
pub struct RequestConfig {
    pub timeout_ms: u128,
    pub redirect_policy: RedirectPolicy,
    pub max_redirects: u32,
    pub retry: RetryConfig,
    pub proxy_url: Option<String>,
    pub proxy: Option<ProxyConfig>,
    pub tls: TlsConfig,
}

impl Default for RequestConfig {
    /// Thirty seconds, following up to ten redirects, no retries (one second
    /// of backoff when set), no proxy, certificates verified.
    fn default() -> (r: Self)
        ensures
            r.timeout_ms == 30000,
            r.redirect_policy == RedirectPolicy::Follow,
            r.max_redirects == 10,
            r.retry == (RetryConfig { max_retries: 0, backoff_ms: 1000 }),
            r.proxy_url is None,
            r.proxy is None,
            r.tls.verify_ssl,
            r.tls.ca_cert_path is None,
            r.tls.client_cert_path is None,
            r.tls.client_key_path is None,
    {
        RequestConfig {
            timeout_ms: 30000,
            redirect_policy: RedirectPolicy::Follow,
            max_redirects: 10,
            retry: RetryConfig { max_retries: 0, backoff_ms: 1000 },
            proxy_url: None,
            proxy: None,
            tls: TlsConfig {
                verify_ssl: true,
                ca_cert_path: None,
                client_cert_path: None,
                client_key_path: None,
            },
        }
    }
}

/// The value of one part of a multipart body.
#[derive(Debug, Clone)]
pub enum MultipartValue {
    Text(String),
    File { path: String, filename: Option<String> },
}

/// One named part of a multipart body.
#[derive(Debug, Clone)]
pub struct MultipartField {
    pub name: String,
    pub value: MultipartValue,
}

/// A request to send.
#[derive(Debug, Clone)]
pub struct HttpRequest {
    pub method: HttpMethod,
    pub url: String,
    pub headers: Vec<(String, String)>,
    pub body: Option<String>,
    pub config: RequestConfig,
    pub multipart_fields: Vec<MultipartField>,
    /// The authentication the request was built with, if any; digest
    /// credentials are taken from it when the server asks for them.
    pub auth: Option<Auth>,
}

/// A response received.
#[derive(Debug, Clone)]
pub struct HttpResponse {
    pub url: String,
    pub method: HttpMethod,
    pub status: u16,
    pub headers: Vec<(String, String)>,
    pub body: String,
    pub body_encoding: BodyEncoding,
    pub duration_ms: u64,
    pub size: u64,
    pub redirect_chain: Vec<String>,
}

/// Content types whose bodies are read as bytes and carried in base64.
pub open spec fn binary_content_type(ct: Seq<char>) -> bool {
    ||| contains(ct, "image/"@)
    ||| contains(ct, "application/octet-stream"@)
    ||| contains(ct, "application/pdf"@)
    ||| contains(ct, "application/protobuf"@)
    ||| contains(ct, "application/gzip"@)
    ||| contains(ct, "application/zip"@)
    ||| contains(ct, "application/wasm"@)
    ||| contains(ct, "audio/"@)
    ||| contains(ct, "video/"@)
    ||| contains(ct, "font/"@)
    ||| contains(ct, "application/x-executable"@)
    ||| contains(ct, "application/x-sharedlib"@)
}

fn has_literal(s: &[char], lit: &str) -> (r: bool)
    ensures
        r == contains(s@, lit@),
{
    let p = chars_of(lit);
    contains_chars(s, &p)
}

/// Whether a response with this content type is read as binary.
pub fn is_binary_content_type(content_type: &str) -> (r: bool)
    ensures
        r == binary_content_type(content_type@),
{
    let c = chars_of(content_type);
    has_literal(&c, "image/") || has_literal(&c, "application/octet-stream") || has_literal(
        &c,
        "application/pdf",
    ) || has_literal(&c, "application/protobuf") || has_literal(&c, "application/gzip")
        || has_literal(&c, "application/zip") || has_literal(&c, "application/wasm") || has_literal(
        &c,
        "audio/",
    ) || has_literal(&c, "video/") || has_literal(&c, "font/") || has_literal(
        &c,
        "application/x-executable",
    ) || has_literal(&c, "application/x-sharedlib")
}

/// An optional string, empty when absent.
pub open spec fn or_empty(s: Option<String>) -> Seq<char> {
    match s {
        Some(x) => x@,
        None => Seq::<char>::empty(),
    }
}

/// `true` or `false` as text.
pub open spec fn bool_text(b: bool) -> Seq<char> {
    if b {
        "true"@
    } else {
        "false"@
    }
}

/// The proxy part of a client key: the proxy URL when set; otherwise the
/// configured proxy's URL and user name joined by `:`; otherwise nothing.
pub open spec fn proxy_key(config: RequestConfig) -> Seq<char> {
    match config.proxy_url {
        Some(u) => u@,
        None => match config.proxy {
            Some(p) => p.url@ + ":"@ + match p.auth {
                Some(a) => a.username@,
                None => Seq::<char>::empty(),
            },
            None => Seq::<char>::empty(),
        },
    }
}

/// The key under which a client built for `config` is kept: the settings
/// that shape the client, separated by `|`.
pub open spec fn client_cache_key(config: RequestConfig) -> Seq<char> {
    proxy_key(config) + "|"@ + bool_text(config.tls.verify_ssl) + "|"@ + or_empty(
        config.tls.ca_cert_path,
    ) + "|"@ + or_empty(config.tls.client_cert_path) + "|"@ + or_empty(
        config.tls.client_key_path,
    ) + "|"@ + dec(config.timeout_ms as nat)
}

fn push_opt(out: &mut Vec<char>, s: &Option<String>)
    ensures
        final(out)@ == old(out)@ + or_empty(*s),
{
    match s {
        Some(x) => push_str(out, x.as_str()),
        None => {
            proof {
                assert(old(out)@ + Seq::<char>::empty() =~= old(out)@);
            }
        },
    }
}

/// The key under which a client built for `config` is cached: two requests
/// share a client exactly when their keys are equal.
pub fn build_client_cache_key(config: &RequestConfig) -> (r: String)
    ensures
        r@ == client_cache_key(*config),
{
    let mut out: Vec<char> = Vec::new();
    match &config.proxy_url {
        Some(u) => push_str(&mut out, u.as_str()),
        None => match &config.proxy {
            Some(p) => {
                push_str(&mut out, p.url.as_str());
                push_str(&mut out, ":");
                match &p.auth {
                    Some(a) => push_str(&mut out, a.username.as_str()),
                    None => {},
                }
            },
            None => {},
        },
    }
    proof {
        assert(out@ =~= proxy_key(*config));
    }
    push_str(&mut out, "|");
    if config.tls.verify_ssl {
        push_str(&mut out, "true");
    } else {
        push_str(&mut out, "false");
    }
    push_str(&mut out, "|");
    push_opt(&mut out, &config.tls.ca_cert_path);
    push_str(&mut out, "|");
    push_opt(&mut out, &config.tls.client_cert_path);
    push_str(&mut out, "|");
    push_opt(&mut out, &config.tls.client_key_path);
    push_str(&mut out, "|");
    push_dec_wide(&mut out, config.timeout_ms);
    proof {
        assert(out@ =~= client_cache_key(*config));
    }
    string_of(&out)
}

} // verus!
