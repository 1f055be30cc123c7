//! HTTP Archive (HAR 1.2) records of requests and their responses.
//!
//! The library builds the records; writing them out as JSON is left to the
//! caller.
use vstd::prelude::*;

use crate::clock::unix_secs;
use crate::http::{method_name, BodyEncoding, HttpRequest, HttpResponse};
use crate::scripts::header_value;
use crate::text::{chars_of, dec, dec2, opt_view, pairs_view, push_dec, push_dec2, push_str, string_of};
use crate::urls::{parsed_query_pairs, url_query_pairs};

verus! {

/// The name and version of the program that wrote a log.
pub struct HarCreator {
    pub name: String,
    pub version: String,
}

/// A response body.
pub struct HarContent {
    pub size: u64,
    pub mime_type: String,
    pub text: Option<String>,
}

/// How long the phases of an exchange took, in milliseconds.
pub struct HarTimings {
    pub send: u64,
    pub wait: u64,
    pub receive: u64,
}

/// A header.
pub struct HarNameValue {
    pub name: String,
    pub value: String,
}

/// A query parameter.
pub struct HarNameValuePair {
    pub name: String,
    pub value: String,
}

/// A request body.
pub struct HarPostData {
    pub mime_type: String,
    pub text: Option<String>,
}

/// A recorded request. Cookies are not recorded (HAR's `cookies` is always
/// empty).
pub struct HarRequest {
    pub method: String,
    pub url: String,
    pub http_version: String,
    pub headers: Vec<HarNameValue>,
    pub query_string: Vec<HarNameValuePair>,
    pub post_data: Option<HarPostData>,
}

/// A recorded response. Cookies are not recorded.
pub struct HarResponse {
    pub status: u16,
    pub status_text: String,
    pub http_version: String,
    pub headers: Vec<HarNameValue>,
    pub content: HarContent,
    pub redirect_url: String,
}

/// One exchange.
pub struct HarEntry {
    pub started_iso: String,
    pub time: u64,
    pub request: HarRequest,
    pub response: HarResponse,
    pub timings: HarTimings,
}

/// A log of exchanges.
pub struct HarLog {
    pub version: String,
    pub creator: HarCreator,
    pub entries: Vec<HarEntry>,
}

/// The reason phrase shown for a status code.
pub open spec fn status_text_of(status: u16) -> Seq<char> {
    if status == 200 {
        "OK"@
    } else if status == 201 {
        "Created"@
    } else if status == 204 {
        "No Content"@
    } else if status == 301 {
        "Moved Permanently"@
    } else if status == 302 {
        "Found"@
    } else if status == 304 {
        "Not Modified"@
    } else if status == 400 {
        "Bad Request"@
    } else if status == 401 {
        "Unauthorized"@
    } else if status == 403 {
        "Forbidden"@
    } else if status == 404 {
        "Not Found"@
    } else if status == 500 {
        "Internal Server Error"@
    } else if status == 502 {
        "Bad Gateway"@
    } else if status == 503 {
        "Service Unavailable"@
    } else {
        "Status "@ + dec(status as nat)
    }
}

/// The reason phrase for a status code; codes without a phrase read
/// `Status <code>`.
pub fn status_text(status: u16) -> (r: String)
    ensures
        r@ == status_text_of(status),
{
    let s = if status == 200 {
        "OK"
    } else if status == 201 {
        "Created"
    } else if status == 204 {
        "No Content"
    } else if status == 301 {
        "Moved Permanently"
    } else if status == 302 {
        "Found"
    } else if status == 304 {
        "Not Modified"
    } else if status == 400 {
        "Bad Request"
    } else if status == 401 {
        "Unauthorized"
    } else if status == 403 {
        "Forbidden"
    } else if status == 404 {
        "Not Found"
    } else if status == 500 {
        "Internal Server Error"
    } else if status == 502 {
        "Bad Gateway"
    } else if status == 503 {
        "Service Unavailable"
    } else {
        let mut out: Vec<char> = Vec::new();
        push_str(&mut out, "Status ");
        push_dec(&mut out, status as u64);
        return string_of(&out);
    };
    string_of(&chars_of(s))
}

/// The calendar year shown for a number of seconds since the epoch: years
/// of 365 days counted from 1970, as a 32-bit number.
pub open spec fn year_of(secs: u64) -> int {
    1970 + ((secs / 31536000) as u32)
}

/// The timestamp shown for a number of seconds since the epoch:
/// `YYYY-MM-DDThh:mm:ssZ`, with years of 365 days and months of 30 days.
pub open spec fn iso_of(secs: u64) -> Seq<char> {
    dec(year_of(secs) as nat) + "-"@ + dec2((((secs % 31536000) / 2592000) % 12 + 1) as nat) + "-"@
        + dec2(((secs % 2592000) / 86400 + 1) as nat) + "T"@ + dec2(((secs % 86400) / 3600) as nat)
        + ":"@ + dec2(((secs % 3600) / 60) as nat) + ":"@ + dec2((secs % 60) as nat) + "Z"@
}

/// The timestamp for `secs` seconds since the epoch (see `iso_of`); the
/// year must fit in 32 bits.
pub fn iso_timestamp(secs: u64) -> (r: String)
    requires
        year_of(secs) <= u32::MAX,
    ensures
        r@ == iso_of(secs),
{
    let year: u32 = 1970 + ((secs / 31536000) as u32);
    let mut out: Vec<char> = Vec::new();
    push_dec(&mut out, year as u64);
    push_str(&mut out, "-");
    push_dec2(&mut out, ((secs % 31536000) / 2592000) % 12 + 1);
    push_str(&mut out, "-");
    push_dec2(&mut out, (secs % 2592000) / 86400 + 1);
    push_str(&mut out, "T");
    push_dec2(&mut out, (secs % 86400) / 3600);
    push_str(&mut out, ":");
    push_dec2(&mut out, (secs % 3600) / 60);
    push_str(&mut out, ":");
    push_dec2(&mut out, secs % 60);
    push_str(&mut out, "Z");
    proof {
        assert(out@ =~= iso_of(secs));
    }
    string_of(&out)
}

/// The timestamp for `secs` seconds since the epoch (see `iso_of`), or
/// `None` when its 32-bit year would overflow.
pub fn iso_checked(secs: u64) -> (r: Option<String>)
    ensures
        match r {
            Some(s) => year_of(secs) <= u32::MAX && s@ == iso_of(secs),
            None => year_of(secs) > u32::MAX,
        },
{
    let years: u32 = #[verifier::truncate] ((secs / 31536000) as u32);
    if years <= 4294965325 {
        Some(iso_timestamp(secs))
    } else {
        None
    }
}

/// The current time as a timestamp (see `iso_checked`): the clock's reading
/// in whole seconds, shown by `iso_of`, or `None` when that reading's 32-bit
/// year would overflow.
pub fn now_iso() -> (r: Option<String>)
    ensures
        match r {
            Some(s) => exists|secs: u64| year_of(secs) <= u32::MAX && s@ == iso_of(secs),
            None => exists|secs: u64| year_of(secs) > u32::MAX,
        },
{
    let secs = unix_secs();
    iso_checked(secs)
}

/// Name/value records with the same texts as the pairs, in order.
pub open spec fn same_pairs(v: Seq<HarNameValue>, p: Seq<(Seq<char>, Seq<char>)>) -> bool {
    v.len() == p.len() && forall|i: int|
        0 <= i < v.len() ==> (#[trigger] v[i]).name@ == p[i].0 && v[i].value@ == p[i].1
}

/// Query records with the same texts as the pairs, in order.
pub open spec fn same_query(v: Seq<HarNameValuePair>, p: Seq<(Seq<char>, Seq<char>)>) -> bool {
    v.len() == p.len() && forall|i: int|
        0 <= i < v.len() ==> (#[trigger] v[i]).name@ == p[i].0 && v[i].value@ == p[i].1
}

/// The query parameters recorded for a URL: its decoded query pairs, none
/// when it does not parse.
pub open spec fn query_of(url: Seq<char>) -> Seq<(Seq<char>, Seq<char>)> {
    match parsed_query_pairs(url) {
        Some(q) => q,
        None => Seq::empty(),
    }
}

/// The value of the `content-type` header, or the given default.
pub open spec fn content_type_or(h: Seq<(Seq<char>, Seq<char>)>, default: Seq<char>) -> Seq<char> {
    match header_value(h, "content-type"@) {
        Some(v) => v,
        None => default,
    }
}

/// `e` records the exchange of `req` and `resp`, started at `started`.
pub open spec fn records_exchange(
    e: HarEntry,
    req: HttpRequest,
    resp: HttpResponse,
    started: Seq<char>,
) -> bool {
    &&& e.started_iso@ == started
    &&& e.time == resp.duration_ms
    &&& e.request.method@ == method_name(req.method)
    &&& e.request.url@ == req.url@
    &&& e.request.http_version@ == "HTTP/1.1"@
    &&& same_pairs(e.request.headers@, pairs_view(req.headers@))
    &&& same_query(e.request.query_string@, query_of(req.url@))
    &&& match req.body {
        Some(b) => match e.request.post_data {
            Some(pd) => pd.mime_type@ == content_type_or(
                pairs_view(req.headers@),
                "application/json"@,
            ) && opt_view(pd.text) == Some(b@),
            None => false,
        },
        None => e.request.post_data is None,
    }
    &&& e.response.status == resp.status
    &&& e.response.status_text@ == status_text_of(resp.status)
    &&& e.response.http_version@ == "HTTP/1.1"@
    &&& same_pairs(e.response.headers@, pairs_view(resp.headers@))
    &&& e.response.content.size == resp.size
    &&& e.response.content.mime_type@ == content_type_or(pairs_view(resp.headers@), "text/plain"@)
    &&& opt_view(e.response.content.text) == (if resp.body_encoding == BodyEncoding::Text {
        Some(resp.body@)
    } else {
        None
    })
    &&& e.response.redirect_url@ == Seq::<char>::empty()
    &&& e.timings.send == 0
    &&& e.timings.wait == resp.duration_ms
    &&& e.timings.receive == 0
}

fn name_values(h: &Vec<(String, String)>) -> (r: Vec<HarNameValue>)
    ensures
        same_pairs(r@, pairs_view(h@)),
{
    let mut out: Vec<HarNameValue> = Vec::new();
    let mut i: usize = 0;
    while i < h.len()
        invariant
            i <= h@.len(),
            out@.len() == i,
            forall|k: int|
                0 <= k < i ==> (#[trigger] out@[k]).name@ == h@[k].0@ && out@[k].value@ == h@[k].1@,
        decreases h.len() - i,
    {
        out.push(HarNameValue { name: h[i].0.clone(), value: h[i].1.clone() });
        i = i + 1;
    }
    out
}

fn query_records(url: &str) -> (r: Vec<HarNameValuePair>)
    ensures
        same_query(r@, query_of(url@)),
{
    let mut out: Vec<HarNameValuePair> = Vec::new();
    match url_query_pairs(url) {
        Some(q) => {
            let mut i: usize = 0;
            while i < q.len()
                invariant
                    i <= q@.len(),
                    out@.len() == i,
                    forall|k: int|
                        0 <= k < i ==> (#[trigger] out@[k]).name@ == q@[k].0@ && out@[k].value@
                            == q@[k].1@,
                decreases q.len() - i,
            {
                out.push(HarNameValuePair { name: q[i].0.clone(), value: q[i].1.clone() });
                i = i + 1;
            }
        },
        None => {},
    }
    out
}

fn content_type(h: &Vec<(String, String)>, default: &str) -> (r: String)
    ensures
        r@ == content_type_or(pairs_view(h@), default@),
{
    let key = chars_of("content-type");
    match crate::scripts::find_header(h, &key) {
        Some(v) => v.clone(),
        None => string_of(&chars_of(default)),
    }
}

/// The record of one exchange started at `started_iso`.
pub fn har_entry(req: &HttpRequest, resp: &HttpResponse, started_iso: String) -> (r: HarEntry)
    ensures
        records_exchange(r, *req, *resp, started_iso@),
{
    let post_data = match &req.body {
        Some(b) => Some(
            HarPostData {
                mime_type: content_type(&req.headers, "application/json"),
                text: Some(b.clone()),
            },
        ),
        None => None,
    };
    let text = match resp.body_encoding {
        BodyEncoding::Text => Some(resp.body.clone()),
        BodyEncoding::Base64 => None,
    };
    HarEntry {
        started_iso,
        time: resp.duration_ms,
        request: HarRequest {
            method: req.method.to_string(),
            url: req.url.clone(),
            http_version: string_of(&chars_of("HTTP/1.1")),
            headers: name_values(&req.headers),
            query_string: query_records(req.url.as_str()),
            post_data,
        },
        response: HarResponse {
            status: resp.status,
            status_text: status_text(resp.status),
            http_version: string_of(&chars_of("HTTP/1.1")),
            headers: name_values(&resp.headers),
            content: HarContent {
                size: resp.size,
                mime_type: content_type(&resp.headers, "text/plain"),
                text,
            },
            redirect_url: String::new(),
        },
        timings: HarTimings { send: 0, wait: resp.duration_ms, receive: 0 },
    }
}

/// The version of this client, as recorded in logs.
pub open spec fn client_version() -> Seq<char> {
    "0.2.5-beta.0"@
}

/// `log` is a HAR 1.2 log written by this client holding `entries`.
pub open spec fn is_client_log(log: HarLog) -> bool {
    &&& log.version@ == "1.2"@
    &&& log.creator.name@ == "AstraNova Client"@
    &&& log.creator.version@ == client_version()
}

/// `log` is a log written by this client of the exchanges `entries`, the
/// one at position `i` started at `stamps[i]` seconds since the epoch.
pub open spec fn logs_exchanges_at(
    log: HarLog,
    entries: Seq<(&HttpRequest, &HttpResponse)>,
    stamps: Seq<u64>,
) -> bool {
    &&& is_client_log(log)
    &&& log.entries@.len() == entries.len()
    &&& forall|i: int|
        0 <= i < entries.len() ==> {
            &&& records_exchange(
                #[trigger] log.entries@[i],
                *entries[i].0,
                *entries[i].1,
                log.entries@[i].started_iso@,
            )
            &&& log.entries@[i].started_iso@ == iso_of(stamps[i])
        }
}

/// Some stamp has a year beyond 32 bits.
pub open spec fn some_year_overflows(stamps: Seq<u64>) -> bool {
    exists|i: int| 0 <= i < stamps.len() && year_of(#[trigger] stamps[i]) > u32::MAX
}

/// A log of the exchanges, the one at position `i` started at `stamps[i]`
/// seconds since the epoch (shown by `iso_of`); `None` exactly when some
/// stamp's year does not fit in 32 bits.
pub fn har_log_at(entries: &[(&HttpRequest, &HttpResponse)], stamps: &[u64]) -> (r: Option<HarLog>)
    requires
        stamps@.len() == entries@.len(),
    ensures
        r is None <==> some_year_overflows(stamps@),
        r matches Some(log) ==> logs_exchanges_at(log, entries@, stamps@),
{
    let mut out: Vec<HarEntry> = Vec::new();
    let mut i: usize = 0;
    while i < entries.len()
        invariant
            i <= entries@.len(),
            stamps@.len() == entries@.len(),
            out@.len() == i,
            forall|k: int| 0 <= k < i ==> year_of(#[trigger] stamps@[k]) <= u32::MAX,
            forall|k: int|
                0 <= k < i ==> {
                    &&& records_exchange(
                        #[trigger] out@[k],
                        *entries@[k].0,
                        *entries@[k].1,
                        out@[k].started_iso@,
                    )
                    &&& out@[k].started_iso@ == iso_of(stamps@[k])
                },
        decreases entries.len() - i,
    {
        let started = match iso_checked(stamps[i]) {
            Some(s) => s,
            None => {
                proof {
                    assert(year_of(stamps@[i as int]) > u32::MAX);
                }
                return None;
            },
        };
        let (req, resp) = entries[i];
        let e = har_entry(req, resp, started);
        out.push(e);
        i = i + 1;
    }
    Some(
        HarLog {
            version: string_of(&chars_of("1.2")),
            creator: HarCreator {
                name: string_of(&chars_of("AstraNova Client")),
                version: string_of(&chars_of("0.2.5-beta.0")),
            },
            entries: out,
        },
    )
}

/// A log of the exchanges, each stamped with a reading of the clock in
/// whole seconds (see `har_log_at`): `None` only when a reading has a year
/// beyond 32 bits, so never for no exchanges.
pub fn har_log_now(entries: &[(&HttpRequest, &HttpResponse)]) -> (r: Option<HarLog>)
    ensures
        entries@.len() == 0 ==> r is Some,
        exists|stamps: Seq<u64>|
            {
                &&& stamps.len() == entries@.len()
                &&& (r is None <==> some_year_overflows(stamps))
                &&& (r matches Some(log) ==> logs_exchanges_at(log, entries@, stamps))
            },
{
    let mut stamps: Vec<u64> = Vec::new();
    let mut i: usize = 0;
    while i < entries.len()
        invariant
            i <= entries@.len(),
            stamps@.len() == i,
        decreases entries.len() - i,
    {
        stamps.push(unix_secs());
        i = i + 1;
    }
    let r = har_log_at(entries, stamps.as_slice());
    proof {
        if entries@.len() == 0 {
            assert(!some_year_overflows(stamps@));
        }
    }
    r
}

/// The reason phrases are the standard ones of RFC 9110 for the codes the
/// table knows, and any other code reads `Status ` and its number.
pub proof fn lemma_standard_reason_phrases(status: u16)
    ensures
        status_text_of(200) == "OK"@,
        status_text_of(201) == "Created"@,
        status_text_of(204) == "No Content"@,
        status_text_of(301) == "Moved Permanently"@,
        status_text_of(302) == "Found"@,
        status_text_of(304) == "Not Modified"@,
        status_text_of(400) == "Bad Request"@,
        status_text_of(401) == "Unauthorized"@,
        status_text_of(403) == "Forbidden"@,
        status_text_of(404) == "Not Found"@,
        status_text_of(500) == "Internal Server Error"@,
        status_text_of(502) == "Bad Gateway"@,
        status_text_of(503) == "Service Unavailable"@,
        !(status == 200 || status == 201 || status == 204 || status == 301 || status == 302
            || status == 304 || status == 400 || status == 401 || status == 403 || status == 404
            || status == 500 || status == 502 || status == 503) ==> status_text_of(status)
            == "Status "@ + dec(status as nat),
{
}

} // verus!
