//! What happens around sending a request from a tab: the checks and
//! adjustments before it is sent, which HTTP client carries it and how custom
//! clients are kept, how the response is finished after the post-response
//! script, and what the user is told along the way.
use vstd::prelude::*;

use crate::database::Environment;
use crate::error::{AppError, error_text};
use crate::http::{BodyEncoding, HttpMethod, HttpResponse, RequestConfig};
use crate::json::{json_compact, json_compact_of};
use crate::request_builder::{RequestDraft, auth_resolved, rows_resolved};
use crate::request_editor::{base64_decode, base64_decoded_of};
use crate::request_view::ContentType;
use crate::scripts::{CtxView, PostRun, Script, ScriptContext, ScriptEngine, find_header, header_value, post_outcome, resolve_with};
use crate::strmap::Entries;
use crate::text::{chars_eq, chars_of, contains, contains_chars, copy_pairs, dec, is_literal, pairs_view, push_chars, push_dec, push_str, string_of, trim, trim_str};
use crate::urls::{parse_url, parsed_url};
use crate::utils::{merge_variables, merged};
use vstd::utf8::encode_utf8;

verus! {

/// How a notice is shown.
#[derive(Debug, Clone, Copy, PartialEq, Eq, Structural)]
pub enum ToastKind {
    Info,
    Success,
    Warning,
    Error,
}

/// A short notice for the user.
#[derive(Debug, Clone)]
pub struct Toast {
    pub kind: ToastKind,
    pub text: String,
}

fn toast(kind: ToastKind, text: &[char]) -> (r: Toast)
    ensures
        r.kind == kind,
        r.text@ == text@,
{
    Toast { kind, text: string_of(text) }
}

// ---------------------------------------------------------------------------
// Before sending.
// ---------------------------------------------------------------------------

/// The variables substituted into a request before it is sent: the
/// environment's variables with the collection's laid over them (see
/// `merged`), where an environment is active; else the collection's, where
/// there are any; else none.
pub open spec fn send_vars(collection: Entries, env: Option<Entries>) -> Option<Entries> {
    match env {
        Some(e) => Some(merged(collection, e)),
        None => if collection.len() > 0 {
            Some(collection)
        } else {
            None
        },
    }
}

/// The variables of an active environment.
pub open spec fn env_vars(env: Option<&Environment>) -> Option<Entries> {
    match env {
        Some(e) => Some(pairs_view(e.variables@)),
        None => None,
    }
}

/// `s` with the variables substituted, if there are any.
pub open spec fn substituted(vars: Option<Entries>, s: Seq<char>) -> Seq<char> {
    match vars {
        Some(v) => resolve_with(v, s),
        None => s,
    }
}

/// Why a URL cannot be sent: it is blank once trimmed, or the trimmed text
/// is not a URL.
pub open spec fn url_refusal(url: Seq<char>) -> Option<Seq<char>> {
    let t = trim(url);
    if t.len() == 0 {
        Some("URL is required"@)
    } else if parsed_url(t) is None {
        Some("Invalid URL: "@ + t)
    } else {
        None
    }
}

/// The body's content type after detection: a plain-text body whose trimmed
/// text is a JSON object or array is sent as JSON.
pub open spec fn detected_content_type(body: Seq<char>, ct: ContentType) -> ContentType {
    let t = trim(body);
    if ct == ContentType::Text && t.len() > 0 && ((t[0] == '{' && t.last() == '}') || (t[0] == '['
        && t.last() == ']')) && json_compact_of(t) is Some {
        ContentType::Json
    } else {
        ct
    }
}

/// The rows and authentication of `now` are those of `before` with `vars`
/// substituted, or unchanged where there are no variables.
pub open spec fn rows_and_auth_substituted(
    now: RequestDraft,
    before: RequestDraft,
    vars: Option<Entries>,
) -> bool {
    match vars {
        Some(v) => {
            &&& rows_resolved(pairs_view(now.headers@), pairs_view(before.headers@), v)
            &&& rows_resolved(pairs_view(now.params@), pairs_view(before.params@), v)
            &&& auth_resolved(now.auth, before.auth, v)
        },
        None => now.headers == before.headers && now.params == before.params && now.auth
            == before.auth,
    }
}

fn variables_env(variables: Vec<(String, String)>) -> (r: Environment)
    ensures
        r.variables == variables,
{
    Environment {
        id: 0,
        name: String::new(),
        variables,
        secret_keys: Vec::new(),
        default_endpoint: None,
    }
}

/// Gets an edited request ready to send: substitutes the variables (see
/// `send_vars`) into it, refuses a URL that is blank or not a URL (see
/// `url_refusal`), and sends a plain-text body that holds a JSON object or
/// array as JSON (see `detected_content_type`).
pub fn prepare_send(
    draft: RequestDraft,
    collection_vars: &[(String, String)],
    env: Option<&Environment>,
) -> (r: Result<RequestDraft, Toast>)
    ensures
        ({
            let vars = send_vars(pairs_view(collection_vars@), env_vars(env));
            let url = substituted(vars, draft.url_input@);
            let body = substituted(vars, draft.body_text@);
            match r {
                Err(t) => t.kind == ToastKind::Error && url_refusal(url) == Some(t.text@),
                Ok(d) => {
                    &&& url_refusal(url) is None
                    &&& d.url_input@ == url
                    &&& d.body_text@ == body
                    &&& rows_and_auth_substituted(d, draft, vars)
                    &&& d == (RequestDraft {
                        url_input: d.url_input,
                        body_text: d.body_text,
                        headers: d.headers,
                        params: d.params,
                        auth: d.auth,
                        request_content_type: detected_content_type(
                            body,
                            draft.request_content_type,
                        ),
                        ..draft
                    })
                },
            }
        }),
{
    let ghost vars = send_vars(pairs_view(collection_vars@), env_vars(env));
    let mut d = draft;
    match env {
        Some(e) => {
            let vs = merge_variables(collection_vars, e.variables.as_slice());
            d.apply_environment(&variables_env(vs));
        },
        None => {
            if collection_vars.len() > 0 {
                d.apply_environment(&variables_env(copy_pairs(collection_vars)));
            }
        },
    }
    let url = trim_str(d.url_input.as_str());
    if url.len() == 0 {
        return Err(toast(ToastKind::Error, &chars_of("URL is required")));
    }
    if parse_url(string_of(&url).as_str()).is_none() {
        let mut text = chars_of("Invalid URL: ");
        push_chars(&mut text, &url);
        return Err(toast(ToastKind::Error, &text));
    }
    let body = trim_str(d.body_text.as_str());
    if d.request_content_type == ContentType::Text && body.len() > 0 {
        let first = body[0];
        let last = body[body.len() - 1];
        if (first == '{' && last == '}') || (first == '[' && last == ']') {
            if json_compact(string_of(&body).as_str()).is_some() {
                d.request_content_type = ContentType::Json;
            }
        }
    }
    Ok(d)
}

/// A request needs a client of its own when it goes through a proxy or has
/// certificate settings other than the defaults.
pub open spec fn wants_custom_client(config: RequestConfig) -> bool {
    ||| config.proxy_url is Some
    ||| config.proxy is Some
    ||| !config.tls.verify_ssl
    ||| config.tls.ca_cert_path is Some
    ||| config.tls.client_cert_path is Some
}

/// Whether a request with these settings needs a client of its own (see
/// `wants_custom_client`).
pub fn needs_custom_client(config: &RequestConfig) -> (r: bool)
    ensures
        r == wants_custom_client(*config),
{
    config.proxy_url.is_some() || config.proxy.is_some() || !config.tls.verify_ssl
        || config.tls.ca_cert_path.is_some() || config.tls.client_cert_path.is_some()
}

// ---------------------------------------------------------------------------
// Custom clients.
// ---------------------------------------------------------------------------

/// The most custom clients kept at once.
pub const CLIENT_CACHE_LIMIT: usize = 20;

/// A kept client as the contracts see it: the key, the client and when it
/// was last used.
pub type CacheSlot<C> = (Seq<char>, C, u64);

/// Where the first client with key `key` stands, or -1.
pub open spec fn cache_pos<C>(s: Seq<CacheSlot<C>>, key: Seq<char>) -> int
    decreases s.len(),
{
    if s.len() == 0 {
        -1
    } else if s.last().0 == key && cache_pos(s.drop_last(), key) < 0 {
        s.len() - 1
    } else {
        cache_pos(s.drop_last(), key)
    }
}

/// Among the first `n` clients, where the first of those used longest ago
/// stands.
pub open spec fn oldest_among<C>(s: Seq<CacheSlot<C>>, n: int) -> int
    decreases n,
{
    if n <= 1 {
        0
    } else {
        let k = oldest_among(s, n - 1);
        if s[n - 1].2 < s[k].2 {
            n - 1
        } else {
            k
        }
    }
}

/// The clients after room is made: unchanged below the limit; at the limit
/// or above, without the first of those used longest ago.
pub open spec fn room_made<C>(s: Seq<CacheSlot<C>>) -> Seq<CacheSlot<C>> {
    if s.len() < CLIENT_CACHE_LIMIT {
        s
    } else {
        s.remove(oldest_among(s, s.len() as int))
    }
}

/// The clients after `client` is stored under `key` at time `now`: in place
/// of the first client with that key, or added at the end.
pub open spec fn stored<C>(s: Seq<CacheSlot<C>>, key: Seq<char>, client: C, now: u64) -> Seq<
    CacheSlot<C>,
> {
    let pos = cache_pos(s, key);
    if pos >= 0 {
        s.update(pos, (key, client, now))
    } else {
        s.push((key, client, now))
    }
}

proof fn lemma_cache_pos<C>(s: Seq<CacheSlot<C>>, key: Seq<char>)
    ensures
        -1 <= cache_pos(s, key) < s.len(),
        cache_pos(s, key) >= 0 ==> s[cache_pos(s, key)].0 == key && forall|j: int|
            0 <= j < cache_pos(s, key) ==> s[j].0 != key,
        cache_pos(s, key) < 0 ==> forall|j: int| 0 <= j < s.len() ==> s[j].0 != key,
    decreases s.len(),
{
    if s.len() > 0 {
        let t = s.drop_last();
        lemma_cache_pos(t, key);
        assert forall|j: int| 0 <= j < t.len() implies t[j] == s[j] by {}
    }
}

proof fn lemma_oldest_among<C>(s: Seq<CacheSlot<C>>, n: int)
    requires
        1 <= n <= s.len(),
    ensures
        0 <= oldest_among(s, n) < n,
        forall|j: int| 0 <= j < n ==> s[oldest_among(s, n)].2 <= (#[trigger] s[j]).2,
    decreases n,
{
    if n > 1 {
        lemma_oldest_among(s, n - 1);
    }
}

/// Making room and then storing a client never leaves more clients than the
/// limit, from a cache within it.
pub proof fn lemma_cache_stays_bounded<C>(s: Seq<CacheSlot<C>>, key: Seq<char>, client: C, now: u64)
    requires
        s.len() <= CLIENT_CACHE_LIMIT,
    ensures
        stored(room_made(s), key, client, now).len() <= CLIENT_CACHE_LIMIT,
{
    lemma_cache_pos(room_made(s), key);
    if s.len() >= CLIENT_CACHE_LIMIT {
        lemma_oldest_among(s, s.len() as int);
    }
}

/// Room is made by dropping a client used no later than any other, and
/// only that one.
pub proof fn lemma_evicts_oldest<C>(s: Seq<CacheSlot<C>>)
    requires
        s.len() >= CLIENT_CACHE_LIMIT,
    ensures
        ({
            let k = oldest_among(s, s.len() as int);
            &&& 0 <= k < s.len()
            &&& room_made(s) == s.remove(k)
            &&& forall|j: int| 0 <= j < s.len() ==> s[k].2 <= (#[trigger] s[j]).2
        }),
{
    lemma_oldest_among(s, s.len() as int);
}

/// A client is found again under the key it was stored with.
pub proof fn lemma_store_then_find<C>(s: Seq<CacheSlot<C>>, key: Seq<char>, client: C, now: u64)
    ensures
        ({
            let t = stored(s, key, client, now);
            let p = cache_pos(t, key);
            &&& 0 <= p < t.len()
            &&& t[p] == (key, client, now)
        }),
{
    lemma_cache_pos(s, key);
    let t = stored(s, key, client, now);
    lemma_cache_pos(t, key);
    if cache_pos(s, key) < 0 {
        assert(t.drop_last() == s);
    } else {
        lemma_cache_pos_update(s, key, cache_pos(s, key), (key, client, now));
    }
}

proof fn lemma_cache_pos_update<C>(s: Seq<CacheSlot<C>>, key: Seq<char>, p: int, v: CacheSlot<C>)
    requires
        0 <= p < s.len(),
        cache_pos(s, key) == p,
        v.0 == key,
    ensures
        cache_pos(s.update(p, v), key) == p,
{
    lemma_cache_pos(s, key);
    let t = s.update(p, v);
    lemma_cache_pos(t, key);
    let cp = cache_pos(t, key);
    assert(t[p].0 == key);
    if 0 <= cp < p {
        assert(t[cp] == s[cp]);
        assert(s[cp].0 != key);
    }
}

/// A custom client with the key of the settings it was built for and when it
/// was last used.
#[derive(Debug)]
struct CachedClient<C> {
    key: String,
    client: C,
    last_used: u64,
}

/// The custom clients kept for reuse, in the order they were added.
#[derive(Debug)]
pub struct ClientCache<C> {
    entries: Vec<CachedClient<C>>,
}

impl<C> View for ClientCache<C> {
    type V = Seq<CacheSlot<C>>;

    closed spec fn view(&self) -> Seq<CacheSlot<C>> {
        self.entries@.map_values(|e: CachedClient<C>| (e.key@, e.client, e.last_used))
    }
}

impl<C> ClientCache<C> {
    /// No clients.
    pub fn new() -> (r: Self)
        ensures
            r@.len() == 0,
    {
        ClientCache { entries: Vec::new() }
    }

    /// The number of clients kept.
    pub fn len(&self) -> (r: usize)
        ensures
            r == self@.len(),
    {
        self.entries.len()
    }

    /// The client at `index`.
    pub fn client_at(&self, index: usize) -> (r: &C)
        requires
            index < self@.len(),
        ensures
            *r == self@[index as int].1,
    {
        &self.entries[index].client
    }

    fn find(&self, key: &str) -> (r: Option<usize>)
        ensures
            match r {
                Some(i) => i as int == cache_pos(self@, key@),
                None => cache_pos(self@, key@) < 0,
            },
    {
        proof {
            lemma_cache_pos(self@, key@);
        }
        let k = chars_of(key);
        let mut i: usize = 0;
        while i < self.entries.len()
            invariant
                i <= self@.len(),
                self@.len() == self.entries@.len(),
                k@ == key@,
                forall|j: int| 0 <= j < i ==> self@[j].0 != key@,
                -1 <= cache_pos(self@, key@) < self@.len(),
                cache_pos(self@, key@) >= 0 ==> self@[cache_pos(self@, key@)].0 == key@
                    && forall|j: int| 0 <= j < cache_pos(self@, key@) ==> self@[j].0 != key@,
                cache_pos(self@, key@) < 0 ==> forall|j: int|
                    0 <= j < self@.len() ==> self@[j].0 != key@,
            decreases self.entries.len() - i,
        {
            let ki = chars_of(self.entries[i].key.as_str());
            proof {
                assert(self@[i as int].0 == self.entries@[i as int].key@);
            }
            if chars_eq(&ki, &k) {
                return Some(i);
            }
            i = i + 1;
        }
        None
    }

    /// Looks up the client for `key` and marks it used at `now`; returns
    /// where it stands, or `None` when there is none.
    pub fn touch(&mut self, key: &str, now: u64) -> (r: Option<usize>)
        ensures
            match r {
                Some(i) => {
                    &&& i as int == cache_pos(old(self)@, key@)
                    &&& final(self)@ == old(self)@.update(
                        i as int,
                        (old(self)@[i as int].0, old(self)@[i as int].1, now),
                    )
                },
                None => cache_pos(old(self)@, key@) < 0 && final(self)@ == old(self)@,
            },
    {
        proof {
            lemma_cache_pos(self@, key@);
        }
        match self.find(key) {
            Some(i) => {
                let ghost before = self.entries@;
                let mut e = self.entries.remove(i);
                e.last_used = now;
                self.entries.insert(i, e);
                proof {
                    assert(self.entries@ =~= before.update(i as int, e));
                    assert(self@ =~= old(self)@.update(
                        i as int,
                        (old(self)@[i as int].0, old(self)@[i as int].1, now),
                    ));
                }
                Some(i)
            },
            None => None,
        }
    }

    /// At the limit, drops the client used longest ago (the first such); see
    /// `room_made`.
    pub fn make_room(&mut self)
        ensures
            final(self)@ == room_made(old(self)@),
    {
        let n = self.entries.len();
        if n < CLIENT_CACHE_LIMIT {
            return;
        }
        let mut k: usize = 0;
        let mut i: usize = 1;
        while i < n
            invariant
                1 <= i <= n,
                n == self@.len(),
                n == self.entries@.len(),
                k as int == oldest_among(self@, i as int),
                k < i,
            decreases n - i,
        {
            proof {
                assert(self@[i as int].2 == self.entries@[i as int].last_used);
                assert(self@[k as int].2 == self.entries@[k as int].last_used);
            }
            if self.entries[i].last_used < self.entries[k].last_used {
                k = i;
            }
            i = i + 1;
        }
        let ghost before = self@;
        self.entries.remove(k);
        proof {
            assert(self@ =~= before.remove(k as int));
        }
    }

    /// Stores `client` under `key`, used at `now` (see `stored`).
    pub fn store(&mut self, key: String, client: C, now: u64)
        ensures
            final(self)@ == stored(old(self)@, key@, client, now),
    {
        proof {
            lemma_cache_pos(self@, key@);
        }
        match self.find(key.as_str()) {
            Some(i) => {
                let ghost before = self.entries@;
                let mut e = self.entries.remove(i);
                proof {
                    assert(e.key@ == key@);
                }
                e.client = client;
                e.last_used = now;
                self.entries.insert(i, e);
                proof {
                    assert(self.entries@ =~= before.update(i as int, e));
                    assert(self@ =~= old(self)@.update(i as int, (key@, client, now)));
                }
            },
            None => {
                let ghost before = self.entries@;
                self.entries.push(CachedClient { key, client, last_used: now });
                proof {
                    assert(self@ =~= old(self)@.push((key@, client, now)));
                }
            },
        }
    }
}

// ---------------------------------------------------------------------------
// After the response.
// ---------------------------------------------------------------------------

/// A fresh script context.
pub open spec fn fresh_context() -> CtxView {
    CtxView { vars: Seq::empty(), logs: Seq::empty(), errors: Seq::empty() }
}

/// The message of a failed post-response script: the text of the
/// validation error `m` behind a prefix.
pub open spec fn post_script_error(m: Seq<char>) -> Seq<char> {
    "Post-response script error: "@ + "Validation error: "@ + m
}

/// Runs the post-response script on a fresh context. Where a check fails,
/// the result is an error naming it; otherwise the response, recorded as the
/// answer to `url` with `method`. Scripts whose message building would
/// panic are excluded (see `ScriptEngine::post_response_panics`).
pub fn finish_response(resp: HttpResponse, script: &Script, url: String, method: HttpMethod) -> (r:
    Result<HttpResponse, AppError>)
    requires
        !(post_outcome(script.actions@, resp, fresh_context()) is Panicked),
    ensures
        match post_outcome(script.actions@, resp, fresh_context()) {
            PostRun::Failed(_, m) => r matches Err(AppError::Validation(s)) && s@ == post_script_error(
                m,
            ),
            _ => r == Ok::<HttpResponse, AppError>((HttpResponse { url, method, ..resp })),
        },
{
    let mut ctx = ScriptContext::new();
    proof {
        assert(ctx@.vars =~= Seq::<(Seq<char>, Seq<char>)>::empty());
        assert(ctx@.logs =~= Seq::<Seq<char>>::empty());
        assert(ctx@.errors =~= Seq::<Seq<char>>::empty());
        assert(ctx@ == fresh_context());
    }
    match ScriptEngine::execute_post_response(script, &resp, &mut ctx) {
        Err(e) => {
            let inner = e.to_string();
            let mut text = chars_of("Post-response script error: ");
            push_str(&mut text, inner.as_str());
            Err(AppError::Validation(string_of(&text)))
        },
        Ok(()) => {
            let mut out = resp;
            out.url = url;
            out.method = method;
            Ok(out)
        },
    }
}

/// What the user is told of a finished request: a warning with the status
/// and URL for a status of 400 or more, else a success that adds the time
/// taken; an error naming the failure.
pub open spec fn response_notice(result: Result<HttpResponse, AppError>) -> (ToastKind, Seq<char>) {
    match result {
        Ok(resp) => if resp.status >= 400 {
            (ToastKind::Warning, dec(resp.status as nat) + " "@ + resp.url@)
        } else {
            (
                ToastKind::Success,
                dec(resp.status as nat) + " "@ + resp.url@ + " - "@ + dec(resp.duration_ms as nat)
                    + "ms"@,
            )
        },
        Err(e) => (ToastKind::Error, "Request failed: "@ + error_text(e)),
    }
}

/// The notice for a finished request (see `response_notice`).
pub fn response_toast(result: &Result<HttpResponse, AppError>) -> (r: Toast)
    ensures
        (r.kind, r.text@) == response_notice(*result),
{
    match result {
        Ok(resp) => {
            let mut text: Vec<char> = Vec::new();
            push_dec(&mut text, resp.status as u64);
            push_str(&mut text, " ");
            push_str(&mut text, resp.url.as_str());
            if resp.status >= 400 {
                proof {
                    assert(text@ =~= dec(resp.status as nat) + " "@ + resp.url@);
                }
                toast(ToastKind::Warning, &text)
            } else {
                let ghost before = text@;
                push_str(&mut text, " - ");
                push_dec(&mut text, resp.duration_ms);
                push_str(&mut text, "ms");
                proof {
                    assert(text@ =~= dec(resp.status as nat) + " "@ + resp.url@ + " - "@ + dec(
                        resp.duration_ms as nat,
                    ) + "ms"@);
                }
                toast(ToastKind::Success, &text)
            }
        },
        Err(e) => {
            let mut text = chars_of("Request failed: ");
            let inner = e.to_string();
            push_str(&mut text, inner.as_str());
            toast(ToastKind::Error, &text)
        },
    }
}

/// The content type a response is saved under: its `Content-Type` header,
/// or `application/octet-stream`.
pub open spec fn saved_content_type(resp: HttpResponse) -> Seq<char> {
    match header_value(pairs_view(resp.headers@), "content-type"@) {
        Some(v) => v,
        None => "application/octet-stream"@,
    }
}

/// The file extension suggested for a saved response of content type `ct`.
pub open spec fn download_extension(ct: Seq<char>) -> Seq<char> {
    if contains(ct, "image/png"@) {
        "png"@
    } else if contains(ct, "image/jpeg"@) || contains(ct, "image/jpg"@) {
        "jpg"@
    } else if contains(ct, "image/gif"@) {
        "gif"@
    } else if contains(ct, "image/svg"@) {
        "svg"@
    } else if contains(ct, "image/webp"@) {
        "webp"@
    } else if contains(ct, "application/pdf"@) {
        "pdf"@
    } else if contains(ct, "application/zip"@) {
        "zip"@
    } else if contains(ct, "application/gzip"@) || contains(ct, "application/x-gzip"@) {
        "gz"@
    } else if contains(ct, "application/json"@) {
        "json"@
    } else if contains(ct, "application/xml"@) || contains(ct, "text/xml"@) {
        "xml"@
    } else if contains(ct, "text/html"@) {
        "html"@
    } else {
        "bin"@
    }
}

fn has(ct: &Vec<char>, lit: &str) -> (r: bool)
    ensures
        r == contains(ct@, lit@),
{
    contains_chars(ct, &chars_of(lit))
}

fn extension_for(ct: &Vec<char>) -> (r: &'static str)
    ensures
        r@ == download_extension(ct@),
{
    if has(ct, "image/png") {
        "png"
    } else if has(ct, "image/jpeg") || has(ct, "image/jpg") {
        "jpg"
    } else if has(ct, "image/gif") {
        "gif"
    } else if has(ct, "image/svg") {
        "svg"
    } else if has(ct, "image/webp") {
        "webp"
    } else if has(ct, "application/pdf") {
        "pdf"
    } else if has(ct, "application/zip") {
        "zip"
    } else if has(ct, "application/gzip") || has(ct, "application/x-gzip") {
        "gz"
    } else if has(ct, "application/json") {
        "json"
    } else if has(ct, "application/xml") || has(ct, "text/xml") {
        "xml"
    } else if has(ct, "text/html") {
        "html"
    } else {
        "bin"
    }
}

/// The file name suggested when saving a response: `response.` and the
/// extension for its content type (see `download_extension`).
pub fn download_file_name(resp: &HttpResponse) -> (r: String)
    ensures
        r@ == "response."@ + download_extension(saved_content_type(*resp)),
{
    let ct = match find_header(&resp.headers, &chars_of("content-type")) {
        Some(v) => chars_of(v.as_str()),
        None => chars_of("application/octet-stream"),
    };
    let ext = extension_for(&ct);
    let mut name = chars_of("response.");
    push_str(&mut name, ext);
    string_of(&name)
}

/// The bytes written when saving a response: the decoded body of a base64
/// body (nothing where it does not decode), else the body's UTF-8 bytes.
pub open spec fn download_content(resp: HttpResponse) -> Seq<u8> {
    if resp.body_encoding == BodyEncoding::Base64 {
        match base64_decoded_of(resp.body@) {
            Some(b) => b,
            None => Seq::empty(),
        }
    } else {
        encode_utf8(resp.body@)
    }
}

/// The bytes written when saving a response (see `download_content`).
pub fn download_bytes(resp: &HttpResponse) -> (r: Vec<u8>)
    ensures
        r@ == download_content(*resp),
{
    if resp.body_encoding == BodyEncoding::Base64 {
        match base64_decode(resp.body.as_str()) {
            Some(b) => b,
            None => Vec::new(),
        }
    } else {
        vstd::slice::slice_to_vec(resp.body.as_str().as_bytes())
    }
}

/// What the user is told once a response was saved: where to; nothing when
/// saving was cancelled; the error otherwise.
pub open spec fn saved_notice(result: Result<String, String>) -> Option<(ToastKind, Seq<char>)> {
    match result {
        Ok(path) => Some((ToastKind::Success, "Saved: "@ + path@)),
        Err(e) => if e@ == "Cancelled"@ {
            None
        } else {
            Some((ToastKind::Error, e@))
        },
    }
}

/// The notice once a response was saved (see `saved_notice`).
pub fn file_saved_toast(result: &Result<String, String>) -> (r: Option<Toast>)
    ensures
        match r {
            Some(t) => saved_notice(*result) == Some((t.kind, t.text@)),
            None => saved_notice(*result) is None,
        },
{
    match result {
        Ok(path) => {
            let mut text = chars_of("Saved: ");
            push_str(&mut text, path.as_str());
            Some(toast(ToastKind::Success, &text))
        },
        Err(e) => {
            let c = chars_of(e.as_str());
            if is_literal(&c, "Cancelled") {
                None
            } else {
                Some(toast(ToastKind::Error, &c))
            }
        },
    }
}

/// What the user is told after the pre-request script: an error naming the
/// failure, which stops the sending, or one notice per line the script
/// logged.
pub open spec fn pre_request_notice(outcome: Result<(), AppError>, logs: Seq<Seq<char>>) -> Result<
    Seq<Seq<char>>,
    Seq<char>,
> {
    match outcome {
        Err(e) => Err("Pre-request script error: "@ + error_text(e)),
        Ok(_) => Ok(logs.map_values(|l: Seq<char>| "[Pre-request] "@ + l)),
    }
}

/// The notices after the pre-request script (see `pre_request_notice`):
/// information notices, or the error notice when sending stops.
pub fn pre_request_toasts(outcome: &Result<(), AppError>, logs: &[String]) -> (r: Result<
    Vec<Toast>,
    Toast,
>)
    ensures
        match (r, pre_request_notice(*outcome, logs@.map_values(|l: String| l@))) {
            (Ok(ts), Ok(texts)) => ts@.len() == texts.len() && forall|i: int|
                0 <= i < texts.len() ==> (#[trigger] ts@[i]).kind == ToastKind::Info
                    && ts@[i].text@ == texts[i],
            (Err(t), Err(text)) => t.kind == ToastKind::Error && t.text@ == text,
            _ => false,
        },
{
    match outcome {
        Err(e) => {
            let mut text = chars_of("Pre-request script error: ");
            let inner = e.to_string();
            push_str(&mut text, inner.as_str());
            Err(toast(ToastKind::Error, &text))
        },
        Ok(()) => {
            let mut out: Vec<Toast> = Vec::new();
            let mut i: usize = 0;
            while i < logs.len()
                invariant
                    i <= logs@.len(),
                    out@.len() == i,
                    forall|k: int|
                        0 <= k < i ==> (#[trigger] out@[k]).kind == ToastKind::Info && out@[k].text@
                            == "[Pre-request] "@ + logs@[k]@,
                decreases logs.len() - i,
            {
                let mut text = chars_of("[Pre-request] ");
                push_str(&mut text, logs[i].as_str());
                out.push(toast(ToastKind::Info, &text));
                i = i + 1;
            }
            Ok(out)
        },
    }
}

// ---------------------------------------------------------------------------
// Variables left unresolved.
// ---------------------------------------------------------------------------

/// Where the first `}}` in `t` starts, or -1.
pub open spec fn close_of(t: Seq<char>) -> int
    decreases t.len(),
{
    if t.len() < 2 {
        -1
    } else if t[0] == '}' && t[1] == '}' {
        0
    } else {
        let r = close_of(t.drop_first());
        if r < 0 {
            -1
        } else {
            r + 1
        }
    }
}

/// The names of the `{{name}}` placeholders in `s`, in order: each `{{`
/// up to the next `}}`; an unclosed `{{` ends the scan.
pub open spec fn placeholders(s: Seq<char>) -> Seq<Seq<char>>
    decreases s.len(),
{
    if s.len() < 2 {
        Seq::empty()
    } else if s[0] == '{' && s[1] == '{' {
        let rest = s.skip(2);
        let j = close_of(rest);
        proof {
            lemma_close_of(rest);
        }
        if j < 0 {
            Seq::empty()
        } else {
            seq![rest.take(j)] + placeholders(rest.skip(j + 2))
        }
    } else {
        placeholders(s.drop_first())
    }
}

/// Where `close_of` points: the first `}}`, or nowhere when there is none.
pub proof fn lemma_close_of(t: Seq<char>)
    ensures
        -1 <= close_of(t) <= t.len() - 2 || close_of(t) == -1,
        close_of(t) >= 0 ==> t[close_of(t)] == '}' && t[close_of(t) + 1] == '}' && forall|k: int|
            0 <= k < close_of(t) ==> !(#[trigger] t[k] == '}' && t[k + 1] == '}'),
        close_of(t) < 0 ==> forall|k: int| 0 <= k < t.len() - 1 ==> !(#[trigger] t[k] == '}' && t[k + 1] == '}'),
    decreases t.len(),
{
    if t.len() >= 2 && !(t[0] == '}' && t[1] == '}') {
        let u = t.drop_first();
        lemma_close_of(u);
        assert forall|k: int| 1 <= k < t.len() implies t[k] == u[k - 1] by {}
    }
}

/// The placeholder names in `s` (see `placeholders`).
pub fn placeholders_in(s: &str) -> (r: Vec<String>)
    ensures
        r@.map_values(|x: String| x@) == placeholders(s@),
{
    let c = chars_of(s);
    let n = c.len();
    let mut out: Vec<String> = Vec::new();
    let mut i: usize = 0;
    proof {
        assert(c@.skip(0) =~= c@);
    }
    while i < n
        invariant
            n == c@.len(),
            c@ == s@,
            i <= n,
            out@.map_values(|x: String| x@) + placeholders(c@.skip(i as int)) == placeholders(c@),
        decreases n - i,
    {
        let ghost t = c@.skip(i as int);
        let ghost before = out@.map_values(|x: String| x@);
        if i + 1 < n && c[i] == '{' && c[i + 1] == '{' {
            let ghost rest = t.skip(2);
            proof {
                assert(rest =~= c@.skip(i + 2));
                lemma_close_of(rest);
                assert(t.len() >= 2 && t[0] == '{' && t[1] == '{');
            }
            let mut k: usize = i + 2;
            let mut found = false;
            while k < n - 1
                invariant_except_break
                    !found,
                invariant
                    i + 2 <= k <= n,
                    n == c@.len(),
                    n >= 2,
                    rest == c@.skip(i + 2),
                    forall|m: int| i + 2 <= m < k ==> !(#[trigger] c@[m] == '}' && c@[m + 1] == '}'),
                ensures
                    i + 2 <= k <= n,
                    found ==> k + 1 < n && c@[k as int] == '}' && c@[k + 1] == '}',
                    !found ==> k + 1 >= n,
                    forall|m: int| i + 2 <= m < k ==> !(#[trigger] c@[m] == '}' && c@[m + 1] == '}'),
                decreases n - k,
            {
                if c[k] == '}' && c[k + 1] == '}' {
                    found = true;
                    break;
                }
                k = k + 1;
            }
            if !found {
                proof {
                    if close_of(rest) >= 0 {
                        let j = close_of(rest);
                        assert(rest[j] == c@[i + 2 + j]);
                        assert(rest[j + 1] == c@[i + 2 + j + 1]);
                    }
                    assert(placeholders(t) =~= Seq::<Seq<char>>::empty());
                    assert(c@.skip(n as int) =~= Seq::<char>::empty());
                }
                i = n;
            } else {
                proof {
                    assert(rest[k - (i + 2)] == c@[k as int]);
                    assert(rest[k - (i + 2) + 1] == c@[k + 1]);
                    if close_of(rest) >= 0 && close_of(rest) < k - (i + 2) {
                        let j = close_of(rest);
                        assert(rest[j] == c@[i + 2 + j]);
                        assert(rest[j + 1] == c@[i + 2 + j + 1]);
                    }
                    assert(close_of(rest) == k - (i + 2));
                }
                let name = string_of(vstd::slice::slice_subrange(c.as_slice(), i + 2, k));
                out.push(name);
                proof {
                    let j = k - (i + 2);
                    assert(name@ =~= rest.take(j));
                    assert(rest.skip(j + 2) =~= c@.skip(k + 2));
                    assert(out@.map_values(|x: String| x@) =~= before.push(rest.take(j)));
                    assert(placeholders(t) == seq![rest.take(j)] + placeholders(rest.skip(j + 2)));
                }
                i = k + 2;
            }
        } else {
            proof {
                if i + 1 < n {
                    assert(t.drop_first() =~= c@.skip(i + 1));
                } else {
                    assert(c@.skip(i + 1) =~= Seq::<char>::empty());
                }
            }
            i = i + 1;
        }
    }
    proof {
        assert(c@.skip(n as int) =~= Seq::<char>::empty());
    }
    out
}

/// The placeholder names in the values of `rows`, row after row.
pub open spec fn values_placeholders(rows: Seq<(Seq<char>, Seq<char>)>) -> Seq<Seq<char>>
    decreases rows.len(),
{
    if rows.len() == 0 {
        Seq::empty()
    } else {
        values_placeholders(rows.drop_last()) + placeholders(rows.last().1)
    }
}

/// The placeholders left in an edited request: those in the URL, then in
/// the parameter values, the header values and the body.
pub open spec fn draft_placeholders(d: RequestDraft) -> Seq<Seq<char>> {
    placeholders(d.url_input@) + values_placeholders(pairs_view(d.params@)) + values_placeholders(
        pairs_view(d.headers@),
    ) + placeholders(d.body_text@)
}

/// The texts of a list of strings.
pub open spec fn names_view(v: Seq<String>) -> Seq<Seq<char>> {
    v.map_values(|x: String| x@)
}

fn extend_names(out: &mut Vec<String>, more: Vec<String>)
    ensures
        names_view(final(out)@) == names_view(old(out)@) + names_view(more@),
{
    let mut more = more;
    let ghost m = more@;
    out.append(&mut more);
    proof {
        assert(names_view(out@) =~= names_view(old(out)@) + names_view(m));
    }
}

fn row_value_placeholders(rows: &Vec<(String, String)>) -> (r: Vec<String>)
    ensures
        names_view(r@) == values_placeholders(pairs_view(rows@)),
{
    let mut out: Vec<String> = Vec::new();
    let mut i: usize = 0;
    proof {
        assert(pairs_view(rows@).take(0) =~= Seq::<(Seq<char>, Seq<char>)>::empty());
        assert(names_view(out@) =~= Seq::<Seq<char>>::empty());
    }
    while i < rows.len()
        invariant
            i <= rows@.len(),
            names_view(out@) == values_placeholders(pairs_view(rows@).take(i as int)),
        decreases rows.len() - i,
    {
        let more = placeholders_in(rows[i].1.as_str());
        proof {
            let t = pairs_view(rows@).take(i + 1);
            assert(t.drop_last() =~= pairs_view(rows@).take(i as int));
            assert(t.last().1 == rows@[i as int].1@);
            assert(names_view(more@) == more@.map_values(|x: String| x@));
        }
        extend_names(&mut out, more);
        i = i + 1;
    }
    proof {
        assert(pairs_view(rows@).take(rows@.len() as int) =~= pairs_view(rows@));
    }
    out
}

impl RequestDraft {
    /// The variable placeholders left unresolved in the request (see
    /// `draft_placeholders`).
    pub fn unresolved_variables(&self) -> (r: Vec<String>)
        ensures
            names_view(r@) == draft_placeholders(*self),
    {
        let mut out = placeholders_in(self.url_input.as_str());
        proof {
            assert(names_view(out@) == out@.map_values(|x: String| x@));
        }
        extend_names(&mut out, row_value_placeholders(&self.params));
        extend_names(&mut out, row_value_placeholders(&self.headers));
        let body = placeholders_in(self.body_text.as_str());
        proof {
            assert(names_view(body@) == body@.map_values(|x: String| x@));
        }
        extend_names(&mut out, body);
        out
    }
}

/// Names joined with `, `.
pub open spec fn joined_names(names: Seq<Seq<char>>) -> Seq<char>
    decreases names.len(),
{
    if names.len() == 0 {
        Seq::empty()
    } else if names.len() == 1 {
        names[0]
    } else {
        joined_names(names.drop_last()) + ", "@ + names.last()
    }
}

/// The warning about unresolved variables: none when there are none,
/// otherwise `Unresolved variables: ` and their names joined with `, `.
pub fn unresolved_toast(names: &[String]) -> (r: Option<Toast>)
    ensures
        match r {
            None => names@.len() == 0,
            Some(t) => names@.len() > 0 && t.kind == ToastKind::Warning && t.text@
                == "Unresolved variables: "@ + joined_names(names_view(names@)),
        },
{
    if names.len() == 0 {
        return None;
    }
    let mut text = chars_of("Unresolved variables: ");
    let ghost head = text@;
    let mut i: usize = 0;
    while i < names.len()
        invariant
            i <= names@.len(),
            names@.len() > 0,
            text@ == head + joined_names(names_view(names@).take(i as int)),
        decreases names.len() - i,
    {
        proof {
            let t = names_view(names@).take(i + 1);
            assert(t.drop_last() =~= names_view(names@).take(i as int));
            assert(t.last() == names@[i as int]@);
            if i == 0 {
                assert(names_view(names@).take(0) =~= Seq::<Seq<char>>::empty());
            }
        }
        if i > 0 {
            push_str(&mut text, ", ");
        }
        push_str(&mut text, names[i].as_str());
        proof {
            if i == 0 {
                assert(text@ =~= head + joined_names(names_view(names@).take(1)));
            } else {
                assert(text@ =~= head + joined_names(names_view(names@).take(i + 1)));
            }
        }
        i = i + 1;
    }
    proof {
        assert(names_view(names@).take(names@.len() as int) =~= names_view(names@));
    }
    Some(toast(ToastKind::Warning, &text))
}

} // verus!
