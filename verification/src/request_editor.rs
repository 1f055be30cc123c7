//! Editing a request: what the editor's messages do to the edited request
//! (tabs, body kind, multipart rows, settings, toggles and the response
//! search position), and how a received response is prepared for display.
use vstd::prelude::*;

use crate::http::{BodyEncoding, HttpResponse, RedirectPolicy, RequestConfig};
use crate::request_builder::RequestDraft;
use crate::request_view::{BodyType, ContentType, MultipartEntry, MultipartFieldType, RequestStatus, ResponseTab, TabId};
use crate::error::{AppError, error_text};
use crate::scripts::{find_header, header_value};
use crate::search::{search_is_safe, search_matches_in, search_result, search_safe};
use crate::text::{chars_of, contains, contains_chars, dec, parse_u32_chars, parse_u64_chars, parse_unsigned, pairs_view, push_dec, push_str, string_of, lowercase_of, to_lowercase};
use vstd::utf8::encode_utf8;

verus! {

/// What the user did in the request editor.
#[derive(Debug, Clone)]
pub enum EditorMessage {
    MethodSelected(String),
    TabSelected(TabId),
    ResponseTabSelected(ResponseTab),
    RequestContentTypeSelected(ContentType),
    BodyTypeSelected(BodyType),
    MultipartNameChanged(usize, String),
    MultipartValueChanged(usize, String),
    MultipartFieldTypeChanged(usize, MultipartFieldType),
    AddMultipartEntry,
    RemoveMultipartEntry(usize),
    MultipartFilePicked(usize, Option<String>),
    TimeoutChanged(String),
    FollowRedirectsToggled(bool),
    MaxRedirectsChanged(String),
    RetryCountChanged(String),
    RetryBackoffChanged(String),
    ProxyUrlChanged(String),
    VerifySslToggled(bool),
    ResetSettings,
    ToggleWordWrap,
    HideSnippets,
    ToggleResponseSearch,
    SearchNext,
    SearchPrev,
    ToggleImagePreview,
}

/// The position of the first multipart row with id `id`, or -1.
pub open spec fn entry_pos(s: Seq<MultipartEntry>, id: usize) -> int
    decreases s.len(),
{
    if s.len() == 0 {
        -1
    } else if entry_pos(s.drop_last(), id) >= 0 {
        entry_pos(s.drop_last(), id)
    } else if s.last().id == id {
        s.len() - 1
    } else {
        -1
    }
}

proof fn lemma_entry_pos(s: Seq<MultipartEntry>, id: usize)
    ensures
        -1 <= entry_pos(s, id) < s.len(),
        entry_pos(s, id) >= 0 ==> s[entry_pos(s, id)].id == id,
        forall|j: int| 0 <= j < s.len() && (entry_pos(s, id) < 0 || j < entry_pos(s, id)) ==> s[j].id != id,
    decreases s.len(),
{
    if s.len() > 0 {
        lemma_entry_pos(s.drop_last(), id);
        assert forall|j: int| 0 <= j < s.len() - 1 implies s[j] == s.drop_last()[j] by {}
    }
}

/// The rows without id `id`, in order.
pub open spec fn without_entry(s: Seq<MultipartEntry>, id: usize) -> Seq<MultipartEntry>
    decreases s.len(),
{
    if s.len() == 0 {
        s
    } else if s.last().id != id {
        without_entry(s.drop_last(), id).push(s.last())
    } else {
        without_entry(s.drop_last(), id)
    }
}

/// `d` with its settings replaced.
pub open spec fn with_config(d: RequestDraft, c: RequestConfig) -> RequestDraft {
    RequestDraft { request_config: c, ..d }
}

/// The settings after a timeout typed in seconds: applied when it reads as a
/// `u64`, ignored otherwise.
pub open spec fn timeout_set(c: RequestConfig, text: Seq<char>) -> RequestConfig {
    match parse_unsigned(text, u64::MAX as nat) {
        Some(secs) => RequestConfig { timeout_ms: (secs * 1000) as u128, ..c },
        None => c,
    }
}

/// The settings after a text typed for a `u32` setting: applied when it
/// reads as one.
pub open spec fn parsed_u32(text: Seq<char>) -> Option<u32> {
    match parse_unsigned(text, u32::MAX as nat) {
        Some(n) => Some(n as u32),
        None => None,
    }
}

/// What handling message `m` does to the edited request `v`; `w` is the new
/// state. Edits of a multipart row that does not exist do nothing.
pub open spec fn editor_update(v: RequestDraft, m: EditorMessage, w: RequestDraft) -> bool {
    match m {
        EditorMessage::MethodSelected(s) => w == (RequestDraft { method: s, ..v }),
        EditorMessage::TabSelected(t) => w == (RequestDraft { active_tab: t, ..v }),
        EditorMessage::ResponseTabSelected(t) => w == (RequestDraft { active_response_tab: t, ..v }),
        EditorMessage::RequestContentTypeSelected(ct) => w == (RequestDraft {
            request_content_type: ct,
            ..v
        }),
        EditorMessage::BodyTypeSelected(b) => w == (RequestDraft { body_type: b, ..v }),
        EditorMessage::MultipartNameChanged(id, name) => {
            let p = entry_pos(v.multipart_entries@, id);
            w == (RequestDraft { multipart_entries: w.multipart_entries, ..v }) && if p >= 0 {
                w.multipart_entries@ == v.multipart_entries@.update(
                    p,
                    MultipartEntry { name: name, ..v.multipart_entries@[p] },
                )
            } else {
                w.multipart_entries@ == v.multipart_entries@
            }
        },
        EditorMessage::MultipartValueChanged(id, value) => {
            let p = entry_pos(v.multipart_entries@, id);
            w == (RequestDraft { multipart_entries: w.multipart_entries, ..v }) && if p >= 0 {
                w.multipart_entries@ == v.multipart_entries@.update(
                    p,
                    MultipartEntry { value: value, ..v.multipart_entries@[p] },
                )
            } else {
                w.multipart_entries@ == v.multipart_entries@
            }
        },
        EditorMessage::MultipartFilePicked(id, path) => match path {
            Some(value) => {
                let p = entry_pos(v.multipart_entries@, id);
                w == (RequestDraft { multipart_entries: w.multipart_entries, ..v }) && if p >= 0 {
                    w.multipart_entries@ == v.multipart_entries@.update(
                        p,
                        MultipartEntry { value: value, ..v.multipart_entries@[p] },
                    )
                } else {
                    w.multipart_entries@ == v.multipart_entries@
                }
            },
            None => w == v,
        },
        EditorMessage::MultipartFieldTypeChanged(id, ft) => {
            let p = entry_pos(v.multipart_entries@, id);
            w == (RequestDraft { multipart_entries: w.multipart_entries, ..v }) && if p >= 0 {
                let old_e = v.multipart_entries@[p];
                let is_file = ft == MultipartFieldType::File;
                &&& w.multipart_entries@.len() == v.multipart_entries@.len()
                &&& forall|k: int|
                    0 <= k < w.multipart_entries@.len() && k != p ==> w.multipart_entries@[k]
                        == v.multipart_entries@[k]
                &&& w.multipart_entries@[p].id == old_e.id
                &&& w.multipart_entries@[p].name == old_e.name
                &&& w.multipart_entries@[p].is_file == is_file
                &&& if is_file {
                    w.multipart_entries@[p].value == old_e.value
                } else {
                    w.multipart_entries@[p].value@.len() == 0
                }
            } else {
                w.multipart_entries@ == v.multipart_entries@
            }
        },
        EditorMessage::AddMultipartEntry => {
            &&& w == (RequestDraft {
                multipart_entries: w.multipart_entries,
                multipart_next_id: (v.multipart_next_id + 1) as usize,
                ..v
            })
            &&& w.multipart_entries@.len() == v.multipart_entries@.len() + 1
            &&& w.multipart_entries@.drop_last() == v.multipart_entries@
            &&& w.multipart_entries@.last().id == v.multipart_next_id
            &&& w.multipart_entries@.last().name@.len() == 0
            &&& w.multipart_entries@.last().value@.len() == 0
            &&& !w.multipart_entries@.last().is_file
        },
        EditorMessage::RemoveMultipartEntry(id) => w == (RequestDraft {
            multipart_entries: w.multipart_entries,
            ..v
        }) && w.multipart_entries@ == without_entry(v.multipart_entries@, id),
        EditorMessage::TimeoutChanged(t) => w == with_config(v, timeout_set(v.request_config, t@)),
        EditorMessage::FollowRedirectsToggled(follow) => w == with_config(
            v,
            RequestConfig {
                redirect_policy: if follow {
                    RedirectPolicy::Follow
                } else {
                    RedirectPolicy::NoFollow
                },
                ..v.request_config
            },
        ),
        EditorMessage::MaxRedirectsChanged(t) => match parsed_u32(t@) {
            Some(n) => w == with_config(
                v,
                RequestConfig { redirect_policy: RedirectPolicy::Limited(n), ..v.request_config },
            ),
            None => w == v,
        },
        EditorMessage::RetryCountChanged(t) => match parsed_u32(t@) {
            Some(n) => w == with_config(
                v,
                RequestConfig {
                    retry: crate::http::RetryConfig { max_retries: n, ..v.request_config.retry },
                    ..v.request_config
                },
            ),
            None => w == v,
        },
        EditorMessage::RetryBackoffChanged(t) => match parse_unsigned(t@, u64::MAX as nat) {
            Some(n) => w == with_config(
                v,
                RequestConfig {
                    retry: crate::http::RetryConfig {
                        backoff_ms: n as u64,
                        ..v.request_config.retry
                    },
                    ..v.request_config
                },
            ),
            None => w == v,
        },
        EditorMessage::ProxyUrlChanged(url) => w == with_config(
            v,
            RequestConfig {
                proxy_url: if url@.len() == 0 {
                    None
                } else {
                    Some(url)
                },
                ..v.request_config
            },
        ),
        EditorMessage::VerifySslToggled(b) => w == with_config(
            v,
            RequestConfig {
                tls: crate::http::TlsConfig { verify_ssl: b, ..v.request_config.tls },
                ..v.request_config
            },
        ),
        EditorMessage::ResetSettings => w == (RequestDraft { request_config: w.request_config, ..v })
            && is_default_config(w.request_config),
        EditorMessage::ToggleWordWrap => w == (RequestDraft { word_wrap: !v.word_wrap, ..v }),
        EditorMessage::HideSnippets => w == (RequestDraft { show_snippets: false, ..v }),
        EditorMessage::ToggleResponseSearch => if v.show_response_search {
            &&& w == (RequestDraft {
                show_response_search: false,
                response_search_query: w.response_search_query,
                response_search_matches: w.response_search_matches,
                response_search_index: 0,
                ..v
            })
            &&& w.response_search_query@.len() == 0
            &&& w.response_search_matches@.len() == 0
        } else {
            w == (RequestDraft { show_response_search: true, ..v })
        },
        EditorMessage::SearchNext => if v.response_search_matches@.len() > 0 {
            w == (RequestDraft {
                response_search_index: ((v.response_search_index + 1)
                    % (v.response_search_matches@.len() as int)) as usize,
                ..v
            })
        } else {
            w == v
        },
        EditorMessage::SearchPrev => if v.response_search_matches@.len() > 0 {
            w == (RequestDraft {
                response_search_index: if v.response_search_index == 0 {
                    (v.response_search_matches@.len() - 1) as usize
                } else {
                    (v.response_search_index - 1) as usize
                },
                ..v
            })
        } else {
            w == v
        },
        EditorMessage::ToggleImagePreview => w == (RequestDraft {
            show_image_preview: !v.show_image_preview,
            ..v
        }),
    }
}

/// The settings are the defaults: thirty seconds, following redirects (ten
/// at most), no retries with one second of backoff, no proxy, certificates
/// verified.
pub open spec fn is_default_config(c: RequestConfig) -> bool {
    &&& c.timeout_ms == 30000
    &&& c.redirect_policy == RedirectPolicy::Follow
    &&& c.max_redirects == 10
    &&& c.retry == (crate::http::RetryConfig { max_retries: 0, backoff_ms: 1000 })
    &&& c.proxy_url is None
    &&& c.proxy is None
    &&& c.tls.verify_ssl
    &&& c.tls.ca_cert_path is None
    &&& c.tls.client_cert_path is None
    &&& c.tls.client_key_path is None
}

/// A message can be handled without overflow: a new multipart row needs a
/// next number, moving to the next match needs a current one below the
/// largest index.
pub open spec fn editor_can_handle(v: RequestDraft, m: EditorMessage) -> bool {
    match m {
        EditorMessage::AddMultipartEntry => v.multipart_next_id < usize::MAX,
        EditorMessage::SearchNext => v.response_search_matches@.len() > 0
            ==> v.response_search_index < usize::MAX,
        _ => true,
    }
}

fn dup_entry(e: &MultipartEntry) -> (r: MultipartEntry)
    ensures
        r == *e,
{
    MultipartEntry { id: e.id, name: e.name.clone(), value: e.value.clone(), is_file: e.is_file }
}

impl RequestDraft {
    fn entry_index(&self, id: usize) -> (r: Option<usize>)
        ensures
            match r {
                Some(i) => i < self.multipart_entries@.len() && i as int == entry_pos(
                    self.multipart_entries@,
                    id,
                ),
                None => entry_pos(self.multipart_entries@, id) < 0,
            },
    {
        proof {
            lemma_entry_pos(self.multipart_entries@, id);
        }
        let mut i: usize = 0;
        while i < self.multipart_entries.len()
            invariant
                i <= self.multipart_entries@.len(),
                forall|j: int| 0 <= j < i ==> self.multipart_entries@[j].id != id,
                -1 <= entry_pos(self.multipart_entries@, id) < self.multipart_entries@.len(),
                entry_pos(self.multipart_entries@, id) >= 0 ==> self.multipart_entries@[entry_pos(
                    self.multipart_entries@,
                    id,
                )].id == id,
                forall|j: int|
                    0 <= j < self.multipart_entries@.len() && (entry_pos(
                        self.multipart_entries@,
                        id,
                    ) < 0 || j < entry_pos(self.multipart_entries@, id))
                        ==> self.multipart_entries@[j].id != id,
            decreases self.multipart_entries.len() - i,
        {
            if self.multipart_entries[i].id == id {
                return Some(i);
            }
            i = i + 1;
        }
        None
    }

    /// Handles an editor message (see `editor_update`).
    #[verifier::rlimit(60)]
    pub fn update(&mut self, message: EditorMessage)
        requires
            editor_can_handle(*old(self), message),
        ensures
            editor_update(*old(self), message, *final(self)),
    {
        match message {
            EditorMessage::MethodSelected(method) => {
                self.method = method;
            },
            EditorMessage::TabSelected(tab) => {
                self.active_tab = tab;
            },
            EditorMessage::ResponseTabSelected(tab) => {
                self.active_response_tab = tab;
            },
            EditorMessage::RequestContentTypeSelected(ct) => {
                self.request_content_type = ct;
            },
            EditorMessage::BodyTypeSelected(b) => {
                self.body_type = b;
            },
            EditorMessage::MultipartNameChanged(id, name) => {
                match self.entry_index(id) {
                    Some(i) => {
                        let e = &self.multipart_entries[i];
                        let ne = MultipartEntry {
                            id: e.id,
                            name,
                            value: e.value.clone(),
                            is_file: e.is_file,
                        };
                        self.multipart_entries.set(i, ne);
                    },
                    None => {},
                }
            },
            EditorMessage::MultipartValueChanged(id, value) => {
                match self.entry_index(id) {
                    Some(i) => {
                        let e = &self.multipart_entries[i];
                        let ne = MultipartEntry {
                            id: e.id,
                            name: e.name.clone(),
                            value,
                            is_file: e.is_file,
                        };
                        self.multipart_entries.set(i, ne);
                    },
                    None => {},
                }
            },
            EditorMessage::MultipartFilePicked(id, path) => {
                match path {
                    Some(value) => {
                        match self.entry_index(id) {
                            Some(i) => {
                                let e = &self.multipart_entries[i];
                                let ne = MultipartEntry {
                                    id: e.id,
                                    name: e.name.clone(),
                                    value,
                                    is_file: e.is_file,
                                };
                                self.multipart_entries.set(i, ne);
                            },
                            None => {},
                        }
                    },
                    None => {},
                }
            },
            EditorMessage::MultipartFieldTypeChanged(id, ft) => {
                match self.entry_index(id) {
                    Some(i) => {
                        let e = &self.multipart_entries[i];
                        let is_file = match ft {
                            MultipartFieldType::File => true,
                            MultipartFieldType::Text => false,
                        };
                        let value = if is_file {
                            e.value.clone()
                        } else {
                            String::new()
                        };
                        let ne = MultipartEntry { id: e.id, name: e.name.clone(), value, is_file };
                        self.multipart_entries.set(i, ne);
                    },
                    None => {},
                }
            },
            EditorMessage::AddMultipartEntry => {
                let e = MultipartEntry {
                    id: self.multipart_next_id,
                    name: String::new(),
                    value: String::new(),
                    is_file: false,
                };
                self.multipart_entries.push(e);
                proof {
                    assert(self.multipart_entries@.drop_last() =~= old(self).multipart_entries@);
                }
                self.multipart_next_id = self.multipart_next_id + 1;
            },
            EditorMessage::RemoveMultipartEntry(id) => {
                let mut kept: Vec<MultipartEntry> = Vec::new();
                let mut i: usize = 0;
                proof {
                    assert(self.multipart_entries@.take(0) =~= Seq::<MultipartEntry>::empty());
                }
                while i < self.multipart_entries.len()
                    invariant
                        i <= self.multipart_entries@.len(),
                        kept@ == without_entry(self.multipart_entries@.take(i as int), id),
                    decreases self.multipart_entries.len() - i,
                {
                    proof {
                        assert(self.multipart_entries@.take(i as int + 1).drop_last()
                            =~= self.multipart_entries@.take(i as int));
                    }
                    if self.multipart_entries[i].id != id {
                        kept.push(dup_entry(&self.multipart_entries[i]));
                    }
                    i = i + 1;
                }
                proof {
                    assert(self.multipart_entries@.take(i as int) =~= self.multipart_entries@);
                }
                self.multipart_entries = kept;
            },
            EditorMessage::TimeoutChanged(t) => {
                match parse_u64_chars(&chars_of(t.as_str())) {
                    Some(secs) => {
                        self.request_config.timeout_ms = secs as u128 * 1000;
                    },
                    None => {},
                }
            },
            EditorMessage::FollowRedirectsToggled(follow) => {
                self.request_config.redirect_policy = if follow {
                    RedirectPolicy::Follow
                } else {
                    RedirectPolicy::NoFollow
                };
            },
            EditorMessage::MaxRedirectsChanged(t) => {
                match parse_u32_chars(&chars_of(t.as_str())) {
                    Some(n) => {
                        self.request_config.redirect_policy = RedirectPolicy::Limited(n);
                    },
                    None => {},
                }
            },
            EditorMessage::RetryCountChanged(t) => {
                match parse_u32_chars(&chars_of(t.as_str())) {
                    Some(n) => {
                        self.request_config.retry.max_retries = n;
                    },
                    None => {},
                }
            },
            EditorMessage::RetryBackoffChanged(t) => {
                match parse_u64_chars(&chars_of(t.as_str())) {
                    Some(n) => {
                        self.request_config.retry.backoff_ms = n;
                    },
                    None => {},
                }
            },
            EditorMessage::ProxyUrlChanged(url) => {
                self.request_config.proxy_url = if url.as_str().is_empty() {
                    None
                } else {
                    Some(url)
                };
            },
            EditorMessage::VerifySslToggled(b) => {
                self.request_config.tls.verify_ssl = b;
            },
            EditorMessage::ResetSettings => {
                self.request_config = RequestConfig::default();
            },
            EditorMessage::ToggleWordWrap => {
                self.word_wrap = !self.word_wrap;
            },
            EditorMessage::HideSnippets => {
                self.show_snippets = false;
            },
            EditorMessage::ToggleResponseSearch => {
                self.show_response_search = !self.show_response_search;
                if !self.show_response_search {
                    self.response_search_query = String::new();
                    self.response_search_matches = Vec::new();
                    self.response_search_index = 0;
                }
            },
            EditorMessage::SearchNext => {
                if self.response_search_matches.len() > 0 {
                    self.response_search_index = (self.response_search_index + 1)
                        % self.response_search_matches.len();
                }
            },
            EditorMessage::SearchPrev => {
                if self.response_search_matches.len() > 0 {
                    self.response_search_index = if self.response_search_index == 0 {
                        self.response_search_matches.len() - 1
                    } else {
                        self.response_search_index - 1
                    };
                }
            },
            EditorMessage::ToggleImagePreview => {
                self.show_image_preview = !self.show_image_preview;
            },
        }
    }
}

// ---------------------------------------------------------------------------
// Showing a response.
// ---------------------------------------------------------------------------

/// What `serde_json::from_str::<Value>` followed by `to_string_pretty` gives
/// for a text: `None` when the text is not JSON.
pub uninterp spec fn json_pretty_of(text: Seq<char>) -> Option<Seq<char>>;

/// What base64 `STANDARD.decode` gives for a text: `None` when it is not
/// valid base64.
pub uninterp spec fn base64_decoded_of(text: Seq<char>) -> Option<Seq<u8>>;

/// `serde_json::from_str::<Value>` then `to_string_pretty`, named
/// `json_pretty_of`.
#[verifier::external_body]
fn json_pretty(text: &str) -> (r: Option<String>)
    ensures
        match r {
            Some(s) => json_pretty_of(text@) == Some(s@),
            None => json_pretty_of(text@) is None,
        },
{
    match serde_json::from_str::<serde_json::Value>(text) {
        Ok(v) => match serde_json::to_string_pretty(&v) {
            Ok(s) => Some(s),
            Err(_) => None,
        },
        Err(_) => None,
    }
}

/// `base64::engine::general_purpose::STANDARD.decode`, named
/// `base64_decoded_of`.
#[verifier::external_body]
pub(crate) fn base64_decode(text: &str) -> (r: Option<Vec<u8>>)
    ensures
        match r {
            Some(b) => base64_decoded_of(text@) == Some(b@),
            None => base64_decoded_of(text@) is None,
        },
{
    match base64::Engine::decode(&base64::engine::general_purpose::STANDARD, text) {
        Ok(b) => Some(b),
        Err(_) => None,
    }
}

/// How a received response is shown.
pub struct ResponseDisplay {
    /// The `content-type` header, or `unknown`.
    pub content_type: String,
    /// The text shown for the body.
    pub body_text: String,
    /// The decoded bytes of an image body, for a preview.
    pub image: Option<Vec<u8>>,
}

/// The content type shown for a response.
pub open spec fn shown_content_type(resp: HttpResponse) -> Seq<char> {
    match header_value(pairs_view(resp.headers@), "content-type"@) {
        Some(v) => v,
        None => "unknown"@,
    }
}

/// `d` shows `resp`: a JSON body pretty-printed (as received when it does
/// not parse); a base64 image body decoded for a preview and described by
/// the size of its text; any other body as received.
pub open spec fn shows_response(d: ResponseDisplay, resp: HttpResponse) -> bool {
    let ct = shown_content_type(resp);
    &&& d.content_type@ == ct
    &&& if contains(ct, "application/json"@) {
        d.image is None && d.body_text@ == match json_pretty_of(resp.body@) {
            Some(p) => p,
            None => resp.body@,
        }
    } else if contains(ct, "image/"@) && resp.body_encoding == BodyEncoding::Base64 {
        match base64_decoded_of(resp.body@) {
            Some(bytes) => (d.image matches Some(b) && b@ == bytes) && d.body_text@ == "[Image: "@ + dec(
                (vstd::utf8::encode_utf8(resp.body@).len() as usize) as nat,
            ) + " bytes, base64 decoded for preview]"@,
            None => d.image is None && d.body_text@ == resp.body@,
        }
    } else {
        d.image is None && d.body_text@ == resp.body@
    }
}

/// Prepares a received response for display (see `shows_response`).
pub fn response_display(resp: &HttpResponse) -> (r: ResponseDisplay)
    ensures
        shows_response(r, *resp),
{
    let key = chars_of("content-type");
    let ct = match find_header(&resp.headers, &key) {
        Some(v) => v.clone(),
        None => string_of(&chars_of("unknown")),
    };
    let c = chars_of(ct.as_str());
    if contains_chars(&c, &chars_of("application/json")) {
        let body_text = match json_pretty(resp.body.as_str()) {
            Some(p) => p,
            None => resp.body.clone(),
        };
        ResponseDisplay { content_type: ct, body_text, image: None }
    } else if contains_chars(&c, &chars_of("image/")) && resp.body_encoding == BodyEncoding::Base64 {
        match base64_decode(resp.body.as_str()) {
            Some(bytes) => {
                let mut out: Vec<char> = Vec::new();
                push_str(&mut out, "[Image: ");
                let n = resp.body.as_str().len();
                push_dec(&mut out, n as u64);
                push_str(&mut out, " bytes, base64 decoded for preview]");
                proof {
                    assert(out@ =~= "[Image: "@ + dec(n as nat) + " bytes, base64 decoded for preview]"@);
                }
                ResponseDisplay { content_type: ct, body_text: string_of(&out), image: Some(bytes) }
            },
            None => ResponseDisplay { content_type: ct, body_text: resp.body.clone(), image: None },
        }
    } else {
        ResponseDisplay { content_type: ct, body_text: resp.body.clone(), image: None }
    }
}

/// A search of `query` in `body`, both lowercased, goes through (see
/// `search_safe`).
pub open spec fn search_goes_through(body: Seq<char>, query: Seq<char>) -> bool {
    search_safe(
        encode_utf8(body),
        encode_utf8(lowercase_of(body)),
        encode_utf8(lowercase_of(query)),
    )
}

/// The matches the response search shows for `query` in `body`: none for an
/// empty query or a search that does not go through; otherwise the line and
/// column of every occurrence of the lowercased query in the lowercased body.
pub open spec fn search_shown(body: Seq<char>, query: Seq<char>) -> Seq<(usize, usize)> {
    if query.len() > 0 && search_goes_through(body, query) {
        search_result(
            encode_utf8(body),
            encode_utf8(lowercase_of(body)),
            encode_utf8(lowercase_of(query)),
        )
    } else {
        Seq::empty()
    }
}

impl RequestDraft {
    /// Searches the response body `body_text` for the search query, ignoring
    /// case, and goes back to the first match. Returns false, with no
    /// matches, where the search does not go through: a match whose offset is
    /// not a character boundary of the body, or whose first lowercased
    /// character takes more than one byte.
    pub fn update_search_matches(&mut self, body_text: &str) -> (ok: bool)
        ensures
            ok == (old(self).response_search_query@.len() == 0 || search_goes_through(
                body_text@,
                old(self).response_search_query@,
            )),
            final(self).response_search_matches@ == search_shown(
                body_text@,
                old(self).response_search_query@,
            ),
            *final(self) == (RequestDraft {
                response_search_matches: final(self).response_search_matches,
                response_search_index: 0,
                ..*old(self)
            }),
    {
        self.response_search_matches = Vec::new();
        self.response_search_index = 0;
        if self.response_search_query.as_str().is_empty() {
            return true;
        }
        let query_lower = to_lowercase(self.response_search_query.as_str());
        let body_lower = to_lowercase(body_text);
        if !search_is_safe(body_text, body_lower.as_str(), query_lower.as_str()) {
            return false;
        }
        self.response_search_matches = search_matches_in(
            body_text,
            body_lower.as_str(),
            query_lower.as_str(),
        );
        true
    }

    /// The search query was edited: takes `query` and searches `body_text`
    /// for it (see `update_search_matches`).
    pub fn response_search_changed(&mut self, query: String, body_text: &str) -> (ok: bool)
        ensures
            ok == (query@.len() == 0 || search_goes_through(body_text@, query@)),
            final(self).response_search_matches@ == search_shown(body_text@, query@),
            *final(self) == (RequestDraft {
                response_search_query: query,
                response_search_matches: final(self).response_search_matches,
                response_search_index: 0,
                ..*old(self)
            }),
    {
        self.response_search_query = query;
        self.update_search_matches(body_text)
    }
}

/// Moving to the next match and back to the previous one returns to the
/// match one started from, and both moves stay among the matches.
pub proof fn lemma_search_next_then_prev(v: RequestDraft, w: RequestDraft, u: RequestDraft)
    requires
        v.response_search_matches@.len() > 0,
        v.response_search_index < v.response_search_matches@.len(),
        editor_can_handle(v, EditorMessage::SearchNext),
        editor_update(v, EditorMessage::SearchNext, w),
        editor_update(w, EditorMessage::SearchPrev, u),
    ensures
        w.response_search_index < v.response_search_matches@.len(),
        u.response_search_index == v.response_search_index,
        u == v,
{
    let n = v.response_search_matches@.len() as int;
    let i = v.response_search_index as int;
    assert(w.response_search_matches == v.response_search_matches);
    if i + 1 < n {
        assert((i + 1) % n == i + 1) by (nonlinear_arith)
            requires
                0 <= i,
                i + 1 < n,
        ;
        assert(w.response_search_index == i + 1);
    } else {
        assert((i + 1) % n == 0) by (nonlinear_arith)
            requires
                i + 1 == n,
                n > 0,
        ;
        assert(w.response_search_index == 0);
    }
    assert(u.response_search_index == v.response_search_index);
    assert(u == (RequestDraft { response_search_index: u.response_search_index, ..w }));
    assert(w == (RequestDraft { response_search_index: w.response_search_index, ..v }));
}

/// Multipart row numbers are distinct and below `next`.
pub open spec fn ids_below(s: Seq<MultipartEntry>, next: usize) -> bool {
    &&& forall|i: int, j: int| 0 <= i < j < s.len() ==> #[trigger] s[i].id != #[trigger] s[j].id
    &&& forall|i: int| 0 <= i < s.len() ==> #[trigger] s[i].id < next
}

/// The multipart rows of `d` have distinct numbers, all below the next one.
pub open spec fn multipart_ids_ok(d: RequestDraft) -> bool {
    ids_below(d.multipart_entries@, d.multipart_next_id)
}

proof fn lemma_without_entry_from(s: Seq<MultipartEntry>, id: usize)
    ensures
        forall|k: int|
            0 <= k < without_entry(s, id).len() ==> exists|j: int|
                0 <= j < s.len() && #[trigger] without_entry(s, id)[k] == s[j],
        without_entry(s, id).len() <= s.len(),
    decreases s.len(),
{
    if s.len() > 0 {
        let d = s.drop_last();
        lemma_without_entry_from(d, id);
        let t = without_entry(d, id);
        assert forall|k: int| 0 <= k < without_entry(s, id).len() implies exists|j: int|
            0 <= j < s.len() && #[trigger] without_entry(s, id)[k] == s[j] by {
            if k < t.len() {
                let j = choose|j: int| 0 <= j < d.len() && t[k] == d[j];
                assert(s[j] == d[j]);
            } else {
                assert(without_entry(s, id)[k] == s[s.len() - 1]);
            }
        }
    }
}

proof fn lemma_without_entry_ids(s: Seq<MultipartEntry>, id: usize, next: usize)
    requires
        ids_below(s, next),
    ensures
        ids_below(without_entry(s, id), next),
    decreases s.len(),
{
    if s.len() > 0 {
        let d = s.drop_last();
        assert(ids_below(d, next)) by {
            assert forall|i: int, j: int| 0 <= i < j < d.len() implies #[trigger] d[i].id
                != #[trigger] d[j].id by {
                assert(d[i] == s[i] && d[j] == s[j]);
            }
            assert forall|i: int| 0 <= i < d.len() implies #[trigger] d[i].id < next by {
                assert(d[i] == s[i]);
            }
        }
        lemma_without_entry_ids(d, id, next);
        lemma_without_entry_from(d, id);
        let t = without_entry(d, id);
        if s.last().id != id {
            let r = t.push(s.last());
            assert forall|i: int, j: int| 0 <= i < j < r.len() implies #[trigger] r[i].id
                != #[trigger] r[j].id by {
                if j == r.len() - 1 {
                    let k = choose|k: int| 0 <= k < d.len() && #[trigger] t[i] == d[k];
                    assert(d[k] == s[k]);
                    assert(r[i] == t[i]);
                } else {
                    assert(r[i] == t[i] && r[j] == t[j]);
                }
            }
            assert forall|i: int| 0 <= i < r.len() implies #[trigger] r[i].id < next by {
                if i < t.len() {
                    assert(r[i] == t[i]);
                }
            }
        }
    }
}

/// Every editor message keeps the multipart row numbers distinct and below
/// the next number to give out.
pub proof fn lemma_multipart_ids_kept(v: RequestDraft, m: EditorMessage, w: RequestDraft)
    requires
        multipart_ids_ok(v),
        editor_can_handle(v, m),
        editor_update(v, m, w),
    ensures
        multipart_ids_ok(w),
{
    let s = v.multipart_entries@;
    let n = v.multipart_next_id;
    match m {
        EditorMessage::MultipartNameChanged(id, name) => {
            let p = entry_pos(s, id);
            if p >= 0 {
                lemma_entry_pos(s, id);
            }
        },
        EditorMessage::MultipartValueChanged(id, value) => {
            let p = entry_pos(s, id);
            if p >= 0 {
                lemma_entry_pos(s, id);
            }
        },
        EditorMessage::MultipartFilePicked(id, path) => {
            if path is Some {
                let p = entry_pos(s, id);
                if p >= 0 {
                    lemma_entry_pos(s, id);
                }
            }
        },
        EditorMessage::MultipartFieldTypeChanged(id, ft) => {
            let p = entry_pos(s, id);
            if p >= 0 {
                lemma_entry_pos(s, id);
                let t = w.multipart_entries@;
                assert forall|i: int, j: int| 0 <= i < j < t.len() implies #[trigger] t[i].id
                    != #[trigger] t[j].id by {
                    if i != p {
                        assert(t[i] == s[i]);
                    }
                    if j != p {
                        assert(t[j] == s[j]);
                    }
                }
                assert forall|i: int| 0 <= i < t.len() implies #[trigger] t[i].id < w.multipart_next_id by {
                    if i != p {
                        assert(t[i] == s[i]);
                    }
                }
            }
        },
        EditorMessage::AddMultipartEntry => {
            let t = w.multipart_entries@;
            assert forall|i: int| 0 <= i < t.len() - 1 implies t[i] == s[i] by {
                assert(t.drop_last()[i] == t[i]);
            }
            assert forall|i: int, j: int| 0 <= i < j < t.len() implies #[trigger] t[i].id
                != #[trigger] t[j].id by {
                if j < t.len() - 1 {
                    assert(t[i] == s[i] && t[j] == s[j]);
                } else {
                    assert(t[i] == s[i]);
                }
            }
            assert forall|i: int| 0 <= i < t.len() implies #[trigger] t[i].id < w.multipart_next_id by {
                if i < t.len() - 1 {
                    assert(t[i] == s[i]);
                }
            }
        },
        EditorMessage::RemoveMultipartEntry(id) => {
            lemma_without_entry_ids(s, id, n);
        },
        _ => {},
    }
}

/// The response side of a request tab: where the request stands, the last
/// response, and what is shown of it.
#[derive(Debug)]
pub struct ResponsePanel {
    pub request_status: RequestStatus,
    pub last_response: Option<HttpResponse>,
    pub body_text: String,
    pub status_code: Option<u16>,
    pub content_type: Option<String>,
    pub response_duration_ms: Option<u64>,
    pub response_size: Option<u64>,
    pub show_image_preview: bool,
    pub image_preview: Option<Vec<u8>>,
}

impl ResponsePanel {
    /// Nothing sent yet, nothing shown.
    pub fn new() -> (r: Self)
        ensures
            r.request_status is Idle,
            r.last_response is None,
            r.body_text@.len() == 0,
            r.status_code is None,
            r.content_type is None,
            r.response_duration_ms is None,
            r.response_size is None,
            !r.show_image_preview,
            r.image_preview is None,
    {
        ResponsePanel {
            request_status: RequestStatus::Idle,
            last_response: None,
            body_text: String::new(),
            status_code: None,
            content_type: None,
            response_duration_ms: None,
            response_size: None,
            show_image_preview: false,
            image_preview: None,
        }
    }

    /// A request was sent at `started_at`: the panel shows it loading and
    /// forgets the previous response.
    pub fn set_loading(&mut self, started_at: std::time::Instant)
        ensures
            final(self).request_status == (RequestStatus::Loading { started_at }),
            final(self).last_response is None,
            final(self).body_text@.len() == 0,
            final(self).status_code is None,
            final(self).content_type is None,
            final(self).response_duration_ms is None,
            final(self).response_size is None,
            !final(self).show_image_preview,
            final(self).image_preview is None,
    {
        self.request_status = RequestStatus::Loading { started_at };
        self.last_response = None;
        self.body_text = String::new();
        self.status_code = None;
        self.content_type = None;
        self.response_duration_ms = None;
        self.response_size = None;
        self.show_image_preview = false;
        self.image_preview = None;
    }

    /// The outcome of a request arrived. A response is kept and shown (see
    /// `shows_response`), with its status, time, size and content type, and
    /// an image preview opened when its body decodes; an error is shown as
    /// `Error: ` and its text, with the response fields cleared.
    pub fn response_received(&mut self, result: Result<HttpResponse, AppError>)
        ensures
            match result {
                Ok(resp) => {
                    &&& final(self).request_status is Success
                    &&& final(self).last_response == Some(resp)
                    &&& final(self).status_code == Some(resp.status)
                    &&& final(self).response_duration_ms == Some(resp.duration_ms)
                    &&& final(self).response_size == Some(resp.size)
                    &&& final(self).content_type matches Some(ct) && shows_response(
                        ResponseDisplay {
                            content_type: ct,
                            body_text: final(self).body_text,
                            image: final(self).image_preview,
                        },
                        resp,
                    )
                    &&& final(self).show_image_preview == (final(self).image_preview is Some
                        || old(self).show_image_preview)
                },
                Err(e) => {
                    &&& final(self).request_status matches RequestStatus::Error(m) && m@ == "Error: "@
                        + error_text(e)
                    &&& final(self).last_response is None
                    &&& final(self).body_text@.len() == 0
                    &&& final(self).status_code is None
                    &&& final(self).content_type is None
                    &&& final(self).response_duration_ms is None
                    &&& final(self).response_size is None
                    &&& final(self).show_image_preview == old(self).show_image_preview
                    &&& final(self).image_preview == old(self).image_preview
                },
            },
    {
        match result {
            Ok(resp) => {
                let d = response_display(&resp);
                self.status_code = Some(resp.status);
                self.response_duration_ms = Some(resp.duration_ms);
                self.response_size = Some(resp.size);
                self.content_type = Some(d.content_type);
                if d.image.is_some() {
                    self.show_image_preview = true;
                }
                self.image_preview = d.image;
                self.body_text = d.body_text;
                self.last_response = Some(resp);
                self.request_status = RequestStatus::Success;
            },
            Err(e) => {
                let mut text = chars_of("Error: ");
                let inner = e.to_string();
                push_str(&mut text, inner.as_str());
                self.request_status = RequestStatus::Error(string_of(&text));
                self.last_response = None;
                self.body_text = String::new();
                self.status_code = None;
                self.content_type = None;
                self.response_duration_ms = None;
                self.response_size = None;
            },
        }
    }
}

} // verus!
