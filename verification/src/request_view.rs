//! Choices made while editing a request and showing its response: body
//! content types and their syntax highlighting, multipart entries, tabs,
//! and the request's progress.
use vstd::prelude::*;

use crate::http::{MultipartField, MultipartValue};
use crate::text::{chars_of, contains, contains_chars, string_of, trim, trim_str};

verus! {

/// The content type chosen for a text body.
#[derive(Debug, Clone, Copy, PartialEq, Eq, Structural)]
pub enum ContentType {
    Json,
    Text,
    Html,
    Xml,
}

/// The label shown for a content type.
pub open spec fn content_type_label(ct: ContentType) -> Seq<char> {
    match ct {
        ContentType::Json => "JSON"@,
        ContentType::Text => "Text"@,
        ContentType::Html => "HTML"@,
        ContentType::Xml => "XML"@,
    }
}

impl ContentType {
    /// Every content type, in the order offered.
    pub fn all() -> (r: [ContentType; 4])
        ensures
            r@ == seq![ContentType::Json, ContentType::Text, ContentType::Html, ContentType::Xml],
    {
        [ContentType::Json, ContentType::Text, ContentType::Html, ContentType::Xml]
    }

    /// The label shown for the content type.
    pub fn to_string(&self) -> (r: String)
        ensures
            r@ == content_type_label(*self),
    {
        let s = match self {
            ContentType::Json => "JSON",
            ContentType::Text => "Text",
            ContentType::Html => "HTML",
            ContentType::Xml => "XML",
        };
        string_of(&chars_of(s))
    }
}

/// The highlighting syntax for a request body of a content type.
pub fn content_type_to_syntax(ct: ContentType) -> (r: &'static str)
    ensures
        r@ == match ct {
            ContentType::Json => "json"@,
            ContentType::Html => "html"@,
            ContentType::Xml => "xml"@,
            ContentType::Text => "text"@,
        },
{
    match ct {
        ContentType::Json => "json",
        ContentType::Html => "html",
        ContentType::Xml => "xml",
        ContentType::Text => "text",
    }
}

/// The highlighting syntax for a response of a content type: the first of
/// JSON, HTML and XML that the content type mentions, otherwise text.
pub open spec fn response_syntax(ct: Seq<char>) -> Seq<char> {
    if contains(ct, "json"@) {
        "json"@
    } else if contains(ct, "html"@) {
        "html"@
    } else if contains(ct, "xml"@) {
        "xml"@
    } else {
        "text"@
    }
}

/// The highlighting syntax for a response (see `response_syntax`).
pub fn response_content_type_to_syntax(ct: &str) -> (r: &'static str)
    ensures
        r@ == response_syntax(ct@),
{
    let c = chars_of(ct);
    if contains_chars(&c, &chars_of("json")) {
        "json"
    } else if contains_chars(&c, &chars_of("html")) {
        "html"
    } else if contains_chars(&c, &chars_of("xml")) {
        "xml"
    } else {
        "text"
    }
}

/// Whether a body text counts as empty: nothing but whitespace.
pub fn is_body_empty(text: &str) -> (r: bool)
    ensures
        r == (trim(text@).len() == 0 || trim(text@) == "\n"@),
{
    let t = trim_str(text);
    t.len() == 0 || crate::text::is_literal(&t, "\n")
}

/// How a request body is written.
#[derive(Debug, Clone, Copy, PartialEq, Eq, Structural)]
pub enum BodyType {
    Text,
    Multipart,
}

impl Default for BodyType {
    /// A text body.
    fn default() -> (r: Self)
        ensures
            r == BodyType::Text,
    {
        BodyType::Text
    }
}

impl BodyType {
    /// Every body type, in the order offered.
    pub fn all() -> (r: [BodyType; 2])
        ensures
            r@ == seq![BodyType::Text, BodyType::Multipart],
    {
        [BodyType::Text, BodyType::Multipart]
    }

    /// The label shown for the body type.
    pub fn to_string(&self) -> (r: String)
        ensures
            r@ == match *self {
                BodyType::Text => "Text"@,
                BodyType::Multipart => "Multipart/Form-Data"@,
            },
    {
        let s = match self {
            BodyType::Text => "Text",
            BodyType::Multipart => "Multipart/Form-Data",
        };
        string_of(&chars_of(s))
    }
}

/// One row of the multipart editor.
#[derive(Debug, Clone)]
pub struct MultipartEntry {
    pub id: usize,
    pub name: String,
    pub value: String,
    pub is_file: bool,
}

/// Whether a multipart row holds text or names a file.
#[derive(Debug, Clone, Copy, PartialEq, Eq, Structural)]
pub enum MultipartFieldType {
    Text,
    File,
}

impl MultipartFieldType {
    /// Every field type, in the order offered.
    pub fn all() -> (r: [MultipartFieldType; 2])
        ensures
            r@ == seq![MultipartFieldType::Text, MultipartFieldType::File],
    {
        [MultipartFieldType::Text, MultipartFieldType::File]
    }

    /// The label shown for the field type.
    pub fn to_string(&self) -> (r: String)
        ensures
            r@ == match *self {
                MultipartFieldType::Text => "Text"@,
                MultipartFieldType::File => "File"@,
            },
    {
        let s = match self {
            MultipartFieldType::Text => "Text",
            MultipartFieldType::File => "File",
        };
        string_of(&chars_of(s))
    }
}

/// `e` is the editor row for field `f` at position `i`: a text field shows
/// its text, a file field its path.
pub open spec fn entry_for_field(e: MultipartEntry, f: MultipartField, i: int) -> bool {
    &&& e.id == i
    &&& e.name@ == f.name@
    &&& match f.value {
        MultipartValue::Text(t) => e.value@ == t@ && !e.is_file,
        MultipartValue::File { path, .. } => e.value@ == path@ && e.is_file,
    }
}

/// The editor rows for the fields of a multipart body, numbered from 0; the
/// next row number is the number of fields.
pub fn multipart_entries(fields: &[MultipartField]) -> (r: (Vec<MultipartEntry>, usize))
    ensures
        r.0@.len() == fields@.len(),
        forall|i: int| 0 <= i < fields@.len() ==> entry_for_field(#[trigger] r.0@[i], fields@[i], i),
        r.1 == fields@.len(),
{
    let mut out: Vec<MultipartEntry> = Vec::new();
    let mut i: usize = 0;
    while i < fields.len()
        invariant
            i <= fields@.len(),
            out@.len() == i,
            forall|k: int| 0 <= k < i ==> entry_for_field(#[trigger] out@[k], fields@[k], k),
        decreases fields.len() - i,
    {
        let f = &fields[i];
        let (value, is_file) = match &f.value {
            MultipartValue::Text(t) => (t.clone(), false),
            MultipartValue::File { path, .. } => (path.clone(), true),
        };
        out.push(MultipartEntry { id: i, name: f.name.clone(), value, is_file });
        i = i + 1;
    }
    (out, fields.len())
}

/// The tabs of the request editor.
#[derive(Debug, Clone, Copy, PartialEq, Eq, Structural)]
pub enum TabId {
    Body,
    Headers,
    Params,
    Authorization,
    Settings,
}

impl Default for TabId {
    /// The body tab.
    fn default() -> (r: Self)
        ensures
            r == TabId::Body,
    {
        TabId::Body
    }
}

/// The tabs of the response panel.
#[derive(Debug, Clone, Copy, PartialEq, Eq, Structural)]
pub enum ResponseTab {
    Body,
    Headers,
    Timeline,
}

impl Default for ResponseTab {
    /// The body tab.
    fn default() -> (r: Self)
        ensures
            r == ResponseTab::Body,
    {
        ResponseTab::Body
    }
}

/// Where a request stands.
#[derive(Debug)]
pub enum RequestStatus {
    Idle,
    Loading { started_at: std::time::Instant },
    Success,
    Error(String),
}

impl Default for RequestStatus {
    /// Nothing sent yet.
    fn default() -> (r: Self)
        ensures
            r is Idle,
    {
        RequestStatus::Idle
    }
}

impl RequestStatus {
    /// A copy of the status.
    pub fn copy(&self) -> (r: Self)
        ensures
            r == *self,
    {
        match self {
            RequestStatus::Idle => RequestStatus::Idle,
            RequestStatus::Loading { started_at } => RequestStatus::Loading { started_at: *started_at },
            RequestStatus::Success => RequestStatus::Success,
            RequestStatus::Error(s) => RequestStatus::Error(s.clone()),
        }
    }
}

/// The marks shown beside a cookie.
#[derive(Debug, Clone, Copy, PartialEq, Eq, Structural)]
pub enum BadgeKind {
    Secure,
    HttpOnly,
    SameSiteStrict,
    SameSiteLax,
    SameSiteNone,
}

/// The state of the cookie manager: the domain shown, the search, and the
/// cookie being edited (domain, name, path) with its new value.
#[derive(Debug, Clone)]
pub struct CookieManagerView {
    pub selected_domain: Option<String>,
    pub search_query: String,
    pub editing_cookie: Option<(String, String, String)>,
    pub edit_value: String,
}

impl Default for CookieManagerView {
    /// No domain, search or edit.
    fn default() -> (r: Self)
        ensures
            r.selected_domain is None,
            r.search_query@.len() == 0,
            r.editing_cookie is None,
            r.edit_value@.len() == 0,
    {
        CookieManagerView {
            selected_domain: None,
            search_query: String::new(),
            editing_cookie: None,
            edit_value: String::new(),
        }
    }
}

} // verus!
