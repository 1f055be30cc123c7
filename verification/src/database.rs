//! The records the client stores: environments, request history,
//! collections, folders and saved requests, and the names under which body
//! and authentication kinds are stored.
use vstd::prelude::*;

use crate::text::{chars_of, copy_opt_string, copy_pairs, is_literal, lowercase_of, opt_view, pairs_view, string_of, to_lowercase};

verus! {

/// A named set of variables.
#[derive(Debug, Clone, PartialEq)]
pub struct Environment {
    pub id: i32,
    pub name: String,
    pub variables: Vec<(String, String)>,
    pub secret_keys: Vec<String>,
    pub default_endpoint: Option<String>,
}

impl Environment {
    /// The text shown for an environment: its name.
    pub fn to_string(&self) -> (r: String)
        ensures
            r@ == self.name@,
    {
        self.name.clone()
    }
}

/// One request sent, as kept in the history.
#[derive(Debug, Clone)]
pub struct RequestHistoryEntry {
    pub id: i32,
    pub method: String,
    pub url: String,
    pub status: Option<u16>,
    pub duration_ms: Option<u64>,
    pub timestamp: String,
    pub request_data: Option<String>,
    pub response_data: Option<String>,
}

/// A collection of saved requests.
#[derive(Debug, Clone, PartialEq)]
pub struct Collection {
    pub id: i32,
    pub name: String,
    pub description: Option<String>,
    pub sort_order: i32,
}

impl Collection {
    /// The text shown for a collection: its name.
    pub fn to_string(&self) -> (r: String)
        ensures
            r@ == self.name@,
    {
        self.name.clone()
    }
}

/// A folder in a collection, possibly inside another folder.
#[derive(Debug, Clone, PartialEq)]
pub struct CollectionFolder {
    pub id: i32,
    pub collection_id: i32,
    pub name: String,
    pub parent_folder_id: Option<i32>,
    pub sort_order: i32,
}

impl CollectionFolder {
    /// The text shown for a folder: its name.
    pub fn to_string(&self) -> (r: String)
        ensures
            r@ == self.name@,
    {
        self.name.clone()
    }
}

/// The kind of body a saved request has.
#[derive(Debug, Clone, Copy, PartialEq, Eq, Structural)]
pub enum CollectionBodyType {
    NoBody,
    Text,
    Json,
    Xml,
    Html,
    FormUrlencoded,
    Multipart,
    Binary,
    Graphql,
}

/// The name under which a body kind is stored.
pub open spec fn body_type_name(t: CollectionBodyType) -> Seq<char> {
    match t {
        CollectionBodyType::NoBody => "none"@,
        CollectionBodyType::Text => "text"@,
        CollectionBodyType::Json => "json"@,
        CollectionBodyType::Xml => "xml"@,
        CollectionBodyType::Html => "html"@,
        CollectionBodyType::FormUrlencoded => "form_urlencoded"@,
        CollectionBodyType::Multipart => "multipart"@,
        CollectionBodyType::Binary => "binary"@,
        CollectionBodyType::Graphql => "graphql"@,
    }
}

/// The body kind a lowercase name stands for; unknown names are text.
pub open spec fn body_type_of_lower(s: Seq<char>) -> CollectionBodyType {
    if s == "none"@ || s == ""@ {
        CollectionBodyType::NoBody
    } else if s == "text"@ {
        CollectionBodyType::Text
    } else if s == "json"@ {
        CollectionBodyType::Json
    } else if s == "xml"@ {
        CollectionBodyType::Xml
    } else if s == "html"@ {
        CollectionBodyType::Html
    } else if s == "form_urlencoded"@ || s == "form-urlencoded"@ || s == "form"@ {
        CollectionBodyType::FormUrlencoded
    } else if s == "multipart"@ || s == "form-data"@ || s == "form_data"@ {
        CollectionBodyType::Multipart
    } else if s == "binary"@ || s == "octet-stream"@ {
        CollectionBodyType::Binary
    } else if s == "graphql"@ {
        CollectionBodyType::Graphql
    } else {
        CollectionBodyType::Text
    }
}

impl Default for CollectionBodyType {
    /// No body.
    fn default() -> (r: Self)
        ensures
            r == CollectionBodyType::NoBody,
    {
        CollectionBodyType::NoBody
    }
}

impl CollectionBodyType {
    /// The stored name of the kind (see `body_type_name`).
    pub fn to_string(&self) -> (r: String)
        ensures
            r@ == body_type_name(*self),
    {
        let s = match self {
            CollectionBodyType::NoBody => "none",
            CollectionBodyType::Text => "text",
            CollectionBodyType::Json => "json",
            CollectionBodyType::Xml => "xml",
            CollectionBodyType::Html => "html",
            CollectionBodyType::FormUrlencoded => "form_urlencoded",
            CollectionBodyType::Multipart => "multipart",
            CollectionBodyType::Binary => "binary",
            CollectionBodyType::Graphql => "graphql",
        };
        string_of(&chars_of(s))
    }

    /// The kind a stored name stands for, whatever its case; unknown names
    /// read as text.
    pub fn from_name(s: &str) -> (r: Self)
        ensures
            r == body_type_of_lower(lowercase_of(s@)),
    {
        let lower = to_lowercase(s);
        let c = chars_of(lower.as_str());
        if is_literal(&c, "none") || is_literal(&c, "") {
            CollectionBodyType::NoBody
        } else if is_literal(&c, "text") {
            CollectionBodyType::Text
        } else if is_literal(&c, "json") {
            CollectionBodyType::Json
        } else if is_literal(&c, "xml") {
            CollectionBodyType::Xml
        } else if is_literal(&c, "html") {
            CollectionBodyType::Html
        } else if is_literal(&c, "form_urlencoded") || is_literal(&c, "form-urlencoded")
            || is_literal(&c, "form") {
            CollectionBodyType::FormUrlencoded
        } else if is_literal(&c, "multipart") || is_literal(&c, "form-data") || is_literal(
            &c,
            "form_data",
        ) {
            CollectionBodyType::Multipart
        } else if is_literal(&c, "binary") || is_literal(&c, "octet-stream") {
            CollectionBodyType::Binary
        } else if is_literal(&c, "graphql") {
            CollectionBodyType::Graphql
        } else {
            CollectionBodyType::Text
        }
    }
}

/// The kind of authentication a saved request uses.
#[derive(Debug, Clone, Copy, PartialEq, Eq, Structural)]
pub enum CollectionAuthType {
    NoAuth,
    Basic,
    Bearer,
    ApiKey,
    Oauth2,
    Digest,
}

/// The name under which an authentication kind is stored.
pub open spec fn auth_type_name(t: CollectionAuthType) -> Seq<char> {
    match t {
        CollectionAuthType::NoAuth => "none"@,
        CollectionAuthType::Basic => "basic"@,
        CollectionAuthType::Bearer => "bearer"@,
        CollectionAuthType::ApiKey => "api_key"@,
        CollectionAuthType::Oauth2 => "oauth2"@,
        CollectionAuthType::Digest => "digest"@,
    }
}

/// The authentication kind a lowercase name stands for; unknown names are
/// none.
pub open spec fn auth_type_of_lower(s: Seq<char>) -> CollectionAuthType {
    if s == "basic"@ {
        CollectionAuthType::Basic
    } else if s == "bearer"@ || s == "token"@ {
        CollectionAuthType::Bearer
    } else if s == "api_key"@ || s == "apikey"@ || s == "api-key"@ {
        CollectionAuthType::ApiKey
    } else if s == "oauth2"@ || s == "oauth"@ {
        CollectionAuthType::Oauth2
    } else if s == "digest"@ {
        CollectionAuthType::Digest
    } else {
        CollectionAuthType::NoAuth
    }
}

impl Default for CollectionAuthType {
    /// No authentication.
    fn default() -> (r: Self)
        ensures
            r == CollectionAuthType::NoAuth,
    {
        CollectionAuthType::NoAuth
    }
}

impl CollectionAuthType {
    /// The stored name of the kind (see `auth_type_name`).
    pub fn to_string(&self) -> (r: String)
        ensures
            r@ == auth_type_name(*self),
    {
        let s = match self {
            CollectionAuthType::NoAuth => "none",
            CollectionAuthType::Basic => "basic",
            CollectionAuthType::Bearer => "bearer",
            CollectionAuthType::ApiKey => "api_key",
            CollectionAuthType::Oauth2 => "oauth2",
            CollectionAuthType::Digest => "digest",
        };
        string_of(&chars_of(s))
    }

    /// The kind a stored name stands for, whatever its case; unknown names
    /// read as none.
    pub fn from_name(s: &str) -> (r: Self)
        ensures
            r == auth_type_of_lower(lowercase_of(s@)),
    {
        let lower = to_lowercase(s);
        let c = chars_of(lower.as_str());
        if is_literal(&c, "basic") {
            CollectionAuthType::Basic
        } else if is_literal(&c, "bearer") || is_literal(&c, "token") {
            CollectionAuthType::Bearer
        } else if is_literal(&c, "api_key") || is_literal(&c, "apikey") || is_literal(
            &c,
            "api-key",
        ) {
            CollectionAuthType::ApiKey
        } else if is_literal(&c, "oauth2") || is_literal(&c, "oauth") {
            CollectionAuthType::Oauth2
        } else if is_literal(&c, "digest") {
            CollectionAuthType::Digest
        } else {
            CollectionAuthType::NoAuth
        }
    }
}

/// A request saved in a collection.
#[derive(Debug, Clone)]
pub struct CollectionRequest {
    pub id: i32,
    pub collection_id: i32,
    pub folder_id: Option<i32>,
    pub name: String,
    pub method: String,
    pub url: String,
    pub headers: Vec<(String, String)>,
    pub body: Option<String>,
    pub body_type: CollectionBodyType,
    pub auth_type: CollectionAuthType,
    pub auth_data: Option<String>,
    pub params: Vec<(String, String)>,
    pub config_json: Option<String>,
    pub scripts: Option<String>,
    pub sort_order: i32,
}

/// What is needed to save a request in a collection.
#[derive(Debug, Clone)]
pub struct SaveRequestParams {
    pub collection_id: i32,
    pub folder_id: Option<i32>,
    pub name: String,
    pub method: String,
    pub url: String,
    pub headers: Vec<(String, String)>,
    pub body: Option<String>,
    pub body_type: CollectionBodyType,
    pub auth_type: CollectionAuthType,
    pub auth_data: Option<String>,
    pub params: Vec<(String, String)>,
    pub config_json: Option<String>,
    pub scripts: Option<String>,
}

/// The saved request `r` holds the fields of `p`, with the given id and
/// position.
pub open spec fn saved_as(r: CollectionRequest, p: SaveRequestParams, id: i32, sort_order: int) -> bool {
    &&& r.id == id
    &&& r.collection_id == p.collection_id
    &&& r.folder_id == p.folder_id
    &&& r.name@ == p.name@
    &&& r.method@ == p.method@
    &&& r.url@ == p.url@
    &&& pairs_view(r.headers@) == pairs_view(p.headers@)
    &&& opt_view(r.body) == opt_view(p.body)
    &&& r.body_type == p.body_type
    &&& r.auth_type == p.auth_type
    &&& opt_view(r.auth_data) == opt_view(p.auth_data)
    &&& pairs_view(r.params@) == pairs_view(p.params@)
    &&& opt_view(r.config_json) == opt_view(p.config_json)
    &&& opt_view(r.scripts) == opt_view(p.scripts)
    &&& r.sort_order == sort_order
}

impl SaveRequestParams {
    /// A plain request at the top of a collection: no folder, headers, body,
    /// authentication, parameters, settings or scripts.
    pub fn new(collection_id: i32, name: &str, method: &str, url: &str) -> (r: Self)
        ensures
            r.collection_id == collection_id,
            r.folder_id is None,
            r.name@ == name@,
            r.method@ == method@,
            r.url@ == url@,
            r.headers@.len() == 0,
            r.body is None,
            r.body_type == CollectionBodyType::NoBody,
            r.auth_type == CollectionAuthType::NoAuth,
            r.auth_data is None,
            r.params@.len() == 0,
            r.config_json is None,
            r.scripts is None,
    {
        SaveRequestParams {
            collection_id,
            folder_id: None,
            name: string_of(&chars_of(name)),
            method: string_of(&chars_of(method)),
            url: string_of(&chars_of(url)),
            headers: Vec::new(),
            body: None,
            body_type: CollectionBodyType::default(),
            auth_type: CollectionAuthType::default(),
            auth_data: None,
            params: Vec::new(),
            config_json: None,
            scripts: None,
        }
    }

    /// A request brought in from elsewhere: its body, if any, is text, and it
    /// has no authentication, settings or scripts.
    pub fn imported(
        collection_id: i32,
        folder_id: Option<i32>,
        name: &str,
        method: &str,
        url: &str,
        headers: &[(String, String)],
        body: Option<&str>,
        params: &[(String, String)],
    ) -> (r: Self)
        ensures
            r.collection_id == collection_id,
            r.folder_id == folder_id,
            r.name@ == name@,
            r.method@ == method@,
            r.url@ == url@,
            pairs_view(r.headers@) == pairs_view(headers@),
            r.body matches Some(b) ==> body matches Some(x) && b@ == x@,
            r.body is None <==> body is None,
            r.body_type == CollectionBodyType::Text,
            r.auth_type == CollectionAuthType::NoAuth,
            r.auth_data is None,
            pairs_view(r.params@) == pairs_view(params@),
            r.config_json is None,
            r.scripts is None,
    {
        let b = match body {
            Some(x) => Some(string_of(&chars_of(x))),
            None => None,
        };
        SaveRequestParams {
            collection_id,
            folder_id,
            name: string_of(&chars_of(name)),
            method: string_of(&chars_of(method)),
            url: string_of(&chars_of(url)),
            headers: copy_pairs(headers),
            body: b,
            body_type: CollectionBodyType::Text,
            auth_type: CollectionAuthType::NoAuth,
            auth_data: None,
            params: copy_pairs(params),
            config_json: None,
            scripts: None,
        }
    }

    /// The saved request made from these fields, stored with id `id` after
    /// the last request of its collection, whose position is `max_order`.
    pub fn saved_request(&self, id: i32, max_order: i32) -> (r: CollectionRequest)
        requires
            max_order < i32::MAX,
        ensures
            saved_as(r, *self, id, max_order + 1),
    {
        CollectionRequest {
            id,
            collection_id: self.collection_id,
            folder_id: self.folder_id,
            name: self.name.clone(),
            method: self.method.clone(),
            url: self.url.clone(),
            headers: copy_pairs(&self.headers),
            body: copy_opt_string(&self.body),
            body_type: self.body_type,
            auth_type: self.auth_type,
            auth_data: copy_opt_string(&self.auth_data),
            params: copy_pairs(&self.params),
            config_json: copy_opt_string(&self.config_json),
            scripts: copy_opt_string(&self.scripts),
            sort_order: max_order + 1,
        }
    }
}

} // verus!
