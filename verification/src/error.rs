//! The library's error type.
use vstd::prelude::*;

use crate::text::{push_str, string_of};

verus! {

/// An error of the client. Each variant carries a message.
#[derive(Debug, Clone, PartialEq, Eq)]
pub enum AppError {
    Database(String),
    Http(String),
    Io(String),
    Serialization(String),
    UrlParse(String),
    Parse(String),
    Validation(String),
    WebSocket(String),
    OAuth2(String),
}

/// The text of an error: a prefix naming its kind, then its message.
pub open spec fn error_text(e: AppError) -> Seq<char> {
    match e {
        AppError::Database(m) => "Database error: "@ + m@,
        AppError::Http(m) => "HTTP error: "@ + m@,
        AppError::Io(m) => "IO error: "@ + m@,
        AppError::Serialization(m) => "Serialization error: "@ + m@,
        AppError::UrlParse(m) => "URL parse error: "@ + m@,
        AppError::Parse(m) => "Parse error: "@ + m@,
        AppError::Validation(m) => "Validation error: "@ + m@,
        AppError::WebSocket(m) => "WebSocket error: "@ + m@,
        AppError::OAuth2(m) => "OAuth2 error: "@ + m@,
    }
}

impl AppError {
    /// The text of the error (see `error_text`).
    pub fn to_string(&self) -> (r: String)
        ensures
            r@ == error_text(*self),
    {
        let mut out: Vec<char> = Vec::new();
        let m = match self {
            AppError::Database(m) => {
                push_str(&mut out, "Database error: ");
                m
            },
            AppError::Http(m) => {
                push_str(&mut out, "HTTP error: ");
                m
            },
            AppError::Io(m) => {
                push_str(&mut out, "IO error: ");
                m
            },
            AppError::Serialization(m) => {
                push_str(&mut out, "Serialization error: ");
                m
            },
            AppError::UrlParse(m) => {
                push_str(&mut out, "URL parse error: ");
                m
            },
            AppError::Parse(m) => {
                push_str(&mut out, "Parse error: ");
                m
            },
            AppError::Validation(m) => {
                push_str(&mut out, "Validation error: ");
                m
            },
            AppError::WebSocket(m) => {
                push_str(&mut out, "WebSocket error: ");
                m
            },
            AppError::OAuth2(m) => {
                push_str(&mut out, "OAuth2 error: ");
                m
            },
        };
        push_str(&mut out, m.as_str());
        proof {
            assert(out@ =~= error_text(*self));
        }
        string_of(&out)
    }
}

} // verus!
