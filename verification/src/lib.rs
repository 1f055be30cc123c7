//! Core logic of the AstraNova API client: cookie jar, digest
//! authentication, request scripts, HAR export, history and collection view
//! state, with their contracts proved by Verus.
pub mod text;
pub mod strmap;
pub mod urls;
pub mod cookie;
pub mod clock;
pub mod digest;
pub mod error;
pub mod http;
pub mod json;
pub mod scripts;
pub mod har;
pub mod utils;
pub mod database;
pub mod collection_view;
pub mod history_view;
pub mod request_view;
pub mod send;
pub mod request_builder;
pub mod request_editor;
pub mod search;
pub mod request_flow;
