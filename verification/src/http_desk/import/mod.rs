//! Importers: curl commands, Postman collections and OpenAPI documents.
pub mod curl;
pub mod imported;
pub mod json;
pub mod openapi;
pub mod postman;

pub use curl::parse_curl;
pub use imported::{ImportedCollection, ImportedRequest};
pub use openapi::parse_openapi;
pub use postman::parse_postman_collection;
