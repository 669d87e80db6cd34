//! HTTP workspace logic: the request model, variable interpolation, and the
//! importers of curl commands, Postman collections and OpenAPI documents.
pub mod error;
pub mod http_desk;
pub mod http_desk_commands;
pub mod text;

pub use error::AppError;
pub use http_desk::{client, import, model, vars};
