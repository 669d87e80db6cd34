//! HTTP workspace domain modules.
pub mod client;
pub mod import;
pub mod model;
pub mod vars;
