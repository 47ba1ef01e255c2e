//! Web host: the access token, the built-in page and request routing.
pub mod auth;
pub mod page;
pub mod route;
