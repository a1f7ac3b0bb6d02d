//! Multi-tenant authentication core: an entity store, a signed token codec,
//! single-use CSRF nonces, an audit trail and the authentication engine that
//! ties them together.
pub mod api;
pub mod audit;
pub mod auth;
pub mod authenticate;
pub mod error;
pub mod hex;
pub mod jwt;
pub mod lifecycle;
pub mod list;
pub mod notify;
pub mod route;
pub mod secret;
pub mod server;
pub mod store;
pub mod types;
