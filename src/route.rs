//! Request handlers: each authenticates the calling service, then runs one
//! engine operation.
pub mod key;
pub mod local;
pub mod token;
