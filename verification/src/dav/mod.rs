//! The virtual filesystem and the WebDAV methods on it.

pub mod handler;
pub mod laws;
pub mod response_laws;
pub mod store;
pub mod store_laws;
