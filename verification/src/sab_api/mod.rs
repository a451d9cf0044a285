//! The SABnzbd-compatible API.

pub mod handler;
pub mod laws;
pub mod models;
