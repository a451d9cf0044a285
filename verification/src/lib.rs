//! The decisions of a Usenet virtual filesystem served over WebDAV.

pub mod dav;
pub mod db;
pub mod error;
pub mod frontend;
pub mod ids;
pub mod models;
pub mod num;
pub mod nzb;
pub mod octets;
pub mod pipeline;
pub mod queue_manager;
pub mod sab_api;
pub mod seed;
pub mod stream;
pub mod subject;
pub mod text;
