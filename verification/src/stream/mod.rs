//! On-demand streaming of files that are spread over Usenet articles.

pub mod laws;
pub mod multi_segment_stream;
pub mod provider;
pub mod seekable_segment_stream;
