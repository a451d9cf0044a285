//! The pipeline that turns a queued NZB file into files of the filesystem.

pub mod fetch_first_segments;
pub mod get_par2_file_descriptors;
pub mod job_laws;
pub mod laws;
pub mod queue_item_processor;
pub mod rar_processor;
