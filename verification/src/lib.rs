//! A content-addressed, deduplicating backup engine: the archive layout, the
//! manifest format with its integrity trailer, and the decisions of the backup
//! and restore pipelines, with their contracts.

pub mod archive;
pub mod checksum;
pub mod dirwalk;
pub mod manifest_proofs;
pub mod meta_format;
pub mod misc_helper;
pub mod pipeline;
pub mod text;
