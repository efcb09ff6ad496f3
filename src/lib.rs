//! Archival library: a layered compression pipeline, a format dispatcher for
//! decompression, and an ISO 9660 volume reader.
//!
//! - `tree` chooses the entries of a walked input tree, under the input's
//!   own name, leaving out excluded paths and their subtrees.
//! - `pipeline` writes those entries as a tar tree inside an inner xz stage
//!   inside an outer zstd stage, and reads such containers, tar archives,
//!   zip archives and single compressed files back.
//! - `dispatch` picks the decode strategy from an input's file name.
//! - `iso9660` plans the extraction of an ISO 9660 image.
//! - `paths` holds the byte-string path logic they share; `codec` the calls
//!   into outside codec and archive crates.

pub mod codec;
pub mod dispatch;
pub mod entry;
pub mod error;
pub mod iso9660;
pub mod paths;
pub mod pipeline;
pub mod tree;

pub use error::ArchiveError;
