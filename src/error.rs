//! The library's error taxonomy.

use vstd::prelude::*;

verus! {

/// Why an operation failed.
#[derive(Debug, Clone, Copy, PartialEq, Eq, Structural)]
pub enum ArchiveError {
    /// A read, write or decode step failed, or input ended early.
    Io,
    /// A codec level outside its accepted range.
    Config,
    /// No decode strategy matches the input's name.
    UnsupportedFormat,
    /// The image has no ISO 9660 standard identifier.
    InvalidVolumeSignature,
    /// A directory extent of the image lies outside the image.
    MalformedDirectoryRecord,
    /// An entry path would leave the destination directory.
    PathEscape,
}

} // verus!
