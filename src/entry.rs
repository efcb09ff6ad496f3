//! Entries of the serialized tree, as written and as read back.

use crate::paths::{is_archive_path, is_utf8};
use vstd::prelude::*;

verus! {

/// One entry to serialize: a directory or a file with its bytes.
#[derive(Debug)]
pub struct ArchiveEntry {
    /// Path inside the archive, components joined by `/`, rooted at the
    /// top-level name of the input.
    pub path: Vec<u8>,
    pub is_dir: bool,
    /// Permission bits recorded for the entry.
    pub mode: u32,
    /// Modification time, in seconds since the Unix epoch.
    pub mtime: u64,
    /// The file's bytes; empty for a directory.
    pub content: Vec<u8>,
}

/// The model of an `ArchiveEntry`.
pub struct ArchiveEntryView {
    pub path: Seq<u8>,
    pub is_dir: bool,
    pub mode: u32,
    pub mtime: u64,
    pub content: Seq<u8>,
}

impl View for ArchiveEntry {
    type V = ArchiveEntryView;

    open spec fn view(&self) -> ArchiveEntryView {
        ArchiveEntryView {
            path: self.path@,
            is_dir: self.is_dir,
            mode: self.mode,
            mtime: self.mtime,
            content: self.content@,
        }
    }
}

/// The views of a sequence of entries.
pub open spec fn entries_view(v: Seq<ArchiveEntry>) -> Seq<ArchiveEntryView> {
    v.map_values(|e: ArchiveEntry| e@)
}

/// One entry read back from a serialized tree.
#[derive(Debug)]
pub struct TarItem {
    /// Path as stored, components joined by `/`.
    pub path: Vec<u8>,
    pub is_dir: bool,
    /// The entry's bytes.
    pub content: Vec<u8>,
}

/// The model of a `TarItem`.
pub struct TarItemView {
    pub path: Seq<u8>,
    pub is_dir: bool,
    pub content: Seq<u8>,
}

impl View for TarItem {
    type V = TarItemView;

    open spec fn view(&self) -> TarItemView {
        TarItemView { path: self.path@, is_dir: self.is_dir, content: self.content@ }
    }
}

/// The views of a sequence of items.
pub open spec fn items_view(v: Seq<TarItem>) -> Seq<TarItemView> {
    v.map_values(|e: TarItem| e@)
}

/// What reading an archive of `entries` back gives: each entry's path,
/// kind and bytes, in order.
pub open spec fn listing_of(entries: Seq<ArchiveEntryView>) -> Seq<TarItemView> {
    entries.map_values(
        |e: ArchiveEntryView| TarItemView { path: e.path, is_dir: e.is_dir, content: e.content },
    )
}

/// Whether every entry's path is one that an archive stores unchanged.
pub open spec fn all_archive_paths(entries: Seq<ArchiveEntryView>) -> bool {
    forall|i: int| 0 <= i < entries.len() ==> is_archive_path(#[trigger] entries[i].path)
}

/// Whether every entry's path is well-formed UTF-8.
pub open spec fn all_utf8_paths(entries: Seq<ArchiveEntryView>) -> bool {
    forall|i: int| 0 <= i < entries.len() ==> is_utf8(#[trigger] entries[i].path)
}

} // verus!
