//! The two-stage pipeline: a tar tree inside an inner xz stage inside an
//! outer zstd stage, and the decoders that undo a chain.

use crate::codec::{
    brotli_decode, brotli_decoded, bzip2_decode, bzip2_decoded, gzip_decode, gzip_decoded,
    lz4_decode, lz4_decoded, lzma_decode, lzma_decoded, tar_build, tar_image, tar_listing,
    tar_read, xz_compress, zip_listing, zip_read, xz_decode, xz_decoded, zstd_compress,
    zstd_compress_with_dict, zstd_compressed, zstd_compressed_with_dict, zstd_decode,
    zstd_decoded,
};
use crate::dispatch::SingleCodec;
use crate::entry::{
    all_archive_paths, all_utf8_paths, entries_view, items_view, listing_of, ArchiveEntry, ArchiveEntryView, TarItem,
    TarItemView,
};
use crate::error::ArchiveError;
use crate::paths::{is_archive_path, is_contained, is_contained_path};
use vstd::prelude::*;

verus! {

/// Highest zstd level accepted.
pub const MAX_ZSTD_LEVEL: i32 = 22;

/// Highest xz preset accepted.
pub const MAX_XZ_PRESET: u32 = 9;

/// Whether both codec levels lie in their ranges.
pub open spec fn levels_valid(zstd_level: i32, xz_preset: u32) -> bool {
    0 <= zstd_level <= MAX_ZSTD_LEVEL && xz_preset <= MAX_XZ_PRESET
}

/// Checks the codec levels before any work starts.
pub fn validate_levels(zstd_level: i32, xz_preset: u32) -> (r: Result<(), ArchiveError>)
    ensures
        r is Ok <==> levels_valid(zstd_level, xz_preset),
        r is Err ==> r == Err::<(), ArchiveError>(ArchiveError::Config),
{
    if 0 <= zstd_level && zstd_level <= MAX_ZSTD_LEVEL && xz_preset <= MAX_XZ_PRESET {
        Ok(())
    } else {
        Err(ArchiveError::Config)
    }
}

/// The view of an optional byte vector.
pub open spec fn opt_bytes(d: Option<Vec<u8>>) -> Option<Seq<u8>> {
    match d {
        Some(v) => Some(v@),
        None => None,
    }
}

/// Whether `c` is an outer zstd frame over `inner` at `level`, with the
/// dictionary when one is given. Without a dictionary the frame is known to
/// decode back to `inner`.
pub open spec fn outer_made(inner: Seq<u8>, level: i32, dict: Option<Seq<u8>>, c: Seq<u8>) -> bool {
    match dict {
        Some(d) => zstd_compressed_with_dict(inner, level, d) == Some(c),
        None => zstd_compressed(inner, level) == Some(c) && zstd_decoded(c) == Some(inner),
    }
}

/// Whether `c` is a container for `entries`: the tar image `t` of the
/// entries is finished first (it reads back as the entries when their paths
/// are canonical), then an inner xz stream `x` that decodes to all of `t`,
/// then the outer stage over all of `x`.
pub open spec fn container_made(
    entries: Seq<ArchiveEntryView>,
    zstd_level: i32,
    dict: Option<Seq<u8>>,
    c: Seq<u8>,
) -> bool {
    match tar_image(entries) {
        None => false,
        Some(t) => {
            &&& (all_archive_paths(entries) ==> tar_listing(t) == Some(listing_of(entries)))
            &&& exists|x: Seq<u8>| xz_decoded(x) == Some(t) && #[trigger] outer_made(x, zstd_level, dict, c)
        },
    }
}

/// The model of a `PipelineCompressor`.
pub struct CompressorView {
    pub entries: Seq<ArchiveEntryView>,
    pub zstd_level: i32,
    pub xz_preset: u32,
    pub dictionary: Option<Seq<u8>>,
}

/// One compression run: entries are added in walk order, and `finish`
/// closes the stages from the innermost outward.
pub struct PipelineCompressor {
    entries: Vec<ArchiveEntry>,
    zstd_level: i32,
    xz_preset: u32,
    dictionary: Option<Vec<u8>>,
}

impl View for PipelineCompressor {
    type V = CompressorView;

    closed spec fn view(&self) -> CompressorView {
        CompressorView {
            entries: entries_view(self.entries@),
            zstd_level: self.zstd_level,
            xz_preset: self.xz_preset,
            dictionary: opt_bytes(self.dictionary),
        }
    }
}

impl PipelineCompressor {
    /// Starts a run; levels out of range are a `Config` error, raised before
    /// anything is written.
    pub fn new(zstd_level: i32, xz_preset: u32, dictionary: Option<Vec<u8>>) -> (r: Result<
        PipelineCompressor,
        ArchiveError,
    >)
        ensures
            match r {
                Ok(p) => levels_valid(zstd_level, xz_preset) && p@ == (CompressorView {
                    entries: Seq::empty(),
                    zstd_level,
                    xz_preset,
                    dictionary: opt_bytes(dictionary),
                }),
                Err(e) => !levels_valid(zstd_level, xz_preset) && e == ArchiveError::Config,
            },
    {
        match validate_levels(zstd_level, xz_preset) {
            Err(e) => Err(e),
            Ok(()) => {
                let p = PipelineCompressor { entries: Vec::new(), zstd_level, xz_preset, dictionary };
                assert(p@.entries =~= Seq::<ArchiveEntryView>::empty());
                Ok(p)
            },
        }
    }

    /// Adds the next entry of the tree.
    pub fn append(&mut self, entry: ArchiveEntry)
        ensures
            final(self)@ == (CompressorView {
                entries: old(self)@.entries.push(entry@),
                ..old(self)@
            }),
    {
        let ghost before = self.entries@;
        self.entries.push(entry);
        assert(entries_view(self.entries@) =~= entries_view(before).push(entry@));
    }

    /// How many entries were added.
    pub fn entry_count(&self) -> (r: usize)
        ensures
            r == self@.entries.len(),
    {
        self.entries.len()
    }

    /// Finishes the run: the tar image is closed, then the inner xz stage,
    /// then the outer zstd stage. Returns the container's bytes.
    pub fn finish(self) -> (r: Result<Vec<u8>, ArchiveError>)
        requires
            levels_valid(self@.zstd_level, self@.xz_preset),
        ensures
            match r {
                Ok(v) => container_made(self@.entries, self@.zstd_level, self@.dictionary, v@),
                Err(e) => e == ArchiveError::Io,
            },
            tar_image(self@.entries) is None ==> r is Err,
            self@.dictionary is None && tar_image(self@.entries) is Some ==> r is Ok,
            all_archive_paths(self@.entries) && all_utf8_paths(self@.entries) ==> tar_image(
                self@.entries,
            ) is Some,
            r is Err && tar_image(self@.entries) is Some ==> (self@.dictionary matches Some(d)
                && exists|x: Seq<u8>|
                xz_decoded(x) == tar_image(self@.entries) && #[trigger] zstd_compressed_with_dict(
                    x,
                    self@.zstd_level,
                    d,
                ) is None),
    {
        let tar = match tar_build(&self.entries) {
            Ok(t) => t,
            Err(_) => {
                return Err(ArchiveError::Io);
            },
        };
        let inner = match xz_compress(tar.as_slice(), self.xz_preset) {
            Ok(x) => x,
            Err(_) => {
                return Err(ArchiveError::Io);
            },
        };
        let outer = match &self.dictionary {
            Some(d) => zstd_compress_with_dict(inner.as_slice(), self.zstd_level, d.as_slice()),
            None => zstd_compress(inner.as_slice(), self.zstd_level),
        };
        match outer {
            Ok(v) => {
                assert(outer_made(inner@, self.zstd_level, self@.dictionary, v@));
                Ok(v)
            },
            Err(_) => {
                assert(zstd_compressed_with_dict(inner@, self.zstd_level, self@.dictionary->Some_0) is None);
                Err(ArchiveError::Io)
            },
        }
    }
}

/// What a single codec decodes from `data`.
pub open spec fn single_decoded(codec: SingleCodec, data: Seq<u8>) -> Option<Seq<u8>> {
    match codec {
        SingleCodec::Gzip => gzip_decoded(data),
        SingleCodec::Bzip2 => bzip2_decoded(data),
        SingleCodec::Xz => xz_decoded(data),
        SingleCodec::Zstd => zstd_decoded(data),
        SingleCodec::Lzma => lzma_decoded(data),
        SingleCodec::Brotli => brotli_decoded(data),
        SingleCodec::Lz4 => lz4_decoded(data),
    }
}

/// Decodes one compressed file; a decoder failure is an `Io` error.
pub fn decode_single(codec: SingleCodec, data: &[u8]) -> (r: Result<Vec<u8>, ArchiveError>)
    ensures
        match r {
            Ok(v) => single_decoded(codec, data@) == Some(v@),
            Err(e) => e == ArchiveError::Io && single_decoded(codec, data@) is None,
        },
{
    let out = match codec {
        SingleCodec::Gzip => gzip_decode(data),
        SingleCodec::Bzip2 => bzip2_decode(data),
        SingleCodec::Xz => xz_decode(data),
        SingleCodec::Zstd => zstd_decode(data),
        SingleCodec::Lzma => lzma_decode(data),
        SingleCodec::Brotli => brotli_decode(data),
        SingleCodec::Lz4 => lz4_decode(data),
    };
    match out {
        Ok(v) => Ok(v),
        Err(_) => Err(ArchiveError::Io),
    }
}

/// Whether every item's path stays inside the destination.
pub open spec fn all_contained(items: Seq<TarItemView>) -> bool {
    forall|i: int| 0 <= i < items.len() ==> is_contained_path(#[trigger] items[i].path)
}

/// The entries to unpack from a tar listing: an `Io` error where it could
/// not be read, `PathEscape` where a path would leave the destination.
pub open spec fn unpacked(listing: Option<Seq<TarItemView>>) -> Result<Seq<TarItemView>, ArchiveError> {
    match listing {
        None => Err(ArchiveError::Io),
        Some(items) => if all_contained(items) {
            Ok(items)
        } else {
            Err(ArchiveError::PathEscape)
        },
    }
}

/// The entries to unpack from the tar bytes that a decode chain yields.
pub open spec fn unpacked_from(layer: Option<Seq<u8>>) -> Result<Seq<TarItemView>, ArchiveError> {
    match layer {
        None => Err(ArchiveError::Io),
        Some(t) => unpacked(tar_listing(t)),
    }
}

/// Whether an executable result of items is the spec result `s`.
pub open spec fn items_result(r: Result<Vec<TarItem>, ArchiveError>, s: Result<Seq<TarItemView>, ArchiveError>) -> bool {
    match r {
        Ok(v) => s == Ok::<Seq<TarItemView>, ArchiveError>(items_view(v@)),
        Err(e) => s == Err::<Seq<TarItemView>, ArchiveError>(e),
    }
}

/// Whether every item's path stays inside the destination.
pub fn paths_contained(items: &Vec<TarItem>) -> (r: bool)
    ensures
        r == all_contained(items_view(items@)),
{
    let ghost iv = items_view(items@);
    let mut i: usize = 0;
    while i < items.len()
        invariant
            i <= items@.len(),
            iv == items_view(items@),
            forall|m: int| 0 <= m < i ==> is_contained_path(#[trigger] iv[m].path),
        decreases items@.len() - i,
    {
        if !is_contained(items[i].path.as_slice()) {
            assert(!is_contained_path(iv[i as int].path));
            return false;
        }
        i += 1;
    }
    true
}

/// Reads the entries of a tar archive, refusing any path that would leave
/// the destination.
pub fn read_tree(data: &[u8]) -> (r: Result<Vec<TarItem>, ArchiveError>)
    ensures
        items_result(r, unpacked(tar_listing(data@))),
{
    let items = match tar_read(data) {
        Ok(v) => v,
        Err(_) => {
            return Err(ArchiveError::Io);
        },
    };
    if paths_contained(&items) {
        Ok(items)
    } else {
        Err(ArchiveError::PathEscape)
    }
}

/// Reads a tar archive, bare or inside one codec.
pub fn decode_tar(codec: Option<SingleCodec>, data: &[u8]) -> (r: Result<Vec<TarItem>, ArchiveError>)
    ensures
        items_result(
            r,
            unpacked_from(
                match codec {
                    Some(c) => single_decoded(c, data@),
                    None => Some(data@),
                },
            ),
        ),
{
    match codec {
        None => read_tree(data),
        Some(c) => match decode_single(c, data) {
            Ok(t) => read_tree(t.as_slice()),
            Err(e) => Err(e),
        },
    }
}

/// The tar bytes inside a container: the outer zstd stage is opened first,
/// then the inner xz stage.
pub open spec fn container_inner(data: Seq<u8>) -> Option<Seq<u8>> {
    match zstd_decoded(data) {
        None => None,
        Some(x) => xz_decoded(x),
    }
}

/// Reads the entries of a container made by `PipelineCompressor`.
pub fn decode_container(data: &[u8]) -> (r: Result<Vec<TarItem>, ArchiveError>)
    ensures
        items_result(r, unpacked_from(container_inner(data@))),
{
    let x = match zstd_decode(data) {
        Ok(x) => x,
        Err(_) => {
            return Err(ArchiveError::Io);
        },
    };
    match xz_decode(x.as_slice()) {
        Ok(t) => read_tree(t.as_slice()),
        Err(_) => Err(ArchiveError::Io),
    }
}

/// Reads the entries of a zip archive, refusing any path that would leave
/// the destination.
pub fn read_zip(data: &[u8]) -> (r: Result<Vec<TarItem>, ArchiveError>)
    ensures
        items_result(r, unpacked(zip_listing(data@))),
{
    let items = match zip_read(data) {
        Ok(v) => v,
        Err(_) => {
            return Err(ArchiveError::Io);
        },
    };
    if paths_contained(&items) {
        Ok(items)
    } else {
        Err(ArchiveError::PathEscape)
    }
}

/// Finalization order: in a container made without a dictionary, opening
/// the outer stage and then the inner one gives the whole tar image, with
/// nothing cut off its end.
pub proof fn lemma_container_holds_whole_tree(entries: Seq<ArchiveEntryView>, zstd_level: i32, c: Seq<u8>)
    requires
        container_made(entries, zstd_level, None, c),
    ensures
        container_inner(c) == tar_image(entries),
{
    let t = tar_image(entries)->Some_0;
    let x = choose|x: Seq<u8>| xz_decoded(x) == Some(t) && #[trigger] outer_made(x, zstd_level, None, c);
}

/// Round trip: a container made without a dictionary, of entries whose
/// paths are canonical, reads back as exactly those entries, each with its
/// path, kind and bytes, in order.
pub proof fn lemma_container_round_trip(entries: Seq<ArchiveEntryView>, zstd_level: i32, c: Seq<u8>)
    requires
        container_made(entries, zstd_level, None, c),
        all_archive_paths(entries),
    ensures
        unpacked_from(container_inner(c)) == Ok::<Seq<TarItemView>, ArchiveError>(listing_of(entries)),
{
    let t = tar_image(entries)->Some_0;
    lemma_container_holds_whole_tree(entries, zstd_level, c);
    let listing = listing_of(entries);
    assert forall|i: int| 0 <= i < listing.len() implies is_contained_path(#[trigger] listing[i].path) by {
        assert(listing[i].path == entries[i].path);
        assert(is_archive_path(entries[i].path));
    }
}

} // verus!
