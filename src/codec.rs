//! The calls into outside codec and archive crates, each behind a function
//! whose contract names what the call returns.

use crate::entry::{
    all_archive_paths, all_utf8_paths, entries_view, items_view, listing_of, ArchiveEntry, ArchiveEntryView, TarItem,
    TarItemView,
};
use std::io::{Read, Write};
use vstd::prelude::*;

verus! {

/// The tar archive that `tar::Builder` writes for these entries, or `None`
/// where it refuses one of them.
pub uninterp spec fn tar_image(entries: Seq<ArchiveEntryView>) -> Option<Seq<u8>>;

/// The entries that `tar::Archive` reads from these bytes, or `None` where it
/// fails.
pub uninterp spec fn tar_listing(data: Seq<u8>) -> Option<Seq<TarItemView>>;

/// The entries that `zip::ZipArchive` reads from these bytes, or `None`
/// where it fails.
pub uninterp spec fn zip_listing(data: Seq<u8>) -> Option<Seq<TarItemView>>;

/// What `xz2`'s decoder reads from `data`.
pub uninterp spec fn xz_decoded(data: Seq<u8>) -> Option<Seq<u8>>;

/// The zstd frame that `zstd::stream::encode_all` writes for `data` at `level`.
pub uninterp spec fn zstd_compressed(data: Seq<u8>, level: i32) -> Option<Seq<u8>>;

/// The zstd frame that `zstd`'s encoder writes for `data` at `level` with the
/// dictionary `dict`.
pub uninterp spec fn zstd_compressed_with_dict(data: Seq<u8>, level: i32, dict: Seq<u8>) -> Option<Seq<u8>>;

/// What `zstd::stream::decode_all` reads from `data`.
pub uninterp spec fn zstd_decoded(data: Seq<u8>) -> Option<Seq<u8>>;

/// What `flate2`'s gzip decoder reads from `data`.
pub uninterp spec fn gzip_decoded(data: Seq<u8>) -> Option<Seq<u8>>;

/// What `bzip2`'s decoder reads from `data`.
pub uninterp spec fn bzip2_decoded(data: Seq<u8>) -> Option<Seq<u8>>;

/// What `brotli`'s decompressor reads from `data`.
pub uninterp spec fn brotli_decoded(data: Seq<u8>) -> Option<Seq<u8>>;

/// What `lzma_rs::lzma_decompress` writes for `data`.
pub uninterp spec fn lzma_decoded(data: Seq<u8>) -> Option<Seq<u8>>;

/// What `lz4_flex::decompress_size_prepended` returns for `data`.
pub uninterp spec fn lz4_decoded(data: Seq<u8>) -> Option<Seq<u8>>;

/// Whether an outside result `r` is the named outcome `o`.
pub open spec fn outcome_is(r: Result<Vec<u8>, ()>, o: Option<Seq<u8>>) -> bool {
    match r {
        Ok(v) => o == Some(v@),
        Err(_) => o is None,
    }
}

/// Relies on `tar::Builder::append_data` and `tar::Builder::into_inner`: a GNU
/// header per entry with its type, size, mode and time, then its bytes; a
/// path that is not UTF-8 fails. `append_data` stores a path of at most 100
/// bytes component by component and a longer one whole in a GNU long-name
/// entry, so a canonical path is accepted and reads back unchanged, with the
/// entry's type and exactly its bytes; writing into a `Vec` does not fail.
#[verifier::external_body]
pub(crate) fn tar_build(entries: &Vec<ArchiveEntry>) -> (r: Result<Vec<u8>, ()>)
    ensures
        outcome_is(r, tar_image(entries_view(entries@))),
        r matches Ok(v) ==> (all_archive_paths(entries_view(entries@)) ==> tar_listing(v@) == Some(
            listing_of(entries_view(entries@)),
        )),
        all_archive_paths(entries_view(entries@)) && all_utf8_paths(entries_view(entries@)) ==> r is Ok,
{
    let mut b = tar::Builder::new(Vec::new());
    for e in entries.iter() {
        let mut h = tar::Header::new_gnu();
        h.set_entry_type(if e.is_dir { tar::EntryType::Directory } else { tar::EntryType::Regular });
        h.set_size(e.content.len() as u64);
        h.set_mode(e.mode);
        h.set_mtime(e.mtime);
        let path = std::str::from_utf8(&e.path).map_err(|_| ())?;
        b.append_data(&mut h, path, e.content.as_slice()).map_err(|_| ())?;
    }
    b.into_inner().map_err(|_| ())
}

/// Relies on `tar::Archive::entries`: each entry's path, whether its type is
/// a directory, and its bytes, in stored order.
#[verifier::external_body]
pub(crate) fn tar_read(data: &[u8]) -> (r: Result<Vec<TarItem>, ()>)
    ensures
        match r {
            Ok(v) => tar_listing(data@) == Some(items_view(v@)),
            Err(_) => tar_listing(data@) is None,
        },
{
    let mut ar = tar::Archive::new(data);
    let mut out = Vec::new();
    for e in ar.entries().map_err(|_| ())? {
        let mut e = e.map_err(|_| ())?;
        let path = e.path_bytes().into_owned();
        let is_dir = e.header().entry_type().is_dir();
        let mut content = Vec::new();
        e.read_to_end(&mut content).map_err(|_| ())?;
        out.push(TarItem { path, is_dir, content });
    }
    Ok(out)
}

/// Relies on `zip::ZipArchive::by_index`: each entry's name, whether it is a
/// directory, and its bytes, in central directory order.
#[verifier::external_body]
pub(crate) fn zip_read(data: &[u8]) -> (r: Result<Vec<TarItem>, ()>)
    ensures
        match r {
            Ok(v) => zip_listing(data@) == Some(items_view(v@)),
            Err(_) => zip_listing(data@) is None,
        },
{
    let mut ar = zip::ZipArchive::new(std::io::Cursor::new(data)).map_err(|_| ())?;
    let mut out = Vec::new();
    for i in 0..ar.len() {
        let mut f = ar.by_index(i).map_err(|_| ())?;
        let path = f.name().map_err(|_| ())?.as_bytes().to_vec();
        let is_dir = f.is_dir();
        let mut content = Vec::new();
        f.read_to_end(&mut content).map_err(|_| ())?;
        out.push(TarItem { path, is_dir, content });
    }
    Ok(out)
}

/// Relies on `xz2::write::XzEncoder`, which panics on a preset above 9. The
/// exact bytes depend on the liblzma that is linked; what is promised is a
/// complete xz stream that decodes back to `data`. Writing into a `Vec`
/// fails only where memory runs out.
#[verifier::external_body]
pub(crate) fn xz_compress(data: &[u8], preset: u32) -> (r: Result<Vec<u8>, ()>)
    requires
        preset <= 9,
    ensures
        r is Ok,
        r matches Ok(v) ==> xz_decoded(v@) == Some(data@),
{
    let mut enc = xz2::write::XzEncoder::new(Vec::new(), preset);
    enc.write_all(data).map_err(|_| ())?;
    enc.finish().map_err(|_| ())
}

/// Relies on `xz2::read::XzDecoder`.
#[verifier::external_body]
pub(crate) fn xz_decode(data: &[u8]) -> (r: Result<Vec<u8>, ()>)
    ensures
        outcome_is(r, xz_decoded(data@)),
{
    let mut out = Vec::new();
    xz2::read::XzDecoder::new(data).read_to_end(&mut out).map_err(|_| ())?;
    Ok(out)
}

/// Relies on `zstd::stream::encode_all`, whose frame decodes back to `data`.
/// zstd clamps the level, and writing into a `Vec` fails only where memory
/// runs out.
#[verifier::external_body]
pub(crate) fn zstd_compress(data: &[u8], level: i32) -> (r: Result<Vec<u8>, ()>)
    ensures
        r is Ok,
        outcome_is(r, zstd_compressed(data@, level)),
        r matches Ok(v) ==> zstd_decoded(v@) == Some(data@),
{
    zstd::stream::encode_all(data, level).map_err(|_| ())
}

/// Relies on `zstd::stream::write::Encoder::with_dictionary`.
#[verifier::external_body]
pub(crate) fn zstd_compress_with_dict(data: &[u8], level: i32, dict: &[u8]) -> (r: Result<Vec<u8>, ()>)
    ensures
        outcome_is(r, zstd_compressed_with_dict(data@, level, dict@)),
{
    let mut enc = zstd::stream::write::Encoder::with_dictionary(Vec::new(), level, dict)
        .map_err(|_| ())?;
    enc.write_all(data).map_err(|_| ())?;
    enc.finish().map_err(|_| ())
}

/// Relies on `zstd::stream::decode_all`.
#[verifier::external_body]
pub(crate) fn zstd_decode(data: &[u8]) -> (r: Result<Vec<u8>, ()>)
    ensures
        outcome_is(r, zstd_decoded(data@)),
{
    zstd::stream::decode_all(data).map_err(|_| ())
}

/// Relies on `flate2::read::GzDecoder`.
#[verifier::external_body]
pub(crate) fn gzip_decode(data: &[u8]) -> (r: Result<Vec<u8>, ()>)
    ensures
        outcome_is(r, gzip_decoded(data@)),
{
    let mut out = Vec::new();
    flate2::read::GzDecoder::new(data).read_to_end(&mut out).map_err(|_| ())?;
    Ok(out)
}

/// Relies on `bzip2::read::BzDecoder`.
#[verifier::external_body]
pub(crate) fn bzip2_decode(data: &[u8]) -> (r: Result<Vec<u8>, ()>)
    ensures
        outcome_is(r, bzip2_decoded(data@)),
{
    let mut out = Vec::new();
    bzip2::read::BzDecoder::new(data).read_to_end(&mut out).map_err(|_| ())?;
    Ok(out)
}

/// Relies on `brotli::Decompressor` with a 4096-byte buffer.
#[verifier::external_body]
pub(crate) fn brotli_decode(data: &[u8]) -> (r: Result<Vec<u8>, ()>)
    ensures
        outcome_is(r, brotli_decoded(data@)),
{
    let mut out = Vec::new();
    brotli::Decompressor::new(data, 4096).read_to_end(&mut out).map_err(|_| ())?;
    Ok(out)
}

/// Relies on `lzma_rs::lzma_decompress`.
#[verifier::external_body]
pub(crate) fn lzma_decode(data: &[u8]) -> (r: Result<Vec<u8>, ()>)
    ensures
        outcome_is(r, lzma_decoded(data@)),
{
    let mut input = data;
    let mut out = Vec::new();
    lzma_rs::lzma_decompress(&mut input, &mut out).map_err(|_| ())?;
    Ok(out)
}

/// Relies on `lz4_flex::decompress_size_prepended`.
#[verifier::external_body]
pub(crate) fn lz4_decode(data: &[u8]) -> (r: Result<Vec<u8>, ()>)
    ensures
        outcome_is(r, lz4_decoded(data@)),
{
    lz4_flex::decompress_size_prepended(data).map_err(|_| ())
}

} // verus!
