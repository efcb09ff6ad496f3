use std::io::{Read, Write};
use stelarc::dispatch::SingleCodec;
use stelarc::entry::{ArchiveEntry, TarItem};
use stelarc::pipeline::{
    decode_container, decode_single, decode_tar, read_tree, read_zip, validate_levels,
    PipelineCompressor,
};
use stelarc::ArchiveError;

fn dir(path: &str) -> ArchiveEntry {
    ArchiveEntry { path: path.as_bytes().to_vec(), is_dir: true, mode: 0o755, mtime: 0, content: Vec::new() }
}

fn file(path: &str, content: &[u8]) -> ArchiveEntry {
    ArchiveEntry {
        path: path.as_bytes().to_vec(),
        is_dir: false,
        mode: 0o644,
        mtime: 1_700_000_000,
        content: content.to_vec(),
    }
}

fn compress(entries: Vec<ArchiveEntry>, zstd_level: i32, xz_preset: u32) -> Vec<u8> {
    let mut c = PipelineCompressor::new(zstd_level, xz_preset, None).unwrap();
    for e in entries {
        c.append(e);
    }
    c.finish().unwrap()
}

fn summary(items: &[TarItem]) -> Vec<(String, bool, Vec<u8>)> {
    items
        .iter()
        .map(|i| {
            (String::from_utf8(i.path.clone()).unwrap(), i.is_dir, i.content.clone())
        })
        .collect()
}

fn tar_bytes(entries: &[(&str, &[u8])]) -> Vec<u8> {
    let mut b = tar::Builder::new(Vec::new());
    for (p, c) in entries {
        let mut h = tar::Header::new_gnu();
        h.set_size(c.len() as u64);
        h.set_mode(0o644);
        b.append_data(&mut h, p, *c).unwrap();
    }
    b.into_inner().unwrap()
}

#[test]
fn proj_scenario_round_trips() {
    let out = compress(
        vec![dir("proj"), file("proj/a.txt", b"hello"), dir("proj/sub"), file("proj/sub/b.bin", &[0u8; 100])],
        19,
        9,
    );
    let items = decode_container(&out).unwrap();
    assert_eq!(
        summary(&items),
        vec![
            ("proj".to_string(), true, Vec::new()),
            ("proj/a.txt".to_string(), false, b"hello".to_vec()),
            ("proj/sub".to_string(), true, Vec::new()),
            ("proj/sub/b.bin".to_string(), false, vec![0u8; 100]),
        ]
    );
}

#[test]
fn deep_tree_with_empty_parts_round_trips() {
    let entries = vec![
        dir("t"),
        dir("t/empty"),
        file("t/zero", b""),
        dir("t/a"),
        dir("t/a/b"),
        dir("t/a/b/c"),
        file("t/a/b/c/leaf.txt", b"deep"),
    ];
    let out = compress(entries, 3, 1);
    let items = decode_container(&out).unwrap();
    assert_eq!(
        summary(&items),
        vec![
            ("t".to_string(), true, Vec::new()),
            ("t/empty".to_string(), true, Vec::new()),
            ("t/zero".to_string(), false, Vec::new()),
            ("t/a".to_string(), true, Vec::new()),
            ("t/a/b".to_string(), true, Vec::new()),
            ("t/a/b/c".to_string(), true, Vec::new()),
            ("t/a/b/c/leaf.txt".to_string(), false, b"deep".to_vec()),
        ]
    );
}

#[test]
fn dictionary_container_decodes_with_its_dictionary() {
    let dict = b"some text that the dictionary holds".to_vec();
    let mut c = PipelineCompressor::new(5, 6, Some(dict.clone())).unwrap();
    c.append(dir("d"));
    c.append(file("d/x", b"some text some text"));
    assert_eq!(c.entry_count(), 2);
    let out = c.finish().unwrap();
    let mut xz = Vec::new();
    zstd::stream::read::Decoder::with_dictionary(&out[..], &dict)
        .unwrap()
        .read_to_end(&mut xz)
        .unwrap();
    let mut tar = Vec::new();
    xz2::read::XzDecoder::new(&xz[..]).read_to_end(&mut tar).unwrap();
    let items = read_tree(&tar).unwrap();
    assert_eq!(
        summary(&items),
        vec![
            ("d".to_string(), true, Vec::new()),
            ("d/x".to_string(), false, b"some text some text".to_vec()),
        ]
    );
}

#[test]
fn outer_finished_before_inner_is_unreadable() {
    let tar = tar_bytes(&[("p/a.txt", b"hello")]);
    let mut inner = xz2::write::XzEncoder::new(Vec::new(), 9);
    inner.write_all(&tar).unwrap();
    // The outer stage is closed over what the inner stage has emitted so far.
    let early = inner.get_ref().clone();
    let container = zstd::stream::encode_all(&early[..], 19).unwrap();
    inner.finish().unwrap();
    assert!(decode_container(&container).is_err());
}

#[test]
fn inner_finished_before_outer_is_readable() {
    let tar = tar_bytes(&[("p/a.txt", b"hello")]);
    let mut inner = xz2::write::XzEncoder::new(Vec::new(), 9);
    inner.write_all(&tar).unwrap();
    let done = inner.finish().unwrap();
    let container = zstd::stream::encode_all(&done[..], 19).unwrap();
    let items = decode_container(&container).unwrap();
    assert_eq!(summary(&items), vec![("p/a.txt".to_string(), false, b"hello".to_vec())]);
}

#[test]
fn levels_out_of_range_are_config_errors() {
    assert_eq!(validate_levels(19, 9), Ok(()));
    assert_eq!(validate_levels(0, 0), Ok(()));
    assert_eq!(validate_levels(22, 9), Ok(()));
    assert_eq!(validate_levels(23, 9), Err(ArchiveError::Config));
    assert_eq!(validate_levels(-1, 9), Err(ArchiveError::Config));
    assert_eq!(validate_levels(19, 10), Err(ArchiveError::Config));
    assert!(matches!(PipelineCompressor::new(30, 9, None), Err(ArchiveError::Config)));
}

#[test]
fn garbage_container_is_io_error() {
    assert!(matches!(decode_container(b"not a container"), Err(ArchiveError::Io)));
}

#[test]
fn escaping_entry_is_refused() {
    let mut h = tar::Header::new_old();
    h.as_mut_bytes()[..7].copy_from_slice(b"../evil");
    h.set_size(1);
    h.set_mode(0o644);
    h.set_cksum();
    let mut b = tar::Builder::new(Vec::new());
    b.append(&h, &b"x"[..]).unwrap();
    let data = b.into_inner().unwrap();
    assert!(matches!(read_tree(&data), Err(ArchiveError::PathEscape)));
}

#[test]
fn plain_tar_is_read() {
    let data = tar_bytes(&[("a/one", b"1"), ("a/two", b"22")]);
    let items = decode_tar(None, &data).unwrap();
    assert_eq!(
        summary(&items),
        vec![("a/one".to_string(), false, b"1".to_vec()), ("a/two".to_string(), false, b"22".to_vec())]
    );
}

#[test]
fn gzipped_tar_is_read() {
    let data = tar_bytes(&[("g/f", b"gz")]);
    let mut enc = flate2::write::GzEncoder::new(Vec::new(), flate2::Compression::default());
    enc.write_all(&data).unwrap();
    let gz = enc.finish().unwrap();
    let items = decode_tar(Some(SingleCodec::Gzip), &gz).unwrap();
    assert_eq!(summary(&items), vec![("g/f".to_string(), false, b"gz".to_vec())]);
}

const TEXT: &[u8] = b"the quick brown fox jumps over the lazy dog, again and again and again";

#[test]
fn single_gzip_decodes() {
    let mut enc = flate2::write::GzEncoder::new(Vec::new(), flate2::Compression::default());
    enc.write_all(TEXT).unwrap();
    let data = enc.finish().unwrap();
    assert_eq!(decode_single(SingleCodec::Gzip, &data), Ok(TEXT.to_vec()));
}

#[test]
fn single_bzip2_decodes() {
    let mut enc = bzip2::write::BzEncoder::new(Vec::new(), bzip2::Compression::best());
    enc.write_all(TEXT).unwrap();
    let data = enc.finish().unwrap();
    assert_eq!(decode_single(SingleCodec::Bzip2, &data), Ok(TEXT.to_vec()));
}

#[test]
fn single_xz_decodes() {
    let mut enc = xz2::write::XzEncoder::new(Vec::new(), 6);
    enc.write_all(TEXT).unwrap();
    let data = enc.finish().unwrap();
    assert_eq!(decode_single(SingleCodec::Xz, &data), Ok(TEXT.to_vec()));
}

#[test]
fn single_zstd_decodes() {
    let data = zstd::stream::encode_all(TEXT, 3).unwrap();
    assert_eq!(decode_single(SingleCodec::Zstd, &data), Ok(TEXT.to_vec()));
}

#[test]
fn single_lzma_decodes() {
    let mut data = Vec::new();
    lzma_rs::lzma_compress(&mut &TEXT[..], &mut data).unwrap();
    assert_eq!(decode_single(SingleCodec::Lzma, &data), Ok(TEXT.to_vec()));
}

#[test]
fn single_brotli_decodes() {
    let mut data = Vec::new();
    {
        let mut w = brotli::CompressorWriter::new(&mut data, 4096, 9, 22);
        w.write_all(TEXT).unwrap();
    }
    assert_eq!(decode_single(SingleCodec::Brotli, &data), Ok(TEXT.to_vec()));
}

#[test]
fn single_lz4_decodes() {
    let data = lz4_flex::compress_prepend_size(TEXT);
    assert_eq!(decode_single(SingleCodec::Lz4, &data), Ok(TEXT.to_vec()));
}

#[test]
fn corrupt_single_file_is_io_error() {
    assert_eq!(decode_single(SingleCodec::Gzip, b"plain bytes"), Err(ArchiveError::Io));
    assert_eq!(decode_single(SingleCodec::Zstd, b"plain bytes"), Err(ArchiveError::Io));
}

#[test]
fn container_holds_outer_zstd_frame() {
    let out = compress(vec![dir("z")], 1, 0);
    assert_eq!(&out[..4], &[0x28, 0xb5, 0x2f, 0xfd]);
    let mut inner = Vec::new();
    zstd::stream::read::Decoder::new(&out[..]).unwrap().read_to_end(&mut inner).unwrap();
    assert_eq!(&inner[..6], &[0xfd, b'7', b'z', b'X', b'Z', 0x00]);
}

fn zip_bytes(entries: &[(&str, Option<&[u8]>)]) -> Vec<u8> {
    let mut w = zip::ZipWriter::new(std::io::Cursor::new(Vec::new()));
    let opts = zip::write::SimpleFileOptions::default();
    for (name, content) in entries {
        match content {
            Some(c) => {
                w.start_file(*name, opts).unwrap();
                w.write_all(c).unwrap();
            }
            None => w.add_directory(*name, opts).unwrap(),
        }
    }
    w.finish().unwrap().into_inner()
}

#[test]
fn zip_entries_are_read() {
    let data = zip_bytes(&[("z/", None), ("z/a.txt", Some(b"zipped"))]);
    let items = read_zip(&data).unwrap();
    assert_eq!(
        summary(&items),
        vec![("z/".to_string(), true, Vec::new()), ("z/a.txt".to_string(), false, b"zipped".to_vec())]
    );
}

#[test]
fn zip_entry_leaving_destination_is_refused() {
    let data = zip_bytes(&[("../outside.txt", Some(b"x"))]);
    assert!(matches!(read_zip(&data), Err(ArchiveError::PathEscape)));
}

#[test]
fn garbage_zip_is_io_error() {
    assert!(matches!(read_zip(b"PK not really"), Err(ArchiveError::Io)));
}

#[test]
fn non_utf8_entry_path_fails_to_compress() {
    let mut c = PipelineCompressor::new(3, 1, None).unwrap();
    c.append(ArchiveEntry { path: vec![b'a', 0xff], is_dir: false, mode: 0o644, mtime: 0, content: b"x".to_vec() });
    assert_eq!(c.finish(), Err(ArchiveError::Io));
}

#[test]
fn long_canonical_path_round_trips() {
    let long = format!("r/{}/{}", "d".repeat(80), "f".repeat(90));
    let out = compress(vec![dir("r"), file(&long, b"long")], 3, 1);
    let items = decode_container(&out).unwrap();
    assert_eq!(summary(&items), vec![("r".to_string(), true, Vec::new()), (long, false, b"long".to_vec())]);
}
