use stelarc::dispatch::{
    decode_strategy, file_extension, file_stem, to_ascii_lower, ArchiveKind, DecodeStrategy,
    SingleCodec,
};
use stelarc::ArchiveError;

fn strategy(name: &str) -> Result<DecodeStrategy, ArchiveError> {
    decode_strategy(name.as_bytes())
}

#[test]
fn known_archives_by_extension() {
    assert_eq!(strategy("a.zip"), Ok(DecodeStrategy::Archive(ArchiveKind::Zip)));
    assert_eq!(strategy("a.RAR"), Ok(DecodeStrategy::Archive(ArchiveKind::Rar)));
    assert_eq!(strategy("a.7z"), Ok(DecodeStrategy::Archive(ArchiveKind::SevenZ)));
    assert_eq!(strategy("disk.Iso"), Ok(DecodeStrategy::Iso));
    assert_eq!(strategy("a.tar"), Ok(DecodeStrategy::Tar(None)));
}

#[test]
fn codec_suffix_after_tar_reads_tar() {
    assert_eq!(strategy("x.tar.gz"), Ok(DecodeStrategy::Tar(Some(SingleCodec::Gzip))));
    assert_eq!(strategy("x.tgz"), Ok(DecodeStrategy::Tar(Some(SingleCodec::Gzip))));
    assert_eq!(strategy("x.tar.bz2"), Ok(DecodeStrategy::Tar(Some(SingleCodec::Bzip2))));
    assert_eq!(strategy("x.tar.xz"), Ok(DecodeStrategy::Tar(Some(SingleCodec::Xz))));
    assert_eq!(strategy("x.tar.zst"), Ok(DecodeStrategy::Tar(Some(SingleCodec::Zstd))));
    assert_eq!(strategy("x.tar.zstd"), Ok(DecodeStrategy::Tar(Some(SingleCodec::Zstd))));
}

#[test]
fn lone_codec_suffix_is_single_file() {
    assert_eq!(strategy("x.gz"), Ok(DecodeStrategy::Single(SingleCodec::Gzip)));
    assert_eq!(strategy("x.bz2"), Ok(DecodeStrategy::Single(SingleCodec::Bzip2)));
    assert_eq!(strategy("x.xz"), Ok(DecodeStrategy::Single(SingleCodec::Xz)));
    assert_eq!(strategy("x.zst"), Ok(DecodeStrategy::Single(SingleCodec::Zstd)));
    assert_eq!(strategy("x.lzma"), Ok(DecodeStrategy::Single(SingleCodec::Lzma)));
    assert_eq!(strategy("x.br"), Ok(DecodeStrategy::Single(SingleCodec::Brotli)));
    assert_eq!(strategy("x.LZ4"), Ok(DecodeStrategy::Single(SingleCodec::Lz4)));
    // The compound check keeps the case as written.
    assert_eq!(strategy("X.TAR.GZ"), Ok(DecodeStrategy::Single(SingleCodec::Gzip)));
}

#[test]
fn other_names_take_default_chain() {
    assert_eq!(strategy("backup.stel"), Ok(DecodeStrategy::Pipeline));
    assert_eq!(strategy("noext"), Ok(DecodeStrategy::Pipeline));
    assert_eq!(strategy(".gz"), Ok(DecodeStrategy::Pipeline));
    assert_eq!(strategy("trailing."), Ok(DecodeStrategy::Pipeline));
    assert_eq!(strategy("setup.cab"), Ok(DecodeStrategy::Pipeline));
}

#[test]
fn empty_name_is_unsupported() {
    assert_eq!(strategy(""), Err(ArchiveError::UnsupportedFormat));
}

#[test]
fn extension_and_stem_follow_last_dot() {
    assert_eq!(file_extension(b"a.tar.gz"), b"gz".to_vec());
    assert_eq!(file_stem(b"a.tar.gz"), b"a.tar".to_vec());
    assert_eq!(file_extension(b".hidden"), Vec::<u8>::new());
    assert_eq!(file_stem(b".hidden"), b".hidden".to_vec());
    assert_eq!(file_stem(b"notes.txt.gz"), b"notes.txt".to_vec());
    assert_eq!(file_extension(b"..x"), b"x".to_vec());
}

#[test]
fn ascii_lowering() {
    assert_eq!(to_ascii_lower(b"ZsT-9a"), b"zst-9a".to_vec());
}
