//! Choosing a decode strategy from an input's file name.

use crate::error::ArchiveError;
use vstd::prelude::*;

verus! {

/// A codec that alone makes a compressed file, or wraps a tar archive.
#[derive(Debug, Clone, Copy, PartialEq, Eq, Structural)]
pub enum SingleCodec {
    Gzip,
    Bzip2,
    Xz,
    Zstd,
    Lzma,
    Brotli,
    Lz4,
}

/// An archive container read by its own reader.
#[derive(Debug, Clone, Copy, PartialEq, Eq, Structural)]
pub enum ArchiveKind {
    Zip,
    Rar,
    SevenZ,
}

/// How an input is decoded.
#[derive(Debug, Clone, Copy, PartialEq, Eq, Structural)]
pub enum DecodeStrategy {
    /// One compressed file, written out under the name without its suffix.
    Single(SingleCodec),
    /// A tar archive, bare or inside one codec.
    Tar(Option<SingleCodec>),
    /// A container with its own reader.
    Archive(ArchiveKind),
    /// An ISO 9660 image.
    Iso,
    /// The default chain: outer zstd, inner xz, then the tar tree.
    Pipeline,
}

/// Index of the last `.` of `name`, or -1.
pub open spec fn last_dot(name: Seq<u8>) -> int
    decreases name.len(),
{
    if name.len() == 0 {
        -1
    } else if name.last() == 0x2e {
        name.len() - 1
    } else {
        last_dot(name.drop_last())
    }
}

/// The extension of a file name: what follows its last `.`, unless that dot
/// starts the name; otherwise empty.
pub open spec fn extension_of(name: Seq<u8>) -> Seq<u8> {
    let k = last_dot(name);
    if k <= 0 {
        Seq::empty()
    } else {
        name.subrange(k + 1, name.len() as int)
    }
}

/// The stem of a file name: what precedes its last `.`, unless that dot
/// starts the name; otherwise the whole name.
pub open spec fn stem_of(name: Seq<u8>) -> Seq<u8> {
    let k = last_dot(name);
    if k <= 0 {
        name
    } else {
        name.subrange(0, k)
    }
}

/// ASCII lower case of one byte.
pub open spec fn lower_byte(b: u8) -> u8 {
    if 0x41 <= b && b <= 0x5a {
        (b + 0x20) as u8
    } else {
        b
    }
}

/// ASCII lower case of a byte string.
pub open spec fn ascii_lower(s: Seq<u8>) -> Seq<u8> {
    s.map_values(|b: u8| lower_byte(b))
}

/// Whether `s` ends with `suf`.
pub open spec fn ends_with(s: Seq<u8>, suf: Seq<u8>) -> bool {
    suf.len() <= s.len() && s.subrange(s.len() - suf.len(), s.len() as int) == suf
}

/// A codec suffix: the tar archive inside it when the name ends in
/// `.tar` followed by that suffix, a lone compressed file otherwise.
pub open spec fn tar_or_single(name: Seq<u8>, compound: bool, c: SingleCodec) -> DecodeStrategy {
    if compound {
        DecodeStrategy::Tar(Some(c))
    } else {
        DecodeStrategy::Single(c)
    }
}

/// The strategy for a file name. The lower-cased extension decides; where a
/// codec suffix may also follow `.tar`, the name's own ending (case as
/// written) tells the two apart. Any other extension is the default chain.
pub open spec fn strategy_of(name: Seq<u8>) -> Result<DecodeStrategy, ArchiveError> {
    let e = ascii_lower(extension_of(name));
    if name.len() == 0 {
        Err(ArchiveError::UnsupportedFormat)
    } else if e == seq![0x7au8, 0x69u8, 0x70u8] {
        Ok(DecodeStrategy::Archive(ArchiveKind::Zip))
    } else if e == seq![0x72u8, 0x61u8, 0x72u8] {
        Ok(DecodeStrategy::Archive(ArchiveKind::Rar))
    } else if e == seq![0x37u8, 0x7au8] {
        Ok(DecodeStrategy::Archive(ArchiveKind::SevenZ))
    } else if e == seq![0x69u8, 0x73u8, 0x6fu8] {
        Ok(DecodeStrategy::Iso)
    } else if e == seq![0x74u8, 0x61u8, 0x72u8] {
        Ok(DecodeStrategy::Tar(None))
    } else if e == seq![0x67u8, 0x7au8] {
        Ok(
            tar_or_single(
                name,
                ends_with(name, seq![0x2eu8, 0x74u8, 0x61u8, 0x72u8, 0x2eu8, 0x67u8, 0x7au8]),
                SingleCodec::Gzip,
            ),
        )
    } else if e == seq![0x74u8, 0x67u8, 0x7au8] {
        Ok(DecodeStrategy::Tar(Some(SingleCodec::Gzip)))
    } else if e == seq![0x62u8, 0x7au8, 0x32u8] {
        Ok(
            tar_or_single(
                name,
                ends_with(name, seq![0x2eu8, 0x74u8, 0x61u8, 0x72u8, 0x2eu8, 0x62u8, 0x7au8, 0x32u8]),
                SingleCodec::Bzip2,
            ),
        )
    } else if e == seq![0x78u8, 0x7au8] {
        Ok(
            tar_or_single(
                name,
                ends_with(name, seq![0x2eu8, 0x74u8, 0x61u8, 0x72u8, 0x2eu8, 0x78u8, 0x7au8]),
                SingleCodec::Xz,
            ),
        )
    } else if e == seq![0x7au8, 0x73u8, 0x74u8] || e == seq![0x7au8, 0x73u8, 0x74u8, 0x64u8] {
        Ok(
            tar_or_single(
                name,
                ends_with(name, seq![0x2eu8, 0x74u8, 0x61u8, 0x72u8, 0x2eu8, 0x7au8, 0x73u8, 0x74u8]) || ends_with(
                    name,
                    seq![0x2eu8, 0x74u8, 0x61u8, 0x72u8, 0x2eu8, 0x7au8, 0x73u8, 0x74u8, 0x64u8],
                ),
                SingleCodec::Zstd,
            ),
        )
    } else if e == seq![0x6cu8, 0x7au8, 0x6du8, 0x61u8] {
        Ok(DecodeStrategy::Single(SingleCodec::Lzma))
    } else if e == seq![0x62u8, 0x72u8] {
        Ok(DecodeStrategy::Single(SingleCodec::Brotli))
    } else if e == seq![0x6cu8, 0x7au8, 0x34u8] {
        Ok(DecodeStrategy::Single(SingleCodec::Lz4))
    } else {
        Ok(DecodeStrategy::Pipeline)
    }
}

fn find_last_dot(name: &[u8]) -> (r: Option<usize>)
    ensures
        match r {
            Some(k) => last_dot(name@) == k as int && k < name@.len(),
            None => last_dot(name@) == -1,
        },
{
    let mut n: usize = name.len();
    assert(name@.subrange(0, n as int) == name@);
    while n > 0
        invariant
            n <= name@.len(),
            last_dot(name@) == last_dot(name@.subrange(0, n as int)),
        decreases n,
    {
        let ghost pre = name@.subrange(0, n as int);
        assert(pre.drop_last() == name@.subrange(0, n - 1));
        if name[n - 1] == 0x2e {
            return Some(n - 1);
        }
        n -= 1;
    }
    None
}

fn copy_range(s: &[u8], lo: usize, hi: usize) -> (r: Vec<u8>)
    requires
        lo <= hi <= s@.len(),
    ensures
        r@ == s@.subrange(lo as int, hi as int),
{
    let mut out: Vec<u8> = Vec::new();
    let mut i: usize = lo;
    while i < hi
        invariant
            lo <= i <= hi <= s@.len(),
            out@ == s@.subrange(lo as int, i as int),
        decreases hi - i,
    {
        assert(s@.subrange(lo as int, i + 1) == s@.subrange(lo as int, i as int).push(s@[i as int]));
        out.push(s[i]);
        i += 1;
    }
    out
}

/// The extension of a file name, as `Path::extension` gives it (empty when
/// there is none).
pub fn file_extension(name: &[u8]) -> (r: Vec<u8>)
    ensures
        r@ == extension_of(name@),
{
    match find_last_dot(name) {
        Some(k) if k > 0 && k < name.len() => copy_range(name, k + 1, name.len()),
        _ => Vec::new(),
    }
}

/// The name under which a lone compressed file is written: the input's
/// name without its last suffix.
pub fn file_stem(name: &[u8]) -> (r: Vec<u8>)
    ensures
        r@ == stem_of(name@),
        name@.len() > 0 ==> r@.len() > 0,
{
    match find_last_dot(name) {
        Some(k) if k > 0 => copy_range(name, 0, k),
        _ => copy_range(name, 0, name.len()),
    }
}

/// ASCII lower case of a byte string.
pub fn to_ascii_lower(s: &[u8]) -> (r: Vec<u8>)
    ensures
        r@ == ascii_lower(s@),
{
    let mut out: Vec<u8> = Vec::new();
    let mut i: usize = 0;
    while i < s.len()
        invariant
            i <= s@.len(),
            out@ == s@.subrange(0, i as int).map_values(|b: u8| lower_byte(b)),
        decreases s@.len() - i,
    {
        let b = s[i];
        let l: u8 = if 0x41 <= b && b <= 0x5a {
            b + 0x20
        } else {
            b
        };
        out.push(l);
        i += 1;
        assert(out@ =~= s@.subrange(0, i as int).map_values(|b: u8| lower_byte(b)));
    }
    assert(s@.subrange(0, s@.len() as int) == s@);
    out
}

fn bytes_eq(a: &[u8], b: &[u8]) -> (r: bool)
    ensures
        r == (a@ == b@),
{
    if a.len() != b.len() {
        return false;
    }
    let mut i: usize = 0;
    while i < a.len()
        invariant
            i <= a@.len(),
            a@.len() == b@.len(),
            forall|m: int| 0 <= m < i ==> a@[m] == b@[m],
        decreases a@.len() - i,
    {
        if a[i] != b[i] {
            return false;
        }
        i += 1;
    }
    assert(a@ =~= b@);
    true
}

fn has_suffix(s: &[u8], suf: &[u8]) -> (r: bool)
    ensures
        r == ends_with(s@, suf@),
{
    if suf.len() > s.len() {
        return false;
    }
    let tail = copy_range(s, s.len() - suf.len(), s.len());
    bytes_eq(tail.as_slice(), suf)
}

/// Picks the decode strategy for a file name (the last component of the
/// input path); an empty name has none.
pub fn decode_strategy(name: &[u8]) -> (r: Result<DecodeStrategy, ArchiveError>)
    ensures
        r == strategy_of(name@),
{
    if name.len() == 0 {
        return Err(ArchiveError::UnsupportedFormat);
    }
    let ext = file_extension(name);
    let e = to_ascii_lower(ext.as_slice());
    let e = e.as_slice();
    if bytes_eq(e, &[0x7au8, 0x69u8, 0x70u8]) {
        Ok(DecodeStrategy::Archive(ArchiveKind::Zip))
    } else if bytes_eq(e, &[0x72u8, 0x61u8, 0x72u8]) {
        Ok(DecodeStrategy::Archive(ArchiveKind::Rar))
    } else if bytes_eq(e, &[0x37u8, 0x7au8]) {
        Ok(DecodeStrategy::Archive(ArchiveKind::SevenZ))
    } else if bytes_eq(e, &[0x69u8, 0x73u8, 0x6fu8]) {
        Ok(DecodeStrategy::Iso)
    } else if bytes_eq(e, &[0x74u8, 0x61u8, 0x72u8]) {
        Ok(DecodeStrategy::Tar(None))
    } else if bytes_eq(e, &[0x67u8, 0x7au8]) {
        let c = has_suffix(name, &[0x2eu8, 0x74u8, 0x61u8, 0x72u8, 0x2eu8, 0x67u8, 0x7au8]);
        Ok(if c { DecodeStrategy::Tar(Some(SingleCodec::Gzip)) } else { DecodeStrategy::Single(SingleCodec::Gzip) })
    } else if bytes_eq(e, &[0x74u8, 0x67u8, 0x7au8]) {
        Ok(DecodeStrategy::Tar(Some(SingleCodec::Gzip)))
    } else if bytes_eq(e, &[0x62u8, 0x7au8, 0x32u8]) {
        let c = has_suffix(name, &[0x2eu8, 0x74u8, 0x61u8, 0x72u8, 0x2eu8, 0x62u8, 0x7au8, 0x32u8]);
        Ok(if c { DecodeStrategy::Tar(Some(SingleCodec::Bzip2)) } else { DecodeStrategy::Single(SingleCodec::Bzip2) })
    } else if bytes_eq(e, &[0x78u8, 0x7au8]) {
        let c = has_suffix(name, &[0x2eu8, 0x74u8, 0x61u8, 0x72u8, 0x2eu8, 0x78u8, 0x7au8]);
        Ok(if c { DecodeStrategy::Tar(Some(SingleCodec::Xz)) } else { DecodeStrategy::Single(SingleCodec::Xz) })
    } else if bytes_eq(e, &[0x7au8, 0x73u8, 0x74u8]) || bytes_eq(e, &[0x7au8, 0x73u8, 0x74u8, 0x64u8]) {
        let c = has_suffix(name, &[0x2eu8, 0x74u8, 0x61u8, 0x72u8, 0x2eu8, 0x7au8, 0x73u8, 0x74u8]) || has_suffix(
            name,
            &[0x2eu8, 0x74u8, 0x61u8, 0x72u8, 0x2eu8, 0x7au8, 0x73u8, 0x74u8, 0x64u8],
        );
        Ok(if c { DecodeStrategy::Tar(Some(SingleCodec::Zstd)) } else { DecodeStrategy::Single(SingleCodec::Zstd) })
    } else if bytes_eq(e, &[0x6cu8, 0x7au8, 0x6du8, 0x61u8]) {
        Ok(DecodeStrategy::Single(SingleCodec::Lzma))
    } else if bytes_eq(e, &[0x62u8, 0x72u8]) {
        Ok(DecodeStrategy::Single(SingleCodec::Brotli))
    } else if bytes_eq(e, &[0x6cu8, 0x7au8, 0x34u8]) {
        Ok(DecodeStrategy::Single(SingleCodec::Lz4))
    } else {
        Ok(DecodeStrategy::Pipeline)
    }
}

} // verus!
