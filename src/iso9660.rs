//! ISO 9660 volume reading: signature check, primary volume descriptor,
//! directory records and an extraction plan over an in-memory image.

use crate::error::ArchiveError;
use crate::paths::{
    append_bytes, is_contained_path, is_plain_name, join, lemma_join_contained,
    lemma_plain_name_contained,
};
use vstd::prelude::*;

verus! {

/// Bytes per logical sector.
pub const SECTOR_SIZE: usize = 2048;

/// Byte offset of the primary volume descriptor.
pub const PVD_OFFSET: usize = 32768;

/// Offset, inside a directory record, of the name length byte.
pub const NAME_LEN_OFFSET: usize = 32;

/// Offset, inside a directory record, of the first name byte.
pub const NAME_OFFSET: usize = 33;

/// Little-endian 32-bit value of the four bytes of `s` at `off`.
pub open spec fn le32(s: Seq<u8>, off: int) -> int {
    s[off] as int + s[off + 1] as int * 0x100 + s[off + 2] as int * 0x10000 + s[off + 3] as int
        * 0x1000000
}

/// Reads the little-endian 32-bit value at `off`.
pub fn read_le32(b: &[u8], off: usize) -> (r: u32)
    requires
        off + 4 <= b@.len(),
    ensures
        r as int == le32(b@, off as int),
{
    let r: u32 = b[off] as u32 + b[off + 1] as u32 * 0x100 + b[off + 2] as u32 * 0x10000
        + b[off + 3] as u32 * 0x1000000;
    r
}

/// Bytes kept in an extracted name: printable ASCII other than path
/// separators and characters that file systems reserve.
pub open spec fn is_safe_name_byte(b: u8) -> bool {
    32 <= b && b < 127 && b != 0x3c && b != 0x3e && b != 0x3a && b != 0x22 && b != 0x2f && b
        != 0x5c && b != 0x7c && b != 0x3f && b != 0x2a
}

/// A raw record name cut at the first `;` (the version separator), with the
/// unsafe bytes left out.
pub open spec fn clean_name(raw: Seq<u8>) -> Seq<u8>
    decreases raw.len(),
{
    if raw.len() == 0 || raw[0] == 0x3b {
        Seq::empty()
    } else if is_safe_name_byte(raw[0]) {
        seq![raw[0]] + clean_name(raw.drop_first())
    } else {
        clean_name(raw.drop_first())
    }
}

/// Names that stand for no entry: empty, `.` and `..`.
pub open spec fn is_pseudo_name(n: Seq<u8>) -> bool {
    n.len() == 0 || n == seq![0x2eu8] || n == seq![0x2eu8, 0x2eu8]
}

fn is_safe_byte(b: u8) -> (r: bool)
    ensures
        r == is_safe_name_byte(b),
{
    32 <= b && b < 127 && b != 0x3c && b != 0x3e && b != 0x3a && b != 0x22 && b != 0x2f && b
        != 0x5c && b != 0x7c && b != 0x3f && b != 0x2a
}

/// Cleans a raw record name: cut at the version separator, unsafe bytes
/// dropped.
pub fn clean_record_name(raw: &[u8]) -> (r: Vec<u8>)
    ensures
        r@ == clean_name(raw@),
{
    let mut out: Vec<u8> = Vec::new();
    let mut i: usize = 0;
    assert(raw@.subrange(0, raw@.len() as int) == raw@);
    assert(out@ + clean_name(raw@) == clean_name(raw@));
    while i < raw.len() && raw[i] != 0x3b
        invariant
            i <= raw@.len(),
            clean_name(raw@) == out@ + clean_name(raw@.subrange(i as int, raw@.len() as int)),
        decreases raw@.len() - i,
    {
        let ghost rest = raw@.subrange(i as int, raw@.len() as int);
        assert(rest.drop_first() == raw@.subrange(i + 1, raw@.len() as int));
        assert(rest[0] == raw@[i as int]);
        if is_safe_byte(raw[i]) {
            assert(clean_name(rest) == seq![raw@[i as int]] + clean_name(rest.drop_first()));
            assert(out@.push(raw@[i as int]) == out@ + seq![raw@[i as int]]);
            out.push(raw[i]);
        }
        i += 1;
    }
    proof {
        let rest = raw@.subrange(i as int, raw@.len() as int);
        if i < raw@.len() {
            assert(rest[0] == raw@[i as int]);
        }
        assert(clean_name(rest) == Seq::<u8>::empty());
        assert(out@ + Seq::<u8>::empty() == out@);
    }
    out
}

fn is_pseudo(n: &Vec<u8>) -> (r: bool)
    ensures
        r == is_pseudo_name(n@),
{
    if n.len() == 0 {
        true
    } else if n.len() == 1 {
        assert(n@ == seq![0x2eu8] <==> n@[0] == 0x2e) by {
            if n@[0] == 0x2e {
                assert(n@ =~= seq![0x2eu8]);
            }
        }
        n[0] == 0x2e
    } else if n.len() == 2 {
        assert(n@ == seq![0x2eu8, 0x2eu8] <==> (n@[0] == 0x2e && n@[1] == 0x2e)) by {
            if n@[0] == 0x2e && n@[1] == 0x2e {
                assert(n@ =~= seq![0x2eu8, 0x2eu8]);
            }
        }
        n[0] == 0x2e && n[1] == 0x2e
    } else {
        false
    }
}

/// A directory record as the scan reads it.
pub struct IsoRecordView {
    pub name: Seq<u8>,
    pub is_directory: bool,
    pub location: int,
    pub size: int,
}

/// One entry of a directory block: a file or a subdirectory.
#[derive(Debug, Clone, PartialEq, Eq)]
pub struct IsoRecord {
    /// Cleaned name: no version suffix, only safe bytes.
    pub name: Vec<u8>,
    pub is_directory: bool,
    /// First sector of the entry's extent.
    pub location: u32,
    /// Length of the extent in bytes.
    pub size: u32,
}

impl View for IsoRecord {
    type V = IsoRecordView;

    open spec fn view(&self) -> IsoRecordView {
        IsoRecordView {
            name: self.name@,
            is_directory: self.is_directory,
            location: self.location as int,
            size: self.size as int,
        }
    }
}

/// The views of a sequence of records.
pub open spec fn records_view(v: Seq<IsoRecord>) -> Seq<IsoRecordView> {
    v.map_values(|r: IsoRecord| r@)
}

/// The entry that the record starting at `off` of `block` describes, if any.
/// Fields are read within the block; a name that is empty, `.` or `..` once
/// cleaned gives no entry.
pub open spec fn record_at(block: Seq<u8>, off: int) -> Option<IsoRecordView> {
    if off + 33 > block.len() {
        None
    } else {
        let nl = block[off + 32int] as int;
        if nl == 0 || off + 33 + nl > block.len() {
            None
        } else {
            let name = clean_name(block.subrange(off + 33int, off + 33int + nl));
            if is_pseudo_name(name) {
                None
            } else {
                Some(
                    IsoRecordView {
                        name,
                        is_directory: block[off + 25] & 2 != 0,
                        location: le32(block, off + 2),
                        size: le32(block, off + 10),
                    },
                )
            }
        }
    }
}

/// Whether the scan stops at `off`: the block is exhausted, the length byte
/// is zero, or the record would overrun the block.
pub open spec fn scan_stops(block: Seq<u8>, off: int) -> bool {
    off >= block.len() || block[off] == 0 || off + block[off] > block.len()
}

/// The entries of the records from `off` on: each record's first byte is its
/// length, and the scan ends where `scan_stops` holds.
pub open spec fn records_from(block: Seq<u8>, off: nat) -> Seq<IsoRecordView>
    decreases block.len() - off,
{
    if scan_stops(block, off as int) {
        Seq::empty()
    } else {
        let rest = records_from(block, off + block[off as int] as nat);
        match record_at(block, off as int) {
            Some(r) => seq![r] + rest,
            None => rest,
        }
    }
}

/// Whether the scan, started at `off`, reaches the record boundary `k`.
pub open spec fn reaches(block: Seq<u8>, off: nat, k: nat) -> bool
    decreases block.len() - off,
{
    if off == k {
        true
    } else if off > k || scan_stops(block, off as int) {
        false
    } else {
        reaches(block, off + block[off as int] as nat, k)
    }
}

/// The entries of the records that the scan meets from `off` up to, and not
/// including, the boundary `k`.
pub open spec fn records_between(block: Seq<u8>, off: nat, k: nat) -> Seq<IsoRecordView>
    decreases block.len() - off,
{
    if off >= k || scan_stops(block, off as int) {
        Seq::empty()
    } else {
        let rest = records_between(block, off + block[off as int] as nat, k);
        match record_at(block, off as int) {
            Some(r) => seq![r] + rest,
            None => rest,
        }
    }
}

/// A record whose length byte is zero ends the scan of its block: the entries
/// are exactly those of the records before it, and nothing after it counts.
pub proof fn lemma_zero_length_ends_scan(block: Seq<u8>, k: nat)
    requires
        reaches(block, 0, k),
        k < block.len(),
        block[k as int] == 0,
    ensures
        records_from(block, k) == Seq::<IsoRecordView>::empty(),
        records_from(block, 0) == records_between(block, 0, k),
{
    lemma_prefix_records(block, 0, k);
}

proof fn lemma_prefix_records(block: Seq<u8>, off: nat, k: nat)
    requires
        reaches(block, off, k),
        k < block.len(),
        block[k as int] == 0,
    ensures
        records_from(block, off) == records_between(block, off, k),
    decreases block.len() - off,
{
    if off == k {
    } else {
        lemma_prefix_records(block, off + block[off as int] as nat, k);
    }
}

fn record_entry(block: &[u8], off: usize) -> (r: Option<IsoRecord>)
    requires
        off < block@.len(),
    ensures
        match r {
            Some(x) => record_at(block@, off as int) == Some(x@),
            None => record_at(block@, off as int) is None,
        },
{
    if block.len() - off < 33 {
        return None;
    }
    let nl = block[off + NAME_LEN_OFFSET] as usize;
    if nl == 0 || block.len() - off - 33 < nl {
        return None;
    }
    let name = clean_record_name(&block[off + NAME_OFFSET..off + NAME_OFFSET + nl]);
    if is_pseudo(&name) {
        return None;
    }
    let rec = IsoRecord {
        name,
        is_directory: block[off + 25] & 2 != 0,
        location: read_le32(block, off + 2),
        size: read_le32(block, off + 10),
    };
    Some(rec)
}

/// Scans a directory block into its entries.
pub fn parse_directory_block(block: &[u8]) -> (r: Vec<IsoRecord>)
    ensures
        records_view(r@) == records_from(block@, 0),
{
    let mut out: Vec<IsoRecord> = Vec::new();
    let mut off: usize = 0;
    while off < block.len() && block[off] != 0 && block[off] as usize <= block.len() - off
        invariant
            off <= block@.len(),
            records_from(block@, 0) == records_view(out@) + records_from(block@, off as nat),
        decreases block@.len() - off,
    {
        let len = block[off] as usize;
        let ghost rest = records_from(block@, (off + len) as nat);
        match record_entry(block, off) {
            Some(rec) => {
                proof {
                    assert(records_view(out@.push(rec)) == records_view(out@).push(rec@));
                    assert(records_view(out@).push(rec@) + rest == records_view(out@) + (seq![
                        rec@,
                    ] + rest));
                }
                out.push(rec);
            },
            None => {},
        }
        off += len;
    }
    proof {
        assert(records_from(block@, off as nat) == Seq::<IsoRecordView>::empty());
        assert(records_view(out@) + Seq::<IsoRecordView>::empty() == records_view(out@));
    }
    out
}

/// Deepest directory nesting that extraction descends into.
pub const MAX_DEPTH: usize = 255;

/// Whether the image holds the five-byte standard identifier `CD001` right
/// after the descriptor type byte at `PVD_OFFSET`.
pub open spec fn has_signature(image: Seq<u8>) -> bool {
    image.len() >= PVD_OFFSET + 6 && image.subrange(PVD_OFFSET + 1, PVD_OFFSET + 6) == seq![
        0x43u8,
        0x44u8,
        0x30u8,
        0x30u8,
        0x31u8,
    ]
}

/// Sector of the root directory extent, from the primary volume descriptor.
pub open spec fn root_location_of(image: Seq<u8>) -> int {
    le32(image, PVD_OFFSET + 158)
}

/// Length of the root directory extent, from the primary volume descriptor.
pub open spec fn root_size_of(image: Seq<u8>) -> int {
    le32(image, PVD_OFFSET + 166)
}

/// Where the root directory lies.
#[derive(Debug, Clone, Copy, PartialEq, Eq, Structural)]
pub struct IsoVolume {
    pub root_location: u32,
    pub root_size: u32,
}

/// Reads the primary volume descriptor of an image: a missing identifier
/// (also in an image too short to hold one) is `InvalidVolumeSignature`, a
/// descriptor cut short is an `Io` error.
pub fn parse_volume(image: &[u8]) -> (r: Result<IsoVolume, ArchiveError>)
    ensures
        !has_signature(image@) ==> r == Err::<IsoVolume, ArchiveError>(
            ArchiveError::InvalidVolumeSignature,
        ),
        has_signature(image@) && image@.len() < PVD_OFFSET + SECTOR_SIZE ==> r == Err::<
            IsoVolume,
            ArchiveError,
        >(ArchiveError::Io),
        r is Ok <==> (image@.len() >= PVD_OFFSET + SECTOR_SIZE && has_signature(image@)),
        r matches Ok(v) ==> v.root_location as int == root_location_of(image@) && v.root_size
            as int == root_size_of(image@),
{
    if image.len() < PVD_OFFSET + 6 {
        return Err(ArchiveError::InvalidVolumeSignature);
    }
    let sig = image[PVD_OFFSET + 1] == 0x43 && image[PVD_OFFSET + 2] == 0x44 && image[PVD_OFFSET
        + 3] == 0x30 && image[PVD_OFFSET + 4] == 0x30 && image[PVD_OFFSET + 5] == 0x31;
    proof {
        let sub = image@.subrange(PVD_OFFSET + 1, PVD_OFFSET + 6);
        let want = seq![0x43u8, 0x44u8, 0x30u8, 0x30u8, 0x31u8];
        if sig {
            assert(sub =~= want);
        } else {
            if sub == want {
                assert(sub[0] == want[0] && sub[1] == want[1] && sub[2] == want[2] && sub[3]
                    == want[3] && sub[4] == want[4]);
            }
        }
    }
    if !sig {
        return Err(ArchiveError::InvalidVolumeSignature);
    }
    if image.len() < PVD_OFFSET + SECTOR_SIZE {
        return Err(ArchiveError::Io);
    }
    Ok(
        IsoVolume {
            root_location: read_le32(image, PVD_OFFSET + 158),
            root_size: read_le32(image, PVD_OFFSET + 166),
        },
    )
}

/// What extraction does for one entry. Paths are relative to the
/// destination, with components joined by `/`.
#[derive(Debug, Clone, PartialEq, Eq)]
pub enum IsoAction {
    /// Create this directory.
    Directory { path: Vec<u8> },
    /// Write `len` bytes of the image from byte `start` to this file.
    File { path: Vec<u8>, start: usize, len: usize },
    /// The entry's extent lies outside the image, or nesting is too deep:
    /// nothing is written for it.
    Skipped { path: Vec<u8> },
}

/// The model of an `IsoAction`.
pub enum IsoActionView {
    Directory { path: Seq<u8> },
    File { path: Seq<u8>, start: int, len: int },
    Skipped { path: Seq<u8> },
}

impl View for IsoAction {
    type V = IsoActionView;

    open spec fn view(&self) -> IsoActionView {
        match self {
            IsoAction::Directory { path } => IsoActionView::Directory { path: path@ },
            IsoAction::File { path, start, len } => IsoActionView::File {
                path: path@,
                start: *start as int,
                len: *len as int,
            },
            IsoAction::Skipped { path } => IsoActionView::Skipped { path: path@ },
        }
    }
}

/// The views of a sequence of actions.
pub open spec fn actions_view(v: Seq<IsoAction>) -> Seq<IsoActionView> {
    v.map_values(|a: IsoAction| a@)
}

/// Whether the extent (`location`, `size`) lies inside an image of `len`
/// bytes; an empty extent always does.
pub open spec fn extent_within(len: int, location: int, size: int) -> bool {
    size == 0 || location * SECTOR_SIZE + size <= len
}

/// Whether the extent (`location`, `size`) lies inside the image.
pub open spec fn extent_fits(image: Seq<u8>, location: int, size: int) -> bool {
    extent_within(image.len() as int, location, size)
}

/// First byte of an extent that fits; 0 for an empty one.
pub open spec fn extent_start(location: int, size: int) -> int {
    if size == 0 {
        0
    } else {
        location * SECTOR_SIZE
    }
}

/// The bytes of an extent that fits.
pub open spec fn extent_bytes(image: Seq<u8>, location: int, size: int) -> Seq<u8> {
    image.subrange(extent_start(location, size), extent_start(location, size) + size)
}

/// `name` placed under the directory path `prefix`.
pub open spec fn child_path(prefix: Seq<u8>, name: Seq<u8>) -> Seq<u8> {
    if prefix.len() == 0 {
        name
    } else {
        join(prefix, name)
    }
}

/// The actions for one entry under `prefix`, inside the directories whose
/// extents start at `ancestors`, with `depth` more levels of nesting allowed
/// below it. A directory is not entered again when its extent is already on
/// the path, nor when it lies outside the image.
pub open spec fn record_actions(
    image: Seq<u8>,
    r: IsoRecordView,
    prefix: Seq<u8>,
    ancestors: Seq<int>,
    depth: nat,
) -> Seq<IsoActionView>
    decreases depth, 0nat, 1nat,
{
    let path = child_path(prefix, r.name);
    if r.is_directory {
        if depth == 0 || !extent_fits(image, r.location, r.size) || ancestors.contains(r.location) {
            seq![IsoActionView::Directory { path }, IsoActionView::Skipped { path }]
        } else {
            seq![IsoActionView::Directory { path }] + records_actions(
                image,
                records_from(extent_bytes(image, r.location, r.size), 0),
                path,
                ancestors.push(r.location),
                (depth - 1) as nat,
            )
        }
    } else if extent_fits(image, r.location, r.size) {
        seq![IsoActionView::File { path, start: extent_start(r.location, r.size), len: r.size }]
    } else {
        seq![IsoActionView::Skipped { path }]
    }
}

/// The actions for the entries `recs` of a directory at `prefix`, in order.
pub open spec fn records_actions(
    image: Seq<u8>,
    recs: Seq<IsoRecordView>,
    prefix: Seq<u8>,
    ancestors: Seq<int>,
    depth: nat,
) -> Seq<IsoActionView>
    decreases depth, recs.len(), 0nat,
{
    if recs.len() == 0 {
        Seq::empty()
    } else {
        record_actions(image, recs[0], prefix, ancestors, depth) + records_actions(
            image,
            recs.drop_first(),
            prefix,
            ancestors,
            depth,
        )
    }
}

/// The whole extraction of an image: the volume descriptor is read, then the
/// root directory's entries are walked depth first, each directory before
/// what it holds.
pub open spec fn extraction_plan(image: Seq<u8>) -> Result<Seq<IsoActionView>, ArchiveError> {
    if !has_signature(image) {
        Err(ArchiveError::InvalidVolumeSignature)
    } else if image.len() < PVD_OFFSET + SECTOR_SIZE {
        Err(ArchiveError::Io)
    } else if !extent_fits(image, root_location_of(image), root_size_of(image)) {
        Err(ArchiveError::MalformedDirectoryRecord)
    } else {
        Ok(
            records_actions(
                image,
                records_from(extent_bytes(image, root_location_of(image), root_size_of(image)), 0),
                Seq::empty(),
                seq![root_location_of(image)],
                MAX_DEPTH as nat,
            ),
        )
    }
}

fn extent_range(image_len: usize, location: u32, size: u32) -> (r: Option<(usize, usize)>)
    ensures
        r is Some <==> extent_within(image_len as int, location as int, size as int),
        r matches Some(p) ==> p.0 as int == extent_start(location as int, size as int) && p.1 as int
            == p.0 + size && p.1 <= image_len,
{
    if size == 0 {
        return Some((0, 0));
    }
    let start: u64 = location as u64 * 2048;
    let end: u64 = start + size as u64;
    if end <= image_len as u64 {
        Some((start as usize, end as usize))
    } else {
        None
    }
}

fn join_name(prefix: &Vec<u8>, name: &Vec<u8>) -> (r: Vec<u8>)
    ensures
        r@ == child_path(prefix@, name@),
{
    let mut p: Vec<u8> = Vec::new();
    append_bytes(&mut p, prefix.as_slice());
    if prefix.len() > 0 {
        p.push(0x2f);
    } else {
        assert(p@ == Seq::<u8>::empty());
    }
    append_bytes(&mut p, name.as_slice());
    p
}

fn push_action(out: &mut Vec<IsoAction>, a: IsoAction)
    ensures
        actions_view(final(out)@) == actions_view(old(out)@) + seq![a@],
{
    let ghost before = out@;
    out.push(a);
    assert(actions_view(out@) =~= actions_view(before) + seq![a@]);
}

/// The extent locations of a sequence, as integers.
pub open spec fn locations_view(v: Seq<u32>) -> Seq<int> {
    v.map_values(|l: u32| l as int)
}

fn holds_location(v: &Vec<u32>, loc: u32) -> (r: bool)
    ensures
        r == locations_view(v@).contains(loc as int),
{
    let mut i: usize = 0;
    while i < v.len()
        invariant
            i <= v@.len(),
            forall|m: int| 0 <= m < i ==> v@[m] != loc,
        decreases v@.len() - i,
    {
        if v[i] == loc {
            assert(locations_view(v@)[i as int] == loc as int);
            return true;
        }
        i += 1;
    }
    assert(!locations_view(v@).contains(loc as int)) by {
        if locations_view(v@).contains(loc as int) {
            let k = choose|k: int| 0 <= k < locations_view(v@).len() && locations_view(v@)[k] == loc as int;
            assert(v@[k] == loc);
        }
    }
    false
}

fn plan_records(
    image: &[u8],
    recs: &Vec<IsoRecord>,
    prefix: &Vec<u8>,
    ancestors: &mut Vec<u32>,
    depth: usize,
    out: &mut Vec<IsoAction>,
)
    ensures
        final(ancestors)@ == old(ancestors)@,
        actions_view(final(out)@) == actions_view(old(out)@) + records_actions(
            image@,
            records_view(recs@),
            prefix@,
            locations_view(old(ancestors)@),
            depth as nat,
        ),
    decreases depth,
{
    let ghost anc0 = ancestors@;
    let ghost av = locations_view(ancestors@);
    let ghost all = records_view(recs@);
    let ghost first = actions_view(out@);
    let mut i: usize = 0;
    assert(all.subrange(0, all.len() as int) == all);
    assert(first + records_actions(image@, all, prefix@, av, depth as nat) == actions_view(out@)
        + records_actions(image@, all.subrange(0, all.len() as int), prefix@, av, depth as nat));
    while i < recs.len()
        invariant
            i <= recs@.len(),
            all == records_view(recs@),
            ancestors@ == anc0,
            av == locations_view(anc0),
            first + records_actions(image@, all, prefix@, av, depth as nat) == actions_view(out@)
                + records_actions(image@, all.subrange(i as int, all.len() as int), prefix@, av, depth as nat),
        decreases recs@.len() - i,
    {
        let ghost rest = all.subrange(i as int, all.len() as int);
        let ghost before = actions_view(out@);
        assert(rest.drop_first() == all.subrange(i + 1, all.len() as int));
        assert(rest[0] == recs@[i as int]@);
        let r = &recs[i];
        let path = join_name(prefix, &r.name);
        let ghost rv = r@;
        if r.is_directory {
            push_action(out, IsoAction::Directory { path: path.clone() });
            let range = extent_range(image.len(), r.location, r.size);
            let seen = holds_location(ancestors, r.location);
            if depth == 0 || range.is_none() || seen {
                push_action(out, IsoAction::Skipped { path });
                assert(actions_view(out@) == before + record_actions(image@, rv, prefix@, av, depth as nat));
            } else {
                let (s, e) = range.unwrap();
                let block = &image[s..e];
                assert(block@ == extent_bytes(image@, rv.location, rv.size));
                let sub = parse_directory_block(block);
                ancestors.push(r.location);
                assert(locations_view(ancestors@) =~= av.push(rv.location));
                plan_records(image, &sub, &path, ancestors, depth - 1, out);
                ancestors.pop();
                assert(ancestors@ =~= anc0);
                assert(actions_view(out@) == before + record_actions(image@, rv, prefix@, av, depth as nat));
            }
        } else {
            let range = extent_range(image.len(), r.location, r.size);
            match range {
                Some((s, e)) => {
                    push_action(out, IsoAction::File { path, start: s, len: e - s });
                },
                None => {
                    push_action(out, IsoAction::Skipped { path });
                },
            }
            assert(actions_view(out@) == before + record_actions(image@, rv, prefix@, av, depth as nat));
        }
        i += 1;
    }
    assert(all.subrange(i as int, all.len() as int) == Seq::<IsoRecordView>::empty());
    assert(actions_view(out@) + Seq::<IsoActionView>::empty() == actions_view(out@));
}

/// Plans the extraction of an ISO 9660 image held in memory: the list of
/// directories to create and file extents to write, in order. Nothing is
/// planned unless the volume descriptor is sound.
pub fn plan_extraction(image: &[u8]) -> (r: Result<Vec<IsoAction>, ArchiveError>)
    ensures
        match r {
            Ok(v) => extraction_plan(image@) == Ok::<Seq<IsoActionView>, ArchiveError>(
                actions_view(v@),
            ),
            Err(e) => extraction_plan(image@) == Err::<Seq<IsoActionView>, ArchiveError>(e),
        },
{
    let vol = match parse_volume(image) {
        Ok(v) => v,
        Err(e) => {
            return Err(e);
        },
    };
    let range = extent_range(image.len(), vol.root_location, vol.root_size);
    let (s, e) = match range {
        Some(p) => p,
        None => {
            return Err(ArchiveError::MalformedDirectoryRecord);
        },
    };
    let block = &image[s..e];
    let recs = parse_directory_block(block);
    let mut out: Vec<IsoAction> = Vec::new();
    let prefix: Vec<u8> = Vec::new();
    assert(actions_view(out@) == Seq::<IsoActionView>::empty());
    let mut ancestors: Vec<u32> = Vec::new();
    ancestors.push(vol.root_location);
    assert(locations_view(ancestors@) =~= seq![root_location_of(image@)]);
    plan_records(image, &recs, &prefix, &mut ancestors, MAX_DEPTH, &mut out);
    assert(actions_view(out@) == Seq::<IsoActionView>::empty() + records_actions(
        image@,
        records_view(recs@),
        prefix@,
        seq![root_location_of(image@)],
        MAX_DEPTH as nat,
    ));
    Ok(out)
}

/// A record whose length byte is zero, inside the block of a subdirectory
/// that extraction enters, ends that block: the directory is created, and
/// what follows it is planned from the records before the zero byte alone.
/// The entries planned so far stay in the plan.
pub proof fn lemma_zero_length_ends_subdirectory(
    image: Seq<u8>,
    r: IsoRecordView,
    prefix: Seq<u8>,
    ancestors: Seq<int>,
    depth: nat,
    k: nat,
)
    requires
        r.is_directory,
        depth > 0,
        extent_fits(image, r.location, r.size),
        !ancestors.contains(r.location),
        reaches(extent_bytes(image, r.location, r.size), 0, k),
        k < extent_bytes(image, r.location, r.size).len(),
        extent_bytes(image, r.location, r.size)[k as int] == 0,
    ensures
        record_actions(image, r, prefix, ancestors, depth) == seq![
            IsoActionView::Directory { path: child_path(prefix, r.name) },
        ] + records_actions(
            image,
            records_between(extent_bytes(image, r.location, r.size), 0, k),
            child_path(prefix, r.name),
            ancestors.push(r.location),
            (depth - 1) as nat,
        ),
{
    lemma_zero_length_ends_scan(extent_bytes(image, r.location, r.size), k);
}

/// The path that an action creates, writes or skips.
pub open spec fn action_path(a: IsoActionView) -> Seq<u8> {
    match a {
        IsoActionView::Directory { path } => path,
        IsoActionView::File { path, .. } => path,
        IsoActionView::Skipped { path } => path,
    }
}

proof fn lemma_clean_name_safe(raw: Seq<u8>)
    ensures
        forall|k: int| 0 <= k < clean_name(raw).len() ==> is_safe_name_byte(#[trigger] clean_name(raw)[k]),
    decreases raw.len(),
{
    if raw.len() > 0 && raw[0] != 0x3b {
        lemma_clean_name_safe(raw.drop_first());
        let rest = clean_name(raw.drop_first());
        if is_safe_name_byte(raw[0]) {
            assert forall|k: int| 0 <= k < clean_name(raw).len() implies is_safe_name_byte(#[trigger] clean_name(raw)[k]) by {
                if k > 0 {
                    assert(clean_name(raw)[k] == rest[k - 1]);
                }
            }
        }
    }
}

proof fn lemma_record_names_plain(block: Seq<u8>, off: nat)
    ensures
        forall|i: int|
            0 <= i < records_from(block, off).len() ==> is_plain_name(
                #[trigger] records_from(block, off)[i].name,
            ),
    decreases block.len() - off,
{
    if !scan_stops(block, off as int) {
        let next = (off + block[off as int] as nat) as nat;
        lemma_record_names_plain(block, next);
        let all = records_from(block, off);
        let rest = records_from(block, next);
        match record_at(block, off as int) {
            Some(r) => {
                let nl = block[off + 32int] as int;
                lemma_clean_name_safe(block.subrange(off + 33int, off + 33int + nl));
                if r.name.len() >= 2 {
                    assert(is_safe_name_byte(r.name[1]));
                }
                assert(is_plain_name(r.name));
                assert forall|i: int| 0 <= i < all.len() implies is_plain_name(#[trigger] all[i].name) by {
                    if i > 0 {
                        assert(all[i] == rest[i - 1]);
                    }
                }
            },
            None => {},
        }
    }
}

proof fn lemma_child_path_contained(prefix: Seq<u8>, name: Seq<u8>)
    requires
        prefix.len() == 0 || is_contained_path(prefix),
        is_plain_name(name),
    ensures
        is_contained_path(child_path(prefix, name)),
{
    lemma_plain_name_contained(name);
    if prefix.len() > 0 {
        lemma_join_contained(prefix, name);
    }
}

proof fn lemma_records_actions_contained(
    image: Seq<u8>,
    recs: Seq<IsoRecordView>,
    prefix: Seq<u8>,
    ancestors: Seq<int>,
    depth: nat,
)
    requires
        prefix.len() == 0 || is_contained_path(prefix),
        forall|i: int| 0 <= i < recs.len() ==> is_plain_name(#[trigger] recs[i].name),
    ensures
        forall|i: int|
            0 <= i < records_actions(image, recs, prefix, ancestors, depth).len() ==> is_contained_path(
                action_path(#[trigger] records_actions(image, recs, prefix, ancestors, depth)[i]),
            ),
    decreases depth, recs.len(),
{
    if recs.len() > 0 {
        let r = recs[0];
        let path = child_path(prefix, r.name);
        lemma_child_path_contained(prefix, r.name);
        let here = record_actions(image, r, prefix, ancestors, depth);
        let tail_recs = recs.drop_first();
        assert forall|i: int| 0 <= i < tail_recs.len() implies is_plain_name(#[trigger] tail_recs[i].name) by {
            assert(tail_recs[i] == recs[i + 1]);
        }
        lemma_records_actions_contained(image, tail_recs, prefix, ancestors, depth);
        let tail = records_actions(image, tail_recs, prefix, ancestors, depth);
        if r.is_directory && depth > 0 && extent_fits(image, r.location, r.size)
            && !ancestors.contains(r.location) {
            let sub_recs = records_from(extent_bytes(image, r.location, r.size), 0);
            lemma_record_names_plain(extent_bytes(image, r.location, r.size), 0);
            lemma_records_actions_contained(image, sub_recs, path, ancestors.push(r.location), (depth - 1) as nat);
            let sub = records_actions(image, sub_recs, path, ancestors.push(r.location), (depth - 1) as nat);
            assert forall|i: int| 0 <= i < here.len() implies is_contained_path(action_path(#[trigger] here[i])) by {
                if i > 0 {
                    assert(here[i] == sub[i - 1]);
                }
            }
        }
        let all = records_actions(image, recs, prefix, ancestors, depth);
        assert forall|i: int| 0 <= i < all.len() implies is_contained_path(action_path(#[trigger] all[i])) by {
            if i < here.len() {
                assert(all[i] == here[i]);
            } else {
                assert(all[i] == tail[i - here.len()]);
            }
        }
    }
}

/// Extraction stays inside the destination: every path that the plan of an
/// image creates, writes or skips is relative, non-empty and free of `..`
/// components.
pub proof fn lemma_extraction_paths_contained(image: Seq<u8>)
    ensures
        extraction_plan(image) matches Ok(v) ==> forall|i: int|
            0 <= i < v.len() ==> is_contained_path(action_path(#[trigger] v[i])),
{
    if extraction_plan(image) is Ok {
        let block = extent_bytes(image, root_location_of(image), root_size_of(image));
        lemma_record_names_plain(block, 0);
        lemma_records_actions_contained(
            image,
            records_from(block, 0),
            Seq::empty(),
            seq![root_location_of(image)],
            MAX_DEPTH as nat,
        );
    }
}

} // verus!
