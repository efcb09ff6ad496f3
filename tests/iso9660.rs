use stelarc::iso9660::{
    clean_record_name, parse_directory_block, parse_volume, plan_extraction, read_le32, IsoAction,
    IsoVolume, PVD_OFFSET, SECTOR_SIZE,
};
use stelarc::ArchiveError;

fn record(name: &[u8], location: u32, size: u32, flags: u8) -> Vec<u8> {
    let len = 33 + name.len() + (name.len() + 1) % 2;
    let mut r = vec![0u8; len];
    r[0] = len as u8;
    r[2..6].copy_from_slice(&location.to_le_bytes());
    r[10..14].copy_from_slice(&size.to_le_bytes());
    r[25] = flags;
    r[32] = name.len() as u8;
    r[33..33 + name.len()].copy_from_slice(name);
    r
}

fn image(sectors: usize, root_location: u32, root_size: u32) -> Vec<u8> {
    let mut img = vec![0u8; sectors * SECTOR_SIZE];
    img[PVD_OFFSET] = 1;
    img[PVD_OFFSET + 1..PVD_OFFSET + 6].copy_from_slice(b"CD001");
    img[PVD_OFFSET + 158..PVD_OFFSET + 162].copy_from_slice(&root_location.to_le_bytes());
    img[PVD_OFFSET + 166..PVD_OFFSET + 170].copy_from_slice(&root_size.to_le_bytes());
    img
}

fn put(img: &mut Vec<u8>, at: usize, bytes: &[u8]) {
    img[at..at + bytes.len()].copy_from_slice(bytes);
}

#[test]
fn readme_extracted_from_sector_25() {
    let mut img = image(26, 20, 2048);
    let mut block = record(&[0], 20, 2048, 2);
    block.extend(record(&[1], 20, 2048, 2));
    block.extend(record(b"README.TXT;1", 25, 11, 0));
    put(&mut img, 20 * SECTOR_SIZE, &block);
    put(&mut img, 25 * SECTOR_SIZE, b"hello world");
    let plan = plan_extraction(&img).unwrap();
    assert_eq!(
        plan,
        vec![IsoAction::File { path: b"README.TXT".to_vec(), start: 25 * 2048, len: 11 }]
    );
    if let IsoAction::File { start, len, .. } = &plan[0] {
        assert_eq!(&img[*start..*start + *len], b"hello world");
    }
}

#[test]
fn missing_signature_is_rejected() {
    let mut img = image(26, 20, 2048);
    put(&mut img, PVD_OFFSET + 1, b"CD002");
    put(&mut img, 20 * SECTOR_SIZE, &record(b"A.TXT;1", 25, 3, 0));
    assert_eq!(plan_extraction(&img), Err(ArchiveError::InvalidVolumeSignature));
    assert_eq!(parse_volume(&img), Err(ArchiveError::InvalidVolumeSignature));
}

#[test]
fn short_image_errors() {
    assert_eq!(plan_extraction(&vec![0u8; 100]), Err(ArchiveError::InvalidVolumeSignature));
    assert_eq!(parse_volume(&vec![0u8; PVD_OFFSET + 3]), Err(ArchiveError::InvalidVolumeSignature));
    let mut img = vec![0u8; PVD_OFFSET + 100];
    put(&mut img, PVD_OFFSET + 1, b"CD001");
    assert_eq!(parse_volume(&img), Err(ArchiveError::Io));
}

#[test]
fn volume_reads_root_extent() {
    let img = image(17, 20, 4096);
    assert_eq!(parse_volume(&img), Ok(IsoVolume { root_location: 20, root_size: 4096 }));
}

#[test]
fn root_extent_outside_image() {
    let img = image(17, 40, 2048);
    assert_eq!(plan_extraction(&img), Err(ArchiveError::MalformedDirectoryRecord));
}

#[test]
fn zero_length_record_stops_scan() {
    let mut block = record(b"FIRST.TXT;1", 30, 4, 0);
    block.push(0);
    block.extend(vec![0u8; 3]);
    block.extend(record(b"LATER.TXT;1", 31, 4, 0));
    let recs = parse_directory_block(&block);
    assert_eq!(recs.len(), 1);
    assert_eq!(recs[0].name, b"FIRST.TXT".to_vec());
    assert_eq!(recs[0].location, 30);
    assert_eq!(recs[0].size, 4);
    assert!(!recs[0].is_directory);
}

#[test]
fn overrunning_record_stops_scan() {
    let mut block = record(b"ONE;1", 30, 4, 0);
    let mut bad = record(b"TWO;1", 31, 4, 0);
    bad[0] = 200;
    block.extend(bad);
    let recs = parse_directory_block(&block);
    assert_eq!(recs.len(), 1);
    assert_eq!(recs[0].name, b"ONE".to_vec());
}

#[test]
fn names_are_cleaned() {
    assert_eq!(clean_record_name(b"README.TXT;1"), b"README.TXT".to_vec());
    assert_eq!(clean_record_name(b"A/B\\C:D*E"), b"ABCDE".to_vec());
    assert_eq!(clean_record_name(b";1"), Vec::<u8>::new());
    assert_eq!(clean_record_name(&[0x00]), Vec::<u8>::new());
    assert_eq!(clean_record_name(b"X<Y>Z|Q?\"W\x7f"), b"XYZQW".to_vec());
}

#[test]
fn nested_directories_are_planned_depth_first() {
    let mut img = image(30, 20, 2048);
    let mut root = record(&[0], 20, 2048, 2);
    root.extend(record(b"DOCS", 21, 2048, 2));
    root.extend(record(b"TOP.TXT;1", 26, 2, 0));
    put(&mut img, 20 * SECTOR_SIZE, &root);
    let mut docs = record(&[0], 21, 2048, 2);
    docs.extend(record(&[1], 20, 2048, 2));
    docs.extend(record(b"IN.TXT;1", 27, 3, 0));
    put(&mut img, 21 * SECTOR_SIZE, &docs);
    let plan = plan_extraction(&img).unwrap();
    assert_eq!(
        plan,
        vec![
            IsoAction::Directory { path: b"DOCS".to_vec() },
            IsoAction::File { path: b"DOCS/IN.TXT".to_vec(), start: 27 * 2048, len: 3 },
            IsoAction::File { path: b"TOP.TXT".to_vec(), start: 26 * 2048, len: 2 },
        ]
    );
}

#[test]
fn truncated_file_is_skipped_and_rest_kept() {
    let mut img = image(26, 20, 2048);
    let mut root = record(b"GONE.BIN;1", 500, 10, 0);
    root.extend(record(b"KEPT.BIN;1", 25, 5, 0));
    root.extend(record(b"EMPTY.BIN;1", 900, 0, 0));
    put(&mut img, 20 * SECTOR_SIZE, &root);
    let plan = plan_extraction(&img).unwrap();
    assert_eq!(
        plan,
        vec![
            IsoAction::Skipped { path: b"GONE.BIN".to_vec() },
            IsoAction::File { path: b"KEPT.BIN".to_vec(), start: 25 * 2048, len: 5 },
            IsoAction::File { path: b"EMPTY.BIN".to_vec(), start: 0, len: 0 },
        ]
    );
}

#[test]
fn unreadable_subdirectory_is_skipped() {
    let mut img = image(26, 20, 2048);
    put(&mut img, 20 * SECTOR_SIZE, &record(b"FAR", 9000, 2048, 2));
    let plan = plan_extraction(&img).unwrap();
    assert_eq!(
        plan,
        vec![
            IsoAction::Directory { path: b"FAR".to_vec() },
            IsoAction::Skipped { path: b"FAR".to_vec() },
        ]
    );
}

#[test]
fn le32_reads_little_endian() {
    assert_eq!(read_le32(&[0x78, 0x56, 0x34, 0x12, 0xff], 0), 0x12345678);
    assert_eq!(read_le32(&[0, 0xff, 0xff, 0xff, 0xff], 1), u32::MAX);
}

#[test]
fn parent_named_record_is_dropped() {
    let mut img = image(26, 20, 2048);
    let mut root = record(b"..;1", 25, 3, 0);
    root.extend(record(b"../ESC.TXT;1", 25, 3, 0));
    put(&mut img, 20 * SECTOR_SIZE, &root);
    let plan = plan_extraction(&img).unwrap();
    assert_eq!(plan, vec![IsoAction::File { path: b"..ESC.TXT".to_vec(), start: 25 * 2048, len: 3 }]);
}

#[test]
fn directory_pointing_at_an_enclosing_extent_is_not_reentered() {
    let mut img = image(26, 20, 2048);
    let mut root = record(b"LOOP", 20, 2048, 2);
    root.extend(record(b"SUB", 21, 2048, 2));
    put(&mut img, 20 * SECTOR_SIZE, &root);
    put(&mut img, 21 * SECTOR_SIZE, &record(b"BACK", 21, 2048, 2));
    let plan = plan_extraction(&img).unwrap();
    assert_eq!(
        plan,
        vec![
            IsoAction::Directory { path: b"LOOP".to_vec() },
            IsoAction::Skipped { path: b"LOOP".to_vec() },
            IsoAction::Directory { path: b"SUB".to_vec() },
            IsoAction::Directory { path: b"SUB/BACK".to_vec() },
            IsoAction::Skipped { path: b"SUB/BACK".to_vec() },
        ]
    );
}

#[test]
fn zero_length_record_in_subdirectory_keeps_earlier_entries() {
    let mut img = image(30, 20, 2048);
    let mut root = record(b"SUB", 21, 2048, 2);
    root.extend(record(b"AFTER.TXT;1", 27, 1, 0));
    put(&mut img, 20 * SECTOR_SIZE, &root);
    let mut sub = record(b"KEPT.TXT;1", 26, 2, 0);
    sub.push(0);
    sub.extend(vec![0u8; 5]);
    sub.extend(record(b"LOST.TXT;1", 26, 2, 0));
    put(&mut img, 21 * SECTOR_SIZE, &sub);
    let plan = plan_extraction(&img).unwrap();
    assert_eq!(
        plan,
        vec![
            IsoAction::Directory { path: b"SUB".to_vec() },
            IsoAction::File { path: b"SUB/KEPT.TXT".to_vec(), start: 26 * 2048, len: 2 },
            IsoAction::File { path: b"AFTER.TXT".to_vec(), start: 27 * 2048, len: 1 },
        ]
    );
}
