use minecraft_regions_tool::region_file::{InvalidShift, Locations, RegionFile};
use minecraft_regions_tool::scan::ScanOptions;
use std::io::Read;

const SECTOR: usize = 4096;

fn put_name(out: &mut Vec<u8>, tag: u8, name: &str) {
    out.push(tag);
    out.extend_from_slice(&(name.len() as u16).to_be_bytes());
    out.extend_from_slice(name.as_bytes());
}

fn put_empty_list(out: &mut Vec<u8>, name: &str) {
    put_name(out, 9, name);
    out.push(0);
    out.extend_from_slice(&0u32.to_be_bytes());
}

/// A root compound holding a `Level` compound with every required field.
fn chunk_tree(x: i32, z: i32) -> Vec<u8> {
    let mut out = vec![10u8, 0, 0];
    put_name(&mut out, 10, "Level");
    put_name(&mut out, 3, "xPos");
    out.extend_from_slice(&x.to_be_bytes());
    put_name(&mut out, 3, "zPos");
    out.extend_from_slice(&z.to_be_bytes());
    put_empty_list(&mut out, "Sections");
    put_name(&mut out, 4, "LastUpdate");
    out.extend_from_slice(&7i64.to_be_bytes());
    put_name(&mut out, 4, "InhabitedTime");
    out.extend_from_slice(&0i64.to_be_bytes());
    put_name(&mut out, 10, "Heightmaps");
    out.push(0);
    put_empty_list(&mut out, "Entities");
    put_empty_list(&mut out, "TileEntities");
    put_empty_list(&mut out, "LiquidTicks");
    put_empty_list(&mut out, "PostProcessing");
    put_name(&mut out, 8, "Status");
    out.extend_from_slice(&4u16.to_be_bytes());
    out.extend_from_slice(b"full");
    put_name(&mut out, 10, "Structures");
    out.push(0);
    out.push(0);
    out.push(0);
    out
}

fn set_entry(file: &mut Vec<u8>, index: usize, offset: u32, count: u8) {
    let b = offset.to_be_bytes();
    file[4 * index] = b[1];
    file[4 * index + 1] = b[2];
    file[4 * index + 2] = b[3];
    file[4 * index + 3] = count;
}

fn put_record(file: &mut Vec<u8>, sector: usize, length: u32, tag: u8, payload: &[u8]) {
    let at = sector * SECTOR;
    file[at..at + 4].copy_from_slice(&length.to_be_bytes());
    file[at + 4] = tag;
    file[at + 5..at + 5 + payload.len()].copy_from_slice(payload);
}

fn entry_of(file: &[u8], index: usize) -> (u32, u8) {
    let table = Locations::from_bytes(&file[0..SECTOR]);
    table.get_chunk_entry_unchecked(index)
}

/// One record at sector 2, table slot 0, raw tree with coordinates (x, z).
fn scenario_file(sectors: usize, count: u8, tag: u8, x: i32, z: i32) -> Vec<u8> {
    let mut file = vec![0u8; sectors * SECTOR];
    set_entry(&mut file, 0, 2, count);
    put_record(&mut file, 2, 10, tag, &chunk_tree(x, z));
    file
}

fn options(fix: bool, delete: bool) -> ScanOptions {
    ScanOptions::new().fix(fix).fix_delete(delete)
}

#[test]
fn clean_record_has_no_anomalies() {
    let file = scenario_file(3, 1, 0, 0, 0);
    let mut region = RegionFile::new(file.clone()).unwrap();
    assert_eq!(region.count_chunks(), 1);
    let stats = region.scan_chunks(&options(false, false)).unwrap();
    assert_eq!(stats.total_chunks, 1);
    assert_eq!(stats.invalid_length, 0);
    assert_eq!(stats.invalid_compression_method, 0);
    assert_eq!(stats.missing_nbt, 0);
    assert_eq!(stats.corrupted_nbt, 0);
    assert_eq!(stats.failed_to_read, 0);
    assert_eq!(stats.corrupted_compression, 0);
    assert_eq!(stats.invalid_chunk_pointer, 0);
    assert_eq!(stats.unused_space, 0);
    assert_eq!(region.close(), file);
}

#[test]
fn invalid_compression_tag_is_rewritten_to_gzip() {
    let file = scenario_file(3, 1, 9, 0, 0);
    let mut region = RegionFile::new(file.clone()).unwrap();
    let stats = region.scan_chunks(&options(false, false)).unwrap();
    assert_eq!(stats.invalid_compression_method, 1);
    assert_eq!(region.close()[2 * SECTOR + 4], 9);

    let mut region = RegionFile::new(file).unwrap();
    let stats = region.scan_chunks(&options(true, false)).unwrap();
    assert_eq!(stats.invalid_compression_method, 1);
    assert_eq!(region.close()[2 * SECTOR + 4], 1);
}

#[test]
fn declared_count_is_corrected() {
    let file = scenario_file(5, 3, 0, 0, 0);
    let mut region = RegionFile::new(file.clone()).unwrap();
    let stats = region.scan_chunks(&options(false, false)).unwrap();
    assert_eq!(stats.invalid_length, 1);
    assert_eq!(entry_of(&region.close(), 0), (2, 3));

    let mut region = RegionFile::new(file).unwrap();
    let stats = region.scan_chunks(&options(true, false)).unwrap();
    assert_eq!(stats.invalid_length, 1);
    assert_eq!(entry_of(&region.close(), 0), (2, 1));
}

#[test]
fn misplaced_chunk_entry_is_deleted() {
    let file = scenario_file(3, 1, 0, 5, 5);
    let mut region = RegionFile::new(file.clone()).unwrap();
    let stats = region.scan_chunks(&options(false, false)).unwrap();
    assert_eq!(stats.invalid_chunk_pointer, 1);
    assert_eq!(entry_of(&region.close(), 0), (2, 1));

    let mut region = RegionFile::new(file).unwrap();
    let stats = region.scan_chunks(&options(false, true)).unwrap();
    assert_eq!(stats.invalid_chunk_pointer, 1);
    assert_eq!(entry_of(&region.close(), 0), (0, 0));
}

#[test]
fn gap_is_detected_and_compacted() {
    let mut file = vec![0u8; 11 * SECTOR];
    set_entry(&mut file, 0, 2, 1);
    set_entry(&mut file, 1, 10, 1);
    put_record(&mut file, 2, 10, 0, &chunk_tree(0, 0));
    put_record(&mut file, 10, 10, 0, &chunk_tree(1, 0));
    let moved = file[10 * SECTOR..11 * SECTOR].to_vec();

    let mut region = RegionFile::new(file.clone()).unwrap();
    let stats = region.scan_chunks(&options(false, false)).unwrap();
    assert_eq!(stats.total_chunks, 2);
    assert_eq!(stats.unused_space, 7 * 4096);
    assert_eq!(stats.invalid_chunk_pointer, 0);

    let mut region = RegionFile::new(file).unwrap();
    let stats = region.scan_chunks(&options(true, false)).unwrap();
    assert_eq!(stats.unused_space, 7 * 4096);
    assert_eq!(stats.shrunk_size, 4 * 4096);
    let out = region.close();
    assert_eq!(entry_of(&out, 0), (2, 1));
    assert_eq!(entry_of(&out, 1), (3, 1));
    assert_eq!(&out[3 * SECTOR..4 * SECTOR], &moved[..]);
}

#[test]
fn compressed_records_are_decoded() {
    let tree = chunk_tree(0, 0);
    let mut gz = Vec::new();
    flate2::read::GzEncoder::new(&tree[..], flate2::Compression::default())
        .read_to_end(&mut gz)
        .unwrap();
    let mut zl = Vec::new();
    flate2::read::ZlibEncoder::new(&tree[..], flate2::Compression::default())
        .read_to_end(&mut zl)
        .unwrap();
    for (tag, bytes) in [(1u8, gz), (2u8, zl)] {
        let mut file = vec![0u8; 3 * SECTOR];
        set_entry(&mut file, 0, 2, 1);
        put_record(&mut file, 2, bytes.len() as u32 + 1, tag, &bytes);
        let mut region = RegionFile::new(file).unwrap();
        let stats = region.scan_chunks(&options(false, false)).unwrap();
        assert_eq!(stats.corrupted_compression, 0);
        assert_eq!(stats.corrupted_nbt, 0);
        assert_eq!(stats.missing_nbt, 0);
    }
}

#[test]
fn broken_compression_is_counted() {
    let mut file = vec![0u8; 3 * SECTOR];
    set_entry(&mut file, 0, 2, 1);
    put_record(&mut file, 2, 11, 2, &[1, 2, 3, 4, 5, 6, 7, 8, 9, 10]);
    let mut region = RegionFile::new(file).unwrap();
    let stats = region.scan_chunks(&options(false, false)).unwrap();
    assert_eq!(stats.corrupted_compression, 1);
}

#[test]
fn missing_field_and_bad_tree_are_counted() {
    let mut file = vec![0u8; 4 * SECTOR];
    set_entry(&mut file, 0, 2, 1);
    set_entry(&mut file, 1, 3, 1);
    put_record(&mut file, 2, 10, 0, &[10, 0, 0, 0]);
    put_record(&mut file, 3, 10, 0, &[3, 0, 0]);
    let mut region = RegionFile::new(file).unwrap();
    let stats = region.scan_chunks(&options(false, true)).unwrap();
    assert_eq!(stats.missing_nbt, 1);
    assert_eq!(stats.corrupted_nbt, 1);
    let out = region.close();
    assert_eq!(entry_of(&out, 0), (0, 0));
    assert_eq!(entry_of(&out, 1), (0, 0));
}

#[test]
fn pointer_past_end_and_unreadable_header() {
    let mut file = vec![0u8; 4 * SECTOR];
    set_entry(&mut file, 0, 3, 5);
    set_entry(&mut file, 1, 2, 1);
    let mut region = RegionFile::new(file).unwrap();
    let stats = region.scan_chunks(&options(false, true)).unwrap();
    assert_eq!(stats.invalid_chunk_pointer, 1);
    assert_eq!(stats.failed_to_read, 1);
    let out = region.close();
    assert_eq!(entry_of(&out, 0), (0, 0));
    assert_eq!(entry_of(&out, 1), (0, 0));
}

#[test]
fn inverted_relocation_fails_the_scan() {
    let mut file = vec![0u8; 5 * SECTOR];
    set_entry(&mut file, 0, 2, 3);
    set_entry(&mut file, 1, 3, 1);
    put_record(&mut file, 2, 10, 0, &[0xff]);
    put_record(&mut file, 3, 10, 0, &[0xff]);
    let mut region = RegionFile::new(file).unwrap();
    let r = region.scan_chunks(&options(false, true));
    assert_eq!(r, Err(InvalidShift { start: 5, end: 4 }));
}

#[test]
fn short_file_is_refused() {
    assert!(RegionFile::new(vec![0u8; 2 * SECTOR - 1]).is_none());
    assert!(RegionFile::new(vec![0u8; 2 * SECTOR]).is_some());
}

#[test]
fn shift_right_moves_sectors_left() {
    let mut file = vec![0u8; 6 * SECTOR];
    for (i, b) in file.iter_mut().enumerate() {
        *b = (i / SECTOR) as u8;
    }
    let mut region = RegionFile::new(file).unwrap();
    assert_eq!(region.shift_right(4, 6, -2), Ok(()));
    let out = region.close();
    assert_eq!(out[2 * SECTOR], 4);
    assert_eq!(out[3 * SECTOR + 17], 5);
    assert_eq!(out[4 * SECTOR], 4);
    assert_eq!(out[5 * SECTOR], 5);
}

#[test]
fn shift_right_moves_overlapping_sectors_right() {
    let mut file = vec![0u8; 7 * SECTOR];
    for (i, b) in file.iter_mut().enumerate() {
        *b = (i / SECTOR) as u8;
    }
    let mut region = RegionFile::new(file).unwrap();
    assert_eq!(region.shift_right(2, 5, 2), Ok(()));
    let out = region.close();
    assert_eq!(out[2 * SECTOR], 2);
    assert_eq!(out[3 * SECTOR], 3);
    assert_eq!(out[4 * SECTOR], 2);
    assert_eq!(out[5 * SECTOR + 9], 3);
    assert_eq!(out[6 * SECTOR + 4095], 4);
}

#[test]
fn shift_right_refuses_inverted_range() {
    let file = vec![7u8; 4 * SECTOR];
    let mut region = RegionFile::new(file.clone()).unwrap();
    assert_eq!(region.shift_right(3, 2, -1), Err(InvalidShift { start: 3, end: 2 }));
    assert_eq!(region.close(), file);
}

#[test]
fn deleted_misplaced_entry_keeps_zero_offset_when_count_fixed() {
    let file = scenario_file(5, 3, 0, 5, 5);
    let mut region = RegionFile::new(file).unwrap();
    let stats = region.scan_chunks(&options(true, true)).unwrap();
    assert_eq!(stats.invalid_chunk_pointer, 1);
    assert_eq!(stats.invalid_length, 1);
    assert_eq!(entry_of(&region.close(), 0), (0, 1));
}

#[test]
fn delete_chunk_clears_entry() {
    let file = scenario_file(3, 1, 0, 0, 0);
    let mut region = RegionFile::new(file).unwrap();
    region.delete_chunk(0);
    assert_eq!(region.count_chunks(), 0);
}
