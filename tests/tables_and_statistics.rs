use minecraft_regions_tool::region_file::{get_chunk_index, required_sectors, Locations, Timestamps};
use minecraft_regions_tool::scan::{merge_all, ScanOptions, ScanStatistics};
use minecraft_regions_tool::utils::ByteArrayCache;
use std::io::Read;

fn table_bytes() -> Vec<u8> {
    (0..4096u32).map(|i| (i.wrapping_mul(2654435761) >> 13) as u8).collect()
}

#[test]
fn location_table_round_trip() {
    let bytes = table_bytes();
    let table = Locations::from_bytes(&bytes);
    assert_eq!(table.to_bytes(), bytes);
    let zero = Locations::from_bytes(&[0u8; 4096]);
    assert_eq!(zero.to_bytes(), vec![0u8; 4096]);
}

#[test]
fn location_entries_and_queries() {
    let mut bytes = vec![0u8; 4096];
    bytes[4 * 33..4 * 33 + 4].copy_from_slice(&[0x01, 0x02, 0x03, 0x04]);
    bytes[4 * 5..4 * 5 + 4].copy_from_slice(&[0, 0, 1, 9]);
    let mut table = Locations::from_bytes(&bytes);
    assert_eq!(table.get_chunk_entry_unchecked(33), (0x010203, 4));
    assert_eq!(table.get_chunk_offset(1, 1), Some(0x010203));
    assert_eq!(table.get_chunk_sectors(-31, 33), Some(4));
    assert_eq!(table.valid_entries_enumerate(), vec![(33, (0x010203, 4))]);
    assert_eq!(table.max_offset(), 0x010203 + 4);
    assert_eq!(table.estimated_size(), (0x010203 + 4) * 4096);
    table.replace_entry_unchecked(0, (20, 30));
    assert_eq!(table.max_offset(), 0x010203 + 4);
    table.replace_entry_unchecked(33, (3, 1));
    assert_eq!(table.max_offset(), 50);
    table.shift_entries(3, 20, -1);
    assert_eq!(table.get_chunk_entry_unchecked(0), (19, 30));
    assert_eq!(table.get_chunk_entry_unchecked(33), (2, 1));
    assert_eq!(table.get_chunk_entry_unchecked(5), (1, 9));
    table.delete_chunk_entry_unchecked(0);
    assert_eq!(table.get_chunk_entry_unchecked(0), (0, 0));
    assert_eq!(table.valid_entries_enumerate(), vec![(33, (2, 1))]);
}

#[test]
fn timestamps_decode() {
    let mut bytes = vec![0u8; 4096];
    bytes[4..8].copy_from_slice(&0xdeadbeefu32.to_be_bytes());
    let _ = Timestamps::from_bytes(&bytes);
}

#[test]
fn grid_index_is_periodic_and_in_range() {
    for x in -1000isize..=1000 {
        for z in [-1000isize, -33, -1, 0, 31, 32, 999] {
            let i = get_chunk_index(x, z);
            assert!(i < 1024);
            assert_eq!(i, get_chunk_index(x + 32, z + 32));
        }
    }
    assert_eq!(get_chunk_index(0, 0), 0);
    assert_eq!(get_chunk_index(-1, 0), 31);
    assert_eq!(get_chunk_index(5, 5), 165);
    assert_eq!(get_chunk_index(-33, -1), 31 + 31 * 32);
}

#[test]
fn sector_math() {
    assert_eq!(required_sectors(4091), 1);
    assert_eq!(required_sectors(4092), 1);
    assert_eq!(required_sectors(4093), 2);
    assert_eq!(required_sectors(1), 1);
    assert_eq!(required_sectors(524288), 129);
}

fn stats(seed: u64) -> ScanStatistics {
    ScanStatistics {
        total_chunks: seed,
        invalid_length: seed + 1,
        invalid_compression_method: seed + 2,
        missing_nbt: seed + 3,
        corrupted_nbt: seed + 4,
        failed_to_read: seed + 5,
        corrupted_compression: seed + 6,
        invalid_chunk_pointer: seed + 7,
        shrunk_size: seed + 8,
        unused_space: seed * 4096,
    }
}

#[test]
fn statistics_form_a_monoid() {
    let (a, b, c) = (stats(1), stats(10), stats(100));
    assert_eq!(a.add(b), b.add(a));
    assert_eq!(a.add(b).add(c), a.add(b.add(c)));
    assert_eq!(a.add(ScanStatistics::new()), a);
    assert_eq!(ScanStatistics::new().add(a), a);
    assert_eq!(a.add(b).missing_nbt, 17);
    assert_eq!(merge_all(&vec![a, b, c]), a.add(b).add(c));
    assert_eq!(merge_all(&vec![]), ScanStatistics::new());
}

#[test]
fn merging_single_chunk_results() {
    let one = ScanStatistics { total_chunks: 1, invalid_length: 1, ..ScanStatistics::new() };
    let all = merge_all(&vec![one; 5]);
    assert_eq!(all.total_chunks, 5);
    assert_eq!(all.invalid_length, 5);
}

#[test]
fn checked_merge_reports_overflow() {
    let big = ScanStatistics { unused_space: u64::MAX, ..ScanStatistics::new() };
    assert_eq!(big.checked_add(stats(1)), None);
    assert_eq!(stats(1).checked_add(stats(2)), Some(stats(1).add(stats(2))));
}

#[test]
fn options_builders() {
    let o = ScanOptions::new();
    assert!(!o.fix && !o.fix_delete);
    let o = o.fix(true);
    assert!(o.fix && !o.fix_delete);
    let o = o.fix_delete(true).fix(false);
    assert!(!o.fix && o.fix_delete);
}

#[test]
fn byte_array_cache_compresses_blocks() {
    let data: Vec<u8> = (0..300u32).map(|i| (i % 7) as u8).collect();
    let mut cache = ByteArrayCache::with_capacity(16);
    assert!(cache.write(&data));
    let stored = cache.read(usize::MAX);
    assert_ne!(stored, data);
    let mut back = Vec::new();
    flate2::read::ZlibDecoder::new(&stored[..]).read_to_end(&mut back).unwrap();
    assert_eq!(back, data);
    assert!(cache.read(10).is_empty());
    let mut small = ByteArrayCache::new();
    assert!(small.write(&[1, 2, 3]));
    let first = small.read(2);
    assert_eq!(first.len(), 2);
    assert_eq!(first[0], 0x78);
}
