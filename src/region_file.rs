use vstd::prelude::*;

use crate::bytes::{be_u32, read_u32};
use crate::chunk::{spec_header, spec_validate, Chunk, ChunkFault, ChunkScanError};
use crate::constants::{BLOCK_SIZE, REASONABLE_LENGTH_LIMIT, TABLE_ENTRIES};
use crate::order::{sort_by_first, sort_triples};
use crate::scan::{ScanOptions, ScanStatistics};

verus! {

/// Largest sector offset that a 3-byte table field can hold, plus one.
pub const OFFSET_LIMIT: u32 = 0x100_0000;

/// The table slot of the chunk at grid coordinates `(x, z)`: both coordinates
/// are taken modulo 32 into `[0, 32)`.
pub open spec fn grid_index(x: int, z: int) -> int {
    x % 32 + (z % 32) * 32
}

/// The table slot of the chunk at grid coordinates `(x, z)`.
pub fn get_chunk_index(x: isize, z: isize) -> (r: usize)
    ensures
        r as int == grid_index(x as int, z as int),
        r < TABLE_ENTRIES,
{
    let mut x = x % 32;
    let mut z = z % 32;
    if x < 0 {
        x += 32;
    }
    if z < 0 {
        z += 32;
    }
    x as usize + z as usize * 32
}

/// Moving a chunk by 32 cells along both axes keeps its table slot, and every
/// slot lies in `[0, 1024)`.
pub proof fn lemma_grid_index_periodic(x: int, z: int)
    requires
        -1000 <= x <= 1000,
        -1000 <= z <= 1000,
    ensures
        grid_index(x, z) == grid_index(x + 32, z + 32),
        0 <= grid_index(x, z) < 1024,
{
}

/// The sector offset stored in table entry `i` of the raw table `b`.
pub open spec fn raw_offset(b: Seq<u8>, i: int) -> int {
    b[4 * i] as int * 0x1_0000 + b[4 * i + 1] as int * 0x100 + b[4 * i + 2] as int
}

/// The location table that the 4096 bytes `b` encode.
pub open spec fn parse_locations(b: Seq<u8>) -> Seq<(u32, u8)> {
    Seq::new(TABLE_ENTRIES as nat, |i: int| (raw_offset(b, i) as u32, b[4 * i + 3]))
}

/// Byte `j` (0 to 3) of the encoding of a location entry: the offset as three
/// big-endian bytes, then the sector count.
pub open spec fn entry_byte(e: (u32, u8), j: int) -> u8 {
    if j == 0 {
        (e.0 / 0x1_0000 % 0x100) as u8
    } else if j == 1 {
        (e.0 / 0x100 % 0x100) as u8
    } else if j == 2 {
        (e.0 % 0x100) as u8
    } else {
        e.1
    }
}

/// The bytes of a location table: four per entry, in table order.
pub open spec fn serialize_locations(l: Seq<(u32, u8)>) -> Seq<u8> {
    Seq::new(4 * l.len(), |k: int| entry_byte(l[k / 4], k % 4))
}

/// The timestamp table that the 4096 bytes `b` encode.
pub open spec fn parse_timestamps(b: Seq<u8>) -> Seq<u32> {
    Seq::new(TABLE_ENTRIES as nat, |i: int| be_u32(b, 4 * i) as u32)
}

/// The valid entries among the first `n` of `l`, with their index, in table
/// order: those whose offset is at least 2.
pub open spec fn valid_prefix(l: Seq<(u32, u8)>, n: int) -> Seq<(usize, (u32, u8))>
    decreases n,
{
    if n <= 0 {
        Seq::empty()
    } else if l[n - 1].0 >= 2 {
        valid_prefix(l, n - 1).push(((n - 1) as usize, l[n - 1]))
    } else {
        valid_prefix(l, n - 1)
    }
}

/// The valid entries of `l`, with their index, in table order.
pub open spec fn valid_entries(l: Seq<(u32, u8)>) -> Seq<(usize, (u32, u8))> {
    valid_prefix(l, l.len() as int)
}

/// The first sector after the data of entry `e`.
pub open spec fn entry_end(e: (u32, u8)) -> int {
    e.0 as int + e.1 as int
}

/// The largest `offset + count` over the first `n` entries (0 if none).
pub open spec fn max_end_prefix(l: Seq<(u32, u8)>, n: int) -> int
    decreases n,
{
    if n <= 0 {
        0
    } else {
        let m = max_end_prefix(l, n - 1);
        if entry_end(l[n - 1]) > m {
            entry_end(l[n - 1])
        } else {
            m
        }
    }
}

/// The largest `offset + count` over all entries of `l`.
pub open spec fn max_end(l: Seq<(u32, u8)>) -> int {
    max_end_prefix(l, l.len() as int)
}

/// Entry `e` after a shift of the sector range `[start, end]` by `amount`.
pub open spec fn shifted_entry(e: (u32, u8), start: u32, end: u32, amount: i32) -> (u32, u8) {
    if start <= e.0 <= end {
        ((e.0 + amount) as u32, e.1)
    } else {
        e
    }
}

/// Table `l` after a shift of the sector range `[start, end]` by `amount`.
pub open spec fn shifted_table(l: Seq<(u32, u8)>, start: u32, end: u32, amount: i32) -> Seq<
    (u32, u8),
> {
    Seq::new(l.len(), |i: int| shifted_entry(l[i], start, end, amount))
}

/// A shift of `[start, end]` by `amount` keeps every offset of `l` within the
/// 3-byte field.
pub open spec fn shift_fits(l: Seq<(u32, u8)>, start: u32, end: u32, amount: i32) -> bool {
    forall|i: int|
        0 <= i < l.len() && start <= #[trigger] l[i].0 <= end ==> 0 <= l[i].0 + amount
            < OFFSET_LIMIT
}

/// A location table whose size and offsets a region file can hold.
pub open spec fn table_wf(l: Seq<(u32, u8)>) -> bool {
    &&& l.len() == TABLE_ENTRIES
    &&& forall|i: int| 0 <= i < l.len() ==> #[trigger] l[i].0 < OFFSET_LIMIT
}

/// The location table: one `(sector offset, sector count)` entry per grid
/// cell; `(0, 0)` marks an absent chunk.
#[derive(Clone, Debug)]
pub struct Locations {
    inner: Vec<(u32, u8)>,
}

impl View for Locations {
    type V = Seq<(u32, u8)>;

    closed spec fn view(&self) -> Seq<(u32, u8)> {
        self.inner@
    }
}

proof fn lemma_div4(i: int, j: int)
    requires
        0 <= i,
        0 <= j < 4,
    ensures
        (4 * i + j) / 4 == i,
        (4 * i + j) % 4 == j,
{
    assert((4 * i + j) / 4 == i) by (nonlinear_arith)
        requires
            0 <= i,
            0 <= j < 4,
    ;
    assert((4 * i + j) % 4 == j) by (nonlinear_arith)
        requires
            0 <= i,
            0 <= j < 4,
    ;
}

proof fn lemma_byte_split(a: int, b: int, c: int)
    requires
        0 <= a < 256,
        0 <= b < 256,
        0 <= c < 256,
    ensures
        (a * 0x1_0000 + b * 0x100 + c) / 0x1_0000 % 0x100 == a,
        (a * 0x1_0000 + b * 0x100 + c) / 0x100 % 0x100 == b,
        (a * 0x1_0000 + b * 0x100 + c) % 0x100 == c,
{
    assert((a * 0x1_0000 + b * 0x100 + c) / 0x1_0000 == a) by (nonlinear_arith)
        requires
            0 <= a < 256,
            0 <= b < 256,
            0 <= c < 256,
    ;
    assert((a * 0x1_0000 + b * 0x100 + c) / 0x100 == a * 0x100 + b) by (nonlinear_arith)
        requires
            0 <= a < 256,
            0 <= b < 256,
            0 <= c < 256,
    ;
    assert((a * 0x100 + b) % 0x100 == b) by (nonlinear_arith)
        requires
            0 <= a < 256,
            0 <= b < 256,
    ;
    assert((a * 0x1_0000 + b * 0x100 + c) % 0x100 == c) by (nonlinear_arith)
        requires
            0 <= a < 256,
            0 <= b < 256,
            0 <= c < 256,
    ;
}

/// Serializing a parsed location table gives back the table's bytes.
pub proof fn lemma_locations_round_trip(b: Seq<u8>)
    requires
        b.len() == BLOCK_SIZE,
    ensures
        serialize_locations(parse_locations(b)) == b,
{
    let l = parse_locations(b);
    let s = serialize_locations(l);
    assert forall|k: int| 0 <= k < b.len() implies s[k] == b[k] by {
        let i = k / 4;
        let j = k % 4;
        assert(k == 4 * i + j && 0 <= j < 4 && 0 <= i < 1024);
        lemma_byte_split(b[4 * i] as int, b[4 * i + 1] as int, b[4 * i + 2] as int);
    }
    assert(s =~= b);
}

proof fn lemma_byte_join(v: int)
    requires
        0 <= v < 0x100_0000,
    ensures
        (v / 0x1_0000 % 0x100) * 0x1_0000 + (v / 0x100 % 0x100) * 0x100 + v % 0x100 == v,
{
    assert((v / 0x1_0000 % 0x100) * 0x1_0000 + (v / 0x100 % 0x100) * 0x100 + v % 0x100 == v)
        by (nonlinear_arith)
        requires
            0 <= v < 0x100_0000,
    ;
}

/// Parsing the bytes of a well-formed location table gives back the table.
pub proof fn lemma_locations_parse_serialized(l: Seq<(u32, u8)>)
    requires
        table_wf(l),
    ensures
        parse_locations(serialize_locations(l)) == l,
{
    let b = serialize_locations(l);
    let p = parse_locations(b);
    assert forall|i: int| 0 <= i < l.len() implies p[i] == l[i] by {
        lemma_div4(i, 0);
        lemma_div4(i, 1);
        lemma_div4(i, 2);
        lemma_div4(i, 3);
        lemma_byte_join(l[i].0 as int);
    }
    assert(p =~= l);
}

impl Locations {
    /// The model of a region file's location table.
    pub open spec fn wf(&self) -> bool {
        table_wf(self@)
    }

    /// Decodes the location table from its 4096 bytes.
    pub fn from_bytes(bytes: &[u8]) -> (r: Self)
        requires
            bytes@.len() == BLOCK_SIZE,
        ensures
            r@ == parse_locations(bytes@),
            r.wf(),
    {
        let mut locations: Vec<(u32, u8)> = Vec::new();
        let mut i: usize = 0;
        while i < TABLE_ENTRIES
            invariant
                i <= TABLE_ENTRIES,
                bytes@.len() == BLOCK_SIZE,
                locations@.len() == i,
                forall|j: int|
                    0 <= j < i ==> #[trigger] locations@[j] == parse_locations(bytes@)[j],
            decreases TABLE_ENTRIES - i,
        {
            let offset: u32 = bytes[4 * i] as u32 * 0x1_0000 + bytes[4 * i + 1] as u32 * 0x100
                + bytes[4 * i + 2] as u32;
            locations.push((offset, bytes[4 * i + 3]));
            i = i + 1;
        }
        assert(locations@ =~= parse_locations(bytes@));
        Locations { inner: locations }
    }

    /// The table's bytes: each entry as a 3-byte big-endian offset and a
    /// 1-byte sector count, in table order.
    pub fn to_bytes(&self) -> (r: Vec<u8>)
        requires
            self.wf(),
        ensures
            r@ == serialize_locations(self@),
            r@.len() == BLOCK_SIZE,
    {
        let mut bytes: Vec<u8> = Vec::new();
        let mut i: usize = 0;
        while i < self.inner.len()
            invariant
                i <= self.inner@.len(),
                self.inner@.len() == TABLE_ENTRIES,
                bytes@.len() == 4 * i,
                forall|k: int|
                    0 <= k < 4 * i ==> #[trigger] bytes@[k] == entry_byte(self.inner@[k / 4], k % 4),
            decreases self.inner@.len() - i,
        {
            let e = self.inner[i];
            bytes.push((e.0 / 0x1_0000 % 0x100) as u8);
            bytes.push((e.0 / 0x100 % 0x100) as u8);
            bytes.push((e.0 % 0x100) as u8);
            bytes.push(e.1);
            proof {
                assert forall|k: int| 0 <= k < 4 * (i + 1) implies #[trigger] bytes@[k]
                    == entry_byte(self.inner@[k / 4], k % 4) by {
                    if k >= 4 * i {
                        lemma_div4(i as int, k - 4 * i);
                    }
                }
            }
            i = i + 1;
        }
        assert(bytes@ =~= serialize_locations(self@));
        bytes
    }

    /// The offset stored for the chunk at grid coordinates `(x, z)`.
    pub fn get_chunk_offset(&self, x: isize, z: isize) -> (r: Option<u32>)
        requires
            self.wf(),
        ensures
            r == Some(self@[grid_index(x as int, z as int)].0),
    {
        let i = get_chunk_index(x, z);
        Some(self.inner[i].0)
    }

    /// The sector count stored for the chunk at grid coordinates `(x, z)`.
    pub fn get_chunk_sectors(&self, x: isize, z: isize) -> (r: Option<u8>)
        requires
            self.wf(),
        ensures
            r == Some(self@[grid_index(x as int, z as int)].1),
    {
        let i = get_chunk_index(x, z);
        Some(self.inner[i].1)
    }

    /// The valid entries (offset at least 2), with their index, in table order.
    pub fn valid_entries_enumerate(&self) -> (r: Vec<(usize, (u32, u8))>)
        ensures
            r@ == valid_entries(self@),
    {
        let mut out: Vec<(usize, (u32, u8))> = Vec::new();
        let mut i: usize = 0;
        while i < self.inner.len()
            invariant
                i <= self.inner@.len(),
                out@ == valid_prefix(self@, i as int),
            decreases self.inner@.len() - i,
        {
            let e = self.inner[i];
            if e.0 >= 2 {
                out.push((i, e));
            }
            i = i + 1;
        }
        out
    }

    /// The largest `offset + count` over all entries: the first sector after
    /// all chunk data.
    pub fn max_offset(&self) -> (r: u32)
        requires
            self.wf(),
        ensures
            r as int == max_end(self@),
    {
        let mut best: u32 = 0;
        let mut i: usize = 0;
        while i < self.inner.len()
            invariant
                i <= self.inner@.len(),
                table_wf(self@),
                best as int == max_end_prefix(self@, i as int),
                best < OFFSET_LIMIT + 256,
            decreases self.inner@.len() - i,
        {
            let e = self.inner[i];
            assert(e.0 < OFFSET_LIMIT);
            let end = e.0 + e.1 as u32;
            if end > best {
                best = end;
            }
            i = i + 1;
        }
        best
    }

    /// The size in bytes of the file up to the end of its last chunk.
    pub fn estimated_size(&self) -> (r: u64)
        requires
            self.wf(),
        ensures
            r == max_end(self@) * BLOCK_SIZE,
    {
        self.max_offset() as u64 * BLOCK_SIZE as u64
    }

    /// Replaces entry `index` with `entry`.
    pub fn replace_entry_unchecked(&mut self, index: usize, entry: (u32, u8))
        requires
            old(self).wf(),
            index < TABLE_ENTRIES,
            entry.0 < OFFSET_LIMIT,
        ensures
            final(self)@ == old(self)@.update(index as int, entry),
            final(self).wf(),
    {
        self.inner.set(index, entry);
    }

    /// The entry at `index`.
    pub fn get_chunk_entry_unchecked(&self, index: usize) -> (r: (u32, u8))
        requires
            self.wf(),
            index < TABLE_ENTRIES,
        ensures
            r == self@[index as int],
    {
        self.inner[index]
    }

    /// Marks the chunk at `index` as absent: its entry becomes `(0, 0)`.
    pub fn delete_chunk_entry_unchecked(&mut self, index: usize)
        requires
            old(self).wf(),
            index < TABLE_ENTRIES,
        ensures
            final(self)@ == old(self)@.update(index as int, (0u32, 0u8)),
            final(self).wf(),
    {
        self.inner.set(index, (0, 0));
    }

    /// Adds `amount` to every offset in `[start_offset, end_offset]`.
    pub fn shift_entries(&mut self, start_offset: u32, end_offset: u32, amount: i32)
        requires
            old(self).wf(),
            shift_fits(old(self)@, start_offset, end_offset, amount),
        ensures
            final(self)@ == shifted_table(old(self)@, start_offset, end_offset, amount),
            final(self).wf(),
    {
        let ghost before = self@;
        let mut i: usize = 0;
        while i < self.inner.len()
            invariant
                i <= self.inner@.len(),
                self.inner@.len() == before.len(),
                table_wf(before),
                shift_fits(before, start_offset, end_offset, amount),
                forall|j: int|
                    0 <= j < i ==> #[trigger] self.inner@[j] == shifted_entry(
                        before[j],
                        start_offset,
                        end_offset,
                        amount,
                    ),
                forall|j: int| i <= j < before.len() ==> #[trigger] self.inner@[j] == before[j],
            decreases self.inner@.len() - i,
        {
            let e = self.inner[i];
            if start_offset <= e.0 && e.0 <= end_offset {
                assert(before[i as int] == e);
                let moved: u32 = (e.0 as i64 + amount as i64) as u32;
                self.inner.set(i, (moved, e.1));
            }
            i = i + 1;
        }
        assert(self@ =~= shifted_table(before, start_offset, end_offset, amount));
    }
}

/// The timestamp table: one big-endian `u32` per grid cell, carried through
/// unchanged.
#[derive(Clone, Debug)]
pub struct Timestamps {
    inner: Vec<u32>,
}

impl View for Timestamps {
    type V = Seq<u32>;

    closed spec fn view(&self) -> Seq<u32> {
        self.inner@
    }
}

impl Timestamps {
    /// Decodes the timestamp table from its 4096 bytes.
    pub fn from_bytes(bytes: &[u8]) -> (r: Self)
        requires
            bytes@.len() == BLOCK_SIZE,
        ensures
            r@ == parse_timestamps(bytes@),
    {
        let mut timestamps: Vec<u32> = Vec::new();
        let mut i: usize = 0;
        while i < TABLE_ENTRIES
            invariant
                i <= TABLE_ENTRIES,
                bytes@.len() == BLOCK_SIZE,
                timestamps@.len() == i,
                forall|j: int|
                    0 <= j < i ==> #[trigger] timestamps@[j] == parse_timestamps(bytes@)[j],
            decreases TABLE_ENTRIES - i,
        {
            timestamps.push(read_u32(bytes, 4 * i));
            i = i + 1;
        }
        assert(timestamps@ =~= parse_timestamps(bytes@));
        Timestamps { inner: timestamps }
    }
}

/// The progress of a scan over one region file, as mathematical values.
pub struct ScanState {
    /// The file's bytes.
    pub data: Seq<u8>,
    /// The location table.
    pub table: Seq<(u32, u8)>,
    /// The counters so far.
    pub stats: ScanStatistics,
    /// The relocations planned so far: `(position, sectors)` shifts every
    /// sector from `position` on left by `sectors`.
    pub ops: Seq<(u64, u64)>,
    /// The sector after the previous entry's data (2 before the first).
    pub prev_end: int,
}

/// The valid entries as `(offset, index, sector count)` triples, in table
/// order.
pub open spec fn entry_triples(t: Seq<(u32, u8)>) -> Seq<(u64, u64, u64)> {
    valid_entries(t).map_values(|e: (usize, (u32, u8))| (e.1.0 as u64, e.0 as u64, e.1.1 as u64))
}

/// The order in which a scan visits the valid entries: ascending by sector
/// offset, ties in table order.
pub open spec fn scan_order(t: Seq<(u32, u8)>) -> Seq<(u64, u64, u64)> {
    sort_by_first(entry_triples(t))
}

/// The number of sectors that a record of `length` bytes (plus its 4-byte
/// length field) occupies.
pub open spec fn sectors_needed(length: int) -> int {
    (length + 4 + 4095) / 4096
}

/// Sector arithmetic: `ceil((length + 4) / 4096)` for the lengths a record
/// header admits.
pub proof fn lemma_sectors_needed(length: int)
    requires
        1 <= length <= 524288,
    ensures
        sectors_needed(length) * 4096 >= length + 4,
        (sectors_needed(length) - 1) * 4096 < length + 4,
        1 <= sectors_needed(length) <= 129,
{
    assert(sectors_needed(length) * 4096 >= length + 4) by (nonlinear_arith)
        requires
            1 <= length <= 524288,
    ;
    assert((sectors_needed(length) - 1) * 4096 < length + 4) by (nonlinear_arith)
        requires
            1 <= length <= 524288,
    ;
    assert(1 <= sectors_needed(length) <= 129) by (nonlinear_arith)
        requires
            1 <= length <= 524288,
    ;
}

/// The number of sectors that a record whose length field is `length`
/// occupies: `ceil((length + 4) / 4096)`.
pub fn required_sectors(length: u32) -> (r: u64)
    ensures
        r == sectors_needed(length as int),
{
    (length as u64 + 4 + 4095) / 4096
}

/// `s` with one more invalid chunk pointer.
pub open spec fn bump_pointer(s: ScanStatistics) -> ScanStatistics {
    ScanStatistics { invalid_chunk_pointer: (s.invalid_chunk_pointer + 1) as u64, ..s }
}

/// `s` with one more record that could not be read.
pub open spec fn bump_failed(s: ScanStatistics) -> ScanStatistics {
    ScanStatistics { failed_to_read: (s.failed_to_read + 1) as u64, ..s }
}

/// `s` with one more invalid compression tag.
pub open spec fn bump_compression_method(s: ScanStatistics) -> ScanStatistics {
    ScanStatistics { invalid_compression_method: (s.invalid_compression_method + 1) as u64, ..s }
}

/// `s` with one more invalid length.
pub open spec fn bump_length(s: ScanStatistics) -> ScanStatistics {
    ScanStatistics { invalid_length: (s.invalid_length + 1) as u64, ..s }
}

/// The counter that a failed payload check raises: decompression failures
/// count as corrupted compression, decoding failures as a corrupted tree,
/// the rest as missing data.
pub open spec fn bump_fault(s: ScanStatistics, f: ChunkFault) -> ScanStatistics {
    match f {
        ChunkFault::IO => ScanStatistics {
            corrupted_compression: (s.corrupted_compression + 1) as u64,
            ..s
        },
        ChunkFault::Tree(_) => ScanStatistics { corrupted_nbt: (s.corrupted_nbt + 1) as u64, ..s },
        _ => ScanStatistics { missing_nbt: (s.missing_nbt + 1) as u64, ..s },
    }
}

/// Marks entry `index` absent where `delete` holds.
pub open spec fn drop_entry(t: Seq<(u32, u8)>, index: int, delete: bool) -> Seq<(u32, u8)> {
    if delete {
        t.update(index, (0u32, 0u8))
    } else {
        t
    }
}

/// The bytes handed to the payload check of the record at sector `offset`
/// with length field `length`: for a compressed record the `length - 1`
/// bytes after the tag (cut at the end of the file); an uncompressed one is
/// decoded straight from the file, up to its end.
pub open spec fn payload_of(d: Seq<u8>, offset: int, length: int, tag: u8) -> Seq<u8> {
    let start = offset * 4096 + 5;
    let end = offset * 4096 + 4 + length;
    if tag == 1 || tag == 2 {
        d.subrange(start, if end < d.len() { end } else { d.len() as int })
    } else {
        d.subrange(start, d.len() as int)
    }
}

/// The length check, last step for an entry: a declared sector count that
/// differs from the record's own, or a length from 1 MiB on, is an invalid
/// length; with `fix` the entry's count field (only) is rewritten.
pub open spec fn length_step(st: ScanState, e: (u64, u64, u64), length: u32, opts: ScanOptions) -> ScanState {
    let need = sectors_needed(length as int);
    if e.2 != need || length >= REASONABLE_LENGTH_LIMIT {
        ScanState {
            stats: bump_length(st.stats),
            table: if opts.fix {
                st.table.update(e.1 as int, (st.table[e.1 as int].0, need as u8))
            } else {
                st.table
            },
            ..st
        }
    } else {
        st
    }
}

/// The checks on a record whose header was read: compression tag, payload,
/// declared coordinates, then length.
pub open spec fn record_step(st: ScanState, e: (u64, u64, u64), length: u32, tag: u8, opts: ScanOptions) -> ScanState {
    let index = e.1 as int;
    if tag > 2 {
        let st2 = ScanState {
            stats: bump_compression_method(st.stats),
            data: if opts.fix {
                st.data.update(e.0 * 4096 + 4, 1u8)
            } else {
                st.data
            },
            ..st
        };
        length_step(st2, e, length, opts)
    } else {
        match spec_validate(tag, payload_of(st.data, e.0 as int, length as int, tag)) {
            Err(f) => if opts.fix_delete {
                ScanState {
                    stats: bump_fault(st.stats, f),
                    table: st.table.update(index, (0u32, 0u8)),
                    ops: st.ops.push(((e.0 + e.2) as u64, e.2)),
                    ..st
                }
            } else {
                length_step(ScanState { stats: bump_fault(st.stats, f), ..st }, e, length, opts)
            },
            Ok((x, z)) => {
                let misplaced = x is Some && z is Some && grid_index(
                    x.unwrap() as int,
                    z.unwrap() as int,
                ) != index;
                let st2 = if misplaced {
                    ScanState {
                        stats: bump_pointer(st.stats),
                        table: drop_entry(st.table, index, opts.fix_delete),
                        ..st
                    }
                } else {
                    st
                };
                length_step(st2, e, length, opts)
            },
        }
    }
}

/// One entry `(offset, index, sector count)` of the scan.
pub open spec fn scan_step(st: ScanState, e: (u64, u64, u64), opts: ScanOptions) -> ScanState {
    let offset = e.0 as int;
    let sections = e.2 as int;
    let index = e.1 as int;
    let gap = offset - st.prev_end;
    let st1 = ScanState {
        stats: if gap > 0 {
            ScanStatistics { unused_space: (st.stats.unused_space + gap * 4096) as u64, ..st.stats }
        } else {
            st.stats
        },
        ops: if gap > 0 && opts.fix {
            st.ops.push((e.0, gap as u64))
        } else {
            st.ops
        },
        prev_end: offset + sections,
        ..st
    };
    if st.data.len() < (offset + sections) * 4096 {
        ScanState {
            stats: bump_pointer(st1.stats),
            table: drop_entry(st1.table, index, opts.fix_delete),
            ..st1
        }
    } else {
        match spec_header(st.data, offset * 4096) {
            Err(_) => if opts.fix_delete {
                ScanState {
                    stats: bump_failed(st1.stats),
                    table: st1.table.update(index, (0u32, 0u8)),
                    ops: st1.ops.push(((e.0 + e.2) as u64, e.2)),
                    ..st1
                }
            } else {
                ScanState { stats: bump_failed(st1.stats), ..st1 }
            },
            Ok((length, tag)) => record_step(st1, e, length, tag, opts),
        }
    }
}

/// The scan of the entries `order[k..]` from state `st`.
pub open spec fn scan_from(st: ScanState, order: Seq<(u64, u64, u64)>, k: int, opts: ScanOptions) -> ScanState
    decreases order.len() - k,
{
    if k < 0 || k >= order.len() {
        st
    } else {
        scan_from(scan_step(st, order[k], opts), order, k + 1, opts)
    }
}

/// A scan with neither `fix` nor `fix_delete` changes neither the file's
/// bytes nor its table.
pub proof fn lemma_report_only_scan(d: Seq<u8>, t: Seq<(u32, u8)>, opts: ScanOptions)
    requires
        !opts.fix,
        !opts.fix_delete,
    ensures
        spec_scan(d, t, opts) matches Ok((d2, t2, _)) && d2 == d && t2 == t,
{
    lemma_report_only_from(scan_start(d, t), scan_order(t), 0, opts);
}

proof fn lemma_report_only_from(st: ScanState, order: Seq<(u64, u64, u64)>, k: int, opts: ScanOptions)
    requires
        !opts.fix,
        !opts.fix_delete,
    ensures
        scan_from(st, order, k, opts).data == st.data,
        scan_from(st, order, k, opts).table == st.table,
    decreases order.len() - k,
{
    if 0 <= k < order.len() {
        let next = scan_step(st, order[k], opts);
        assert(next.data == st.data && next.table == st.table);
        lemma_report_only_from(next, order, k + 1, opts);
    }
}

/// The state at the start of a scan.
pub open spec fn scan_start(d: Seq<u8>, t: Seq<(u32, u8)>) -> ScanState {
    ScanState {
        data: d,
        table: t,
        stats: ScanStatistics { total_chunks: valid_entries(t).len() as u64, ..crate::scan::zero_stats() },
        ops: Seq::empty(),
        prev_end: 2,
    }
}

/// How many bytes a copy of the sectors `[start, end)` moves in a file of
/// `len` bytes: the range is cut at the end of the file, and is empty where
/// it ends before it starts.
pub open spec fn shift_count(len: int, start: int, end: int) -> int {
    let lo = start * 4096;
    let hi = if end * 4096 < len { end * 4096 } else { len };
    if hi > lo { hi - lo } else { 0 }
}

/// The bytes `d` after copying the sectors `[start, end)` (cut at the end of
/// `d`) to start `amount` sectors further on (earlier where `amount` is
/// negative).
pub open spec fn shift_bytes(d: Seq<u8>, start: int, end: int, amount: int) -> Seq<u8> {
    let lo = start * 4096;
    let n = shift_count(d.len() as int, start, end);
    let dst = (start + amount) * 4096;
    Seq::new(d.len(), |k: int| if dst <= k < dst + n { d[k - dst + lo] } else { d[k] })
}

/// A relocation plan that cannot be carried out.
#[derive(Clone, Copy, Debug, PartialEq, Eq, Structural)]
pub struct InvalidShift {
    /// First sector of the offending range.
    pub start: u64,
    /// End of the offending range.
    pub end: u64,
}

/// The relocations as `(resulting position, position, sectors)` triples.
pub open spec fn op_triples(ops: Seq<(u64, u64)>) -> Seq<(u64, u64, u64)> {
    ops.map_values(|o: (u64, u64)| ((o.0 - o.1) as u64, o.0, o.1))
}

/// The end of the range that relocation `k` of the sorted plan moves: the
/// next relocation's position, or for the last one the end of the occupied
/// sectors (no less than its own position).
pub open spec fn range_end(plan: Seq<(u64, u64, u64)>, k: int, t: Seq<(u32, u8)>) -> int {
    if k + 1 < plan.len() {
        plan[k + 1].1 as int
    } else if max_end(t) > plan[k].1 {
        max_end(t)
    } else {
        plan[k].1 as int
    }
}

/// The last table offset that relocation `k` moves.
pub open spec fn entries_end(plan: Seq<(u64, u64, u64)>, k: int, t: Seq<(u32, u8)>) -> int {
    if k + 1 < plan.len() {
        range_end(plan, k, t) - 1
    } else {
        u32::MAX as int
    }
}

/// Carries out relocations `plan[k..]` with `total` sectors removed so far.
pub open spec fn defrag_from(
    d: Seq<u8>,
    t: Seq<(u32, u8)>,
    plan: Seq<(u64, u64, u64)>,
    k: int,
    total: int,
) -> Result<(Seq<u8>, Seq<(u32, u8)>), InvalidShift>
    decreases plan.len() - k,
{
    if k < 0 || k >= plan.len() {
        Ok((d, t))
    } else {
        let pos = plan[k].1 as int;
        let total2 = total + plan[k].2;
        let end = range_end(plan, k, t);
        if end < pos || pos < total2 + 2 {
            Err(InvalidShift { start: pos as u64, end: end as u64 })
        } else {
            defrag_from(
                shift_bytes(d, pos, end, -total2),
                shifted_table(t, pos as u32, entries_end(plan, k, t) as u32, -total2 as i32),
                plan,
                k + 1,
                total2,
            )
        }
    }
}

/// Compaction: the relocations in ascending order of resulting position,
/// each moving its range left by the sectors removed up to it.
pub open spec fn spec_defrag(d: Seq<u8>, t: Seq<(u32, u8)>, ops: Seq<(u64, u64)>) -> Result<
    (Seq<u8>, Seq<(u32, u8)>),
    InvalidShift,
> {
    defrag_from(d, t, sort_by_first(op_triples(ops)), 0, 0)
}

/// The file bytes `d` with the table `t` written over its first sector.
pub open spec fn with_table(d: Seq<u8>, t: Seq<(u32, u8)>) -> Seq<u8> {
    serialize_locations(t) + d.subrange(BLOCK_SIZE as int, d.len() as int)
}

/// A whole scan: the file's bytes, table and counters afterwards. With a fix
/// mode the plan is carried out, the table written back and `shrunk_size`
/// set; an impossible plan fails the scan.
pub open spec fn spec_scan(d: Seq<u8>, t: Seq<(u32, u8)>, opts: ScanOptions) -> Result<
    (Seq<u8>, Seq<(u32, u8)>, ScanStatistics),
    InvalidShift,
> {
    let st = scan_from(scan_start(d, t), scan_order(t), 0, opts);
    if opts.fix || opts.fix_delete {
        match spec_defrag(st.data, st.table, st.ops) {
            Ok((d2, t2)) => Ok(
                (
                    with_table(d2, t2),
                    t2,
                    ScanStatistics { shrunk_size: (max_end(t2) * 4096) as u64, ..st.stats },
                ),
            ),
            Err(e) => Err(e),
        }
    } else {
        Ok((st.data, st.table, st.stats))
    }
}

/// A triple of the scan order: offset in `[2, 2^24)`, index in the table,
/// and a sector count that fits a byte.
pub open spec fn triple_ok(x: (u64, u64, u64)) -> bool {
    2 <= x.0 < OFFSET_LIMIT && x.1 < TABLE_ENTRIES && x.2 < 256
}

proof fn lemma_valid_prefix(t: Seq<(u32, u8)>, n: int)
    requires
        0 <= n <= t.len(),
        table_wf(t),
    ensures
        valid_prefix(t, n).len() <= n,
        forall|j: int|
            0 <= j < valid_prefix(t, n).len() ==> {
                let e = #[trigger] valid_prefix(t, n)[j];
                &&& e.0 < n
                &&& e.1 == t[e.0 as int]
                &&& e.1.0 >= 2
            },
    decreases n,
{
    if n > 0 {
        lemma_valid_prefix(t, n - 1);
    }
}

/// Sorting keeps the length, and every property that all items have.
proof fn lemma_sort_keeps(s: Seq<(u64, u64, u64)>, ok: spec_fn((u64, u64, u64)) -> bool)
    requires
        forall|i: int| 0 <= i < s.len() ==> ok(#[trigger] s[i]),
    ensures
        sort_by_first(s).len() == s.len(),
        forall|i: int| 0 <= i < sort_by_first(s).len() ==> ok(#[trigger] sort_by_first(s)[i]),
    decreases s.len(),
{
    let m = crate::order::min_pos(s);
    if s.len() > 0 && 0 <= m < s.len() {
        let r = s.remove(m);
        assert forall|i: int| 0 <= i < r.len() implies ok(#[trigger] r[i]) by {
            if i < m {
                assert(r[i] == s[i]);
            } else {
                assert(r[i] == s[i + 1]);
            }
        }
        lemma_sort_keeps(r, ok);
        let out = sort_by_first(s);
        assert(out == seq![s[m]] + sort_by_first(r));
        assert forall|i: int| 0 <= i < out.len() implies ok(#[trigger] out[i]) by {
            if i > 0 {
                assert(out[i] == sort_by_first(r)[i - 1]);
            }
        }
    }
}

proof fn lemma_scan_order(t: Seq<(u32, u8)>)
    requires
        table_wf(t),
    ensures
        scan_order(t).len() <= TABLE_ENTRIES,
        forall|i: int| 0 <= i < scan_order(t).len() ==> triple_ok(#[trigger] scan_order(t)[i]),
{
    lemma_valid_prefix(t, t.len() as int);
    let s = entry_triples(t);
    assert forall|i: int| 0 <= i < s.len() implies triple_ok(#[trigger] s[i]) by {
        let e = valid_entries(t)[i];
        assert(t[e.0 as int].0 < OFFSET_LIMIT);
    }
    lemma_sort_keeps(s, |x: (u64, u64, u64)| triple_ok(x));
}

/// A relocation of the sorted plan: it removes no more sectors than its
/// position, which is a sector number of the table.
pub open spec fn plan_ok(x: (u64, u64, u64)) -> bool {
    x.2 <= x.1 <= OFFSET_LIMIT + 256
}

/// Bounds on the counters after `k` entries of a scan.
pub open spec fn stats_within(s: ScanStatistics, k: int) -> bool {
    &&& s.total_chunks <= TABLE_ENTRIES
    &&& s.invalid_length <= k
    &&& s.invalid_compression_method <= k
    &&& s.missing_nbt <= k
    &&& s.corrupted_nbt <= k
    &&& s.failed_to_read <= k
    &&& s.corrupted_compression <= k
    &&& s.invalid_chunk_pointer <= k
    &&& s.shrunk_size == 0
    &&& s.unused_space <= k * 0x10_0000_0000
}

/// The counters of anomalies are at most `k`.
pub open spec fn events_within(s: ScanStatistics, k: int) -> bool {
    &&& s.invalid_length <= k
    &&& s.invalid_compression_method <= k
    &&& s.missing_nbt <= k
    &&& s.corrupted_nbt <= k
    &&& s.failed_to_read <= k
    &&& s.corrupted_compression <= k
    &&& s.invalid_chunk_pointer <= k
}

/// Every planned relocation moves by at most its own position, which is a
/// sector number of the table.
pub open spec fn ops_ok(ops: Seq<(u64, u64)>) -> bool {
    forall|i: int|
        0 <= i < ops.len() ==> #[trigger] ops[i].1 <= ops[i].0 && ops[i].0 <= OFFSET_LIMIT + 256
}

/// The scan's running values besides the file itself.
struct Progress {
    stats: ScanStatistics,
    ops: Vec<(u64, u64)>,
    prev_end: u64,
}

/// A region file held in memory: its bytes and its two header tables.
pub struct RegionFile {
    data: Vec<u8>,
    locations: Locations,
    timestamps: Timestamps,
}

impl RegionFile {
    /// The file's bytes.
    pub closed spec fn bytes(&self) -> Seq<u8> {
        self.data@
    }

    /// The location table as it stands in memory.
    pub closed spec fn table(&self) -> Seq<(u32, u8)> {
        self.locations@
    }

    /// The timestamp table.
    pub closed spec fn stamps(&self) -> Seq<u32> {
        self.timestamps@
    }

    /// Both header sectors are present and the table is well formed.
    pub open spec fn wf(&self) -> bool {
        &&& table_wf(self.table())
        &&& self.bytes().len() >= 2 * BLOCK_SIZE
    }

    closed spec fn state(&self, p: &Progress) -> ScanState {
        ScanState {
            data: self.data@,
            table: self.locations@,
            stats: p.stats,
            ops: p.ops@,
            prev_end: p.prev_end as int,
        }
    }

    /// Opens a region file from its bytes; `None` where the two header
    /// sectors are not complete.
    pub fn new(data: Vec<u8>) -> (r: Option<Self>)
        ensures
            r is None <==> data@.len() < 2 * BLOCK_SIZE,
            r matches Some(f) ==> {
                &&& f.wf()
                &&& f.bytes() == data@
                &&& f.table() == parse_locations(data@.subrange(0, BLOCK_SIZE as int))
                &&& f.stamps() == parse_timestamps(
                    data@.subrange(BLOCK_SIZE as int, 2 * BLOCK_SIZE as int),
                )
            },
    {
        if data.len() < 2 * BLOCK_SIZE {
            return None;
        }
        let locations = Locations::from_bytes(&data[0..BLOCK_SIZE]);
        let timestamps = Timestamps::from_bytes(&data[BLOCK_SIZE..2 * BLOCK_SIZE]);
        Some(RegionFile { data, locations, timestamps })
    }

    /// The number of chunks present: the valid entries of the table.
    pub fn count_chunks(&self) -> (r: usize)
        ensures
            r == valid_entries(self.table()).len(),
    {
        self.locations.valid_entries_enumerate().len()
    }

    /// The file's bytes, with every change made so far.
    pub fn close(self) -> (r: Vec<u8>)
        ensures
            r@ == self.bytes(),
    {
        self.data
    }

    /// Marks the chunk at `index` as absent in the in-memory table.
    pub fn delete_chunk(&mut self, index: usize)
        requires
            old(self).wf(),
            index < TABLE_ENTRIES,
        ensures
            final(self).wf(),
            final(self).table() == old(self).table().update(index as int, (0u32, 0u8)),
            final(self).bytes() == old(self).bytes(),
    {
        self.locations.delete_chunk_entry_unchecked(index);
    }

    /// Copies the sectors `[start_offset, end_offset)` (cut at the end of the
    /// file) `amount` sectors further on, or earlier where `amount` is
    /// negative. The copy runs front to back when moving left and back to
    /// front when moving right, so overlapping ranges move intact. A range
    /// that ends before it starts is refused.
    pub fn shift_right(&mut self, start_offset: u64, end_offset: u64, amount: i64) -> (r: Result<
        (),
        InvalidShift,
    >)
        requires
            old(self).wf(),
            end_offset * 4096 <= u64::MAX,
            start_offset + amount >= 0,
            shift_count(old(self).bytes().len() as int, start_offset as int, end_offset as int)
                == 0 || (start_offset + amount) * 4096 + shift_count(
                old(self).bytes().len() as int,
                start_offset as int,
                end_offset as int,
            ) <= old(self).bytes().len(),
        ensures
            final(self).wf(),
            final(self).table() == old(self).table(),
            end_offset < start_offset ==> r == Err::<(), InvalidShift>(
                InvalidShift { start: start_offset, end: end_offset },
            ) && final(self).bytes() == old(self).bytes(),
            start_offset <= end_offset ==> r is Ok && final(self).bytes() == shift_bytes(
                old(self).bytes(),
                start_offset as int,
                end_offset as int,
                amount as int,
            ),
    {
        if end_offset < start_offset {
            return Err(InvalidShift { start: start_offset, end: end_offset });
        }
        let ghost before = self.data@;
        let ghost t0 = self.locations@;
        let len_bytes: usize = self.data.len();
        let len = len_bytes as u64;
        let lo = start_offset * 4096;
        let hi = if end_offset * 4096 < len {
            end_offset * 4096
        } else {
            len
        };
        if hi <= lo {
            assert(self.data@ =~= shift_bytes(before, start_offset as int, end_offset as int, amount as int));
            return Ok(());
        }
        let n = hi - lo;
        if amount <= 0 {
            let dst = (start_offset - (0 - amount) as u64) * 4096;
            let mut k: u64 = 0;
            while k < n
                invariant
                    k <= n,
                    dst <= lo,
                    lo + n <= len,
                    len == before.len(),
                    len as int <= usize::MAX as int,
                    self.data@.len() == before.len(),
                    self.locations@ == t0,
                    forall|i: int|
                        0 <= i < before.len() ==> #[trigger] self.data@[i] == if dst <= i < dst
                            + k {
                            before[i - dst + lo]
                        } else {
                            before[i]
                        },
                decreases n - k,
            {
                let v = self.data[(lo + k) as usize];
                self.data.set((dst + k) as usize, v);
                k = k + 1;
            }
            assert(dst == (start_offset + amount) * 4096);
        } else {
            let dst = (start_offset + amount as u64) * 4096;
            let mut k: u64 = n;
            while k > 0
                invariant
                    k <= n,
                    lo < dst,
                    dst + n <= len,
                    len == before.len(),
                    len as int <= usize::MAX as int,
                    self.data@.len() == before.len(),
                    self.locations@ == t0,
                    forall|i: int|
                        0 <= i < before.len() ==> #[trigger] self.data@[i] == if dst + k <= i < dst
                            + n {
                            before[i - dst + lo]
                        } else {
                            before[i]
                        },
                decreases k,
            {
                let v = self.data[(lo + k - 1) as usize];
                self.data.set((dst + k - 1) as usize, v);
                k = k - 1;
            }
            assert(dst == (start_offset + amount) * 4096);
        }
        assert(self.data@ =~= shift_bytes(before, start_offset as int, end_offset as int, amount as int));
        Ok(())
    }

    /// Writes the in-memory location table over the file's first sector.
    fn write_table(&mut self)
        requires
            old(self).wf(),
        ensures
            final(self).wf(),
            final(self).bytes() == with_table(old(self).bytes(), old(self).table()),
            final(self).table() == old(self).table(),
    {
        let ghost before = self.data@;
        let ghost t0 = self.locations@;
        let table = self.locations.to_bytes();
        let mut i: usize = 0;
        while i < BLOCK_SIZE
            invariant
                i <= BLOCK_SIZE,
                table@.len() == BLOCK_SIZE,
                self.data@.len() == before.len(),
                before.len() >= 2 * BLOCK_SIZE,
                self.locations@ == t0,
                table@ == serialize_locations(t0),
                forall|j: int|
                    0 <= j < before.len() ==> #[trigger] self.data@[j] == if j < i {
                        table@[j]
                    } else {
                        before[j]
                    },
            decreases BLOCK_SIZE - i,
        {
            self.data.set(i, table[i]);
            i = i + 1;
        }
        assert(self.data@ =~= with_table(before, self.locations@));
    }

    /// The length check of one entry.
    fn check_length(&mut self, p: &mut Progress, e: (u64, u64, u64), length: u32, options: &ScanOptions, Ghost(k): Ghost<int>)
        requires
            old(self).wf(),
            triple_ok(e),
            1 <= length <= 524288,
            0 <= k < TABLE_ENTRIES,
            stats_within(old(p).stats, k + 1),
            old(p).stats.invalid_length <= k,
        ensures
            final(self).wf(),
            final(self).state(final(p)) == length_step(old(self).state(old(p)), e, length, *options),
            stats_within(final(p).stats, k + 1),
    {
        proof {
            lemma_sectors_needed(length as int);
        }
        let need = required_sectors(length);
        if e.2 != need || length >= REASONABLE_LENGTH_LIMIT {
            p.stats.invalid_length = p.stats.invalid_length + 1;
            if options.fix {
                let current = self.locations.get_chunk_entry_unchecked(e.1 as usize);
                self.locations.replace_entry_unchecked(e.1 as usize, (current.0, need as u8));
            }
        }
    }

    /// The checks on the record of entry `e`, whose header was read.
    fn scan_chunk(&mut self, p: &mut Progress, e: (u64, u64, u64), chunk: Chunk, options: &ScanOptions, Ghost(k): Ghost<int>)
        requires
            old(self).wf(),
            triple_ok(e),
            e.0 * 4096 + 5 <= old(self).bytes().len(),
            spec_header(old(self).bytes(), e.0 * 4096) == Ok::<(u32, u8), ChunkFault>(
                (chunk.length, chunk.compression_type),
            ),
            0 <= k < TABLE_ENTRIES,
            stats_within(old(p).stats, k + 1),
            events_within(old(p).stats, k),
            ops_ok(old(p).ops@),
        ensures
            final(self).wf(),
            final(self).state(final(p)) == record_step(
                old(self).state(old(p)),
                e,
                chunk.length,
                chunk.compression_type,
                *options,
            ),
            stats_within(final(p).stats, k + 1),
            ops_ok(final(p).ops@),
    {
        let ghost st = self.state(p);
        let mut chunk = chunk;
        let pos = (e.0 * 4096) as usize;
        let len = self.data.len();
        if chunk.compression_type > 2 {
            p.stats.invalid_compression_method = p.stats.invalid_compression_method + 1;
            if options.fix {
                self.data.set(pos + 4, 1);
            }
        } else {
            let end = if chunk.compression_type != 0 && chunk.length as usize <= len - pos - 4 {
                pos + 4 + chunk.length as usize
            } else {
                len
            };
            let ghost payload = payload_of(
                self.data@,
                e.0 as int,
                chunk.length as int,
                chunk.compression_type,
            );
            let checked = chunk.validate_nbt_data(&self.data[pos + 5..end]);
            assert(self.data@.subrange(pos + 5, end as int) == payload);
            match checked {
                Err(err) => {
                    match err {
                        ChunkScanError::IO => {
                            p.stats.corrupted_compression = p.stats.corrupted_compression + 1;
                        },
                        ChunkScanError::NBTError(_) => {
                            p.stats.corrupted_nbt = p.stats.corrupted_nbt + 1;
                        },
                        _ => {
                            p.stats.missing_nbt = p.stats.missing_nbt + 1;
                        },
                    }
                    if options.fix_delete {
                        self.locations.delete_chunk_entry_unchecked(e.1 as usize);
                        p.ops.push((e.0 + e.2, e.2));
                        return;
                    }
                },
                Ok(()) => {
                    if let Some(x) = chunk.x_pos {
                        if let Some(z) = chunk.z_pos {
                            if get_chunk_index(x as isize, z as isize) != e.1 as usize {
                                p.stats.invalid_chunk_pointer = p.stats.invalid_chunk_pointer + 1;
                                if options.fix_delete {
                                    self.locations.delete_chunk_entry_unchecked(e.1 as usize);
                                }
                            }
                        }
                    }
                },
            }
        }
        self.check_length(p, e, chunk.length, options, Ghost(k));
    }

    /// One entry `(offset, index, sector count)` of the scan.
    fn scan_entry(&mut self, p: &mut Progress, e: (u64, u64, u64), options: &ScanOptions, Ghost(k): Ghost<int>)
        requires
            old(self).wf(),
            triple_ok(e),
            0 <= k < TABLE_ENTRIES,
            stats_within(old(p).stats, k),
            ops_ok(old(p).ops@),
            old(p).prev_end <= OFFSET_LIMIT + 256,
        ensures
            final(self).wf(),
            final(self).state(final(p)) == scan_step(old(self).state(old(p)), e, *options),
            stats_within(final(p).stats, k + 1),
            ops_ok(final(p).ops@),
            final(p).prev_end <= OFFSET_LIMIT + 256,
    {
        let offset = e.0;
        let sections = e.2;
        if offset > p.prev_end {
            let gap = offset - p.prev_end;
            p.stats.unused_space = p.stats.unused_space + gap * 4096;
            if options.fix {
                p.ops.push((offset, gap));
            }
        }
        p.prev_end = offset + sections;
        let len = self.data.len() as u64;
        if len < (offset + sections) * 4096 {
            p.stats.invalid_chunk_pointer = p.stats.invalid_chunk_pointer + 1;
            if options.fix_delete {
                self.locations.delete_chunk_entry_unchecked(e.1 as usize);
            }
            return;
        }
        let pos = (offset * 4096) as usize;
        match Chunk::from_buf_reader(self.data.as_slice(), pos) {
            Err(_) => {
                p.stats.failed_to_read = p.stats.failed_to_read + 1;
                if options.fix_delete {
                    self.locations.delete_chunk_entry_unchecked(e.1 as usize);
                    p.ops.push((offset + sections, sections));
                }
            },
            Ok(chunk) => {
                self.scan_chunk(p, e, chunk, options, Ghost(k));
            },
        }
    }

    /// Carries out the relocation plan `ops`: in ascending order of
    /// resulting position, each relocation moves the sectors from its
    /// position up to the next one's (the last: up to the end of the
    /// occupied sectors) left by the sectors removed so far, and the table
    /// entries in that range with them. A range that ends before it starts,
    /// or a move into the header sectors, stops with an error.
    fn perform_shift_operations(&mut self, ops: Vec<(u64, u64)>) -> (r: Result<(), InvalidShift>)
        requires
            old(self).wf(),
            ops_ok(ops@),
        ensures
            final(self).wf(),
            match spec_defrag(old(self).bytes(), old(self).table(), ops@) {
                Ok((d, t)) => r is Ok && final(self).bytes() == d && final(self).table() == t,
                Err(e) => r == Err::<(), InvalidShift>(e),
            },
    {
        let ghost d0 = self.data@;
        let ghost t0 = self.locations@;
        let mut triples: Vec<(u64, u64, u64)> = Vec::new();
        let mut i: usize = 0;
        while i < ops.len()
            invariant
                i <= ops@.len(),
                ops_ok(ops@),
                triples@ == op_triples(ops@).subrange(0, i as int),
                self.data@ == d0,
                self.locations@ == t0,
            decreases ops@.len() - i,
        {
            let o = ops[i];
            triples.push((o.0 - o.1, o.0, o.1));
            proof {
                assert(triples@ =~= op_triples(ops@).subrange(0, i + 1));
            }
            i = i + 1;
        }
        assert(triples@ =~= op_triples(ops@));
        let ghost tr = triples@;
        assert forall|j: int| 0 <= j < tr.len() implies plan_ok(#[trigger] tr[j]) by {
            assert(tr[j].1 == ops@[j].0);
        }
        let plan = sort_triples(triples);
        proof {
            lemma_sort_keeps(tr, |x: (u64, u64, u64)| plan_ok(x));
        }
        let mut total: u64 = 0;
        let mut k: usize = 0;
        while k < plan.len()
            invariant
                k <= plan@.len(),
                self.wf(),
                total <= OFFSET_LIMIT + 256,
                forall|j: int| 0 <= j < plan@.len() ==> plan_ok(#[trigger] plan@[j]),
                plan@ == sort_by_first(op_triples(ops@)),
                d0 == old(self).bytes(),
                t0 == old(self).table(),
                spec_defrag(d0, t0, ops@) == defrag_from(
                    self.data@,
                    self.locations@,
                    plan@,
                    k as int,
                    total as int,
                ),
            decreases plan@.len() - k,
        {
            let pos = plan[k].1;
            let total2 = total + plan[k].2;
            let end = if k + 1 < plan.len() {
                plan[k + 1].1
            } else {
                let m = self.locations.max_offset() as u64;
                if m > pos {
                    m
                } else {
                    pos
                }
            };
            if end < pos || pos < total2 + 2 {
                return Err(InvalidShift { start: pos, end });
            }
            let entries_to: u32 = if k + 1 < plan.len() {
                (end - 1) as u32
            } else {
                u32::MAX
            };
            if self.shift_right(pos, end, 0 - total2 as i64).is_err() {
                return Err(InvalidShift { start: pos, end });
            }
            self.locations.shift_entries(pos as u32, entries_to, 0 - total2 as i32);
            total = total2;
            k = k + 1;
        }
        Ok(())
    }

    /// Scans every valid entry in ascending order of sector offset,
    /// classifies what is wrong with it, and with `fix` / `fix_delete`
    /// repairs the table, compacts the file and writes the table back.
    pub fn scan_chunks(&mut self, options: &ScanOptions) -> (r: Result<ScanStatistics, InvalidShift>)
        requires
            old(self).wf(),
        ensures
            final(self).wf(),
            match spec_scan(old(self).bytes(), old(self).table(), *options) {
                Ok((d, t, s)) => r == Ok::<ScanStatistics, InvalidShift>(s) && final(self).bytes()
                    == d && final(self).table() == t,
                Err(e) => r == Err::<ScanStatistics, InvalidShift>(e),
            },
    {
        let ghost d0 = self.data@;
        let ghost t0 = self.locations@;
        let entries = self.locations.valid_entries_enumerate();
        proof {
            lemma_valid_prefix(t0, t0.len() as int);
            lemma_scan_order(t0);
        }
        let mut triples: Vec<(u64, u64, u64)> = Vec::new();
        let mut i: usize = 0;
        while i < entries.len()
            invariant
                i <= entries@.len(),
                entries@ == valid_entries(t0),
                triples@ == entry_triples(t0).subrange(0, i as int),
            decreases entries@.len() - i,
        {
            let en = entries[i];
            triples.push((en.1.0 as u64, en.0 as u64, en.1.1 as u64));
            proof {
                assert(triples@ =~= entry_triples(t0).subrange(0, i + 1));
            }
            i = i + 1;
        }
        assert(triples@ =~= entry_triples(t0));
        let order = sort_triples(triples);
        let mut stats = ScanStatistics::new();
        stats.total_chunks = entries.len() as u64;
        let mut p = Progress { stats, ops: Vec::new(), prev_end: 2 };
        assert(self.state(&p) == scan_start(d0, t0));
        let mut k: usize = 0;
        while k < order.len()
            invariant
                k <= order@.len(),
                order@ == scan_order(t0),
                order@.len() <= TABLE_ENTRIES,
                forall|j: int| 0 <= j < order@.len() ==> triple_ok(#[trigger] order@[j]),
                self.wf(),
                stats_within(p.stats, k as int),
                ops_ok(p.ops@),
                p.prev_end <= OFFSET_LIMIT + 256,
                scan_from(scan_start(d0, t0), order@, 0, *options) == scan_from(
                    self.state(&p),
                    order@,
                    k as int,
                    *options,
                ),
            decreases order@.len() - k,
        {
            self.scan_entry(&mut p, order[k], options, Ghost(k as int));
            k = k + 1;
        }
        if options.fix || options.fix_delete {
            match self.perform_shift_operations(p.ops) {
                Ok(()) => {},
                Err(e) => {
                    return Err(e);
                },
            }
            p.stats.shrunk_size = self.locations.estimated_size();
            self.write_table();
        }
        Ok(p.stats)
    }
}

} // verus!
