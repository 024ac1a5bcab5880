use vstd::prelude::*;

verus! {

/// Size in bytes of a sector, the addressing unit of a region file.
pub const BLOCK_SIZE: usize = 4096;

/// Number of grid cells, and so of entries, in each header table.
pub const TABLE_ENTRIES: usize = 1024;

/// Deepest nesting of compounds and lists that the payload decoder accepts.
pub const MAX_RECURSION: u64 = 100;

/// Largest record length accepted when a record header is read.
pub const MAX_RECORD_LENGTH: u32 = 524288;

/// Record lengths from this value on are reported as unreasonably large.
pub const REASONABLE_LENGTH_LIMIT: u32 = 1048576;

} // verus!
