//! Audit and repair of region container files: header tables, chunk record
//! framing, the tagged binary tree format of chunk payloads, and the scan that
//! classifies and repairs malformed records.

pub mod bytes;
pub mod chunk;
pub mod constants;
pub mod nbt;
pub mod order;
pub mod region_file;
pub mod scan;
pub mod utils;
