use vstd::prelude::*;

use crate::bytes::{be_u32, read_u32};
use crate::constants::MAX_RECORD_LENGTH;
use crate::nbt::{
    compound_model, decode, find_key, lookup, spec_decode, NBTError, NBTValue, Nbt,
};

verus! {

/// What a gzip stream decompresses to; `None` where the bytes do not begin
/// with a complete, valid gzip member (bytes after the member are ignored).
pub uninterp spec fn gzip_decoded(b: Seq<u8>) -> Option<Seq<u8>>;

/// What a zlib stream decompresses to; `None` where the bytes do not begin
/// with a complete, valid zlib stream (bytes after the stream are ignored).
pub uninterp spec fn zlib_decoded(b: Seq<u8>) -> Option<Seq<u8>>;

/// Relies on `flate2::read::GzDecoder`: read to its end, it yields the
/// decompressed gzip member, which depends on the input bytes alone, or fails.
#[verifier::external_body]
fn gunzip(b: &[u8]) -> (r: Option<Vec<u8>>)
    ensures
        r is None <==> gzip_decoded(b@) is None,
        r matches Some(v) ==> gzip_decoded(b@) == Some(v@),
{
    let mut out: Vec<u8> = Vec::new();
    let mut decoder = flate2::read::GzDecoder::new(b);
    match std::io::Read::read_to_end(&mut decoder, &mut out) {
        Ok(_) => Some(out),
        Err(_) => None,
    }
}

/// Relies on `flate2::read::ZlibDecoder`: read to its end, it yields the
/// decompressed zlib stream, which depends on the input bytes alone, or fails.
#[verifier::external_body]
fn unzlib(b: &[u8]) -> (r: Option<Vec<u8>>)
    ensures
        r is None <==> zlib_decoded(b@) is None,
        r matches Some(v) ==> zlib_decoded(b@) == Some(v@),
{
    let mut out: Vec<u8> = Vec::new();
    let mut decoder = flate2::read::ZlibDecoder::new(b);
    match std::io::Read::read_to_end(&mut decoder, &mut out) {
        Ok(_) => Some(out),
        Err(_) => None,
    }
}

/// Why a chunk record failed validation, as a mathematical value.
pub enum ChunkFault {
    IO,
    Tree(NBTError),
    MissingTag(Seq<char>),
    InvalidFormat(Seq<char>),
    InvalidLength(u32),
}

/// Why a chunk record failed validation.
#[derive(Debug)]
pub enum ChunkScanError {
    /// The record or its payload could not be read or decompressed.
    IO,
    /// The payload is not a well-formed tree.
    NBTError(NBTError),
    /// A required field is absent.
    MissingTag(String),
    /// A field does not have the expected type.
    InvalidFormat(String),
    /// The record's length field is zero or too large.
    InvalidLength(u32),
}

impl View for ChunkScanError {
    type V = ChunkFault;

    open spec fn view(&self) -> ChunkFault {
        match self {
            ChunkScanError::IO => ChunkFault::IO,
            ChunkScanError::NBTError(e) => ChunkFault::Tree(*e),
            ChunkScanError::MissingTag(s) => ChunkFault::MissingTag(s@),
            ChunkScanError::InvalidFormat(s) => ChunkFault::InvalidFormat(s@),
            ChunkScanError::InvalidLength(l) => ChunkFault::InvalidLength(*l),
        }
    }
}

/// The header of a chunk record, and the grid coordinates that its payload
/// declares once validated.
#[derive(Debug)]
pub struct Chunk {
    pub length: u32,
    pub compression_type: u8,
    pub x_pos: Option<i32>,
    pub z_pos: Option<i32>,
}

/// The record header at byte `pos` of `d`: a big-endian `u32` length, which
/// must lie in `[1, 128 * 4096]`, then the compression tag.
pub open spec fn spec_header(d: Seq<u8>, pos: int) -> Result<(u32, u8), ChunkFault> {
    if pos < 0 || pos + 4 > d.len() {
        Err(ChunkFault::IO)
    } else if be_u32(d, pos) > MAX_RECORD_LENGTH || be_u32(d, pos) == 0 {
        Err(ChunkFault::InvalidLength(be_u32(d, pos) as u32))
    } else if pos + 5 > d.len() {
        Err(ChunkFault::IO)
    } else {
        Ok((be_u32(d, pos) as u32, d[pos + 4]))
    }
}

/// The field names that the `Level` compound of every chunk must hold.
pub open spec fn required_tags() -> Seq<Seq<char>> {
    seq![
        "xPos"@,
        "zPos"@,
        "Sections"@,
        "LastUpdate"@,
        "InhabitedTime"@,
        "Heightmaps"@,
        "Entities"@,
        "TileEntities"@,
        "LiquidTicks"@,
        "PostProcessing"@,
        "Status"@,
        "Structures"@,
    ]
}

/// The first required field, from position `i` of the list on, that `level`
/// lacks.
pub open spec fn first_missing_from(level: Seq<(Seq<char>, Nbt)>, i: int) -> Option<int>
    decreases required_tags().len() - i,
{
    if i < 0 || i >= required_tags().len() {
        None
    } else if lookup(level, required_tags()[i]) is None {
        Some(i)
    } else {
        first_missing_from(level, i + 1)
    }
}

/// The value of field `k` of `c` where it is an `Int`.
pub open spec fn int_field(c: Seq<(Seq<char>, Nbt)>, k: Seq<char>) -> Option<i32> {
    match lookup(c, k) {
        Some(Nbt::Int(v)) => Some(v),
        _ => None,
    }
}

/// The checks on a decoded root compound: it holds a compound `Level` with
/// every required field; the result is the declared `(xPos, zPos)`.
pub open spec fn spec_check_root(root: Seq<(Seq<char>, Nbt)>) -> Result<
    (Option<i32>, Option<i32>),
    ChunkFault,
> {
    match lookup(root, "Level"@) {
        None => Err(ChunkFault::MissingTag("Level"@)),
        Some(Nbt::Compound(level)) => match first_missing_from(level, 0) {
            Some(j) => Err(ChunkFault::MissingTag(required_tags()[j])),
            None => Ok((int_field(level, "xPos"@), int_field(level, "zPos"@))),
        },
        Some(_) => Err(ChunkFault::InvalidFormat("Level"@)),
    }
}

/// The root compound of a payload in its stored form.
pub open spec fn spec_tree(b: Seq<u8>) -> Result<Seq<(Seq<char>, Nbt)>, ChunkFault> {
    match spec_decode(b) {
        Ok(es) => Ok(es),
        Err(e) => Err(ChunkFault::Tree(e)),
    }
}

/// Decompression (gzip for tag 1, zlib for tag 2, none otherwise), decoding
/// and checking of a payload; the result is the declared `(xPos, zPos)`.
pub open spec fn spec_validate(compression: u8, payload: Seq<u8>) -> Result<
    (Option<i32>, Option<i32>),
    ChunkFault,
> {
    let tree = if compression == 1 {
        match gzip_decoded(payload) {
            Some(b) => spec_tree(b),
            None => Err(ChunkFault::IO),
        }
    } else if compression == 2 {
        match zlib_decoded(payload) {
            Some(b) => spec_tree(b),
            None => Err(ChunkFault::IO),
        }
    } else {
        spec_tree(payload)
    };
    match tree {
        Ok(root) => spec_check_root(root),
        Err(e) => Err(e),
    }
}

/// The name of required field `i`.
fn required_tag(i: usize) -> (r: &'static str)
    requires
        i < 12,
    ensures
        r@ == required_tags()[i as int],
{
    if i == 0 {
        "xPos"
    } else if i == 1 {
        "zPos"
    } else if i == 2 {
        "Sections"
    } else if i == 3 {
        "LastUpdate"
    } else if i == 4 {
        "InhabitedTime"
    } else if i == 5 {
        "Heightmaps"
    } else if i == 6 {
        "Entities"
    } else if i == 7 {
        "TileEntities"
    } else if i == 8 {
        "LiquidTicks"
    } else if i == 9 {
        "PostProcessing"
    } else if i == 10 {
        "Status"
    } else {
        "Structures"
    }
}

/// Decodes a payload in its stored form.
fn decode_tree(b: &[u8]) -> (r: Result<Vec<(String, NBTValue)>, ChunkScanError>)
    ensures
        match r {
            Ok(es) => spec_tree(b@) == Ok::<Seq<(Seq<char>, Nbt)>, ChunkFault>(compound_model(es@)),
            Err(e) => spec_tree(b@) == Err::<Seq<(Seq<char>, Nbt)>, ChunkFault>(e@),
        },
{
    match decode(b) {
        Ok(es) => Ok(es),
        Err(e) => Err(ChunkScanError::NBTError(e)),
    }
}

/// The value of the `Int` field `key` of `c`, if it is one.
fn int_field_of(c: &Vec<(String, NBTValue)>, key: &str) -> (r: Option<i32>)
    ensures
        r == int_field(compound_model(c@), key@),
{
    let k = key.to_owned();
    match find_key(c, &k) {
        Some(i) => match &c[i].1 {
            NBTValue::Int(v) => Some(*v),
            _ => None,
        },
        None => None,
    }
}

/// Checks a decoded root compound; returns the declared `(xPos, zPos)`.
pub fn check_root(root: &Vec<(String, NBTValue)>) -> (r: Result<
    (Option<i32>, Option<i32>),
    ChunkScanError,
>)
    ensures
        match r {
            Ok(p) => spec_check_root(compound_model(root@)) == Ok::<
                (Option<i32>, Option<i32>),
                ChunkFault,
            >(p),
            Err(e) => spec_check_root(compound_model(root@)) == Err::<
                (Option<i32>, Option<i32>),
                ChunkFault,
            >(e@),
        },
{
    let level_name = "Level".to_owned();
    let i = match find_key(root, &level_name) {
        Some(i) => i,
        None => {
            return Err(ChunkScanError::MissingTag(level_name));
        },
    };
    match &root[i].1 {
        NBTValue::Compound(level) => {
            let ghost lm = compound_model(level@);
            assert(required_tags().len() == 12);
            assert(lookup(compound_model(root@), "Level"@) == Some(Nbt::Compound(lm)));
            let mut j: usize = 0;
            while j < 12
                invariant
                    j <= 12,
                    first_missing_from(lm, 0) == first_missing_from(lm, j as int),
                    lm == compound_model(level@),
                    lookup(compound_model(root@), "Level"@) == Some(Nbt::Compound(lm)),
                decreases 12 - j,
            {
                let tag = required_tag(j).to_owned();
                if find_key(level, &tag).is_none() {
                    assert(first_missing_from(lm, j as int) == Some(j as int));
                    return Err(ChunkScanError::MissingTag(tag));
                }
                j = j + 1;
            }
            Ok((int_field_of(level, "xPos"), int_field_of(level, "zPos")))
        },
        _ => Err(ChunkScanError::InvalidFormat(level_name)),
    }
}

impl Chunk {
    /// Reads the record header at byte `pos` of `data`.
    pub fn from_buf_reader(data: &[u8], pos: usize) -> (r: Result<Self, ChunkScanError>)
        ensures
            match r {
                Ok(c) => spec_header(data@, pos as int) == Ok::<(u32, u8), ChunkFault>(
                    (c.length, c.compression_type),
                ) && c.x_pos is None && c.z_pos is None,
                Err(e) => spec_header(data@, pos as int) == Err::<(u32, u8), ChunkFault>(e@),
            },
    {
        let len = data.len();
        if pos > len || len - pos < 4 {
            return Err(ChunkScanError::IO);
        }
        let length = read_u32(data, pos);
        if length > MAX_RECORD_LENGTH || length == 0 {
            return Err(ChunkScanError::InvalidLength(length));
        }
        if len - pos < 5 {
            return Err(ChunkScanError::IO);
        }
        Ok(Chunk { length, compression_type: data[pos + 4], x_pos: None, z_pos: None })
    }

    /// Decompresses, decodes and checks the payload of this record, and on
    /// success records the grid coordinates that it declares.
    pub fn validate_nbt_data(&mut self, payload: &[u8]) -> (r: Result<(), ChunkScanError>)
        ensures
            final(self).length == old(self).length,
            final(self).compression_type == old(self).compression_type,
            match spec_validate(old(self).compression_type, payload@) {
                Ok((x, z)) => r is Ok && final(self).x_pos == x && final(self).z_pos == z,
                Err(f) => r matches Err(e) && e@ == f && final(self).x_pos == old(self).x_pos
                    && final(self).z_pos == old(self).z_pos,
            },
    {
        let tree = if self.compression_type == 1 {
            match gunzip(payload) {
                Some(b) => decode_tree(b.as_slice()),
                None => Err(ChunkScanError::IO),
            }
        } else if self.compression_type == 2 {
            match unzlib(payload) {
                Some(b) => decode_tree(b.as_slice()),
                None => Err(ChunkScanError::IO),
            }
        } else {
            decode_tree(payload)
        };
        match tree {
            Ok(root) => match check_root(&root) {
                Ok((x, z)) => {
                    self.x_pos = x;
                    self.z_pos = z;
                    Ok(())
                },
                Err(e) => Err(e),
            },
            Err(e) => Err(e),
        }
    }
}

} // verus!
