use vstd::prelude::*;
use vstd::utf8::{decode_utf8, valid_utf8};

use crate::bytes::{
    be_u16, be_u32, be_u64, lemma_be_u16_bound, lemma_be_u32_bound, lemma_be_u64_bound, read_i16,
    read_i32, read_i64, read_u16, read_u32, read_u64, signed,
};
use crate::constants::MAX_RECURSION;

verus! {

/// A decoded value of the tagged binary tree format, as a mathematical value.
pub enum Nbt {
    Null,
    Byte(u8),
    Short(i16),
    Int(i32),
    Long(i64),
    Float(u32),
    Double(u64),
    ByteArray(u32),
    Str(Seq<char>),
    List(Seq<Nbt>),
    Compound(Seq<(Seq<char>, Nbt)>),
    IntArray(Seq<i32>),
    LongArray(Seq<i64>),
}

/// A decoded value of the tagged binary tree format.
///
/// Floating-point values are kept as their raw IEEE-754 bits; a byte array
/// keeps only its length.
#[derive(Debug)]
pub enum NBTValue {
    Null,
    Byte(u8),
    Short(i16),
    Int(i32),
    Long(i64),
    Float(u32),
    Double(u64),
    ByteArray(u32),
    String(String),
    List(Vec<NBTValue>),
    Compound(Vec<(String, NBTValue)>),
    IntArray(Vec<i32>),
    LongArray(Vec<i64>),
}

impl NBTValue {
    /// The mathematical value of this tree.
    pub open spec fn model(&self) -> Nbt
        decreases self,
    {
        match self {
            NBTValue::Null => Nbt::Null,
            NBTValue::Byte(v) => Nbt::Byte(*v),
            NBTValue::Short(v) => Nbt::Short(*v),
            NBTValue::Int(v) => Nbt::Int(*v),
            NBTValue::Long(v) => Nbt::Long(*v),
            NBTValue::Float(v) => Nbt::Float(*v),
            NBTValue::Double(v) => Nbt::Double(*v),
            NBTValue::ByteArray(v) => Nbt::ByteArray(*v),
            NBTValue::String(s) => Nbt::Str(s@),
            NBTValue::List(items) => Nbt::List(
                Seq::new(
                    items@.len(),
                    |i: int|
                        if 0 <= i < items@.len() {
                            items@[i].model()
                        } else {
                            Nbt::Null
                        },
                ),
            ),
            NBTValue::Compound(es) => Nbt::Compound(compound_model(es@)),
            NBTValue::IntArray(v) => Nbt::IntArray(v@),
            NBTValue::LongArray(v) => Nbt::LongArray(v@),
        }
    }
}

pub open spec fn compound_model(es: Seq<(String, NBTValue)>) -> Seq<(Seq<char>, Nbt)>
    decreases es,
{
    Seq::new(
        es.len(),
        |i: int|
            if 0 <= i < es.len() {
                (es[i].0@, es[i].1.model())
            } else {
                (Seq::empty(), Nbt::Null)
            },
    )
}


/// The list model of a sequence of decoded values.
pub open spec fn list_model(items: Seq<NBTValue>) -> Seq<Nbt> {
    Seq::new(items.len(), |i: int| items[i].model())
}

/// Errors of the tree decoder.
#[derive(Clone, Copy, Debug, PartialEq, Eq, Structural)]
pub enum NBTError {
    /// The input ended inside a value.
    UnexpectedEof,
    /// The first byte is not the compound tag.
    MissingRootTag,
    /// A tag id outside 0 to 12 (or 0 where a value is required).
    InvalidTag(u8),
    /// A string that is not valid UTF-8.
    InvalidName,
    /// Compounds and lists nested deeper than the limit.
    RecursionLimit,
}

/// The position of the first entry of `es`, from `i` on, whose key is `k`;
/// -1 if there is none.
pub open spec fn key_index_from(es: Seq<(Seq<char>, Nbt)>, k: Seq<char>, i: int) -> int
    decreases es.len() - i,
{
    if i < 0 || i >= es.len() {
        -1
    } else if es[i].0 == k {
        i
    } else {
        key_index_from(es, k, i + 1)
    }
}

/// The position of the entry of `es` with key `k`; -1 if there is none.
pub open spec fn key_index(es: Seq<(Seq<char>, Nbt)>, k: Seq<char>) -> int {
    key_index_from(es, k, 0)
}

/// The value stored under key `k`, if any.
pub open spec fn lookup(es: Seq<(Seq<char>, Nbt)>, k: Seq<char>) -> Option<Nbt> {
    if key_index(es, k) >= 0 {
        Some(es[key_index(es, k)].1)
    } else {
        None
    }
}

/// The compound `es` with `k` bound to `v`: an existing entry of that key is
/// overwritten in place, otherwise the entry is appended.
pub open spec fn put(es: Seq<(Seq<char>, Nbt)>, k: Seq<char>, v: Nbt) -> Seq<(Seq<char>, Nbt)> {
    if key_index(es, k) >= 0 {
        es.update(key_index(es, k), (k, v))
    } else {
        es.push((k, v))
    }
}

/// A length-prefixed string at `p`: a big-endian `u16` byte count, then that
/// many bytes of UTF-8.
pub open spec fn spec_string(d: Seq<u8>, p: int) -> Result<(Seq<char>, int), NBTError> {
    if p < 0 || p + 2 > d.len() {
        Err(NBTError::UnexpectedEof)
    } else {
        let n = be_u16(d, p);
        if n == 0 {
            Ok((Seq::empty(), p + 2))
        } else if p + 2 + n > d.len() {
            Err(NBTError::UnexpectedEof)
        } else if valid_utf8(d.subrange(p + 2, p + 2 + n)) {
            Ok((decode_utf8(d.subrange(p + 2, p + 2 + n)), p + 2 + n))
        } else {
            Err(NBTError::InvalidName)
        }
    }
}

/// The `i32` array of `n` big-endian items at `p`.
pub open spec fn int_items(d: Seq<u8>, p: int, n: nat) -> Seq<i32> {
    Seq::new(n, |i: int| signed(be_u32(d, p + 4 * i), 32) as i32)
}

/// The `i64` array of `n` big-endian items at `p`.
pub open spec fn long_items(d: Seq<u8>, p: int, n: nat) -> Seq<i64> {
    Seq::new(n, |i: int| signed(be_u64(d, p + 8 * i), 64) as i64)
}

/// The value of type `tag` at `p`, nested `depth` levels deep, with the
/// position after it.
pub open spec fn spec_value(d: Seq<u8>, p: int, tag: u8, depth: nat) -> Result<(Nbt, int), NBTError>
    decreases d.len() - p, 2int, 0nat,
{
    if p < 0 || p > d.len() {
        Err(NBTError::UnexpectedEof)
    } else if tag == 0 {
        Ok((Nbt::Null, p))
    } else if tag == 1 {
        if p + 1 > d.len() {
            Err(NBTError::UnexpectedEof)
        } else {
            Ok((Nbt::Byte(d[p]), p + 1))
        }
    } else if tag == 2 {
        if p + 2 > d.len() {
            Err(NBTError::UnexpectedEof)
        } else {
            Ok((Nbt::Short(signed(be_u16(d, p), 16) as i16), p + 2))
        }
    } else if tag == 3 {
        if p + 4 > d.len() {
            Err(NBTError::UnexpectedEof)
        } else {
            Ok((Nbt::Int(signed(be_u32(d, p), 32) as i32), p + 4))
        }
    } else if tag == 4 {
        if p + 8 > d.len() {
            Err(NBTError::UnexpectedEof)
        } else {
            Ok((Nbt::Long(signed(be_u64(d, p), 64) as i64), p + 8))
        }
    } else if tag == 5 {
        if p + 4 > d.len() {
            Err(NBTError::UnexpectedEof)
        } else {
            Ok((Nbt::Float(be_u32(d, p) as u32), p + 4))
        }
    } else if tag == 6 {
        if p + 8 > d.len() {
            Err(NBTError::UnexpectedEof)
        } else {
            Ok((Nbt::Double(be_u64(d, p) as u64), p + 8))
        }
    } else if tag == 7 {
        if p + 4 > d.len() || p + 4 + be_u32(d, p) > d.len() {
            Err(NBTError::UnexpectedEof)
        } else {
            Ok((Nbt::ByteArray(be_u32(d, p) as u32), p + 4 + be_u32(d, p)))
        }
    } else if tag == 8 {
        match spec_string(d, p) {
            Ok((s, q)) => Ok((Nbt::Str(s), q)),
            Err(e) => Err(e),
        }
    } else if tag == 9 {
        if depth + 1 > MAX_RECURSION {
            Err(NBTError::RecursionLimit)
        } else if p + 5 > d.len() {
            Err(NBTError::UnexpectedEof)
        } else if d[p] > 12 {
            Err(NBTError::InvalidTag(d[p]))
        } else {
            match spec_items(d, p + 5, d[p], be_u32(d, p + 1) as nat, depth + 1, Seq::empty()) {
                Ok((items, q)) => Ok((Nbt::List(items), q)),
                Err(e) => Err(e),
            }
        }
    } else if tag == 10 {
        if depth + 1 > MAX_RECURSION {
            Err(NBTError::RecursionLimit)
        } else {
            match spec_entries(d, p, depth + 1, Seq::empty()) {
                Ok((es, q)) => Ok((Nbt::Compound(es), q)),
                Err(e) => Err(e),
            }
        }
    } else if tag == 11 {
        if p + 4 > d.len() || p + 4 + 4 * be_u32(d, p) > d.len() {
            Err(NBTError::UnexpectedEof)
        } else {
            Ok(
                (
                    Nbt::IntArray(int_items(d, p + 4, be_u32(d, p) as nat)),
                    p + 4 + 4 * be_u32(d, p),
                ),
            )
        }
    } else if tag == 12 {
        if p + 4 > d.len() || p + 4 + 8 * be_u32(d, p) > d.len() {
            Err(NBTError::UnexpectedEof)
        } else {
            Ok(
                (
                    Nbt::LongArray(long_items(d, p + 4, be_u32(d, p) as nat)),
                    p + 4 + 8 * be_u32(d, p),
                ),
            )
        }
    } else {
        Err(NBTError::InvalidTag(tag))
    }
}

/// The `count` list items of type `tag` at `p`, appended to `acc`.
pub open spec fn spec_items(
    d: Seq<u8>,
    p: int,
    tag: u8,
    count: nat,
    depth: nat,
    acc: Seq<Nbt>,
) -> Result<(Seq<Nbt>, int), NBTError>
    decreases d.len() - p, 3int, count,
{
    if p < 0 || p > d.len() {
        Err(NBTError::UnexpectedEof)
    } else if count == 0 {
        Ok((acc, p))
    } else {
        match spec_value(d, p, tag, depth) {
            Ok((v, q)) => if q < p || q > d.len() {
                Err(NBTError::UnexpectedEof)
            } else {
                spec_items(d, q, tag, (count - 1) as nat, depth, acc.push(v))
            },
            Err(e) => Err(e),
        }
    }
}

/// The named entries at `p` up to the end tag (0), put into `acc`.
pub open spec fn spec_entries(d: Seq<u8>, p: int, depth: nat, acc: Seq<(Seq<char>, Nbt)>) -> Result<
    (Seq<(Seq<char>, Nbt)>, int),
    NBTError,
>
    decreases d.len() - p, 1int, 0nat,
{
    if p < 0 || p >= d.len() {
        Err(NBTError::UnexpectedEof)
    } else if d[p] == 0 {
        Ok((acc, p + 1))
    } else {
        match spec_string(d, p + 1) {
            Ok((name, q)) => match spec_value(d, q, d[p], depth) {
                Ok((v, r)) => if r < q || r > d.len() {
                    Err(NBTError::UnexpectedEof)
                } else {
                    spec_entries(d, r, depth, put(acc, name, v))
                },
                Err(e) => Err(e),
            },
            Err(e) => Err(e),
        }
    }
}

/// A compound or list opened at or below the nesting limit fails with
/// `RecursionLimit`, whatever the bytes that follow.
pub proof fn lemma_depth_bound(d: Seq<u8>, p: int, tag: u8, depth: nat)
    requires
        tag == 9 || tag == 10,
        depth >= MAX_RECURSION,
        0 <= p <= d.len(),
    ensures
        spec_value(d, p, tag, depth) == Err::<(Nbt, int), NBTError>(NBTError::RecursionLimit),
{
}

/// The root compound of a payload: the compound tag, a 2-byte name length
/// (the name is not read), then the entries.
pub open spec fn spec_decode(d: Seq<u8>) -> Result<Seq<(Seq<char>, Nbt)>, NBTError> {
    if d.len() < 1 {
        Err(NBTError::UnexpectedEof)
    } else if d[0] != 10 {
        Err(NBTError::MissingRootTag)
    } else if d.len() < 3 {
        Err(NBTError::UnexpectedEof)
    } else {
        match spec_entries(d, 3, 1, Seq::empty()) {
            Ok((es, _)) => Ok(es),
            Err(e) => Err(e),
        }
    }
}


/// `r` is the executable form of the string result `s`.
pub open spec fn string_result(r: Result<(String, usize), NBTError>, s: Result<(Seq<char>, int), NBTError>) -> bool {
    match r {
        Ok((v, q)) => s == Ok::<(Seq<char>, int), NBTError>((v@, q as int)),
        Err(e) => s == Err::<(Seq<char>, int), NBTError>(e),
    }
}

/// `r` is the executable form of the value result `s`.
pub open spec fn value_result(r: Result<(NBTValue, usize), NBTError>, s: Result<(Nbt, int), NBTError>) -> bool {
    match r {
        Ok((v, q)) => s == Ok::<(Nbt, int), NBTError>((v.model(), q as int)),
        Err(e) => s == Err::<(Nbt, int), NBTError>(e),
    }
}

/// `r` is the executable form of the list result `s`.
pub open spec fn items_result(r: Result<(Vec<NBTValue>, usize), NBTError>, s: Result<(Seq<Nbt>, int), NBTError>) -> bool {
    match r {
        Ok((v, q)) => s == Ok::<(Seq<Nbt>, int), NBTError>((list_model(v@), q as int)),
        Err(e) => s == Err::<(Seq<Nbt>, int), NBTError>(e),
    }
}

/// `r` is the executable form of the compound result `s`.
pub open spec fn entries_result(
    r: Result<(Vec<(String, NBTValue)>, usize), NBTError>,
    s: Result<(Seq<(Seq<char>, Nbt)>, int), NBTError>,
) -> bool {
    match r {
        Ok((v, q)) => s == Ok::<(Seq<(Seq<char>, Nbt)>, int), NBTError>(
            (compound_model(v@), q as int),
        ),
        Err(e) => s == Err::<(Seq<(Seq<char>, Nbt)>, int), NBTError>(e),
    }
}

/// Relies on `std::str::from_utf8`: it accepts exactly the valid UTF-8 byte
/// strings, and the string then holds the characters that they encode.
#[verifier::external_body]
fn utf8_string(b: &[u8]) -> (r: Option<String>)
    ensures
        r.is_some() == valid_utf8(b@),
        r matches Some(s) ==> s@ == decode_utf8(b@),
{
    match std::str::from_utf8(b) {
        Ok(s) => Some(s.to_owned()),
        Err(_) => None,
    }
}

/// Decodes a length-prefixed UTF-8 string at `p`.
fn parse_string(d: &[u8], p: usize) -> (r: Result<(String, usize), NBTError>)
    requires
        p <= d@.len(),
    ensures
        string_result(r, spec_string(d@, p as int)),
        r matches Ok((_, q)) ==> p < q <= d@.len(),
{
    let len = d.len();
    if len - p < 2 {
        return Err(NBTError::UnexpectedEof);
    }
    let n = read_u16(d, p) as usize;
    if n == 0 {
        return Ok((String::new(), p + 2));
    }
    if len - p - 2 < n {
        return Err(NBTError::UnexpectedEof);
    }
    let raw = &d[p + 2..p + 2 + n];
    match utf8_string(raw) {
        Some(s) => Ok((s, p + 2 + n)),
        None => Err(NBTError::InvalidName),
    }
}

/// The position of the first entry of `entries` whose name is `name`.
pub fn find_key(entries: &Vec<(String, NBTValue)>, name: &String) -> (r: Option<usize>)
    ensures
        match r {
            Some(i) => i == key_index(compound_model(entries@), name@) && i < entries@.len(),
            None => key_index(compound_model(entries@), name@) == -1,
        },
{
    let ghost m = compound_model(entries@);
    let mut i: usize = 0;
    while i < entries.len()
        invariant
            i <= entries@.len(),
            m == compound_model(entries@),
            key_index_from(m, name@, 0) == key_index_from(m, name@, i as int),
        decreases entries@.len() - i,
    {
        if entries[i].0 == *name {
            return Some(i);
        }
        i = i + 1;
    }
    None
}

/// Binds `name` to `value` in `entries`, overwriting an entry of that name in
/// place.
fn put_entry(entries: &mut Vec<(String, NBTValue)>, name: String, value: NBTValue)
    ensures
        compound_model(final(entries)@) == put(compound_model(old(entries)@), name@, value.model()),
{
    let ghost m = compound_model(entries@);
    let ghost n = name@;
    let ghost vm = value.model();
    match find_key(entries, &name) {
        Some(i) => {
            entries.set(i, (name, value));
            assert(compound_model(entries@) =~= m.update(i as int, (n, vm)));
        },
        None => {
            entries.push((name, value));
            assert(compound_model(entries@) =~= m.push((n, vm)));
        },
    }
}

/// Decodes the value of type `tag` at `p`, nested `depth` levels deep.
fn parse_value(d: &[u8], p: usize, tag: u8, depth: u64) -> (r: Result<(NBTValue, usize), NBTError>)
    requires
        p <= d@.len(),
        depth <= MAX_RECURSION,
    ensures
        value_result(r, spec_value(d@, p as int, tag, depth as nat)),
        r matches Ok((_, q)) ==> p <= q <= d@.len(),
    decreases d@.len() - p, 2int, 0nat,
{
    let len = d.len();
    let rest = len - p;
    if tag == 0 {
        Ok((NBTValue::Null, p))
    } else if tag == 1 {
        if rest < 1 {
            Err(NBTError::UnexpectedEof)
        } else {
            Ok((NBTValue::Byte(d[p]), p + 1))
        }
    } else if tag == 2 {
        if rest < 2 {
            Err(NBTError::UnexpectedEof)
        } else {
            Ok((NBTValue::Short(read_i16(d, p)), p + 2))
        }
    } else if tag == 3 {
        if rest < 4 {
            Err(NBTError::UnexpectedEof)
        } else {
            Ok((NBTValue::Int(read_i32(d, p)), p + 4))
        }
    } else if tag == 4 {
        if rest < 8 {
            Err(NBTError::UnexpectedEof)
        } else {
            Ok((NBTValue::Long(read_i64(d, p)), p + 8))
        }
    } else if tag == 5 {
        if rest < 4 {
            Err(NBTError::UnexpectedEof)
        } else {
            Ok((NBTValue::Float(read_u32(d, p)), p + 4))
        }
    } else if tag == 6 {
        if rest < 8 {
            Err(NBTError::UnexpectedEof)
        } else {
            Ok((NBTValue::Double(read_u64(d, p)), p + 8))
        }
    } else if tag == 7 {
        if rest < 4 {
            return Err(NBTError::UnexpectedEof);
        }
        let n = read_u32(d, p);
        if rest - 4 < n as usize {
            Err(NBTError::UnexpectedEof)
        } else {
            Ok((NBTValue::ByteArray(n), p + 4 + n as usize))
        }
    } else if tag == 8 {
        match parse_string(d, p) {
            Ok((s, q)) => Ok((NBTValue::String(s), q)),
            Err(e) => Err(e),
        }
    } else if tag == 9 {
        if depth + 1 > MAX_RECURSION {
            return Err(NBTError::RecursionLimit);
        }
        if rest < 5 {
            return Err(NBTError::UnexpectedEof);
        }
        let item_tag = d[p];
        if item_tag > 12 {
            return Err(NBTError::InvalidTag(item_tag));
        }
        let count = read_u32(d, p + 1);
        match parse_list_items(d, p + 5, item_tag, count, depth + 1) {
            Ok((items, q)) => {
                let ghost lm = list_model(items@);
                let v = NBTValue::List(items);
                proof {
                    if let Nbt::List(s) = v.model() {
                        assert(s =~= lm);
                    }
                }
                Ok((v, q))
            },
            Err(e) => Err(e),
        }
    } else if tag == 10 {
        if depth + 1 > MAX_RECURSION {
            return Err(NBTError::RecursionLimit);
        }
        match parse_compound(d, p, depth + 1) {
            Ok((es, q)) => Ok((NBTValue::Compound(es), q)),
            Err(e) => Err(e),
        }
    } else if tag == 11 {
        if rest < 4 {
            return Err(NBTError::UnexpectedEof);
        }
        let n = read_u32(d, p);
        proof {
            lemma_short_array(rest as int - 4, n as int, 4);
        }
        if (rest - 4) / 4 < n as usize {
            return Err(NBTError::UnexpectedEof);
        }
        let items = parse_int_array(d, p + 4, n);
        Ok((NBTValue::IntArray(items), p + 4 + 4 * n as usize))
    } else if tag == 12 {
        if rest < 4 {
            return Err(NBTError::UnexpectedEof);
        }
        let n = read_u32(d, p);
        proof {
            lemma_short_array(rest as int - 4, n as int, 8);
        }
        if (rest - 4) / 8 < n as usize {
            return Err(NBTError::UnexpectedEof);
        }
        let items = parse_long_array(d, p + 4, n);
        Ok((NBTValue::LongArray(items), p + 4 + 8 * n as usize))
    } else {
        Err(NBTError::InvalidTag(tag))
    }
}

proof fn lemma_short_array(room: int, n: int, w: int)
    requires
        0 <= room,
        0 <= n,
        0 < w,
    ensures
        room / w < n <==> room < w * n,
{
    assert(room / w < n ==> room < w * n) by (nonlinear_arith)
        requires
            0 <= room,
            0 <= n,
            0 < w,
    ;
    assert(room / w >= n ==> room >= w * n) by (nonlinear_arith)
        requires
            0 <= room,
            0 <= n,
            0 < w,
    ;
}

/// Decodes `n` big-endian `i32` items at `p`.
fn parse_int_array(d: &[u8], p: usize, n: u32) -> (r: Vec<i32>)
    requires
        p + 4 * n <= d@.len(),
    ensures
        r@ == int_items(d@, p as int, n as nat),
{
    let _len: usize = d.len();
    let mut items: Vec<i32> = Vec::new();
    let mut i: u32 = 0;
    while i < n
        invariant
            i <= n,
            p + 4 * n <= d@.len(),
            d@.len() <= usize::MAX,
            items@ == int_items(d@, p as int, i as nat),
        decreases n - i,
    {
        let v = read_i32(d, p + 4 * (i as usize));
        proof {
            lemma_be_u32_bound(d@, p + 4 * i);
        }
        items.push(v);
        proof {
            assert(items@ =~= int_items(d@, p as int, (i + 1) as nat));
        }
        i = i + 1;
    }
    items
}

/// Decodes `n` big-endian `i64` items at `p`.
fn parse_long_array(d: &[u8], p: usize, n: u32) -> (r: Vec<i64>)
    requires
        p + 8 * n <= d@.len(),
    ensures
        r@ == long_items(d@, p as int, n as nat),
{
    let _len: usize = d.len();
    let mut items: Vec<i64> = Vec::new();
    let mut i: u32 = 0;
    while i < n
        invariant
            i <= n,
            p + 8 * n <= d@.len(),
            d@.len() <= usize::MAX,
            items@ == long_items(d@, p as int, i as nat),
        decreases n - i,
    {
        let v = read_i64(d, p + 8 * (i as usize));
        proof {
            lemma_be_u64_bound(d@, p + 8 * i);
        }
        items.push(v);
        proof {
            assert(items@ =~= long_items(d@, p as int, (i + 1) as nat));
        }
        i = i + 1;
    }
    items
}

/// Decodes `count` list items of type `tag` at `p`.
fn parse_list_items(d: &[u8], p: usize, tag: u8, count: u32, depth: u64) -> (r: Result<
    (Vec<NBTValue>, usize),
    NBTError,
>)
    requires
        p <= d@.len(),
        depth <= MAX_RECURSION,
    ensures
        items_result(r, spec_items(d@, p as int, tag, count as nat, depth as nat, Seq::empty())),
        r matches Ok((_, q)) ==> p <= q <= d@.len(),
    decreases d@.len() - p, 3int, count as nat,
{
    let mut items: Vec<NBTValue> = Vec::new();
    let mut pos = p;
    let mut left = count;
    proof {
        assert(list_model(items@) =~= Seq::<Nbt>::empty());
    }
    while left > 0
        invariant
            p <= pos <= d@.len(),
            left <= count,
            depth <= MAX_RECURSION,
            spec_items(d@, p as int, tag, count as nat, depth as nat, Seq::empty()) == spec_items(
                d@,
                pos as int,
                tag,
                left as nat,
                depth as nat,
                list_model(items@),
            ),
        decreases left,
    {
        match parse_value(d, pos, tag, depth) {
            Ok((v, q)) => {
                let ghost before = items@;
                items.push(v);
                proof {
                    assert(list_model(items@) =~= list_model(before).push(v.model()));
                }
                pos = q;
                left = left - 1;
            },
            Err(e) => {
                return Err(e);
            },
        }
    }
    Ok((items, pos))
}

/// Decodes the entries of a compound at `p`, up to and including its end tag.
fn parse_compound(d: &[u8], p: usize, depth: u64) -> (r: Result<(Vec<(String, NBTValue)>, usize), NBTError>)
    requires
        p <= d@.len(),
        depth <= MAX_RECURSION,
    ensures
        entries_result(r, spec_entries(d@, p as int, depth as nat, Seq::empty())),
        r matches Ok((_, q)) ==> p < q <= d@.len(),
    decreases d@.len() - p, 1int, 0nat,
{
    let mut entries: Vec<(String, NBTValue)> = Vec::new();
    let mut pos = p;
    proof {
        assert(compound_model(entries@) =~= Seq::<(Seq<char>, Nbt)>::empty());
    }
    loop
        invariant
            p <= pos <= d@.len(),
            depth <= MAX_RECURSION,
            spec_entries(d@, p as int, depth as nat, Seq::empty()) == spec_entries(
                d@,
                pos as int,
                depth as nat,
                compound_model(entries@),
            ),
        decreases d@.len() - pos,
    {
        if pos >= d.len() {
            return Err(NBTError::UnexpectedEof);
        }
        let tag = d[pos];
        if tag == 0 {
            return Ok((entries, pos + 1));
        }
        let (name, q) = match parse_string(d, pos + 1) {
            Ok(x) => x,
            Err(e) => {
                return Err(e);
            },
        };
        let (value, next) = match parse_value(d, q, tag, depth) {
            Ok(x) => x,
            Err(e) => {
                return Err(e);
            },
        };
        put_entry(&mut entries, name, value);
        pos = next;
    }
}

/// A decoder of the tagged binary tree format over a byte buffer.
pub struct NBTReader {
    inner: Vec<u8>,
}

impl NBTReader {
    /// A decoder over the bytes `inner`.
    pub fn new(inner: Vec<u8>) -> (r: Self)
        ensures
            r.data() == inner@,
    {
        NBTReader { inner }
    }

    /// The bytes that this decoder reads.
    pub closed spec fn data(&self) -> Seq<u8> {
        self.inner@
    }

    /// Decodes the root compound: tag 10, a 2-byte name length that is
    /// skipped, then the named entries up to the end tag.
    pub fn parse(&self) -> (r: Result<Vec<(String, NBTValue)>, NBTError>)
        ensures
            match r {
                Ok(es) => spec_decode(self.data()) == Ok::<Seq<(Seq<char>, Nbt)>, NBTError>(
                    compound_model(es@),
                ),
                Err(e) => spec_decode(self.data()) == Err::<Seq<(Seq<char>, Nbt)>, NBTError>(e),
            },
    {
        decode(self.inner.as_slice())
    }
}

/// Decodes the root compound of a payload.
pub fn decode(d: &[u8]) -> (r: Result<Vec<(String, NBTValue)>, NBTError>)
    ensures
        match r {
            Ok(es) => spec_decode(d@) == Ok::<Seq<(Seq<char>, Nbt)>, NBTError>(compound_model(es@)),
            Err(e) => spec_decode(d@) == Err::<Seq<(Seq<char>, Nbt)>, NBTError>(e),
        },
{
    if d.len() < 1 {
        return Err(NBTError::UnexpectedEof);
    }
    if d[0] != 10 {
        return Err(NBTError::MissingRootTag);
    }
    if d.len() < 3 {
        return Err(NBTError::UnexpectedEof);
    }
    match parse_compound(d, 3, 1) {
        Ok((es, _)) => Ok(es),
        Err(e) => Err(e),
    }
}

} // verus!
