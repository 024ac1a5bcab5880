use vstd::prelude::*;

verus! {

/// The big-endian unsigned value of the two bytes of `s` at `p`.
pub open spec fn be_u16(s: Seq<u8>, p: int) -> int {
    s[p] as int * 0x100 + s[p + 1] as int
}

/// The big-endian unsigned value of the four bytes of `s` at `p`.
pub open spec fn be_u32(s: Seq<u8>, p: int) -> int {
    be_u16(s, p) * 0x1_0000 + be_u16(s, p + 2)
}

/// The big-endian unsigned value of the eight bytes of `s` at `p`.
pub open spec fn be_u64(s: Seq<u8>, p: int) -> int {
    be_u32(s, p) * 0x1_0000_0000 + be_u32(s, p + 4)
}

/// The two's complement reading of an unsigned value of `bits` bits.
pub open spec fn signed(u: int, bits: nat) -> int {
    if u >= pow2(sub1(bits)) {
        u - pow2(bits)
    } else {
        u
    }
}

pub open spec fn sub1(n: nat) -> nat {
    if n == 0 {
        0
    } else {
        (n - 1) as nat
    }
}

pub open spec fn pow2(n: nat) -> int
    decreases n,
{
    if n == 0 {
        1
    } else {
        2 * pow2((n - 1) as nat)
    }
}

pub proof fn lemma_be_u16_bound(s: Seq<u8>, p: int)
    requires
        0 <= p,
        p + 2 <= s.len(),
    ensures
        0 <= be_u16(s, p) < 0x1_0000,
{
}

pub proof fn lemma_be_u32_bound(s: Seq<u8>, p: int)
    requires
        0 <= p,
        p + 4 <= s.len(),
    ensures
        0 <= be_u32(s, p) < 0x1_0000_0000,
{
    lemma_be_u16_bound(s, p);
    lemma_be_u16_bound(s, p + 2);
}

pub proof fn lemma_be_u64_bound(s: Seq<u8>, p: int)
    requires
        0 <= p,
        p + 8 <= s.len(),
    ensures
        0 <= be_u64(s, p) < 0x1_0000_0000_0000_0000,
{
    lemma_be_u32_bound(s, p);
    lemma_be_u32_bound(s, p + 4);
}

/// Reads a big-endian `u16` at `p`.
pub fn read_u16(s: &[u8], p: usize) -> (r: u16)
    requires
        p + 2 <= s@.len(),
    ensures
        r as int == be_u16(s@, p as int),
{
    s[p] as u16 * 0x100 + s[p + 1] as u16
}

/// Reads a big-endian `u32` at `p`.
pub fn read_u32(s: &[u8], p: usize) -> (r: u32)
    requires
        p + 4 <= s@.len(),
    ensures
        r as int == be_u32(s@, p as int),
{
    let _n: usize = s.len();
    let hi = read_u16(s, p);
    let lo = read_u16(s, p + 2);
    hi as u32 * 0x1_0000 + lo as u32
}

/// Reads a big-endian `u64` at `p`.
pub fn read_u64(s: &[u8], p: usize) -> (r: u64)
    requires
        p + 8 <= s@.len(),
    ensures
        r as int == be_u64(s@, p as int),
{
    let _n: usize = s.len();
    let hi = read_u32(s, p);
    let lo = read_u32(s, p + 4);
    hi as u64 * 0x1_0000_0000 + lo as u64
}

/// Reads a big-endian two's complement `i16` at `p`.
pub fn read_i16(s: &[u8], p: usize) -> (r: i16)
    requires
        p + 2 <= s@.len(),
    ensures
        r as int == signed(be_u16(s@, p as int), 16),
        r == signed(be_u16(s@, p as int), 16) as i16,
{
    let u = read_u16(s, p);
    proof {
        reveal_with_fuel(pow2, 17);
    }
    if u >= 0x8000 {
        ((u - 0x8000) as i16) - 0x4000 - 0x4000
    } else {
        u as i16
    }
}

/// Reads a big-endian two's complement `i32` at `p`.
pub fn read_i32(s: &[u8], p: usize) -> (r: i32)
    requires
        p + 4 <= s@.len(),
    ensures
        r as int == signed(be_u32(s@, p as int), 32),
        r == signed(be_u32(s@, p as int), 32) as i32,
{
    let u = read_u32(s, p);
    proof {
        reveal_with_fuel(pow2, 33);
    }
    if u >= 0x8000_0000 {
        ((u - 0x8000_0000) as i32) - 0x4000_0000 - 0x4000_0000
    } else {
        u as i32
    }
}

/// Reads a big-endian two's complement `i64` at `p`.
pub fn read_i64(s: &[u8], p: usize) -> (r: i64)
    requires
        p + 8 <= s@.len(),
    ensures
        r as int == signed(be_u64(s@, p as int), 64),
        r == signed(be_u64(s@, p as int), 64) as i64,
{
    let u = read_u64(s, p);
    proof {
        reveal_with_fuel(pow2, 65);
    }
    if u >= 0x8000_0000_0000_0000 {
        ((u - 0x8000_0000_0000_0000) as i64) - 0x4000_0000_0000_0000 - 0x4000_0000_0000_0000
    } else {
        u as i64
    }
}

} // verus!
