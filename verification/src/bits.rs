//! Facts about two's complement and byte order that the instruction
//! semantics rest on.
use vstd::prelude::*;

verus! {

/// `x` read as a two's complement 32-bit number.
pub open spec fn signed32(x: u32) -> int {
    if x < 0x8000_0000 {
        x as int
    } else {
        x as int - 0x1_0000_0000
    }
}

/// `x` reduced modulo 2^32.
pub open spec fn wrap32(x: int) -> u32 {
    (x % 0x1_0000_0000) as u32
}

pub proof fn lemma_i32_cast(a: u32)
    ensures
        (a as i32) as int == signed32(a),
{
    assert(a < 0x8000_0000 ==> (a as i32) as int == a as int) by (bit_vector);
    assert(a >= 0x8000_0000 ==> (a as i32) as int == a as int - 0x1_0000_0000) by (bit_vector);
}

pub proof fn lemma_u32_of_i32(v: i32)
    ensures
        (v as u32) as int == (v as int) % 0x1_0000_0000,
{
    assert(v >= 0 ==> (v as u32) as int == v as int) by (bit_vector);
    assert(v < 0 ==> (v as u32) as int == v as int + 0x1_0000_0000) by (bit_vector);
}

pub proof fn lemma_pack_halves(r: u64, q: u64)
    requires
        r < 0x1_0000_0000,
        q < 0x1_0000_0000,
    ensures
        (r << 32u64) | q == r * 0x1_0000_0000 + q,
{
    assert((r << 32u64) | q == r * 0x1_0000_0000 + q) by (bit_vector)
        requires
            r < 0x1_0000_0000,
            q < 0x1_0000_0000,
    ;
}

pub proof fn lemma_mask_shift(x: u32)
    ensures
        x & 31 < 32,
{
    assert(x & 31 < 32) by (bit_vector);
}

/// `x` reduced modulo 2^64.
pub open spec fn wrap64(x: int) -> u64 {
    (x % 0x1_0000_0000_0000_0000) as u64
}

/// `x` read as a two's complement 64-bit number.
pub open spec fn signed64(x: u64) -> int {
    if x < 0x8000_0000_0000_0000 {
        x as int
    } else {
        x as int - 0x1_0000_0000_0000_0000
    }
}

pub proof fn lemma_i64_cast(p: i64)
    ensures
        p as u64 == wrap64(p as int),
{
    assert(p >= 0 ==> (p as u64) as int == p as int) by (bit_vector);
    assert(p < 0 ==> (p as u64) as int == p as int + 0x1_0000_0000_0000_0000) by (bit_vector);
}

/// An arithmetic right shift of a number below 2^31 is the logical one; of
/// one at or above 2^31 it is the complement of the logical shift of the
/// complement.
pub proof fn lemma_sra_logical(a: u32, b: u32)
    requires
        b < 32,
    ensures
        a < 0x8000_0000 ==> ((a as i32) >> b) as u32 == a >> b,
        a >= 0x8000_0000 ==> ((a as i32) >> b) as u32 == !((!a) >> b),
        !a == 0xffff_ffff - a,
        !((!a) >> b) == 0xffff_ffff - ((!a) >> b),
{
    assert(a < 0x8000_0000 ==> ((a as i32) >> b) as u32 == a >> b) by (bit_vector)
        requires
            b < 32,
    ;
    assert(a >= 0x8000_0000 ==> ((a as i32) >> b) as u32 == !((!a) >> b)) by (bit_vector)
        requires
            b < 32,
    ;
    assert(!a == 0xffff_ffff - a) by (bit_vector);
    let n = (!a) >> b;
    assert(!n == 0xffff_ffff - n) by (bit_vector);
}

/// A left shift by 16 keeps the low 16 bits of the product by 2^16.
pub proof fn lemma_shl16(x: u32)
    ensures
        (x << 16u32) as int == (x as int * 0x1_0000) % 0x1_0000_0000,
        (x << 16u32) % 0x1_0000 == 0,
{
    assert((x << 16u32) as int == (x as int * 0x1_0000) % 0x1_0000_0000) by (bit_vector);
    assert((x << 16u32) % 0x1_0000 == 0) by (bit_vector);
}

} // verus!
