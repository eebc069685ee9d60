//! Two's-complement reinterpretation of machine integers, stated over `int`.

use vstd::prelude::*;

verus! {

/// The 16-bit unsigned value that has the low bits of `v`.
pub open spec fn unsigned16(v: int) -> int {
    v % 0x1_0000
}

/// The 16-bit signed value that has the low bits of `v`.
pub open spec fn signed16(v: int) -> int {
    if v % 0x1_0000 < 0x8000 {
        v % 0x1_0000
    } else {
        v % 0x1_0000 - 0x1_0000
    }
}

/// The 32-bit unsigned value that has the low bits of `v`.
pub open spec fn unsigned32(v: int) -> int {
    v % 0x1_0000_0000
}

/// The 32-bit signed value that has the low bits of `v`.
pub open spec fn signed32(v: int) -> int {
    if v % 0x1_0000_0000 < 0x8000_0000 {
        v % 0x1_0000_0000
    } else {
        v % 0x1_0000_0000 - 0x1_0000_0000
    }
}

/// The 64-bit unsigned value that has the low bits of `v`.
pub open spec fn unsigned64(v: int) -> int {
    v % 0x1_0000_0000_0000_0000
}

/// The 64-bit signed value that has the low bits of `v`.
pub open spec fn signed64(v: int) -> int {
    if v % 0x1_0000_0000_0000_0000 < 0x8000_0000_0000_0000 {
        v % 0x1_0000_0000_0000_0000
    } else {
        v % 0x1_0000_0000_0000_0000 - 0x1_0000_0000_0000_0000
    }
}

/// The signed sample that two bytes are, the low byte first.
pub fn sample(low: u8, high: u8) -> (r: i16)
    ensures
        r == signed16(low + 256 * high),
{
    let v: u16 = low as u16 + 256 * high as u16;
    assert(v < 0x8000 ==> (v as i16) == v) by (bit_vector);
    assert(v >= 0x8000 ==> (v as i16) == v - 0x1_0000) by (bit_vector);
    v as i16
}

/// A signed guest word read as an unsigned one.
pub fn word(v: i32) -> (r: u32)
    ensures
        r == unsigned32(v as int),
{
    assert(v >= 0 ==> (v as u32) == v) by (bit_vector);
    assert(v < 0 ==> (v as u32) == v + 0x1_0000_0000) by (bit_vector);
    v as u32
}

/// An unsigned guest word read as a signed one.
pub fn signed_word(v: u32) -> (r: i32)
    ensures
        r == signed32(v as int),
{
    assert(v < 0x8000_0000 ==> (v as i32) == v) by (bit_vector);
    assert(v >= 0x8000_0000 ==> (v as i32) == v - 0x1_0000_0000) by (bit_vector);
    v as i32
}

/// A signed guest word extended to the width of a host address.
pub fn wide(v: i32) -> (r: u64)
    ensures
        r == unsigned64(v as int),
{
    assert(v >= 0 ==> (v as u64) == v) by (bit_vector);
    assert(v < 0 ==> (v as u64) == v + 0x1_0000_0000_0000_0000) by (bit_vector);
    v as u64
}

/// A host count cut down to a signed guest word.
pub fn narrow(v: u64) -> (r: i32)
    ensures
        r == signed32(v as int),
{
    assert((v as u32) == v % 0x1_0000_0000) by (bit_vector);
    signed_word(v as u32)
}

/// A signed host number cut down to a signed guest word.
pub fn narrow_signed(v: i64) -> (r: i32)
    ensures
        r == signed32(v as int),
{
    assert(v >= 0 ==> (v as u64) == v) by (bit_vector);
    assert(v < 0 ==> (v as u64) == v + 0x1_0000_0000_0000_0000) by (bit_vector);
    narrow(v as u64)
}

/// A host count read as a signed offset.
pub fn offset(v: u64) -> (r: i64)
    ensures
        r == signed64(v as int),
{
    assert(v < 0x8000_0000_0000_0000 ==> (v as i64) == v) by (bit_vector);
    assert(v >= 0x8000_0000_0000_0000 ==> (v as i64) == v - 0x1_0000_0000_0000_0000) by (bit_vector);
    v as i64
}

/// A signed word has the low bits of the number that it was cut from.
pub proof fn lemma_low_bits(v: int)
    ensures
        unsigned32(signed32(v)) == unsigned32(v),
{
}

/// A number read as one of another width differs from it by a multiple of that
/// width's range, and lies in that range: so there is one such number.
pub proof fn law_reinterpreted(v: int)
    ensures
        0 <= unsigned16(v) < 65536 && (v - unsigned16(v)) % 65536 == 0,
        -32768 <= signed16(v) < 32768 && (v - signed16(v)) % 65536 == 0,
        0 <= unsigned32(v) < 4294967296 && (v - unsigned32(v)) % 4294967296 == 0,
        -2147483648 <= signed32(v) < 2147483648 && (v - signed32(v)) % 4294967296 == 0,
        0 <= unsigned64(v) < 18446744073709551616 && (v - unsigned64(v)) % 18446744073709551616
            == 0,
        -9223372036854775808 <= signed64(v) < 9223372036854775808 && (v - signed64(v))
            % 18446744073709551616 == 0,
{
}

/// A number that lies in the range of another width is that number there.
pub proof fn law_kept_in_range(v: int)
    ensures
        0 <= v < 65536 ==> unsigned16(v) == v,
        -32768 <= v < 32768 ==> signed16(v) == v,
        0 <= v < 4294967296 ==> unsigned32(v) == v,
        -2147483648 <= v < 2147483648 ==> signed32(v) == v,
        0 <= v < 18446744073709551616 ==> unsigned64(v) == v,
        -9223372036854775808 <= v < 9223372036854775808 ==> signed64(v) == v,
{
}

} // verus!
