//! The guest's linear memory, seen as a slice of bytes.
//!
//! A store that does not fit changes nothing; a load that does not fit reads
//! zero. Text travels as NUL-terminated UTF-8.

use crate::num;
use crate::text;
use vstd::prelude::*;
use vstd::slice::slice_subrange;
#[allow(unused_imports)]
use vstd::arithmetic::div_mod::*;
#[allow(unused_imports)]
use vstd::utf8::*;

verus! {

/// The `len` bytes at address `at` lie inside the memory.
pub open spec fn fits(mem: Seq<u8>, at: int, len: int) -> bool {
    0 <= at && at + len <= mem.len()
}

/// Memory after an attempt to store `bytes` at address `at`: a store that does
/// not fit changes nothing.
pub open spec fn put(mem: Seq<u8>, at: int, bytes: Seq<u8>) -> Seq<u8> {
    if fits(mem, at, bytes.len() as int) {
        Seq::new(
            mem.len(),
            |i: int|
                if at <= i < at + bytes.len() {
                    bytes[i - at]
                } else {
                    mem[i]
                },
        )
    } else {
        mem
    }
}

/// The little-endian bytes of a 16-bit value.
pub open spec fn le16(v: int) -> Seq<u8> {
    seq![(v % 256) as u8, (v / 256 % 256) as u8]
}

/// The little-endian bytes of a 32-bit value.
pub open spec fn le32(v: int) -> Seq<u8> {
    seq![
        (v % 256) as u8,
        (v / 256 % 256) as u8,
        (v / 65536 % 256) as u8,
        (v / 16777216 % 256) as u8,
    ]
}

/// The little-endian bytes of a 64-bit value.
pub open spec fn le64(v: int) -> Seq<u8> {
    le32(v % 0x1_0000_0000) + le32(v / 0x1_0000_0000)
}

/// The signed 32-bit word at address `at`, or zero where it does not fit.
pub open spec fn load32(mem: Seq<u8>, at: int) -> int {
    if fits(mem, at, 4) {
        num::signed32(
            mem[at] + 256 * mem[at + 1] + 65536 * mem[at + 2] + 16777216 * mem[at + 3],
        )
    } else {
        0
    }
}

/// Memory after an attempt to store the word `v` at address `at`.
pub open spec fn store32(mem: Seq<u8>, at: int, v: int) -> Seq<u8> {
    put(mem, at, le32(num::unsigned32(v)))
}

/// The address of the first zero byte at or after `at`, or the end of memory.
pub open spec fn text_end(mem: Seq<u8>, at: int) -> int
    decreases mem.len() - at,
{
    if at < 0 || at >= mem.len() || mem[at] == 0 {
        at
    } else {
        text_end(mem, at + 1)
    }
}

/// The bytes of the NUL-terminated text at address `at`.
pub open spec fn text_bytes(mem: Seq<u8>, at: int) -> Seq<u8> {
    mem.subrange(at, text_end(mem, at))
}

/// The NUL-terminated text at address `at`.
pub open spec fn text_at(mem: Seq<u8>, at: int) -> Seq<char> {
    text::decoded(text_bytes(mem, at))
}

/// Memory after an attempt to store `bytes` and, independently, a zero byte
/// behind them.
pub open spec fn put_text(mem: Seq<u8>, at: int, bytes: Seq<u8>) -> Seq<u8> {
    put(put(mem, at, bytes), at + bytes.len(), seq![0u8])
}

/// Stores `bytes` at `at` when they fit, and reports whether they did.
pub fn write_bytes(mem: &mut [u8], at: u64, bytes: &[u8]) -> (stored: bool)
    ensures
        stored == fits(old(mem)@, at as int, bytes@.len() as int),
        final(mem)@ == put(old(mem)@, at as int, bytes@),
{
    let size: usize = mem.len();
    let count: usize = bytes.len();
    if count > size || at > (size - count) as u64 {
        return false;
    }
    let start: usize = at as usize;
    let mut i: usize = 0;
    while i < count
        invariant
            i <= count,
            count == bytes@.len(),
            start + count <= size,
            size == mem@.len(),
            size == old(mem)@.len(),
            start == at,
            forall|k: int|
                0 <= k < size ==> mem@[k] == (if start <= k < start + i {
                    bytes@[k - start]
                } else {
                    old(mem)@[k]
                }),
        decreases count - i,
    {
        mem[start + i] = bytes[i];
        i = i + 1;
    }
    proof {
        assert(mem@ =~= put(old(mem)@, at as int, bytes@));
    }
    true
}

/// The little-endian bytes of `v`.
pub fn bytes_of_u16(v: u16) -> (bytes: Vec<u8>)
    ensures
        bytes@ == le16(v as int),
{
    let mut bytes: Vec<u8> = Vec::new();
    bytes.push((v % 256) as u8);
    bytes.push((v / 256 % 256) as u8);
    assert(bytes@ =~= le16(v as int));
    bytes
}

/// The little-endian bytes of `v`.
pub fn bytes_of_u32(v: u32) -> (bytes: Vec<u8>)
    ensures
        bytes@ == le32(v as int),
{
    let mut bytes: Vec<u8> = Vec::new();
    bytes.push((v % 256) as u8);
    bytes.push((v / 256 % 256) as u8);
    bytes.push((v / 65536 % 256) as u8);
    bytes.push((v / 16777216 % 256) as u8);
    assert(bytes@ =~= le32(v as int));
    bytes
}

/// The little-endian bytes of `v`.
pub fn bytes_of_u64(v: u64) -> (bytes: Vec<u8>)
    ensures
        bytes@ == le64(v as int),
{
    let low: u32 = (v % 0x1_0000_0000) as u32;
    let high: u32 = (v / 0x1_0000_0000) as u32;
    let mut bytes: Vec<u8> = bytes_of_u32(low);
    let mut rest: Vec<u8> = bytes_of_u32(high);
    bytes.append(&mut rest);
    assert(bytes@ =~= le64(v as int));
    bytes
}

/// Reads the signed word at `addr`, or zero where it lies outside the memory.
pub fn read_i32(mem: &[u8], addr: u32) -> (v: i32)
    ensures
        v == load32(mem@, addr as int),
{
    let size: usize = mem.len();
    if size < 4 || addr as u64 > (size - 4) as u64 {
        return 0;
    }
    let at: usize = addr as usize;
    let value: u32 = mem[at] as u32 + 256 * mem[at + 1] as u32 + 65536 * mem[at + 2] as u32
        + 16777216 * mem[at + 3] as u32;
    num::signed_word(value)
}

/// Stores the word `val` at `addr`; outside the memory nothing is stored.
pub fn write_i32(mem: &mut [u8], addr: u32, val: i32)
    ensures
        final(mem)@ == store32(old(mem)@, addr as int, val as int),
{
    let bytes: Vec<u8> = bytes_of_u32(num::word(val));
    let _ = write_bytes(mem, addr as u64, bytes.as_slice());
}

/// Reads the NUL-terminated text at `ptr`; the end of memory ends it too.
pub fn read_cstring(mem: &[u8], ptr: u32) -> (text: String)
    requires
        ptr <= mem@.len(),
    ensures
        text@ == text_at(mem@, ptr as int),
        text::without_nul(text@),
{
    let start: usize = ptr as usize;
    let mut end: usize = start;
    while end < mem.len() && mem[end] != 0
        invariant
            start <= end <= mem@.len(),
            text_end(mem@, start as int) == text_end(mem@, end as int),
        decreases mem@.len() - end,
    {
        end = end + 1;
    }
    proof {
        lemma_text_bytes_nonzero(mem@, start as int);
    }
    text::decode(slice_subrange(mem, start, end))
}

/// Stores `text` and a NUL at `at`, each where it fits, and reports whether
/// both did.
pub fn write_cstring(mem: &mut [u8], at: u64, text: &str) -> (stored: bool)
    requires
        at + encode_utf8(text@).len() <= u64::MAX,
    ensures
        final(mem)@ == put_text(old(mem)@, at as int, encode_utf8(text@)),
        stored == fits(old(mem)@, at as int, encode_utf8(text@).len() as int + 1),
{
    let bytes: &[u8] = text.as_bytes();
    let count: usize = bytes.len();
    let body: bool = write_bytes(mem, at, bytes);
    let mut nul: Vec<u8> = Vec::new();
    nul.push(0u8);
    assert(nul@ =~= seq![0u8]);
    let end: bool = write_bytes(mem, at + count as u64, nul.as_slice());
    body && end
}

/// The little-endian bytes of a word give the word back.
pub proof fn lemma_le32_value(v: int)
    requires
        0 <= v < 0x1_0000_0000,
    ensures
        le32(v).len() == 4,
        le32(v)[0] + 256 * le32(v)[1] + 65536 * le32(v)[2] + 16777216 * le32(v)[3] == v,
{
    lemma_div_denominator(v, 256, 256);
    lemma_div_denominator(v, 65536, 256);
    let a = v / 256;
    let b = a / 256;
    let c = b / 256;
    assert(v / 65536 == b && v / 16777216 == c);
    assert(v == 256 * a + v % 256);
    assert(a == 256 * b + a % 256);
    assert(b == 256 * c + b % 256);
    assert(c % 256 == c);
}

/// A word that was stored inside the memory is read back unchanged.
pub proof fn law_load_after_store(mem: Seq<u8>, at: int, v: int)
    requires
        fits(mem, at, 4),
        -0x8000_0000 <= v < 0x8000_0000,
    ensures
        load32(store32(mem, at, v), at) == v,
{
    lemma_le32_value(num::unsigned32(v));
}

/// A store leaves every byte outside its range as it was.
pub proof fn law_store_is_local(mem: Seq<u8>, at: int, bytes: Seq<u8>)
    ensures
        put(mem, at, bytes).len() == mem.len(),
        forall|i: int|
            0 <= i < mem.len() && !(at <= i < at + bytes.len()) ==> put(mem, at, bytes)[i]
                == mem[i],
        fits(mem, at, bytes.len() as int) ==> put(mem, at, bytes).subrange(at, at + bytes.len())
            == bytes,
{
    if fits(mem, at, bytes.len() as int) {
        assert(put(mem, at, bytes).subrange(at, at + bytes.len()) =~= bytes);
    }
}

/// The end of a text is found at its first zero byte.
proof fn lemma_text_end(mem: Seq<u8>, at: int, end: int)
    requires
        0 <= at <= end < mem.len(),
        mem[end] == 0,
        forall|i: int| at <= i < end ==> mem[i] != 0,
    ensures
        text_end(mem, at) == end,
    decreases end - at,
{
    if at < end {
        lemma_text_end(mem, at + 1, end);
    }
}

/// The bytes of a text end before the first zero byte.
proof fn lemma_text_bytes_nonzero(mem: Seq<u8>, at: int)
    requires
        0 <= at <= mem.len(),
    ensures
        at <= text_end(mem, at) <= mem.len(),
        text::nonzero(text_bytes(mem, at)),
    decreases mem.len() - at,
{
    if at < mem.len() && mem[at] != 0 {
        lemma_text_bytes_nonzero(mem, at + 1);
        let bytes = text_bytes(mem, at);
        assert forall|i: int| 0 <= i < bytes.len() implies #[trigger] bytes[i] != 0 by {
            if i > 0 {
                assert(bytes[i] == text_bytes(mem, at + 1)[i - 1]);
            }
        }
    }
}

/// A character other than NUL has no zero byte.
proof fn lemma_scalar_nonzero(scalar: u32)
    requires
        is_scalar(scalar),
        scalar != 0,
    ensures
        forall|i: int|
            0 <= i < encode_scalar(scalar).len() ==> #[trigger] encode_scalar(scalar)[i] != 0,
{
    assert(0 < scalar <= 0x7F ==> leading_byte_width_1(scalar) != 0) by (bit_vector);
    assert(leading_byte_width_2(scalar) != 0) by (bit_vector);
    assert(leading_byte_width_3(scalar) != 0) by (bit_vector);
    assert(leading_byte_width_4(scalar) != 0) by (bit_vector);
    assert(last_continuation_byte(scalar) != 0) by (bit_vector);
    assert(second_last_continuation_byte(scalar) != 0) by (bit_vector);
    assert(third_last_continuation_byte(scalar) != 0) by (bit_vector);
}

/// A text without NUL has no zero byte.
pub proof fn lemma_text_nonzero(text: Seq<char>)
    requires
        text::without_nul(text),
    ensures
        text::nonzero(encode_utf8(text)),
    decreases text.len(),
{
    if text.len() > 0 {
        let c = text[0];
        char_is_scalar(c);
        lemma_char_zero(c);
        lemma_scalar_nonzero(c as u32);
        lemma_text_nonzero(text.drop_first());
        let head = encode_scalar(c as u32);
        let rest = encode_utf8(text.drop_first());
        assert forall|i: int| 0 <= i < encode_utf8(text).len() implies #[trigger] encode_utf8(
            text,
        )[i] != 0 by {
            if i < head.len() {
                assert(encode_utf8(text)[i] == head[i]);
            } else {
                assert(encode_utf8(text)[i] == rest[i - head.len()]);
            }
        }
    }
}

/// NUL alone has the number zero.
proof fn lemma_char_zero(c: char)
    ensures
        c as u32 == 0 ==> c == '\0',
{
}

/// A text without NUL that was stored inside the memory is read back as it
/// was.
pub proof fn law_text_round_trip(mem: Seq<u8>, at: int, text: Seq<char>)
    requires
        fits(mem, at, encode_utf8(text).len() as int + 1),
        text::without_nul(text),
    ensures
        text_bytes(put_text(mem, at, encode_utf8(text)), at) == encode_utf8(text),
        text_at(put_text(mem, at, encode_utf8(text)), at) == text,
{
    let bytes = encode_utf8(text);
    let after = put_text(mem, at, bytes);
    lemma_text_nonzero(text);
    assert forall|i: int| at <= i < at + bytes.len() implies after[i] != 0 by {
        assert(after[i] == bytes[i - at]);
    }
    lemma_text_end(after, at, at + bytes.len());
    assert(text_bytes(after, at) =~= bytes);
    encode_utf8_valid_utf8(text);
    encode_utf8_decode_utf8(text);
}

/// The little-endian bytes of a number are its digits to the base 256, the
/// lowest first.
pub proof fn law_bytes_are_digits(v: int)
    ensures
        le16(v).len() == 2,
        0 <= v < 65536 ==> le16(v)[0] + 256 * le16(v)[1] == v,
        le32(v).len() == 4,
        0 <= v < 0x1_0000_0000 ==> le32(v)[0] + 256 * le32(v)[1] + 65536 * le32(v)[2] + 16777216
            * le32(v)[3] == v,
        le64(v).len() == 8,
        0 <= v < 0x1_0000_0000_0000_0000 ==> (le64(v)[0] + 256 * le64(v)[1] + 65536 * le64(v)[2]
            + 16777216 * le64(v)[3]) + 0x1_0000_0000 * (le64(v)[4] + 256 * le64(v)[5] + 65536
            * le64(v)[6] + 16777216 * le64(v)[7]) == v,
{
    if 0 <= v < 0x1_0000_0000 {
        lemma_le32_value(v);
    }
    if 0 <= v < 0x1_0000_0000_0000_0000 {
        let low = v % 0x1_0000_0000;
        let high = v / 0x1_0000_0000;
        lemma_le32_value(low);
        lemma_le32_value(high);
        assert(v == 0x1_0000_0000 * high + low);
        assert(le64(v) == le32(low) + le32(high));
        assert(le64(v)[4] == le32(high)[0] && le64(v)[5] == le32(high)[1]);
        assert(le64(v)[6] == le32(high)[2] && le64(v)[7] == le32(high)[3]);
    }
}

/// A store takes place where all its bytes lie in memory, as a whole, and
/// nowhere else; what does not fit changes nothing.
pub proof fn law_store_takes_place(mem: Seq<u8>, at: int, bytes: Seq<u8>)
    ensures
        put(mem, at, bytes).len() == mem.len(),
        0 <= at && at + bytes.len() <= mem.len() ==> put(mem, at, bytes) == mem.take(at) + bytes
            + mem.skip(at + bytes.len()),
        !(0 <= at && at + bytes.len() <= mem.len()) ==> put(mem, at, bytes) == mem,
{
    if 0 <= at && at + bytes.len() <= mem.len() {
        assert(put(mem, at, bytes) =~= mem.take(at) + bytes + mem.skip(at + bytes.len()));
    }
}

/// A word that is loaded has the four bytes at its address for its digits; one
/// that does not lie in memory is zero.
pub proof fn law_load_is_exact(mem: Seq<u8>, at: int)
    ensures
        -0x8000_0000 <= load32(mem, at) < 0x8000_0000,
        0 <= at && at + 4 <= mem.len() ==> load32(mem, at) % 0x1_0000_0000 == mem[at] + 256
            * mem[at + 1] + 65536 * mem[at + 2] + 16777216 * mem[at + 3],
        !(0 <= at && at + 4 <= mem.len()) ==> load32(mem, at) == 0,
{
}

/// A text is all that stands from its address to the first zero byte or the end
/// of memory; where that is valid UTF-8, it is decoded as it stands.
pub proof fn law_text_reaches_to_nul(mem: Seq<u8>, at: int, end: int)
    requires
        0 <= at <= end <= mem.len(),
        forall|i: int| at <= i < end ==> #[trigger] mem[i] != 0,
        end == mem.len() || mem[end] == 0,
    ensures
        text_bytes(mem, at) == mem.subrange(at, end),
        valid_utf8(mem.subrange(at, end)) ==> text_at(mem, at) == decode_utf8(
            mem.subrange(at, end),
        ),
{
    lemma_text_runs_to(mem, at, end);
}

/// The end of a text is the first zero byte or the end of memory.
proof fn lemma_text_runs_to(mem: Seq<u8>, at: int, end: int)
    requires
        0 <= at <= end <= mem.len(),
        forall|i: int| at <= i < end ==> #[trigger] mem[i] != 0,
        end == mem.len() || mem[end] == 0,
    ensures
        text_end(mem, at) == end,
    decreases end - at,
{
    if at < end {
        assert(mem[at] != 0);
        lemma_text_runs_to(mem, at + 1, end);
    }
}

/// Text and terminator are stored each where it fits: together they are the
/// bytes and a zero in one piece.
pub proof fn law_text_stored(mem: Seq<u8>, at: int, bytes: Seq<u8>)
    requires
        0 <= at,
        at + bytes.len() < mem.len(),
    ensures
        put_text(mem, at, bytes) == mem.take(at) + bytes.push(0u8) + mem.skip(
            at + bytes.len() + 1,
        ),
{
    assert(put_text(mem, at, bytes) =~= mem.take(at) + bytes.push(0u8) + mem.skip(
        at + bytes.len() + 1,
    ));
}

} // verus!
