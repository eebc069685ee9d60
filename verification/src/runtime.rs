//! The small services of the guest's C runtime: heap size, block copies,
//! clock, configuration values, and text handed over on the guest's heap.

use crate::memory;
use crate::num;
use crate::state;
use crate::state::{Fault, State};
#[allow(unused_imports)]
use crate::state::HostView;
use crate::syscalls;
use crate::text;
use vstd::prelude::*;
use vstd::slice::{slice_subrange, slice_to_vec};
#[allow(unused_imports)]
use vstd::utf8::*;

verus! {

/// The size of a page of guest memory.
pub const PAGE_SIZE: u32 = 65536;

/// The number by which the guest asks for the page size.
pub const PAGE_SIZE_QUERY: i32 = 30;

/// The pages of memory that the guest starts with.
pub const MEMORY_PAGES: u32 = 4096;

/// The entries of the guest's table of functions.
pub const TABLE_SIZE: u32 = 84096;

/// The address of the word that holds the top of the guest's heap.
pub const DYNAMIC_TOP_PTR: u32 = 0x0db8c0;

/// The top of the guest's heap before anything is allocated.
pub const DYNAMIC_BASE: i32 = 0x5db9c0;

/// The address of the guest's scratch space for a double word.
pub const TEMP_DOUBLE_PTR: u32 = 0x0db9b0;

/// What a request for a larger heap comes to.
#[derive(Debug, Clone, Copy, PartialEq, Eq, Structural)]
pub enum Resize {
    /// The heap is large enough.
    Enough,
    /// The memory has to grow by this many pages.
    Grow(u64),
}

/// A text and the size of the block that holds it with its NUL.
#[derive(Debug)]
pub struct Block {
    pub text: String,
    pub size: i32,
}

/// The contents of a list of texts, one after the other.
pub open spec fn concat(parts: Seq<Seq<char>>) -> Seq<char>
    decreases parts.len(),
{
    if parts.len() == 0 {
        Seq::empty()
    } else {
        concat(parts.drop_last()) + parts.last()
    }
}

/// The size of the block that holds `bytes` and a NUL, as the guest is told.
pub open spec fn block_size(bytes: Seq<u8>) -> int {
    num::signed32(bytes.len() as int) + 1
}

/// The name of a pipeline header: one with the extension `hdr`.
pub open spec fn is_header(name: Seq<char>) -> bool {
    text::ends_with(name, ".hdr"@) && name.len() > 4
}

/// What a request for `requested` bytes of heap in a memory of `pages` pages
/// comes to.
pub open spec fn resized(requested: i32, pages: u64) -> Result<Resize, Fault> {
    let have = num::unsigned32(pages as int);
    let want = num::unsigned32(requested as int);
    if have * 65536 > u32::MAX {
        Err(Fault)
    } else if want <= have * 65536 {
        Ok(Resize::Enough)
    } else if want + 65535 > u32::MAX {
        Err(Fault)
    } else {
        Ok(Resize::Grow(((want + 65535) / 65536 - have) as u64))
    }
}

/// Memory with the time at `tv`, unless that is null, or none where it has no
/// address.
pub open spec fn time_stored(mem: Seq<u8>, tv: i32) -> Option<Seq<u8>> {
    let at = num::unsigned32(tv as int);
    if tv == 0 {
        Some(mem)
    } else if at + 4 > u32::MAX {
        None
    } else {
        Some(memory::store32(memory::store32(mem, at, 0), at + 4, 0))
    }
}

/// The contents of headers and the size of their block, or none where they are
/// empty.
pub open spec fn header_block(parts: Seq<Seq<char>>) -> Option<(Seq<char>, int)> {
    if concat(parts).len() == 0 {
        None
    } else {
        Some((concat(parts), block_size(encode_utf8(concat(parts)))))
    }
}

/// The bytes of a heap of `pages` pages, or none where they are no word.
pub open spec fn heap_bytes(pages: u64) -> Option<int> {
    let bytes = num::signed32(pages as int) * 65536;
    if -0x8000_0000 <= bytes < 0x8000_0000 {
        Some(bytes)
    } else {
        None
    }
}

/// Memory after `count` bytes were copied from `src` to `dest`, or none where
/// they do not lie in memory.
pub open spec fn copied(mem: Seq<u8>, dest: i32, src: i32, count: i32) -> Option<Seq<u8>> {
    if 0 <= src && 0 <= count && src + count <= i32::MAX && src + count <= mem.len() {
        Some(
            memory::put(
                mem,
                num::unsigned64(dest as int),
                mem.subrange(src as int, src + count),
            ),
        )
    } else {
        None
    }
}

/// Sets the top of the heap in the memory of a guest that was just loaded.
pub fn init_memory(mem: &mut [u8])
    ensures
        final(mem)@ == memory::store32(old(mem)@, DYNAMIC_TOP_PTR as int, DYNAMIC_BASE as int),
        old(mem)@.len() >= MEMORY_PAGES * PAGE_SIZE ==> memory::load32(
            final(mem)@,
            DYNAMIC_TOP_PTR as int,
        ) == DYNAMIC_BASE,
{
    memory::write_i32(mem, DYNAMIC_TOP_PTR, DYNAMIC_BASE);
    proof {
        if old(mem)@.len() >= MEMORY_PAGES * PAGE_SIZE {
            memory::law_load_after_store(
                old(mem)@,
                DYNAMIC_TOP_PTR as int,
                DYNAMIC_BASE as int,
            );
        }
    }
}

/// The size of the heap of `pages` pages, as a word.
pub fn heap_size(pages: u64) -> (r: Result<i32, Fault>)
    ensures
        if syscalls::is_i32(num::signed32(pages as int) * 65536) {
            state::answers(r, num::signed32(pages as int) * 65536)
        } else {
            r is Err
        },
        match heap_bytes(pages) {
            Some(bytes) => state::answers(r, bytes),
            None => r is Err,
        },
{
    match num::narrow(pages).checked_mul(PAGE_SIZE as i32) {
        Some(size) => Ok(size),
        None => Err(Fault),
    }
}

/// How a memory of `pages` pages comes to hold `requested` bytes.
pub fn resize_heap(requested: i32, pages: u64) -> (r: Result<Resize, Fault>)
    ensures
        r == resized(requested, pages),
{
    let have: u32 = (pages % 0x1_0000_0000) as u32;
    let want: u32 = num::word(requested);
    let bytes: u32 = match have.checked_mul(PAGE_SIZE) {
        Some(b) => b,
        None => {
            return Err(Fault);
        },
    };
    if want <= bytes {
        return Ok(Resize::Enough);
    }
    if want > u32::MAX - 65535 {
        return Err(Fault);
    }
    let need: u32 = (want + 65535) / PAGE_SIZE;
    Ok(Resize::Grow((need - have) as u64))
}

/// Copies `count` bytes from `src` to `dest`. A source outside the memory is a
/// fault; a destination outside it gets nothing.
pub fn memcpy_big(mem: &mut [u8], dest: i32, src: i32, count: i32) -> (r: Result<i32, Fault>)
    ensures
        if 0 <= src && 0 <= count && src + count <= i32::MAX && src + count <= old(mem)@.len() {
            &&& state::answers(r, dest as int)
            &&& final(mem)@ == memory::put(
                old(mem)@,
                num::unsigned64(dest as int),
                old(mem)@.subrange(src as int, src + count),
            )
        } else {
            r is Err && final(mem)@ == old(mem)@
        },
        match copied(old(mem)@, dest, src, count) {
            Some(after) => state::answers(r, dest as int) && final(mem)@ == after,
            None => r is Err && final(mem)@ == old(mem)@,
        },
{
    if src < 0 || count < 0 || src > i32::MAX - count || (src + count) as u64 > mem.len() as u64 {
        return Err(Fault);
    }
    let data: Vec<u8> = slice_to_vec(slice_subrange(mem, src as usize, (src + count) as usize));
    let _ = memory::write_bytes(mem, num::wide(dest), data.as_slice());
    Ok(dest)
}

/// A configuration value: only the page size is known.
pub fn sysconf(name: i32) -> (r: i32)
    ensures
        r == if name == PAGE_SIZE_QUERY {
            PAGE_SIZE as int
        } else {
            -1
        },
{
    if name == PAGE_SIZE_QUERY {
        PAGE_SIZE as i32
    } else {
        -1
    }
}

/// The time of day, which always is zero: two zero words at `tv`, unless that
/// is null.
pub fn gettimeofday(mem: &mut [u8], tv: i32) -> (r: Result<i32, Fault>)
    ensures
        ({
            let at = num::unsigned32(tv as int);
            if tv == 0 {
                state::answers(r, 0) && final(mem)@ == old(mem)@
            } else if at + 4 > u32::MAX {
                r is Err && final(mem)@ == old(mem)@
            } else {
                state::answers(r, 0) && final(mem)@ == memory::store32(
                    memory::store32(old(mem)@, at, 0),
                    at + 4,
                    0,
                )
            }
        }),
        match time_stored(old(mem)@, tv) {
            Some(after) => state::answers(r, 0) && final(mem)@ == after,
            None => r is Err && final(mem)@ == old(mem)@,
        },
{
    if tv == 0 {
        return Ok(0);
    }
    let at: u32 = num::word(tv);
    if at > u32::MAX - 4 {
        return Err(Fault);
    }
    memory::write_i32(mem, at, 0);
    memory::write_i32(mem, at + 4, 0);
    Ok(0)
}

/// The size of the block that the guest has to provide for `text` with a NUL.
pub fn text_block(text: &str) -> (r: Result<i32, Fault>)
    ensures
        if block_size(encode_utf8(text@)) <= i32::MAX {
            state::answers(r, block_size(encode_utf8(text@)))
        } else {
            r is Err
        },
{
    let len: i32 = num::narrow(text.as_bytes().len() as u64);
    if len == i32::MAX {
        return Err(Fault);
    }
    Ok(len + 1)
}

/// Stores `text` and a NUL at the guest's address `ptr`, each where it fits.
pub fn place_text(mem: &mut [u8], ptr: i32, text: &str) -> (r: Result<bool, Fault>)
    ensures
        ({
            let at = num::unsigned64(ptr as int);
            let bytes = encode_utf8(text@);
            if at + bytes.len() > u64::MAX {
                r is Err && final(mem)@ == old(mem)@
            } else {
                &&& r matches Ok(stored) && stored == memory::fits(
                    old(mem)@,
                    at,
                    bytes.len() as int + 1,
                )
                &&& final(mem)@ == memory::put_text(old(mem)@, at, bytes)
            }
        }),
{
    let at: u64 = num::wide(ptr);
    if at > u64::MAX - text.as_bytes().len() as u64 {
        return Err(Fault);
    }
    Ok(memory::write_cstring(mem, at, text))
}

/// Whether a file of the voice directory is a pipeline header.
pub fn is_pipeline_header(name: &str) -> (r: bool)
    ensures
        r == is_header(name@),
{
    let long: bool = text::chars_of(name).len() > 4;
    long && text::has_suffix(name, ".hdr")
}

/// The contents of the pipeline headers as one text to hand to the guest, or
/// nothing where they are empty.
pub fn pipeline_headers(contents: &Vec<String>) -> (r: Result<Option<Block>, Fault>)
    ensures
        ({
            let all = concat(text::views(contents@));
            if all.len() == 0 {
                r matches Ok(None)
            } else if block_size(encode_utf8(all)) > i32::MAX {
                r is Err
            } else {
                r matches Ok(Some(b)) && b.text@ == all && b.size == block_size(encode_utf8(all))
            }
        }),
        match header_block(text::views(contents@)) {
            None => r matches Ok(None),
            Some(block) => if block.1 > i32::MAX {
                r is Err
            } else {
                r matches Ok(Some(b)) && b.text@ == block.0 && b.size == block.1
            },
        },
{
    let mut all: String = String::new();
    let mut i: usize = 0;
    proof {
        assert(text::views(contents@).subrange(0, 0) =~= Seq::empty());
    }
    while i < contents.len()
        invariant
            i <= contents@.len(),
            all@ == concat(text::views(contents@).subrange(0, i as int)),
        decreases contents@.len() - i,
    {
        proof {
            let next = text::views(contents@).subrange(0, i + 1);
            assert(next.drop_last() =~= text::views(contents@).subrange(0, i as int));
            assert(next.last() == contents@[i as int]@);
        }
        all.append(contents[i].as_str());
        i = i + 1;
    }
    assert(text::views(contents@).subrange(0, contents@.len() as int) =~= text::views(contents@));
    if all.as_str().is_empty() {
        return Ok(None);
    }
    match text_block(all.as_str()) {
        Ok(size) => Ok(Some(Block { text: all, size })),
        Err(fault) => Err(fault),
    }
}

impl State {
    /// Keeps the second word of a result for the guest.
    pub fn set_temp_ret(&mut self, v: i32)
        ensures
            final(self)@ == (HostView { temp_ret: v as int, ..old(self)@ }),
    {
        self.temp_ret = v;
        assert(self@ =~= (HostView { temp_ret: v as int, ..old(self)@ }));
    }

    /// The word that was kept last.
    pub fn get_temp_ret(&self) -> (v: i32)
        ensures
            v == self@.temp_ret,
    {
        self.temp_ret
    }

    /// Notes how an indirect call ended: a failed one leaves the word 1.
    pub fn invoke_reply(&mut self, failed: bool)
        ensures
            final(self)@ == if failed {
                HostView { temp_ret: 1, ..old(self)@ }
            } else {
                old(self)@
            },
    {
        if failed {
            self.set_temp_ret(1);
        }
    }
}

/// A memory that grows as it is told holds what was requested, and not a page
/// more than that takes.
pub proof fn law_growth_suffices(requested: i32, pages: u64)
    requires
        pages <= u32::MAX,
        resized(requested, pages) matches Ok(Resize::Grow(_)),
    ensures
        ({
            let more = resized(requested, pages)->Ok_0->Grow_0;
            let want = num::unsigned32(requested as int);
            (pages + more - 1) * 65536 < want <= (pages + more) * 65536
        }),
{
}

/// A block that is copied arrives as it was, also where source and destination
/// overlap.
pub proof fn law_block_copy_is_exact(mem: Seq<u8>, dest: int, src: int, count: int)
    requires
        memory::fits(mem, src, count),
        memory::fits(mem, dest, count),
        0 <= count,
    ensures
        memory::put(mem, dest, mem.subrange(src, src + count)).subrange(dest, dest + count)
            == mem.subrange(src, src + count),
{
    assert(memory::put(mem, dest, mem.subrange(src, src + count)).subrange(dest, dest + count)
        =~= mem.subrange(src, src + count));
}

/// Texts put together are all of each, in order.
pub proof fn law_headers_joined(a: Seq<Seq<char>>, b: Seq<Seq<char>>)
    ensures
        concat(Seq::<Seq<char>>::empty()) == Seq::<char>::empty(),
        a.len() == 1 ==> concat(a) == a[0],
        concat(a + b) == concat(a) + concat(b),
    decreases b.len(),
{
    if a.len() == 1 {
        reveal_with_fuel(concat, 2);
        assert(a.drop_last() =~= Seq::empty());
        assert(concat(a) =~= a[0]);
    }
    if b.len() == 0 {
        assert(a + b =~= a);
        assert(concat(a) + concat(b) =~= concat(a));
    } else {
        law_headers_joined(a, b.drop_last());
        assert((a + b).drop_last() =~= a + b.drop_last());
        assert((a + b).last() == b.last());
        assert(concat(a + b) =~= concat(a) + concat(b));
    }
}

/// A block has room for the bytes of its text and a NUL.
pub proof fn law_block_has_room(bytes: Seq<u8>)
    requires
        bytes.len() < i32::MAX,
    ensures
        block_size(bytes) == bytes.len() + 1,
{
}

/// A pipeline header is a name that is not empty and the extension.
pub proof fn law_header_names(stem: Seq<char>, name: Seq<char>)
    ensures
        stem.len() > 0 ==> is_header(stem + ".hdr"@),
        !is_header(".hdr"@),
        is_header(name) ==> name.len() > 4 && name == name.take(name.len() - 4) + ".hdr"@,
{
    reveal_strlit(".hdr");
    text::law_parts_of_texts(stem, ".hdr"@, Seq::empty(), name);
}

/// A heap that is large enough is left alone, and one that is not grows.
pub proof fn law_growth_where_needed(requested: i32, pages: u64)
    requires
        0 <= requested,
        pages <= 0xffff,
    ensures
        requested <= pages * 65536 ==> resized(requested, pages) == Ok::<Resize, Fault>(
            Resize::Enough,
        ),
        requested > pages * 65536 ==> (resized(requested, pages) matches Ok(Resize::Grow(more))
            && more > 0),
{
}

/// A copy takes the bytes of its source, all of them, to its destination, where
/// that lies in memory, and leaves everything else; a source outside the memory
/// is a fault.
pub proof fn law_copy(mem: Seq<u8>, dest: i32, src: i32, count: i32)
    requires
        0 <= dest,
        0 <= src,
        0 <= count,
        src + count <= i32::MAX,
    ensures
        src + count <= mem.len() && dest + count <= mem.len() ==> copied(mem, dest, src, count)
            == Some(
            mem.take(dest as int) + mem.subrange(src as int, src + count) + mem.skip(dest + count),
        ),
        src + count <= mem.len() && dest + count > mem.len() ==> copied(mem, dest, src, count)
            == Some(mem),
        src + count > mem.len() ==> copied(mem, dest, src, count) is None,
{
    if src + count <= mem.len() {
        memory::law_store_takes_place(
            mem,
            dest as int,
            mem.subrange(src as int, src + count),
        );
    }
}

/// The size of a heap is the sum of its pages.
pub proof fn law_heap_bytes(pages: u64)
    ensures
        pages < 0x8000 ==> heap_bytes(pages) == Some(65536 * pages),
        0x8000 <= pages < 0x8000_0000 ==> heap_bytes(pages) is None,
{
}

/// The time is eight zero bytes, and nothing else of the memory changes.
pub proof fn law_time_is_zero(mem: Seq<u8>, tv: i32, i: int)
    requires
        0 < tv,
        tv + 8 <= mem.len(),
        0 <= i < mem.len(),
    ensures
        time_stored(mem, tv) matches Some(after) && after.len() == mem.len() && after[i] == (if tv
            <= i < tv + 8 {
            0u8
        } else {
            mem[i]
        }),
        time_stored(mem, 0) == Some(mem),
{
}

/// The headers are handed over as one text that holds all of each, in a block
/// for its bytes and a NUL; nothing is handed over where they are empty.
pub proof fn law_headers_handed_over(a: Seq<Seq<char>>, b: Seq<Seq<char>>)
    requires
        encode_utf8(concat(a) + concat(b)).len() < i32::MAX,
    ensures
        concat(a).len() + concat(b).len() > 0 ==> (header_block(a + b) matches Some(block)
            && block.0 == concat(a) + concat(b) && block.1 == encode_utf8(concat(a) + concat(b)).len()
            + 1),
        concat(a).len() + concat(b).len() == 0 ==> header_block(a + b) is None,
{
    law_headers_joined(a, b);
}

} // verus!
