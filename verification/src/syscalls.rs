//! The file system calls that the guest makes through its C library.
//!
//! Each call finds its arguments as words in guest memory, at the address
//! `varargs`. The guest sees one directory, `/cfdir`, that holds the files of
//! the voice.

use crate::memory;
use crate::num;
use crate::state::{Fault, State};
#[allow(unused_imports)]
use crate::state::{FileView, HostView};
use crate::state;
use crate::text;
use vstd::prelude::*;
use vstd::slice::slice_subrange;
#[allow(unused_imports)]
use vstd::utf8::*;

verus! {

/// The position of an opened directory: behind every entry, so that a first
/// listing of it is empty.
pub const DIRECTORY_POSITION: u64 = 999999;

/// The mode word of a directory that all may read.
pub const DIRECTORY_MODE: i32 = 0o40755;

/// The mode word of a file that all may read.
pub const FILE_MODE: i32 = 0o100644;

/// The size of the block that describes a file.
pub const STAT_SIZE: usize = 96;

/// The size of one directory record.
pub const RECORD_SIZE: u64 = 280;

/// The longest name that a directory record holds.
pub const RECORD_NAME: usize = 255;

/// What an open call comes to.
#[derive(Debug)]
pub enum OpenRequest {
    /// The call is answered with this descriptor.
    Opened(i32),
    /// A file of this name in the voice directory has to be read first.
    Find(String),
}

/// What a call for a file's description comes to.
#[derive(Debug)]
pub enum StatRequest {
    /// The call is answered.
    Answered(i32),
    /// The size of the file of this name in the voice directory has to be
    /// found first; the description goes to `buf`.
    Find { name: String, buf: u32 },
}

/// What a gathered write comes to: the text for the user, and the count, or
/// none where the write broke off.
#[derive(Debug)]
pub struct Written {
    pub text: String,
    pub total: Option<i32>,
}

/// The host, the memory and the count after a scattered read; no count where
/// it broke off.
pub struct Scattered {
    pub host: HostView,
    pub mem: Seq<u8>,
    pub total: Option<int>,
}

/// `v` is a value of a 32-bit signed type.
pub open spec fn is_i32(v: int) -> bool {
    -0x8000_0000 <= v < 0x8000_0000
}

/// The `k`-th argument word of a call.
pub open spec fn arg(mem: Seq<u8>, varargs: i32, k: int) -> int {
    memory::load32(mem, num::unsigned32(varargs as int) + 4 * k)
}

/// The addresses of the argument words up to the `k`-th are words themselves.
pub open spec fn args_addressable(varargs: i32, k: int) -> bool {
    num::unsigned32(varargs as int) + 4 * k <= u32::MAX
}

/// `count` zero bytes.
pub open spec fn zeros(count: int) -> Seq<u8> {
    Seq::new(count as nat, |i: int| 0u8)
}

/// The name that a path of the guest has in the voice directory.
pub open spec fn local_name(path: Seq<char>) -> Seq<char> {
    text::base_name(text::strip_prefixes(text::strip_prefixes(path, "/cfdir/"@), "/cfdir"@))
}

/// A path of the guest that means its directory.
pub open spec fn is_root(path: Seq<char>) -> bool {
    text::trim_end(path, '/') == "/cfdir"@
}

/// Memory with the description of a directory at `buf`.
pub open spec fn put_directory(mem: Seq<u8>, buf: int) -> Seq<u8> {
    memory::store32(memory::put(mem, buf, zeros(STAT_SIZE as int)), buf + 8, DIRECTORY_MODE as int)
}

/// Memory with the description of a file of `size` bytes at `buf`.
pub open spec fn put_file(mem: Seq<u8>, buf: int, size: int) -> Seq<u8> {
    memory::store32(
        memory::store32(memory::put(mem, buf, zeros(STAT_SIZE as int)), buf + 40, size),
        buf + 8,
        FILE_MODE as int,
    )
}

/// The address of entry `i` of a list of memory ranges is a word, and so is
/// that of its second half.
pub open spec fn range_addressable(iov: int, i: int) -> bool {
    is_i32(i * 8) && is_i32(iov + i * 8) && is_i32(iov + i * 8 + 4)
}

/// A scattered read from entry `i` on, when `total` bytes were read before.
pub open spec fn scatter(
    h: HostView,
    mem: Seq<u8>,
    fd: i32,
    iov: int,
    n: int,
    i: int,
    total: int,
) -> Scattered
    decreases n - i,
{
    if i >= n {
        Scattered { host: h, mem, total: Some(total) }
    } else if !range_addressable(iov, i) || !state::readable(h, fd) {
        Scattered { host: h, mem, total: None }
    } else if !h.files.contains_key(fd) {
        scatter(h, mem, fd, iov, n, i + 1, total)
    } else {
        let base = num::unsigned32(memory::load32(mem, num::unsigned32(iov + i * 8)));
        let want = num::unsigned64(memory::load32(mem, num::unsigned32(iov + i * 8 + 4)));
        let data = state::chunk(h.files[fd], want);
        let next = state::after_read(h, fd, want);
        let count = total + num::signed32(data.len() as int);
        if is_i32(count) {
            scatter(next, memory::put(mem, base, data), fd, iov, n, i + 1, count)
        } else {
            Scattered { host: next, mem: memory::put(mem, base, data), total: None }
        }
    }
}

/// The first byte of entry `i` of a list of memory ranges.
pub open spec fn range_base(mem: Seq<u8>, iov: int, i: int) -> int {
    memory::load32(mem, num::unsigned32(iov + i * 8))
}

/// The length of entry `i` of a list of memory ranges.
pub open spec fn range_len(mem: Seq<u8>, iov: int, i: int) -> int {
    memory::load32(mem, num::unsigned32(iov + i * 8 + 4))
}

/// Entry `i` of a list of memory ranges lies inside the memory, and `total`
/// with its length is a word.
pub open spec fn range_sound(mem: Seq<u8>, iov: int, i: int, total: int) -> bool {
    &&& range_addressable(iov, i)
    &&& range_base(mem, iov, i) >= 0
    &&& range_len(mem, iov, i) >= 0
    &&& is_i32(range_base(mem, iov, i) + range_len(mem, iov, i))
    &&& range_base(mem, iov, i) + range_len(mem, iov, i) <= mem.len()
    &&& is_i32(total + range_len(mem, iov, i))
}

/// The bytes of entry `i` of a list of memory ranges.
pub open spec fn range_bytes(mem: Seq<u8>, iov: int, i: int) -> Seq<u8> {
    mem.subrange(range_base(mem, iov, i), range_base(mem, iov, i) + range_len(mem, iov, i))
}

/// The count of a gathered write from entry `i` on, or none where it breaks
/// off.
pub open spec fn gather_total(mem: Seq<u8>, iov: int, n: int, i: int, total: int) -> Option<int>
    decreases n - i,
{
    if i >= n {
        Some(total)
    } else if !range_sound(mem, iov, i, total) {
        None
    } else {
        gather_total(mem, iov, n, i + 1, total + range_len(mem, iov, i))
    }
}

/// The text of a gathered write from entry `i` on, up to where it breaks off.
pub open spec fn gather_text(mem: Seq<u8>, iov: int, n: int, i: int, total: int) -> Seq<char>
    decreases n - i,
{
    if i >= n {
        Seq::empty()
    } else if !range_sound(mem, iov, i, total) {
        if range_sound(mem, iov, i, 0) {
            text::decoded(range_bytes(mem, iov, i))
        } else {
            Seq::empty()
        }
    } else {
        text::decoded(range_bytes(mem, iov, i)) + gather_text(
            mem,
            iov,
            n,
            i + 1,
            total + range_len(mem, iov, i),
        )
    }
}

/// Memory with the low word of a position and a zero word at `out`.
pub open spec fn put_place(mem: Seq<u8>, out: int, place: int) -> Seq<u8> {
    memory::store32(memory::store32(mem, out, place), out + 4, 0)
}

/// The entries of the guest's directory: itself, its parent, and the files.
pub open spec fn entries(names: Seq<Seq<char>>) -> Seq<Seq<char>> {
    seq!["."@, ".."@] + names
}

/// The name bytes that a directory record holds.
pub open spec fn record_name(name: Seq<char>) -> Seq<u8> {
    let bytes = encode_utf8(name);
    if bytes.len() <= RECORD_NAME {
        bytes
    } else {
        bytes.subrange(0, RECORD_NAME as int)
    }
}

/// The kind byte of a directory record: a directory or a file.
pub open spec fn record_kind(name: Seq<char>) -> u8 {
    if name == "."@ || name == ".."@ {
        4
    } else {
        8
    }
}

/// Memory with the record of entry `index` at `base`.
pub open spec fn put_record(mem: Seq<u8>, base: int, index: int, name: Seq<char>) -> Seq<u8> {
    let blank = memory::put(mem, base, zeros(RECORD_SIZE as int));
    let numbered = memory::put(
        memory::put(blank, base, memory::le64(index + 1)),
        base + 8,
        memory::le64(index + 1),
    );
    let sized = memory::put(numbered, base + 16, memory::le16(RECORD_SIZE as int));
    memory::put(
        memory::put(sized, base + 18, seq![record_kind(name)]),
        base + 19,
        record_name(name),
    )
}

/// Memory with the records of `count` entries from `start` on, at `dirp`.
pub open spec fn put_records(
    mem: Seq<u8>,
    dirp: int,
    names: Seq<Seq<char>>,
    start: int,
    count: int,
) -> Seq<u8>
    decreases count,
{
    if count <= 0 {
        mem
    } else {
        put_record(
            put_records(mem, dirp, names, start, count - 1),
            dirp + RECORD_SIZE * (count - 1),
            start + count - 1,
            names[start + count - 1],
        )
    }
}

/// How many records a listing from `start` on puts into `room` bytes.
pub open spec fn record_count(total: int, start: int, room: int) -> int {
    if start >= total {
        0
    } else if room / RECORD_SIZE as int <= total - start {
        room / RECORD_SIZE as int
    } else {
        total - start
    }
}

/// The place in the directory where a listing through `fd` goes on.
pub open spec fn listing_start(h: HostView, fd: i32) -> int {
    if h.files.contains_key(fd) {
        h.files[fd].position
    } else {
        0
    }
}

/// What a call comes to: the host, the memory, and the answer, or none where the
/// call is a fault.
pub struct Called {
    pub host: HostView,
    pub mem: Seq<u8>,
    pub answer: Option<int>,
}

/// A call has come to `c`.
pub open spec fn comes_to(r: Result<i32, Fault>, h: HostView, m: Seq<u8>, c: Called) -> bool {
    &&& h == c.host
    &&& m == c.mem
    &&& match c.answer {
        Some(v) => state::answers(r, v),
        None => r is Err,
    }
}

/// What a call that means a path comes to: a fault, an answer, or a file of the
/// voice that has to be found first, with the address that it is found for.
pub enum Sought {
    Fault,
    Answered(int),
    Find(Seq<char>, int),
}

/// What an open call comes to: the host, and the descriptor or the file.
pub open spec fn open_call(h: HostView, m: Seq<u8>, varargs: i32) -> (HostView, Sought) {
    let ptr = num::unsigned32(arg(m, varargs, 0));
    let path = memory::text_at(m, ptr);
    if !args_addressable(varargs, 1) || ptr > m.len() {
        (h, Sought::Fault)
    } else if !is_root(path) {
        (h, Sought::Find(local_name(path), 0))
    } else if h.next_fd >= i32::MAX {
        (h, Sought::Fault)
    } else {
        (
            state::opened(
                h,
                FileView { data: Seq::empty(), position: DIRECTORY_POSITION as int },
            ),
            Sought::Answered(h.next_fd),
        )
    }
}

/// What a call for a description comes to: the memory, and the answer or the
/// file.
pub open spec fn stat_call(m: Seq<u8>, varargs: i32) -> (Seq<u8>, Sought) {
    let ptr = num::unsigned32(arg(m, varargs, 0));
    let buf = num::unsigned32(arg(m, varargs, 1));
    let path = memory::text_at(m, ptr);
    if !args_addressable(varargs, 1) || ptr > m.len() {
        (m, Sought::Fault)
    } else if is_root(path) || text::trim_end(path, '/').len() == 0 {
        if buf + 8 > u32::MAX {
            (m, Sought::Fault)
        } else {
            (put_directory(m, buf), Sought::Answered(0))
        }
    } else if local_name(path).len() == 0 {
        (m, Sought::Answered(-1))
    } else {
        (m, Sought::Find(local_name(path), buf))
    }
}

/// What a gathered write comes to: the text for the user, and the count.
pub open spec fn write_call(m: Seq<u8>, varargs: i32) -> (Seq<char>, Option<int>) {
    let fd = arg(m, varargs, 0);
    let iov = arg(m, varargs, 1);
    let n = arg(m, varargs, 2);
    if !args_addressable(varargs, 2) {
        (Seq::empty(), None)
    } else if fd == 1 || fd == 2 {
        (gather_text(m, iov, n, 0, 0), gather_total(m, iov, n, 0, 0))
    } else {
        (Seq::empty(), gather_total(m, iov, n, 0, 0))
    }
}

/// What a read comes to.
pub open spec fn read_call(h: HostView, m: Seq<u8>, varargs: i32) -> Called {
    let fd = arg(m, varargs, 0) as i32;
    let want = num::unsigned64(arg(m, varargs, 2));
    if !args_addressable(varargs, 2) || !state::readable(h, fd) {
        Called { host: h, mem: m, answer: None }
    } else if !h.files.contains_key(fd) {
        Called { host: h, mem: m, answer: Some(-1) }
    } else {
        let data = state::chunk(h.files[fd], want);
        Called {
            host: state::after_read(h, fd, want),
            mem: memory::put(m, num::unsigned32(arg(m, varargs, 1)), data),
            answer: Some(num::signed32(data.len() as int)),
        }
    }
}

/// What a seek comes to.
pub open spec fn seek_call(h: HostView, m: Seq<u8>, varargs: i32) -> Called {
    let fd = arg(m, varargs, 0) as i32;
    let distance = arg(m, varargs, 1) * 0x1_0000_0000 + num::unsigned32(arg(m, varargs, 2));
    let out = num::unsigned32(arg(m, varargs, 3));
    match state::reposition_result(h, fd, arg(m, varargs, 4), distance, true) {
        Ok(Some(place)) => if args_addressable(varargs, 4) && out + 4 <= u32::MAX {
            Called {
                host: state::moved(h, fd, place as int),
                mem: put_place(m, out, place as int),
                answer: Some(0),
            }
        } else {
            Called { host: h, mem: m, answer: None }
        },
        Ok(None) => if args_addressable(varargs, 4) {
            Called { host: h, mem: m, answer: Some(-1) }
        } else {
            Called { host: h, mem: m, answer: None }
        },
        Err(_) => Called { host: h, mem: m, answer: None },
    }
}

/// The entries of a directory can be counted and their records have addresses.
pub open spec fn records_addressable(dirp: int, total: int, count: int) -> bool {
    total <= u64::MAX && dirp + RECORD_SIZE * count <= u64::MAX
}

/// What a listing comes to: the host, the memory, and the number of records.
pub struct Listing {
    pub host: HostView,
    pub mem: Seq<u8>,
    pub count: int,
}

/// What a listing of the directory `list` through `fd` comes to, with `room`
/// bytes at `dirp`: as many records as there is room for, from the descriptor's
/// position on, and the position moved past them.
pub open spec fn listing(
    h: HostView,
    mem: Seq<u8>,
    fd: i32,
    dirp: int,
    room: int,
    list: Seq<Seq<char>>,
) -> Listing {
    let start = listing_start(h, fd);
    let count = record_count(list.len() as int, start, room);
    Listing {
        host: if h.files.contains_key(fd) && start < list.len() {
            state::moved(h, fd, start + count)
        } else {
            h
        },
        mem: put_records(mem, dirp, list, start, count),
        count,
    }
}

/// Reads the `k`-th argument word of a call.
fn argument(mem: &[u8], varargs: i32, k: u32) -> (v: i32)
    requires
        args_addressable(varargs, k as int),
        k <= 8,
    ensures
        v == arg(mem@, varargs, k as int),
{
    memory::read_i32(mem, num::word(varargs) + 4 * k)
}

/// Whether the argument words up to the `k`-th have addresses.
fn addressable(varargs: i32, k: u32) -> (r: bool)
    requires
        k <= 8,
    ensures
        r == args_addressable(varargs, k as int),
{
    num::word(varargs) <= u32::MAX - 4 * k
}

/// `count` zero bytes.
fn zero_bytes(count: usize) -> (bytes: Vec<u8>)
    ensures
        bytes@ == zeros(count as int),
{
    let mut bytes: Vec<u8> = Vec::new();
    let mut i: usize = 0;
    while i < count
        invariant
            i <= count,
            bytes@ == zeros(i as int),
        decreases count - i,
    {
        bytes.push(0u8);
        i = i + 1;
        assert(bytes@ =~= zeros(i as int));
    }
    bytes
}

/// Whether `path` means the guest's directory.
fn names_root(path: &str) -> (r: bool)
    ensures
        r == is_root(path@),
{
    let trimmed: String = text::without_end(path, '/');
    text::same(trimmed.as_str(), "/cfdir")
}

/// The name of `path` in the voice directory.
fn name_in_voice(path: &str) -> (name: String)
    ensures
        name@ == local_name(path@),
{
    let inner: String = text::without_prefixes(path, "/cfdir/");
    let clean: String = text::without_prefixes(inner.as_str(), "/cfdir");
    text::file_name(clean.as_str())
}

impl State {
    /// Read: moves up to `count` bytes of a file to the guest's buffer.
    pub fn sys_read(&mut self, mem: &mut [u8], varargs: i32) -> (r: Result<i32, Fault>)
        ensures
            ({
                let h = old(self)@;
                let m = old(mem)@;
                let fd = arg(m, varargs, 0) as i32;
                let buf = num::unsigned32(arg(m, varargs, 1));
                let want = num::unsigned64(arg(m, varargs, 2));
                if !args_addressable(varargs, 2) || !state::readable(h, fd) {
                    r is Err && final(self)@ == h && final(mem)@ == m
                } else if h.files.contains_key(fd) {
                    let data = state::chunk(h.files[fd], want);
                    &&& state::answers(r, num::signed32(data.len() as int))
                    &&& final(self)@ == state::after_read(h, fd, want)
                    &&& final(mem)@ == memory::put(m, buf, data)
                } else {
                    state::answers(r, -1) && final(self)@ == h && final(mem)@ == m
                }
            }),
            comes_to(r, final(self)@, final(mem)@, read_call(old(self)@, old(mem)@, varargs)),
    {
        if !addressable(varargs, 2) {
            return Err(Fault);
        }
        let fd: i32 = argument(mem, varargs, 0);
        let buf: u32 = num::word(argument(mem, varargs, 1));
        let want: u64 = num::wide(argument(mem, varargs, 2));
        match self.take_chunk(fd, want) {
            Err(fault) => Err(fault),
            Ok(None) => Ok(-1),
            Ok(Some(data)) => {
                let _ = memory::write_bytes(mem, buf as u64, data.as_slice());
                Ok(num::narrow(data.len() as u64))
            },
        }
    }

    /// Close: forgets a file.
    pub fn sys_close(&mut self, mem: &[u8], varargs: i32) -> (r: i32)
        ensures
            r == 0,
            final(self)@ == state::closed(old(self)@, arg(mem@, varargs, 0) as i32),
    {
        let fd: i32 = argument(mem, varargs, 0);
        self.close(fd);
        0
    }

    /// Seek: moves a file's position, not before the start, and stores it as
    /// two words at the address that the guest gives.
    pub fn sys_seek(&mut self, mem: &mut [u8], varargs: i32) -> (r: Result<i32, Fault>)
        ensures
            ({
                let h = old(self)@;
                let m = old(mem)@;
                let fd = arg(m, varargs, 0) as i32;
                let distance = arg(m, varargs, 1) * 0x1_0000_0000 + num::unsigned32(
                    arg(m, varargs, 2),
                );
                let out = num::unsigned32(arg(m, varargs, 3));
                let to = state::reposition_result(h, fd, arg(m, varargs, 4), distance, true);
                if !args_addressable(varargs, 4) || to is Err || (to matches Ok(Some(p)) && out + 4
                    > u32::MAX) {
                    r is Err && final(self)@ == h && final(mem)@ == m
                } else {
                    match to {
                        Ok(Some(place)) => {
                            &&& state::answers(r, 0)
                            &&& final(self)@ == state::moved(h, fd, place as int)
                            &&& final(mem)@ == put_place(m, out, place as int)
                        },
                        _ => state::answers(r, -1) && final(self)@ == h && final(mem)@ == m,
                    }
                }
            }),
            comes_to(r, final(self)@, final(mem)@, seek_call(old(self)@, old(mem)@, varargs)),
    {
        if !addressable(varargs, 4) {
            return Err(Fault);
        }
        let fd: i32 = argument(mem, varargs, 0);
        let high: i32 = argument(mem, varargs, 1);
        let low: u32 = num::word(argument(mem, varargs, 2));
        let out: u32 = num::word(argument(mem, varargs, 3));
        let whence: i32 = argument(mem, varargs, 4);
        let distance: i64 = high as i64 * 0x1_0000_0000 + low as i64;
        let to: Result<Option<u64>, Fault> = self.seek_target(fd, whence, distance, true);
        match to {
            Err(fault) => Err(fault),
            Ok(None) => Ok(-1),
            Ok(Some(place)) => {
                if out > u32::MAX - 4 {
                    return Err(Fault);
                }
                let _ = self.reposition(fd, whence, distance, true);
                write_place(mem, out, place);
                Ok(0)
            },
        }
    }

    /// Scattered read: fills the guest's buffers one after the other. The
    /// buffers are listed at `iov`, in memory that the read itself may change.
    pub fn sys_readv(&mut self, mem: &mut [u8], varargs: i32) -> (r: Result<i32, Fault>)
        ensures
            ({
                let h = old(self)@;
                let m = old(mem)@;
                if !args_addressable(varargs, 2) {
                    r is Err && final(self)@ == h && final(mem)@ == m
                } else {
                    let run = scatter(
                        h,
                        m,
                        arg(m, varargs, 0) as i32,
                        arg(m, varargs, 1),
                        arg(m, varargs, 2),
                        0,
                        0,
                    );
                    &&& final(self)@ == run.host
                    &&& final(mem)@ == run.mem
                    &&& match run.total {
                        Some(total) => state::answers(r, total),
                        None => r is Err,
                    }
                }
            }),
    {
        if !addressable(varargs, 2) {
            return Err(Fault);
        }
        let fd: i32 = argument(mem, varargs, 0);
        let iov: i32 = argument(mem, varargs, 1);
        let n: i32 = argument(mem, varargs, 2);
        self.fill_ranges(mem, fd, iov, n)
    }

    /// Fills the `n` buffers that are listed at `iov` from the file `fd`.
    fn fill_ranges(&mut self, mem: &mut [u8], fd: i32, iov: i32, n: i32) -> (r: Result<i32, Fault>)
        ensures
            ({
                let run = scatter(old(self)@, old(mem)@, fd, iov as int, n as int, 0, 0);
                &&& final(self)@ == run.host
                &&& final(mem)@ == run.mem
                &&& match run.total {
                    Some(total) => state::answers(r, total),
                    None => r is Err,
                }
            }),
    {
        let ghost run = scatter(self@, mem@, fd, iov as int, n as int, 0, 0);
        let mut i: i32 = 0;
        let mut total: i32 = 0;
        while i < n
            invariant
                0 <= i,
                run == scatter(old(self)@, old(mem)@, fd, iov as int, n as int, 0, 0),
                run == scatter(
                    self@,
                    mem@,
                    fd,
                    iov as int,
                    n as int,
                    i as int,
                    total as int,
                ),
            decreases n - i,
        {
            let at: i32 = match range_address(iov, i) {
                Some(a) => a,
                None => {
                    return Err(Fault);
                },
            };
            let base: u32 = num::word(memory::read_i32(mem, num::word(at)));
            let want: u64 = num::wide(memory::read_i32(mem, num::word(at + 4)));
            match self.take_chunk(fd, want) {
                Err(fault) => {
                    return Err(fault);
                },
                Ok(None) => {},
                Ok(Some(data)) => {
                    let _ = memory::write_bytes(mem, base as u64, data.as_slice());
                    let count: i32 = num::narrow(data.len() as u64);
                    match total.checked_add(count) {
                        Some(t) => {
                            total = t;
                        },
                        None => {
                            return Err(Fault);
                        },
                    }
                },
            }
            i = i + 1;
        }
        Ok(total)
    }

    /// Open: the guest's directory is opened at once; any other path names a
    /// file of the voice.
    pub fn sys_open(&mut self, mem: &[u8], varargs: i32) -> (r: Result<OpenRequest, Fault>)
        ensures
            ({
                let h = old(self)@;
                let ptr = num::unsigned32(arg(mem@, varargs, 0));
                let path = memory::text_at(mem@, ptr);
                if !args_addressable(varargs, 1) || ptr > mem@.len() || (is_root(path) && h.next_fd
                    >= i32::MAX) {
                    r is Err && final(self)@ == h
                } else if is_root(path) {
                    &&& r matches Ok(OpenRequest::Opened(fd)) && fd == h.next_fd
                    &&& final(self)@ == state::opened(
                        h,
                        FileView { data: Seq::empty(), position: DIRECTORY_POSITION as int },
                    )
                } else {
                    &&& r matches Ok(OpenRequest::Find(name)) && name@ == local_name(path)
                    &&& final(self)@ == h
                }
            }),
            final(self)@ == open_call(old(self)@, mem@, varargs).0,
            match open_call(old(self)@, mem@, varargs).1 {
                Sought::Fault => r is Err,
                Sought::Answered(fd) => r matches Ok(OpenRequest::Opened(v)) && v == fd,
                Sought::Find(name, _) => r matches Ok(OpenRequest::Find(v)) && v@ == name,
            },
    {
        if !addressable(varargs, 1) {
            return Err(Fault);
        }
        let ptr: u32 = num::word(argument(mem, varargs, 0));
        if ptr as u64 > mem.len() as u64 {
            return Err(Fault);
        }
        let path: String = memory::read_cstring(mem, ptr);
        if names_root(path.as_str()) {
            return match self.open(Vec::new(), DIRECTORY_POSITION) {
                Ok(fd) => Ok(OpenRequest::Opened(fd)),
                Err(fault) => Err(fault),
            };
        }
        Ok(OpenRequest::Find(name_in_voice(path.as_str())))
    }

    /// Directory listing: stores as many records as the guest has room for,
    /// from the descriptor's position on, and moves the position past them.
    /// `names` are the files of the voice directory.
    pub fn sys_getdents(&mut self, mem: &mut [u8], varargs: i32, names: &Vec<String>) -> (r: Result<
        i32,
        Fault,
    >)
        ensures
            ({
                let h = old(self)@;
                let m = old(mem)@;
                let fd = arg(m, varargs, 0) as i32;
                let dirp = num::unsigned32(arg(m, varargs, 1));
                let room = num::unsigned64(arg(m, varargs, 2));
                let l = listing(h, m, fd, dirp, room, entries(text::views(names@)));
                if !args_addressable(varargs, 2) || !records_addressable(
                    dirp,
                    names@.len() as int + 2,
                    l.count,
                ) {
                    r is Err && final(self)@ == h && final(mem)@ == m
                } else {
                    &&& state::answers(r, num::signed32(RECORD_SIZE * l.count))
                    &&& final(mem)@ == l.mem
                    &&& final(self)@ == l.host
                }
            }),
    {
        if !addressable(varargs, 2) {
            return Err(Fault);
        }
        let fd: i32 = argument(mem, varargs, 0);
        let dirp: u32 = num::word(argument(mem, varargs, 1));
        let room: u64 = num::wide(argument(mem, varargs, 2));
        let size: usize = names.len();
        if size as u64 > u64::MAX - 2 {
            return Err(Fault);
        }
        let total: u64 = size as u64 + 2;
        let start: u64 = match self.extent(fd) {
            Some(e) => e.1,
            None => 0,
        };
        if start >= total {
            return Ok(0);
        }
        let space: u64 = room / RECORD_SIZE;
        let count: u64 = if space <= total - start {
            space
        } else {
            total - start
        };
        if RECORD_SIZE * count > u64::MAX - dirp as u64 {
            return Err(Fault);
        }
        write_records(mem, dirp, names, start, count);
        if let Some(_) = self.extent(fd) {
            self.move_to(fd, start + count);
        }
        Ok(num::narrow(RECORD_SIZE * count))
    }
}

/// Stores the records of `count` entries from `start` on, at `dirp`.
fn write_records(mem: &mut [u8], dirp: u32, names: &Vec<String>, start: u64, count: u64)
    requires
        start + count <= names@.len() + 2 <= u64::MAX,
        dirp + RECORD_SIZE * count <= u64::MAX,
    ensures
        final(mem)@ == put_records(
            old(mem)@,
            dirp as int,
            entries(text::views(names@)),
            start as int,
            count as int,
        ),
{
    let ghost list = entries(text::views(names@));
    let ghost m = mem@;
    let mut i: u64 = 0;
    while i < count
        invariant
            i <= count,
            start + count <= names@.len() + 2 <= u64::MAX,
            dirp + RECORD_SIZE * count <= u64::MAX,
            list == entries(text::views(names@)),
            mem@ == put_records(m, dirp as int, list, start as int, i as int),
        decreases count - i,
    {
        let at: u64 = dirp as u64 + RECORD_SIZE * i;
        let index: u64 = start + i;
        write_entry(mem, at, index, names);
        i = i + 1;
        assert(mem@ == put_records(m, dirp as int, list, start as int, i as int));
    }
}

/// Stores the record of entry `index` of the guest's directory at `at`.
fn write_entry(mem: &mut [u8], at: u64, index: u64, names: &Vec<String>)
    requires
        at <= u64::MAX - 19,
        index < names@.len() + 2 <= u64::MAX,
    ensures
        final(mem)@ == put_record(
            old(mem)@,
            at as int,
            index as int,
            entries(text::views(names@))[index as int],
        ),
{
    let ghost list = entries(text::views(names@));
    assert(list[0] == "."@ && list[1] == ".."@);
    if index == 0 {
        write_record(mem, at, index, ".");
    } else if index == 1 {
        write_record(mem, at, index, "..");
    } else {
        let size: usize = names.len();
        assert(index - 2 < size);
        let k: usize = (index - 2) as usize;
        assert(list[index as int] == names@[k as int]@);
        write_record(mem, at, index, names[k].as_str());
    }
}

/// Stores a position as two words at `out`.
fn write_place(mem: &mut [u8], out: u32, place: u64)
    requires
        out <= u32::MAX - 4,
    ensures
        final(mem)@ == put_place(old(mem)@, out as int, place as int),
{
    memory::write_i32(mem, out, num::narrow(place));
    memory::write_i32(mem, out + 4, 0);
    proof {
        num::lemma_low_bits(place as int);
    }
}

/// Stores the record of entry `index` at `base`.
fn write_record(mem: &mut [u8], base: u64, index: u64, name: &str)
    requires
        base <= u64::MAX - 19,
        index < u64::MAX,
    ensures
        final(mem)@ == put_record(old(mem)@, base as int, index as int, name@),
{
    let blank: Vec<u8> = zero_bytes(RECORD_SIZE as usize);
    let number: Vec<u8> = memory::bytes_of_u64(index + 1);
    let size: Vec<u8> = memory::bytes_of_u16(RECORD_SIZE as u16);
    let mut kind: Vec<u8> = Vec::new();
    if text::same(name, ".") || text::same(name, "..") {
        kind.push(4u8);
    } else {
        kind.push(8u8);
    }
    assert(kind@ =~= seq![record_kind(name@)]);
    let bytes: &[u8] = name.as_bytes();
    let held: usize = if bytes.len() <= RECORD_NAME {
        bytes.len()
    } else {
        RECORD_NAME
    };
    let shown: &[u8] = slice_subrange(bytes, 0, held);
    assert(shown@ =~= record_name(name@));
    let _ = memory::write_bytes(mem, base, blank.as_slice());
    let _ = memory::write_bytes(mem, base, number.as_slice());
    let _ = memory::write_bytes(mem, base + 8, number.as_slice());
    let _ = memory::write_bytes(mem, base + 16, size.as_slice());
    let _ = memory::write_bytes(mem, base + 18, kind.as_slice());
    let _ = memory::write_bytes(mem, base + 19, shown);
}

/// The address of entry `i` of the list of memory ranges at `iov`.
fn range_address(iov: i32, i: i32) -> (r: Option<i32>)
    requires
        i >= 0,
    ensures
        r is Some <==> range_addressable(iov as int, i as int),
        r matches Some(at) ==> at == iov + i * 8,
{
    let step: i32 = match i.checked_mul(8) {
        Some(s) => s,
        None => {
            return None;
        },
    };
    let at: i32 = match iov.checked_add(step) {
        Some(a) => a,
        None => {
            return None;
        },
    };
    if at > i32::MAX - 4 {
        return None;
    }
    Some(at)
}

/// Gathered write: the ranges of memory that are listed at `iov`, as text for
/// the user where they go to the standard streams, and their total length.
pub fn sys_writev(mem: &[u8], varargs: i32) -> (w: Written)
    ensures
        ({
            let fd = arg(mem@, varargs, 0);
            let iov = arg(mem@, varargs, 1);
            let n = arg(mem@, varargs, 2);
            if !args_addressable(varargs, 2) {
                w.total is None && w.text@ == Seq::<char>::empty()
            } else {
                &&& w.text@ == if fd == 1 || fd == 2 {
                    gather_text(mem@, iov, n, 0, 0)
                } else {
                    Seq::empty()
                }
                &&& match gather_total(mem@, iov, n, 0, 0) {
                    Some(total) => w.total matches Some(t) && t == total,
                    None => w.total is None,
                }
            }
        }),
        w.text@ == write_call(mem@, varargs).0,
        match write_call(mem@, varargs).1 {
            Some(total) => w.total matches Some(t) && t == total,
            None => w.total is None,
        },
{
    if !addressable(varargs, 2) {
        return Written { text: String::new(), total: None };
    }
    let fd: i32 = argument(mem, varargs, 0);
    let iov: i32 = argument(mem, varargs, 1);
    let n: i32 = argument(mem, varargs, 2);
    gather_ranges(mem, iov, n, fd == 1 || fd == 2)
}

/// Collects the `n` ranges of memory that are listed at `iov`.
fn gather_ranges(mem: &[u8], iov: i32, n: i32, echo: bool) -> (w: Written)
    ensures
        w.text@ == if echo {
            gather_text(mem@, iov as int, n as int, 0, 0)
        } else {
            Seq::empty()
        },
        match gather_total(mem@, iov as int, n as int, 0, 0) {
            Some(total) => w.total matches Some(t) && t == total,
            None => w.total is None,
        },
{
    let mut shown: String = String::new();
    let mut i: i32 = 0;
    let mut total: i32 = 0;
    while i < n
        invariant
            0 <= i,
            gather_total(mem@, iov as int, n as int, 0, 0) == gather_total(
                mem@,
                iov as int,
                n as int,
                i as int,
                total as int,
            ),
            echo ==> gather_text(mem@, iov as int, n as int, 0, 0) == shown@ + gather_text(
                mem@,
                iov as int,
                n as int,
                i as int,
                total as int,
            ),
            !echo ==> shown@ == Seq::<char>::empty(),
        decreases n - i,
    {
        let at: i32 = match range_address(iov, i) {
            Some(a) => a,
            None => {
                assert(shown@ + Seq::<char>::empty() =~= shown@);
                return Written { text: shown, total: None };
            },
        };
        let base: i32 = memory::read_i32(mem, num::word(at));
        let len: i32 = memory::read_i32(mem, num::word(at + 4));
        if base < 0 || len < 0 || base > i32::MAX - len || (base + len) as u64 > mem.len() as u64 {
            assert(shown@ + Seq::<char>::empty() =~= shown@);
            return Written { text: shown, total: None };
        }
        if echo {
            let piece: String = text::decode(
                slice_subrange(mem, base as usize, (base + len) as usize),
            );
            let ghost before = shown@;
            shown.append(piece.as_str());
            proof {
                let rest = gather_text(
                    mem@,
                    iov as int,
                    n as int,
                    i + 1,
                    total + range_len(mem@, iov as int, i as int),
                );
                assert(before + (piece@ + rest) =~= shown@ + rest);
            }
        }
        match total.checked_add(len) {
            Some(t) => {
                total = t;
            },
            None => {
                return Written { text: shown, total: None };
            },
        }
        i = i + 1;
    }
    assert(shown@ + Seq::<char>::empty() =~= shown@);
    Written { text: shown, total: Some(total) }
}

/// Description of a path: the guest's directory, and the empty path, are
/// described at once; any other path names a file of the voice.
pub fn sys_stat(mem: &mut [u8], varargs: i32) -> (r: Result<StatRequest, Fault>)
    ensures
        ({
            let m = old(mem)@;
            let ptr = num::unsigned32(arg(m, varargs, 0));
            let buf = num::unsigned32(arg(m, varargs, 1));
            let path = memory::text_at(m, ptr);
            let root = is_root(path) || text::trim_end(path, '/').len() == 0;
            if !args_addressable(varargs, 1) || ptr > m.len() || (root && buf + 8 > u32::MAX) {
                r is Err && final(mem)@ == m
            } else if root {
                &&& r matches Ok(StatRequest::Answered(v)) && v == 0
                &&& final(mem)@ == put_directory(m, buf)
            } else if local_name(path).len() == 0 {
                &&& r matches Ok(StatRequest::Answered(v)) && v == -1
                &&& final(mem)@ == m
            } else {
                &&& r matches Ok(StatRequest::Find { name, buf: b }) && name@ == local_name(path)
                    && b == buf
                &&& final(mem)@ == m
            }
        }),
        final(mem)@ == stat_call(old(mem)@, varargs).0,
        match stat_call(old(mem)@, varargs).1 {
            Sought::Fault => r is Err,
            Sought::Answered(v) => r matches Ok(StatRequest::Answered(w)) && w == v,
            Sought::Find(name, buf) => r matches Ok(StatRequest::Find { name: n, buf: b }) && n@
                == name && b == buf,
        },
{
    if !addressable(varargs, 1) {
        return Err(Fault);
    }
    let ptr: u32 = num::word(argument(mem, varargs, 0));
    let buf: u32 = num::word(argument(mem, varargs, 1));
    if ptr as u64 > mem.len() as u64 {
        return Err(Fault);
    }
    let path: String = memory::read_cstring(mem, ptr);
    let trimmed: String = text::without_end(path.as_str(), '/');
    if text::same(trimmed.as_str(), "/cfdir") || trimmed.as_str().is_empty() {
        if buf > u32::MAX - 8 {
            return Err(Fault);
        }
        let blank: Vec<u8> = zero_bytes(STAT_SIZE);
        let _ = memory::write_bytes(mem, buf as u64, blank.as_slice());
        memory::write_i32(mem, buf + 8, DIRECTORY_MODE);
        return Ok(StatRequest::Answered(0));
    }
    let name: String = name_in_voice(path.as_str());
    if name.as_str().is_empty() {
        return Ok(StatRequest::Answered(-1));
    }
    Ok(StatRequest::Find { name, buf })
}

/// Answers a call for the description of a file with its size, or with -1
/// where there is no such file.
pub fn stat_reply(mem: &mut [u8], buf: u32, size: Option<u64>) -> (r: Result<i32, Fault>)
    ensures
        match size {
            None => state::answers(r, -1) && final(mem)@ == old(mem)@,
            Some(n) => if buf + 40 > u32::MAX {
                r is Err && final(mem)@ == old(mem)@
            } else {
                state::answers(r, 0) && final(mem)@ == put_file(
                    old(mem)@,
                    buf as int,
                    num::signed32(n as int),
                )
            },
        },
{
    match size {
        None => Ok(-1),
        Some(n) => {
            if buf > u32::MAX - 40 {
                return Err(Fault);
            }
            let blank: Vec<u8> = zero_bytes(STAT_SIZE);
            let _ = memory::write_bytes(mem, buf as u64, blank.as_slice());
            memory::write_i32(mem, buf + 40, num::narrow(n));
            memory::write_i32(mem, buf + 8, FILE_MODE);
            Ok(0)
        },
    }
}

/// The record of entry `index` stands at `base`: the number of its entry twice,
/// its size, its kind, its name, and zeros.
pub open spec fn holds_record(mem: Seq<u8>, base: int, index: int, name: Seq<char>) -> bool {
    let len = record_name(name).len();
    &&& memory::fits(mem, base, RECORD_SIZE as int)
    &&& mem.subrange(base, base + 8) == memory::le64(index + 1)
    &&& mem.subrange(base + 8, base + 16) == memory::le64(index + 1)
    &&& mem.subrange(base + 16, base + 18) == memory::le16(RECORD_SIZE as int)
    &&& mem[base + 18] == record_kind(name)
    &&& mem.subrange(base + 19, base + 19 + len) == record_name(name)
    &&& forall|b: int| base + 19 + len <= b < base + RECORD_SIZE ==> #[trigger] mem[b] == 0
}

/// A record that fits is stored with all its parts, and its name ends with a
/// NUL.
pub proof fn law_record_layout(mem: Seq<u8>, base: int, index: int, name: Seq<char>)
    requires
        memory::fits(mem, base, RECORD_SIZE as int),
    ensures
        holds_record(put_record(mem, base, index, name), base, index, name),
        put_record(mem, base, index, name)[base + 19 + record_name(name).len()] == 0,
{
    let after = put_record(mem, base, index, name);
    let len = record_name(name).len() as int;
    assert(len <= 255);
    assert(after.subrange(base, base + 8) =~= memory::le64(index + 1));
    assert(after.subrange(base + 8, base + 16) =~= memory::le64(index + 1));
    assert(after.subrange(base + 16, base + 18) =~= memory::le16(RECORD_SIZE as int));
    assert(after.subrange(base + 19, base + 19 + len) =~= record_name(name));
}

/// A record changes nothing outside its own bytes.
proof fn lemma_record_local(mem: Seq<u8>, base: int, index: int, name: Seq<char>)
    ensures
        put_record(mem, base, index, name).len() == mem.len(),
        forall|i: int|
            0 <= i < mem.len() && !(base <= i < base + RECORD_SIZE) ==> #[trigger] put_record(
                mem,
                base,
                index,
                name,
            )[i] == mem[i],
{
    assert(record_name(name).len() <= 255);
}

/// A record that lies elsewhere stays.
proof fn lemma_record_kept(
    mem: Seq<u8>,
    base: int,
    index: int,
    name: Seq<char>,
    other: int,
    other_index: int,
    other_name: Seq<char>,
)
    requires
        holds_record(mem, base, index, name),
        base + RECORD_SIZE <= other,
    ensures
        holds_record(put_record(mem, other, other_index, other_name), base, index, name),
{
    let after = put_record(mem, other, other_index, other_name);
    let len = record_name(name).len() as int;
    assert(len <= 255);
    lemma_record_local(mem, other, other_index, other_name);
    assert(after.subrange(base, base + 8) =~= mem.subrange(base, base + 8));
    assert(after.subrange(base + 8, base + 16) =~= mem.subrange(base + 8, base + 16));
    assert(after.subrange(base + 16, base + 18) =~= mem.subrange(base + 16, base + 18));
    assert(after.subrange(base + 19, base + 19 + len) =~= mem.subrange(base + 19, base + 19 + len));
}

/// Records keep the size of the memory.
proof fn lemma_records_len(
    mem: Seq<u8>,
    dirp: int,
    names: Seq<Seq<char>>,
    start: int,
    count: int,
)
    ensures
        put_records(mem, dirp, names, start, count).len() == mem.len(),
    decreases count,
{
    if count > 0 {
        lemma_records_len(mem, dirp, names, start, count - 1);
    }
}

/// In memory with room for them a listing stores the records of its entries one
/// behind the other.
pub proof fn law_listing_layout(
    mem: Seq<u8>,
    dirp: int,
    names: Seq<Seq<char>>,
    start: int,
    count: int,
    j: int,
)
    requires
        memory::fits(mem, dirp, RECORD_SIZE * count),
        0 <= j < count,
    ensures
        holds_record(
            put_records(mem, dirp, names, start, count),
            dirp + RECORD_SIZE * j,
            start + j,
            names[start + j],
        ),
    decreases count,
{
    let before = put_records(mem, dirp, names, start, count - 1);
    let base = dirp + RECORD_SIZE * (count - 1);
    lemma_records_len(mem, dirp, names, start, count - 1);
    if j == count - 1 {
        law_record_layout(before, base, start + j, names[start + j]);
    } else {
        law_listing_layout(mem, dirp, names, start, count - 1, j);
        lemma_record_kept(
            before,
            dirp + RECORD_SIZE * j,
            start + j,
            names[start + j],
            base,
            start + count - 1,
            names[start + count - 1],
        );
    }
}

/// A listing writes inside the room that the guest gives and nowhere else.
pub proof fn law_listing_stays_in_room(
    mem: Seq<u8>,
    dirp: int,
    names: Seq<Seq<char>>,
    start: int,
    room: int,
    i: int,
)
    requires
        0 <= dirp,
        0 <= start,
        0 <= room,
        0 <= i < mem.len(),
        !(dirp <= i < dirp + room),
    ensures
        ({
            let count = record_count(names.len() as int, start, room);
            let after = put_records(mem, dirp, names, start, count);
            after.len() == mem.len() && after[i] == mem[i]
        }),
{
    let count = record_count(names.len() as int, start, room);
    assert(RECORD_SIZE * count <= room);
    lemma_records_local(mem, dirp, names, start, count, i);
}

/// Records change nothing outside their own bytes.
proof fn lemma_records_local(
    mem: Seq<u8>,
    dirp: int,
    names: Seq<Seq<char>>,
    start: int,
    count: int,
    i: int,
)
    requires
        0 <= dirp,
        0 <= i < mem.len(),
        !(dirp <= i < dirp + RECORD_SIZE * count),
    ensures
        put_records(mem, dirp, names, start, count).len() == mem.len(),
        put_records(mem, dirp, names, start, count)[i] == mem[i],
    decreases count,
{
    if count > 0 {
        lemma_records_local(mem, dirp, names, start, count - 1, i);
        assert(record_name(names[start + count - 1]).len() <= 255);
    }
}

/// A listing with room for a record gets on, so that listing after listing
/// comes to the end of the directory: each goes on where the last one stopped.
pub proof fn law_listing_gets_on(total: int, start: int, room: int)
    requires
        0 <= start < total,
        room >= RECORD_SIZE,
    ensures
        0 < record_count(total, start, room) <= total - start,
        start + record_count(total, start, room) <= total,
        record_count(total, total, room) == 0,
{
}

/// The entries that listings through `fd` give, each with `room` bytes at
/// `dirp`, until one gives none.
pub open spec fn listed(
    h: HostView,
    mem: Seq<u8>,
    fd: i32,
    dirp: int,
    room: int,
    list: Seq<Seq<char>>,
) -> Seq<Seq<char>>
    decreases list.len() - listing_start(h, fd),
{
    let start = listing_start(h, fd);
    let l = listing(h, mem, fd, dirp, room, list);
    if !h.files.contains_key(fd) || l.count <= 0 {
        Seq::empty()
    } else {
        list.subrange(start, start + l.count) + listed(l.host, l.mem, fd, dirp, room, list)
    }
}

/// With room for a record, listings repeated until one gives none give every
/// entry from the descriptor's position on, once and in order; from position
/// zero on that is the whole directory.
pub proof fn law_listing_complete(
    h: HostView,
    mem: Seq<u8>,
    fd: i32,
    dirp: int,
    room: int,
    list: Seq<Seq<char>>,
)
    requires
        h.files.contains_key(fd),
        0 <= h.files[fd].position <= list.len(),
        room >= RECORD_SIZE,
    ensures
        listed(h, mem, fd, dirp, room, list) == list.skip(h.files[fd].position),
        h.files[fd].position == 0 ==> listed(h, mem, fd, dirp, room, list) == list,
    decreases list.len() - h.files[fd].position,
{
    let start = h.files[fd].position;
    let l = listing(h, mem, fd, dirp, room, list);
    if start < list.len() {
        law_listing_gets_on(list.len() as int, start, room);
        law_listing_complete(l.host, l.mem, fd, dirp, room, list);
        assert(list.subrange(start, start + l.count) + list.skip(start + l.count) =~= list.skip(
            start,
        ));
    } else {
        assert(list.skip(start) =~= Seq::empty());
    }
    assert(list.skip(0) =~= list);
}

/// A listing answers zero exactly where it gives no entry, and else the bytes of
/// its records, as long as these are counted by a word. With room for a record
/// that is at the end of the directory.
pub proof fn law_listing_answer(
    h: HostView,
    mem: Seq<u8>,
    fd: i32,
    dirp: int,
    room: int,
    list: Seq<Seq<char>>,
)
    requires
        listing_start(h, fd) >= 0,
        room >= RECORD_SIZE,
        room <= i32::MAX || RECORD_SIZE * list.len() <= i32::MAX,
    ensures
        ({
            let l = listing(h, mem, fd, dirp, room, list);
            let start = listing_start(h, fd);
            &&& num::signed32(RECORD_SIZE * l.count) == RECORD_SIZE * l.count
            &&& start >= list.len() ==> l.count == 0 && l.host == h && l.mem == mem
            &&& start < list.len() ==> l.count > 0 && (l.count == list.len() - start || l.count
                == room / RECORD_SIZE as int) && l.count <= list.len() - start && l.count <= room
                / RECORD_SIZE as int
            &&& start < list.len() && h.files.contains_key(fd) ==> l.host == state::moved(
                h,
                fd,
                start + l.count,
            )
        }),
{
}

/// The name of a record is the text behind its kind, where it fits a record.
pub proof fn law_record_name_read(mem: Seq<u8>, base: int, index: int, name: Seq<char>)
    requires
        holds_record(mem, base, index, name),
        encode_utf8(name).len() <= RECORD_NAME,
        text::without_nul(name),
    ensures
        memory::text_at(mem, base + 19) == name,
{
    let bytes = encode_utf8(name);
    let at = base + 19;
    assert(record_name(name) == bytes);
    assert(mem.subrange(at, at + bytes.len()) == bytes);
    assert(mem[at + bytes.len()] == 0);
    assert(memory::put_text(mem, at, bytes) =~= mem) by {
        assert forall|i: int| at <= i < at + bytes.len() implies bytes[i - at] == mem[i] by {
            assert(mem.subrange(at, at + bytes.len())[i - at] == mem[i]);
        }
    }
    memory::law_text_round_trip(mem, at, name);
}

/// A scattered read hands out no descriptor.
pub proof fn law_scatter_keeps_descriptors(
    h: HostView,
    mem: Seq<u8>,
    fd: i32,
    iov: int,
    n: int,
    i: int,
    total: int,
)
    ensures
        scatter(h, mem, fd, iov, n, i, total).host.next_fd == h.next_fd,
        state::descriptors_used(h) ==> state::descriptors_used(
            scatter(h, mem, fd, iov, n, i, total).host,
        ),
    decreases n - i,
{
    if i < n && range_addressable(iov, i) && state::readable(h, fd) {
        if h.files.contains_key(fd) {
            let base = num::unsigned32(memory::load32(mem, num::unsigned32(iov + i * 8)));
            let want = num::unsigned64(memory::load32(mem, num::unsigned32(iov + i * 8 + 4)));
            let data = state::chunk(h.files[fd], want);
            let next = state::after_read(h, fd, want);
            law_scatter_keeps_descriptors(
                next,
                memory::put(mem, base, data),
                fd,
                iov,
                n,
                i + 1,
                total + num::signed32(data.len() as int),
            );
        } else {
            law_scatter_keeps_descriptors(h, mem, fd, iov, n, i + 1, total);
        }
    }
}

/// The arguments of a call are words that follow each other in memory.
pub proof fn law_arguments_follow(mem: Seq<u8>, varargs: i32, k: int)
    requires
        0 <= varargs,
        0 <= k,
    ensures
        arg(mem, varargs, k) == memory::load32(mem, varargs + 4 * k),
        args_addressable(varargs, k) <==> varargs + 4 * k <= 0xffff_ffff,
{
}

/// The guest's directory is meant by its path and any number of slashes behind
/// it, and by no other path.
pub proof fn law_directory_path(path: Seq<char>)
    ensures
        is_root(path.push('/')) == is_root(path),
        path.len() == 0 || path.last() != '/' ==> (is_root(path) <==> path == "/cfdir"@),
{
    text::law_end_taken_off(path, '/');
}

/// A file of the voice is meant by its name behind any directory, and by its
/// name alone.
pub proof fn law_file_meant_by_name(dir: Seq<char>, name: Seq<char>)
    requires
        !name.contains('/'),
        name.len() < 5 || name.take(5) != "cfdir"@,
    ensures
        local_name(dir.push('/') + name) == name,
        local_name(name) == name,
{
    reveal_strlit("/cfdir/");
    reveal_strlit("/cfdir");
    reveal_strlit("cfdir");
    lemma_name_not_eaten(name, "/cfdir/"@);
    lemma_name_not_eaten(name, "/cfdir"@);
    text::lemma_no_slash(name);
    let path = dir.push('/') + name;
    lemma_long_prefix_eaten(dir, name);
    let rest = text::strip_prefixes(path, "/cfdir/"@);
    if rest != name {
        let d = choose|d: Seq<char>| rest == #[trigger] d.push('/') + name;
        lemma_short_prefix_eaten(d, name);
        let last = text::strip_prefixes(rest, "/cfdir"@);
        let e = choose|e: Seq<char>| last == #[trigger] e.push('/') + name;
        text::law_base_name_behind_slash(e, name);
    }
}

/// A name without a slash has no prefix that starts with one.
proof fn lemma_name_not_eaten(name: Seq<char>, prefix: Seq<char>)
    requires
        !name.contains('/'),
        prefix.len() > 0,
        prefix[0] == '/',
    ensures
        text::strip_prefixes(name, prefix) == name,
{
    if text::occurs_at(name, prefix, 0) {
        assert(name.subrange(0, prefix.len() as int)[0] == name[0]);
        assert(name.contains('/'));
    }
}

/// Of a path nothing but its directory is taken off, with the slash behind it.
proof fn lemma_long_prefix_eaten(dir: Seq<char>, name: Seq<char>)
    requires
        !name.contains('/'),
    ensures
        ({
            let rest = text::strip_prefixes(dir.push('/') + name, "/cfdir/"@);
            rest == name || exists|d: Seq<char>| rest == #[trigger] d.push('/') + name
        }),
    decreases dir.len(),
{
    reveal_strlit("/cfdir/");
    let prefix = "/cfdir/"@;
    let path = dir.push('/') + name;
    if text::occurs_at(path, prefix, 0) {
        let cut = path.subrange(7, path.len() as int);
        assert(path.subrange(0, 7)[6] == path[6]);
        if dir.len() < 6 {
            assert(name[6 - dir.len() - 1] == '/');
            assert(name.contains('/'));
        }
        if dir.len() == 6 {
            assert(cut =~= name);
            lemma_name_not_eaten(name, prefix);
        } else {
            assert(cut =~= dir.skip(7).push('/') + name);
            lemma_long_prefix_eaten(dir.skip(7), name);
        }
    } else {
        assert(text::strip_prefixes(path, prefix) == dir.push('/') + name);
    }
}

/// Of a path nothing but its directory is taken off.
proof fn lemma_short_prefix_eaten(dir: Seq<char>, name: Seq<char>)
    requires
        !name.contains('/'),
        name.len() < 5 || name.take(5) != "cfdir"@,
    ensures
        exists|d: Seq<char>|
            text::strip_prefixes(dir.push('/') + name, "/cfdir"@) == #[trigger] d.push('/') + name,
    decreases dir.len(),
{
    reveal_strlit("/cfdir");
    reveal_strlit("cfdir");
    let prefix = "/cfdir"@;
    let path = dir.push('/') + name;
    if text::occurs_at(path, prefix, 0) {
        let start = path.subrange(0, 6);
        let cut = path.subrange(6, path.len() as int);
        assert(start == prefix);
        if dir.len() == 0 {
            assert(name.take(5) =~= start.skip(1));
            assert(start.skip(1) =~= "cfdir"@);
            assert(false);
        }
        if dir.len() < 6 {
            assert(path[dir.len() as int] == '/');
            assert(start[dir.len() as int] == '/');
            assert(prefix[dir.len() as int] != '/');
        }
        assert(cut =~= dir.skip(6).push('/') + name);
        lemma_short_prefix_eaten(dir.skip(6), name);
    } else {
        assert(text::strip_prefixes(path, prefix) == dir.push('/') + name);
    }
}

/// The description of a directory or a file is ninety-six bytes: the mode at the
/// third word, the size of a file at the eleventh, and zeros. Nothing else of
/// the memory changes.
pub proof fn law_description(mem: Seq<u8>, buf: int, size: int, i: int)
    requires
        0 <= buf,
        buf + 96 <= mem.len(),
        0 <= size < 0x8000_0000,
        0 <= i < mem.len(),
    ensures
        put_directory(mem, buf).len() == mem.len(),
        put_file(mem, buf, size).len() == mem.len(),
        memory::load32(put_directory(mem, buf), buf + 8) == 0o40755,
        memory::load32(put_file(mem, buf, size), buf + 8) == 0o100644,
        memory::load32(put_file(mem, buf, size), buf + 40) == size,
        !(buf <= i < buf + 96) ==> put_directory(mem, buf)[i] == mem[i] && put_file(
            mem,
            buf,
            size,
        )[i] == mem[i],
        buf <= i < buf + 96 && !(buf + 8 <= i < buf + 12) ==> put_directory(mem, buf)[i] == 0,
        buf <= i < buf + 96 && !(buf + 8 <= i < buf + 12) && !(buf + 40 <= i < buf + 44)
            ==> put_file(mem, buf, size)[i] == 0,
{
    let blank = memory::put(mem, buf, zeros(96));
    memory::law_load_after_store(blank, buf + 8, 0o40755);
    let sized = memory::store32(blank, buf + 40, size);
    memory::law_load_after_store(blank, buf + 40, size);
    memory::law_load_after_store(sized, buf + 8, 0o100644);
    let done = memory::store32(sized, buf + 8, 0o100644);
    assert(done[buf + 40] == sized[buf + 40] && done[buf + 41] == sized[buf + 41]);
    assert(done[buf + 42] == sized[buf + 42] && done[buf + 43] == sized[buf + 43]);
}

/// A scattered read without buffers reads nothing, and one with one more buffer
/// goes on where the read of the others has stopped: it puts what it takes next
/// from the file into that buffer, and adds its number to the count.
pub proof fn law_scatter_goes_on(h: HostView, mem: Seq<u8>, fd: i32, iov: int, n: int)
    requires
        0 <= n,
    ensures
        scatter(h, mem, fd, iov, 0, 0, 0) == (Scattered { host: h, mem, total: Some(0) }),
        ({
            let s = scatter(h, mem, fd, iov, n, 0, 0);
            let next = scatter(h, mem, fd, iov, n + 1, 0, 0);
            let base = num::unsigned32(memory::load32(s.mem, num::unsigned32(iov + n * 8)));
            let want = num::unsigned64(memory::load32(s.mem, num::unsigned32(iov + n * 8 + 4)));
            let data = state::chunk(s.host.files[fd], want);
            &&& s.total is None ==> next == s
            &&& s.total matches Some(t) ==> {
                if !range_addressable(iov, n) || !state::readable(s.host, fd) {
                    next == (Scattered { host: s.host, mem: s.mem, total: None })
                } else if !s.host.files.contains_key(fd) {
                    next == s
                } else {
                    &&& next.host == state::after_read(s.host, fd, want)
                    &&& next.mem == memory::put(s.mem, base, data)
                    &&& next.total == (if is_i32(t + num::signed32(data.len() as int)) {
                        Some(t + num::signed32(data.len() as int))
                    } else {
                        None
                    })
                }
            }
        }),
{
    lemma_scatter_goes_on(h, mem, fd, iov, n, 0, 0);
}

/// The same from any buffer on.
proof fn lemma_scatter_goes_on(
    h: HostView,
    mem: Seq<u8>,
    fd: i32,
    iov: int,
    n: int,
    i: int,
    total: int,
)
    requires
        0 <= i <= n,
    ensures
        ({
            let s = scatter(h, mem, fd, iov, n, i, total);
            let next = scatter(h, mem, fd, iov, n + 1, i, total);
            let base = num::unsigned32(memory::load32(s.mem, num::unsigned32(iov + n * 8)));
            let want = num::unsigned64(memory::load32(s.mem, num::unsigned32(iov + n * 8 + 4)));
            let data = state::chunk(s.host.files[fd], want);
            &&& s.total is None ==> next == s
            &&& s.total matches Some(t) ==> {
                if !range_addressable(iov, n) || !state::readable(s.host, fd) {
                    next == (Scattered { host: s.host, mem: s.mem, total: None })
                } else if !s.host.files.contains_key(fd) {
                    next == s
                } else {
                    &&& next.host == state::after_read(s.host, fd, want)
                    &&& next.mem == memory::put(s.mem, base, data)
                    &&& next.total == (if is_i32(t + num::signed32(data.len() as int)) {
                        Some(t + num::signed32(data.len() as int))
                    } else {
                        None
                    })
                }
            }
        }),
    decreases n - i,
{
    if i == n {
        reveal_with_fuel(scatter, 3);
    } else if range_addressable(iov, i) && state::readable(h, fd) {
        if h.files.contains_key(fd) {
            let base = num::unsigned32(memory::load32(mem, num::unsigned32(iov + i * 8)));
            let want = num::unsigned64(memory::load32(mem, num::unsigned32(iov + i * 8 + 4)));
            let data = state::chunk(h.files[fd], want);
            let count = total + num::signed32(data.len() as int);
            if is_i32(count) {
                lemma_scatter_goes_on(
                    state::after_read(h, fd, want),
                    memory::put(mem, base, data),
                    fd,
                    iov,
                    n,
                    i + 1,
                    count,
                );
            }
        } else {
            lemma_scatter_goes_on(h, mem, fd, iov, n, i + 1, total);
        }
    }
}

/// The count of a gathered write is the sum of the lengths of its ranges, and
/// its text is that of the ranges one behind the other, as long as each range
/// lies in memory.
pub proof fn law_gather_goes_on(mem: Seq<u8>, iov: int, n: int)
    requires
        0 <= n,
    ensures
        gather_total(mem, iov, 0, 0, 0) == Some(0int),
        gather_text(mem, iov, 0, 0, 0).len() == 0,
        gather_total(mem, iov, n, 0, 0) is None ==> gather_total(mem, iov, n + 1, 0, 0) is None,
        gather_total(mem, iov, n, 0, 0) matches Some(t) ==> (range_sound(mem, iov, n, t) ==> {
            &&& gather_total(mem, iov, n + 1, 0, 0) == Some(t + range_len(mem, iov, n))
            &&& gather_text(mem, iov, n + 1, 0, 0) == gather_text(mem, iov, n, 0, 0)
                + text::decoded(range_bytes(mem, iov, n))
        }),
        gather_total(mem, iov, n, 0, 0) matches Some(t) && !range_sound(mem, iov, n, t)
            ==> gather_total(mem, iov, n + 1, 0, 0) is None,
{
    lemma_gather_goes_on(mem, iov, n, 0, 0);
}

/// The same from any range on.
proof fn lemma_gather_goes_on(mem: Seq<u8>, iov: int, n: int, i: int, total: int)
    requires
        0 <= i <= n,
    ensures
        gather_total(mem, iov, n, i, total) is None ==> gather_total(mem, iov, n + 1, i, total)
            is None,
        gather_total(mem, iov, n, i, total) matches Some(t) ==> (range_sound(mem, iov, n, t) ==> {
            &&& gather_total(mem, iov, n + 1, i, total) == Some(t + range_len(mem, iov, n))
            &&& gather_text(mem, iov, n + 1, i, total) == gather_text(mem, iov, n, i, total)
                + text::decoded(range_bytes(mem, iov, n))
        }),
        gather_total(mem, iov, n, i, total) matches Some(t) && !range_sound(mem, iov, n, t)
            ==> gather_total(mem, iov, n + 1, i, total) is None,
    decreases n - i,
{
    if i == n {
        reveal_with_fuel(gather_total, 3);
        reveal_with_fuel(gather_text, 3);
        let piece = text::decoded(range_bytes(mem, iov, n));
        assert(piece + Seq::<char>::empty() =~= Seq::<char>::empty() + piece);
    } else if range_sound(mem, iov, i, total) {
        let next = total + range_len(mem, iov, i);
        lemma_gather_goes_on(mem, iov, n, i + 1, next);
        let piece = text::decoded(range_bytes(mem, iov, i));
        let last = text::decoded(range_bytes(mem, iov, n));
        assert(piece + (gather_text(mem, iov, n, i + 1, next) + last) =~= (piece + gather_text(
            mem,
            iov,
            n,
            i + 1,
            next,
        )) + last);
    }
}

/// A range of memory is told by two words, its address and its length.
pub proof fn law_ranges(mem: Seq<u8>, iov: int, i: int)
    requires
        0 <= iov,
        0 <= i,
        iov + i * 8 + 4 <= i32::MAX,
    ensures
        range_base(mem, iov, i) == memory::load32(mem, iov + i * 8),
        range_len(mem, iov, i) == memory::load32(mem, iov + i * 8 + 4),
        range_addressable(iov, i),
        ({
            let base = memory::load32(mem, iov + i * 8);
            let len = memory::load32(mem, iov + i * 8 + 4);
            &&& 0 <= base && 0 <= len && base + len <= mem.len() && base + len <= i32::MAX
                ==> range_sound(mem, iov, i, 0) && range_bytes(mem, iov, i) == mem.subrange(
                base,
                base + len,
            )
            &&& range_sound(mem, iov, i, 0) ==> 0 <= base && 0 <= len && base + len <= mem.len()
        }),
{
}

/// The guest's directory holds itself, its parent, and every file of the voice,
/// in order.
pub proof fn law_directory_entries(names: Seq<Seq<char>>)
    ensures
        entries(names).len() == names.len() + 2,
        entries(names)[0] == "."@,
        entries(names)[1] == ".."@,
        entries(names).skip(2) == names,
{
    assert(entries(names).skip(2) =~= names);
}

/// The name of a record is cut to its first bytes where it is too long, and only
/// the two directories are marked as such.
pub proof fn law_record_parts(name: Seq<char>)
    ensures
        encode_utf8(name).len() <= 255 ==> record_name(name) == encode_utf8(name),
        encode_utf8(name).len() > 255 ==> record_name(name) == encode_utf8(name).take(255),
        record_kind("."@) == 4,
        record_kind(".."@) == 4,
        name != "."@ && name != ".."@ ==> record_kind(name) == 8,
{
    if encode_utf8(name).len() > 255 {
        assert(record_name(name) =~= encode_utf8(name).take(255));
    }
}

/// A position is stored as its low word and a zero word.
pub proof fn law_place_stored(mem: Seq<u8>, out: int, place: int)
    requires
        0 <= out,
        out + 8 <= mem.len(),
        0 <= place < 0x8000_0000,
    ensures
        memory::load32(put_place(mem, out, place), out) == place,
        memory::load32(put_place(mem, out, place), out + 4) == 0,
{
    let first = memory::store32(mem, out, place);
    memory::law_load_after_store(mem, out, place);
    memory::law_load_after_store(first, out + 4, 0);
    let after = put_place(mem, out, place);
    assert(after[out] == first[out] && after[out + 1] == first[out + 1]);
    assert(after[out + 2] == first[out + 2] && after[out + 3] == first[out + 3]);
}

/// A read hands the guest the bytes from the file's position on, as many as it
/// asks for or as there are, moves the position past them, and answers their
/// number; a file that is not open is answered by -1.
pub proof fn law_read_call(
    h: HostView,
    m: Seq<u8>,
    varargs: i32,
    fd: i32,
    buf: i32,
    count: i32,
    n: int,
)
    requires
        args_addressable(varargs, 2),
        fd == arg(m, varargs, 0),
        buf == arg(m, varargs, 1),
        count == arg(m, varargs, 2),
        0 <= buf,
        0 <= count,
        h.files.contains_key(fd) ==> 0 <= h.files[fd].position <= h.files[fd].data.len(),
        h.files.contains_key(fd) ==> n == (if count <= h.files[fd].data.len()
            - h.files[fd].position {
            count as int
        } else {
            h.files[fd].data.len() - h.files[fd].position
        }),
    ensures
        ({
            let c = read_call(h, m, varargs);
            let f = h.files[fd];
            let data = f.data.subrange(f.position, f.position + n);
            if h.files.contains_key(fd) {
                &&& c.answer == Some(n)
                &&& c.host.files == h.files.insert(
                    fd,
                    FileView { data: f.data, position: f.position + n },
                )
                &&& buf + n <= m.len() ==> c.mem == m.take(buf as int) + data + m.skip(buf + n)
                &&& buf + n > m.len() ==> c.mem == m
            } else {
                c == (Called { host: h, mem: m, answer: Some(-1) })
            }
        }),
{
    if h.files.contains_key(fd) {
        let f = h.files[fd];
        let data = f.data.subrange(f.position, f.position + n);
        assert(state::chunk(f, count as int) =~= data);
        memory::law_store_takes_place(m, buf as int, data);
    }
}

/// A seek moves the position by a number of two words, from the start, the
/// position or the end of the file, not before its start, and tells the guest
/// where it is. What cannot be done is answered by -1.
pub proof fn law_seek_call(
    h: HostView,
    m: Seq<u8>,
    varargs: i32,
    fd: i32,
    distance: int,
    out: i32,
    whence: i32,
    place: int,
)
    requires
        args_addressable(varargs, 4),
        fd == arg(m, varargs, 0),
        distance == 0x1_0000_0000 * arg(m, varargs, 1) + (arg(m, varargs, 2) % 0x1_0000_0000),
        -0x4000_0000_0000_0000 <= distance < 0x4000_0000_0000_0000,
        out == arg(m, varargs, 3),
        whence == arg(m, varargs, 4),
        0 <= out,
        h.files.contains_key(fd) ==> 0 <= h.files[fd].position < 0x4000_0000_0000_0000
            && h.files[fd].data.len() < 0x4000_0000_0000_0000,
        place == distance + (if whence == 0 {
            0
        } else if whence == 1 {
            h.files[fd].position
        } else {
            h.files[fd].data.len() as int
        }),
    ensures
        ({
            let c = seek_call(h, m, varargs);
            let to = if place < 0 {
                0
            } else {
                place
            };
            if h.files.contains_key(fd) && 0 <= whence <= 2 {
                &&& c.answer == Some(0int)
                &&& c.host.files == h.files.insert(
                    fd,
                    FileView { data: h.files[fd].data, position: to },
                )
                &&& out + 8 <= m.len() && to < 0x8000_0000 ==> memory::load32(c.mem, out as int)
                    == to && memory::load32(c.mem, out + 4) == 0
            } else {
                c == (Called { host: h, mem: m, answer: Some(-1) })
            }
        }),
{
    state::law_seek_is_exact(h, fd, whence as int, distance, true);
    let to = if place < 0 {
        0
    } else {
        place
    };
    if out + 8 <= m.len() && to < 0x8000_0000 {
        law_place_stored(m, out as int, to);
    }
}

/// Opening the guest's directory gives a new descriptor, at a position behind
/// every listing; any other path means the file of the voice of that name, and
/// opens nothing by itself.
pub proof fn law_open_call(h: HostView, m: Seq<u8>, varargs: i32, ptr: i32, path: Seq<char>)
    requires
        args_addressable(varargs, 1),
        ptr == arg(m, varargs, 0),
        0 <= ptr <= m.len(),
        memory::text_at(m, ptr as int) == path,
        h.next_fd < i32::MAX,
    ensures
        is_root(path) ==> open_call(h, m, varargs).1 == Sought::Answered(h.next_fd) && open_call(
            h,
            m,
            varargs,
        ).0 == state::opened(h, FileView { data: Seq::empty(), position: 999999 }),
        !is_root(path) ==> open_call(h, m, varargs) == (h, Sought::Find(local_name(path), 0)),
{
}

/// The guest's directory, and a path of slashes alone, are described at once;
/// any other path means the file of the voice of that name, and without a name
/// there is none.
pub proof fn law_stat_call(m: Seq<u8>, varargs: i32, ptr: i32, buf: i32, path: Seq<char>)
    requires
        args_addressable(varargs, 1),
        ptr == arg(m, varargs, 0),
        buf == arg(m, varargs, 1),
        0 <= ptr <= m.len(),
        0 <= buf,
        memory::text_at(m, ptr as int) == path,
    ensures
        is_root(path) || (forall|i: int| 0 <= i < path.len() ==> path[i] == '/') ==> stat_call(
            m,
            varargs,
        ) == (put_directory(m, buf as int), Sought::Answered(0)),
        !is_root(path) && (exists|i: int| 0 <= i < path.len() && path[i] != '/') ==> stat_call(
            m,
            varargs,
        ) == (m, if local_name(path).len() == 0 {
            Sought::Answered(-1)
        } else {
            Sought::Find(local_name(path), buf as int)
        }),
{
    lemma_only_slashes(path);
}

/// Nothing is left of slashes alone, and something of any other path.
proof fn lemma_only_slashes(path: Seq<char>)
    ensures
        text::trim_end(path, '/').len() == 0 <==> forall|i: int|
            0 <= i < path.len() ==> path[i] == '/',
    decreases path.len(),
{
    if path.len() > 0 && path.last() == '/' {
        let head = path.drop_last();
        lemma_only_slashes(head);
        if text::trim_end(path, '/').len() == 0 {
            assert forall|i: int| 0 <= i < path.len() implies path[i] == '/' by {
                if i < head.len() {
                    assert(head[i] == path[i]);
                }
            }
        } else {
            let i = choose|i: int| 0 <= i < head.len() && head[i] != '/';
            assert(path[i] != '/');
        }
    } else if path.len() > 0 {
        assert(path[path.len() - 1] != '/');
    }
}

/// What is written to the two outputs is shown to the user, and what is written
/// elsewhere is not; both are counted.
pub proof fn law_write_call(m: Seq<u8>, varargs: i32)
    requires
        args_addressable(varargs, 2),
    ensures
        ({
            let fd = arg(m, varargs, 0);
            let iov = arg(m, varargs, 1);
            let n = arg(m, varargs, 2);
            let w = write_call(m, varargs);
            &&& w.1 == gather_total(m, iov, n, 0, 0)
            &&& fd == 1 || fd == 2 ==> w.0 == gather_text(m, iov, n, 0, 0)
            &&& fd != 1 && fd != 2 ==> w.0.len() == 0
        }),
{
}

} // verus!
