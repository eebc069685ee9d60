//! The table of host functions that the guest calls by number.
//!
//! Every entry is decided here. Where an entry needs the disk or the guest
//! itself, the answer names what has to be done.

use crate::documents;
use crate::documents::FileEntry;
use crate::documents::ParamSetting;
#[allow(unused_imports)]
use crate::documents::Setting;
use crate::memory;
use crate::num;
use crate::state;
use crate::state::Fault;
#[allow(unused_imports)]
use crate::state::{FileView, HostView, FIRST_FD};
use crate::state::State;
#[allow(unused_imports)]
use crate::syscalls;
use crate::text;
use vstd::prelude::*;
use vstd::slice::slice_subrange;
#[allow(unused_imports)]
use vstd::utf8::*;

verus! {

/// Entry: read the configuration, and answer the size of the heap.
pub const READ_CONFIG: i32 = 0;

/// Entry: give the host a turn before the synthesis goes on.
pub const YIELD: i32 = 3;

/// Entry: set speech parameters from a JSON text.
pub const SET_PARAMS: i32 = 4;

/// Entry: start or release has completed.
pub const NOTIFY_INIT: i32 = 5;

/// Entry: a buffer of audio is ready.
pub const AUDIO: i32 = 7;

/// Entry: a JSON reply to a request.
pub const NOTIFY_REPLY: i32 = 8;

/// Entry: get the assets ready.
pub const INIT_ASSETS: i32 = 11;

/// Entry: open a file.
pub const FILE_OPEN: i32 = 14;

/// Entry: close a file.
pub const FILE_CLOSE: i32 = 15;

/// Entry: read from a file.
pub const FILE_READ: i32 = 16;

/// Entry: move the position in a file.
pub const FILE_SEEK: i32 = 17;

/// Entry: the size of a file.
pub const FILE_SIZE: i32 = 18;

/// Entry: the length of an asset.
pub const ASSET_LEN: i32 = 19;

/// Entry: the address of an asset.
pub const ASSET_PTR: i32 = 20;

/// Entry: the path under which a file of the voice can be opened.
pub const LOCAL_PATH: i32 = 21;

/// A configuration of fewer bytes counts as none.
pub const CONFIG_MIN: usize = 10;

/// No more bytes of a configuration are written.
pub const CONFIG_MAX: usize = 4000;

/// The answer to a seek that cannot be done.
pub const SEEK_ERROR: i32 = -2147483388;

/// What the caller of the table has to do to answer the guest.
#[derive(Debug)]
pub enum Effect {
    /// Answer this value.
    Return(i32),
    /// List the voice directory, hand the files to `write_config`, and answer
    /// what it returns.
    WriteConfig { ptr: u32 },
    /// Set these parameters in the engine one after the other, and answer zero.
    Apply(Vec<ParamSetting>),
    /// Tell the engine that its assets are ready, and answer zero.
    NotifyAssets,
    /// Read the file at `path` or, where there is none, the file `name` of the
    /// voice directory, and answer what `State::open_reply` returns, with zero
    /// for a file that cannot be read.
    OpenFile { path: String, name: String },
}

/// What an entry of the table asks for, as mathematical values.
pub enum Action {
    Return(int),
    WriteConfig(int),
    Apply(Seq<Setting>),
    NotifyAssets,
    OpenFile(Seq<char>, Seq<char>),
}

impl View for Effect {
    type V = Action;

    open spec fn view(&self) -> Action {
        match *self {
            Effect::Return(v) => Action::Return(v as int),
            Effect::WriteConfig { ptr } => Action::WriteConfig(ptr as int),
            Effect::Apply(list) => Action::Apply(documents::setting_views(list@)),
            Effect::NotifyAssets => Action::NotifyAssets,
            Effect::OpenFile { path, name } => Action::OpenFile(path@, name@),
        }
    }
}

/// What a call of the table comes to: the host, the memory, and what is asked
/// for, or none where the call is a fault.
pub struct Outcome {
    pub host: HostView,
    pub mem: Seq<u8>,
    pub action: Option<Action>,
}

/// The argument `k` of a call; one that was not passed is zero.
pub open spec fn slot(args: Seq<i32>, k: int) -> int {
    if 0 <= k < args.len() {
        args[k] as int
    } else {
        0
    }
}

/// The argument `k` as an address of the guest.
pub open spec fn address(args: Seq<i32>, k: int) -> int {
    num::unsigned32(slot(args, k))
}

/// The argument `k` as a size of the host.
pub open spec fn size(args: Seq<i32>, k: int) -> int {
    num::unsigned64(slot(args, k))
}

/// The samples that stand in memory at `at`.
pub open spec fn samples_at(mem: Seq<u8>, at: int, count: int) -> Seq<i16> {
    Seq::new(
        count as nat,
        |i: int| num::signed16(mem[at + 2 * i] + 256 * mem[at + 2 * i + 1]) as i16,
    )
}

/// At most the first `limit` bytes.
pub open spec fn cut(bytes: Seq<u8>, limit: int) -> Seq<u8> {
    if bytes.len() <= limit {
        bytes
    } else {
        bytes.take(limit)
    }
}

/// Nothing changes, and `v` is answered.
pub open spec fn plain(h: HostView, m: Seq<u8>, v: int) -> Outcome {
    Outcome { host: h, mem: m, action: Some(Action::Return(v)) }
}

/// Nothing changes, and the call is a fault.
pub open spec fn faulty(h: HostView, m: Seq<u8>) -> Outcome {
    Outcome { host: h, mem: m, action: None }
}

/// The guest's configuration is too short to be one.
pub open spec fn lacks_config(m: Seq<u8>, ptr: int) -> bool {
    encode_utf8(memory::text_at(m, ptr)).len() < CONFIG_MIN
}

/// Memory after the configuration for `files` was written.
pub open spec fn put_config(m: Seq<u8>, ptr: int, files: Seq<FileEntry>) -> Seq<u8> {
    memory::put_text(
        m,
        ptr,
        cut(
            encode_utf8(crate::json::json_text(documents::config_doc(files))),
            CONFIG_MAX as int,
        ),
    )
}

/// The path under which the guest can open the file `name`.
pub open spec fn path_of(name: Seq<char>) -> Seq<char> {
    "/cfdir/"@ + name
}

/// What a buffer of audio comes to: its samples are queued where the whole
/// buffer lies in memory, and the last buffer ends the synthesis.
pub open spec fn audio_outcome(h: HostView, m: Seq<u8>, args: Seq<i32>) -> Outcome {
    let at = size(args, 1);
    let count = size(args, 2) / 2;
    if count > 0 && at + 2 * count > u64::MAX {
        faulty(h, m)
    } else {
        plain(
            HostView {
                pending: if count > 0 && at + 2 * count <= m.len() {
                    h.pending + samples_at(m, at, count)
                } else {
                    h.pending
                },
                needs_more: h.needs_more && slot(args, 5) != 1,
                ..h
            },
            m,
            0,
        )
    }
}

/// What a read comes to: the bytes go to the guest's buffer where they fit,
/// and their number is answered.
pub open spec fn read_outcome(h: HostView, m: Seq<u8>, args: Seq<i32>) -> Outcome {
    let fd = slot(args, 0) as i32;
    let want = size(args, 1) * size(args, 2);
    if want > u64::MAX || !state::readable(h, fd) {
        faulty(h, m)
    } else if h.files.contains_key(fd) {
        let data = state::chunk(h.files[fd], want);
        plain(
            state::after_read(h, fd, want),
            memory::put(m, address(args, 3), data),
            num::signed32(data.len() as int),
        )
    } else {
        plain(h, m, 0)
    }
}

/// What a seek comes to.
pub open spec fn seek_outcome(h: HostView, m: Seq<u8>, args: Seq<i32>) -> Outcome {
    let fd = slot(args, 0) as i32;
    match state::reposition_result(h, fd, slot(args, 2), slot(args, 1), false) {
        Ok(Some(place)) => plain(state::moved(h, fd, place as int), m, 0),
        Ok(None) => plain(h, m, SEEK_ERROR as int),
        Err(_) => faulty(h, m),
    }
}

/// What a question for a local path comes to: the path is written, cut to the
/// guest's buffer and with a NUL, unless there is no buffer.
pub open spec fn path_outcome(h: HostView, m: Seq<u8>, args: Seq<i32>) -> Outcome {
    let room = size(args, 2);
    if address(args, 0) != 0 && room > 0 {
        let path = encode_utf8(path_of(memory::text_at(m, address(args, 1))));
        plain(h, memory::put_text(m, address(args, 0), cut(path, room - 1)), 0)
    } else {
        plain(h, m, 0)
    }
}

/// The entries that read a text at an address of the guest, and that address.
pub open spec fn text_argument(idx: i32, args: Seq<i32>) -> Option<int> {
    if idx == READ_CONFIG || idx == SET_PARAMS || idx == FILE_OPEN || idx == ASSET_LEN || idx
        == ASSET_PTR {
        Some(address(args, 0))
    } else if idx == LOCAL_PATH {
        Some(address(args, 1))
    } else {
        None
    }
}

/// What a call of the table comes to.
pub open spec fn outcome(h: HostView, m: Seq<u8>, idx: i32, args: Seq<i32>) -> Outcome {
    if text_argument(idx, args) matches Some(ptr) && ptr > m.len() {
        faulty(h, m)
    } else if idx == READ_CONFIG {
        if lacks_config(m, address(args, 0)) {
            Outcome { host: h, mem: m, action: Some(Action::WriteConfig(address(args, 0))) }
        } else {
            plain(h, m, documents::HEAP_SIZE as int)
        }
    } else if idx == YIELD {
        plain(HostView { needs_more: true, ..h }, m, 0)
    } else if idx == SET_PARAMS {
        Outcome {
            host: h,
            mem: m,
            action: Some(
                Action::Apply(documents::settings_in(memory::text_at(m, address(args, 0)))),
            ),
        }
    } else if idx == NOTIFY_INIT || idx == NOTIFY_REPLY {
        plain(HostView { init_complete: h.init_complete || slot(args, 2) == 1, ..h }, m, 0)
    } else if idx == AUDIO {
        audio_outcome(h, m, args)
    } else if idx == INIT_ASSETS {
        Outcome { host: h, mem: m, action: Some(Action::NotifyAssets) }
    } else if idx == FILE_OPEN {
        let path = memory::text_at(m, address(args, 0));
        Outcome { host: h, mem: m, action: Some(Action::OpenFile(path, text::base_name(path))) }
    } else if idx == FILE_CLOSE {
        plain(
            if slot(args, 0) != 0 {
                state::closed(h, slot(args, 0) as i32)
            } else {
                h
            },
            m,
            0,
        )
    } else if idx == FILE_READ {
        read_outcome(h, m, args)
    } else if idx == FILE_SEEK {
        seek_outcome(h, m, args)
    } else if idx == FILE_SIZE {
        let fd = slot(args, 0) as i32;
        plain(
            h,
            m,
            if h.files.contains_key(fd) {
                num::signed32(h.files[fd].data.len() as int)
            } else {
                0
            },
        )
    } else if idx == ASSET_LEN {
        match state::find_asset(h.assets, memory::text_at(m, address(args, 0)), 0) {
            Some(asset) => plain(h, m, num::signed32(asset.len)),
            None => plain(h, m, 0),
        }
    } else if idx == ASSET_PTR {
        match state::find_asset(h.assets, memory::text_at(m, address(args, 0)), 0) {
            Some(asset) => plain(h, m, num::signed32(asset.ptr)),
            None => plain(h, m, 0),
        }
    } else if idx == LOCAL_PATH {
        path_outcome(h, m, args)
    } else {
        plain(h, m, 0)
    }
}

/// The answer `r` is what `o` asks for.
pub open spec fn effects(r: Result<Effect, Fault>, o: Outcome) -> bool {
    match r {
        Ok(effect) => o.action == Some(effect@),
        Err(_) => o.action is None,
    }
}

/// The argument `k` of a call.
fn argument(args: &[i32], k: usize) -> (v: i32)
    ensures
        v == slot(args@, k as int),
{
    if k < args.len() {
        args[k]
    } else {
        0
    }
}

/// The text at an address of the guest, or a fault behind the end of memory.
fn text_of(mem: &[u8], ptr: u32) -> (r: Result<String, Fault>)
    ensures
        r is Ok <==> ptr <= mem@.len(),
        r matches Ok(text) ==> text@ == memory::text_at(mem@, ptr as int),
{
    if ptr as u64 > mem.len() as u64 {
        return Err(Fault);
    }
    Ok(memory::read_cstring(mem, ptr))
}

/// Stores at most `limit` bytes of `text` and a NUL at `at`, each where it
/// fits.
pub fn write_cut(mem: &mut [u8], at: u32, text: &str, limit: u64)
    ensures
        final(mem)@ == memory::put_text(
            old(mem)@,
            at as int,
            cut(encode_utf8(text@), limit as int),
        ),
{
    let room: usize = mem.len();
    let bytes: &[u8] = text.as_bytes();
    let size: usize = bytes.len();
    let count: usize = if size as u64 <= limit {
        size
    } else {
        limit as usize
    };
    let body: &[u8] = slice_subrange(bytes, 0, count);
    assert(body@ =~= cut(encode_utf8(text@), limit as int));
    let _ = memory::write_bytes(mem, at as u64, body);
    let mut nul: Vec<u8> = Vec::new();
    nul.push(0u8);
    assert(nul@ =~= seq![0u8]);
    if count as u64 <= u64::MAX - at as u64 {
        let _ = memory::write_bytes(mem, at as u64 + count as u64, nul.as_slice());
    } else {
        assert(room < at + count);
    }
}

/// Writes the configuration for the files of the voice to the guest's address
/// `ptr`, and answers the size of the heap.
pub fn write_config(mem: &mut [u8], ptr: u32, files: &Vec<FileEntry>) -> (r: i32)
    ensures
        r == documents::HEAP_SIZE,
        final(mem)@ == put_config(old(mem)@, ptr as int, files@),
{
    let config: String = documents::config_text(files);
    write_cut(mem, ptr, config.as_str(), CONFIG_MAX as u64);
    documents::HEAP_SIZE
}

impl State {
    /// Queues the samples of an audio buffer; the last buffer ends the
    /// synthesis.
    fn queue_audio(&mut self, mem: &[u8], args: &[i32]) -> (r: Result<Effect, Fault>)
        ensures
            effects(r, audio_outcome(old(self)@, mem@, args@)),
            final(self)@ == audio_outcome(old(self)@, mem@, args@).host,
    {
        let ghost before = self@;
        let at: u64 = num::wide(argument(args, 1));
        let count: u64 = num::wide(argument(args, 2)) / 2;
        let room: usize = mem.len();
        if count > 0 {
            if at > u64::MAX - 2 * count {
                return Err(Fault);
            }
            if at + 2 * count <= room as u64 {
                let start: usize = at as usize;
                let total: usize = count as usize;
                let mut i: usize = 0;
                while i < total
                    invariant
                        i <= total,
                        total == count,
                        start + 2 * total <= room,
                        room == mem@.len(),
                        self@.pending == before.pending + samples_at(mem@, start as int, i as int),
                        self@ == (HostView { pending: self@.pending, ..before }),
                    decreases total - i,
                {
                    let ghost mid = self@;
                    let sample: i16 = num::sample(mem[start + 2 * i], mem[start + 2 * i + 1]);
                    self.pending_samples.push(sample);
                    assert(self@ =~= (HostView { pending: self@.pending, ..mid }));
                    assert(self@.pending =~= before.pending + samples_at(
                        mem@,
                        start as int,
                        i + 1,
                    ));
                    i = i + 1;
                }
            }
        }
        if argument(args, 5) == 1 {
            self.needs_more_audio = false;
        }
        assert(self@ =~= audio_outcome(before, mem@, args@).host);
        Ok(Effect::Return(0))
    }

    /// Moves bytes of a file to the guest's buffer.
    fn read_file(&mut self, mem: &mut [u8], args: &[i32]) -> (r: Result<Effect, Fault>)
        ensures
            effects(r, read_outcome(old(self)@, old(mem)@, args@)),
            final(self)@ == read_outcome(old(self)@, old(mem)@, args@).host,
            final(mem)@ == read_outcome(old(self)@, old(mem)@, args@).mem,
    {
        let fd: i32 = argument(args, 0);
        let width: u64 = num::wide(argument(args, 1));
        let count: u64 = num::wide(argument(args, 2));
        let buf: u32 = num::word(argument(args, 3));
        let want: u64 = match width.checked_mul(count) {
            Some(want) => want,
            None => {
                return Err(Fault);
            },
        };
        match self.take_chunk(fd, want) {
            Err(fault) => Err(fault),
            Ok(None) => Ok(Effect::Return(0)),
            Ok(Some(data)) => {
                let _ = memory::write_bytes(mem, buf as u64, data.as_slice());
                Ok(Effect::Return(num::narrow(data.len() as u64)))
            },
        }
    }

    /// Moves the position in a file.
    fn seek_file(&mut self, args: &[i32]) -> (r: Result<Effect, Fault>)
        ensures
            forall|m: Seq<u8>|
                effects(r, #[trigger] seek_outcome(old(self)@, m, args@)) && final(self)@
                    == seek_outcome(old(self)@, m, args@).host,
    {
        let fd: i32 = argument(args, 0);
        let distance: i32 = argument(args, 1);
        let whence: i32 = argument(args, 2);
        match self.reposition(fd, whence, distance as i64, false) {
            Err(fault) => Err(fault),
            Ok(None) => Ok(Effect::Return(SEEK_ERROR)),
            Ok(Some(_)) => Ok(Effect::Return(0)),
        }
    }

    /// Writes the path of a file of the voice to the guest's buffer.
    fn local_path(mem: &mut [u8], args: &[i32]) -> (r: Result<Effect, Fault>)
        ensures
            forall|h: HostView|
                #![trigger path_outcome(h, old(mem)@, args@)]
                if address(args@, 1) > old(mem)@.len() {
                    r is Err && final(mem)@ == old(mem)@
                } else {
                    effects(r, path_outcome(h, old(mem)@, args@)) && final(mem)@ == path_outcome(
                        h,
                        old(mem)@,
                        args@,
                    ).mem
                },
    {
        let out: u32 = num::word(argument(args, 0));
        let room: u64 = num::wide(argument(args, 2));
        let name: String = match text_of(mem, num::word(argument(args, 1))) {
            Ok(name) => name,
            Err(fault) => {
                return Err(fault);
            },
        };
        if out != 0 && room > 0 {
            let mut path: String = String::new();
            path.append("/cfdir/");
            path.append(name.as_str());
            assert(path@ =~= path_of(name@));
            write_cut(mem, out, path.as_str(), room - 1);
        }
        Ok(Effect::Return(0))
    }

    /// Carries out the entry `idx` of the table. A fault leaves host and
    /// memory as they were.
    pub fn asm_const_dispatch(&mut self, mem: &mut [u8], idx: i32, args: &[i32]) -> (r: Result<
        Effect,
        Fault,
    >)
        ensures
            effects(r, outcome(old(self)@, old(mem)@, idx, args@)),
            final(self)@ == outcome(old(self)@, old(mem)@, idx, args@).host,
            final(mem)@ == outcome(old(self)@, old(mem)@, idx, args@).mem,
    {
        let ghost h = self@;
        let ghost m = mem@;
        let ptr: u32 = num::word(argument(args, 0));
        if idx == READ_CONFIG {
            match text_of(mem, ptr) {
                Err(fault) => Err(fault),
                Ok(config) => if config.as_str().as_bytes().len() < CONFIG_MIN {
                    Ok(Effect::WriteConfig { ptr })
                } else {
                    Ok(Effect::Return(documents::HEAP_SIZE))
                },
            }
        } else if idx == YIELD {
            self.needs_more_audio = true;
            assert(self@ =~= outcome(h, m, idx, args@).host);
            Ok(Effect::Return(0))
        } else if idx == SET_PARAMS {
            match text_of(mem, ptr) {
                Err(fault) => Err(fault),
                Ok(params) => Ok(Effect::Apply(documents::param_settings(params.as_str()))),
            }
        } else if idx == NOTIFY_INIT || idx == NOTIFY_REPLY {
            if argument(args, 2) == 1 {
                self.init_complete = true;
            }
            assert(self@ =~= outcome(h, m, idx, args@).host);
            Ok(Effect::Return(0))
        } else if idx == AUDIO {
            self.queue_audio(mem, args)
        } else if idx == INIT_ASSETS {
            Ok(Effect::NotifyAssets)
        } else if idx == FILE_OPEN {
            match text_of(mem, ptr) {
                Err(fault) => Err(fault),
                Ok(path) => {
                    let name: String = text::file_name(path.as_str());
                    Ok(Effect::OpenFile { path, name })
                },
            }
        } else if idx == FILE_CLOSE {
            let fd: i32 = argument(args, 0);
            if fd != 0 {
                self.close(fd);
            }
            Ok(Effect::Return(0))
        } else if idx == FILE_READ {
            self.read_file(mem, args)
        } else if idx == FILE_SEEK {
            let r: Result<Effect, Fault> = self.seek_file(args);
            assert(effects(r, seek_outcome(h, m, args@)));
            r
        } else if idx == FILE_SIZE {
            match self.extent(argument(args, 0)) {
                Some(e) => Ok(Effect::Return(num::narrow(e.0))),
                None => Ok(Effect::Return(0)),
            }
        } else if idx == ASSET_LEN || idx == ASSET_PTR {
            match text_of(mem, ptr) {
                Err(fault) => Err(fault),
                Ok(name) => match self.asset(name.as_str()) {
                    Some(asset) => if idx == ASSET_LEN {
                        Ok(Effect::Return(num::signed_word(asset.1)))
                    } else {
                        Ok(Effect::Return(num::signed_word(asset.0)))
                    },
                    None => Ok(Effect::Return(0)),
                },
            }
        } else if idx == LOCAL_PATH {
            let r: Result<Effect, Fault> = State::local_path(mem, args);
            assert(address(args@, 1) <= m.len() ==> effects(r, path_outcome(h, m, args@)));
            r
        } else {
            Ok(Effect::Return(0))
        }
    }
}

/// No call of the table hands out a descriptor, changes an asset or the size
/// of the memory, and a fault changes nothing at all.
pub proof fn law_table_is_safe(h: HostView, m: Seq<u8>, idx: i32, args: Seq<i32>)
    ensures
        state::descriptors_used(h) ==> state::descriptors_used(outcome(h, m, idx, args).host),
        outcome(h, m, idx, args).host.next_fd == h.next_fd,
        outcome(h, m, idx, args).host.assets == h.assets,
        outcome(h, m, idx, args).mem.len() == m.len(),
        outcome(h, m, idx, args).action is None ==> outcome(h, m, idx, args) == faulty(h, m),
{
}

/// Samples are never taken from the queue or reordered by the table: a call
/// leaves them alone or puts new ones behind them.
pub proof fn law_samples_only_added(h: HostView, m: Seq<u8>, idx: i32, args: Seq<i32>)
    ensures
        h.pending.is_prefix_of(outcome(h, m, idx, args).host.pending),
        idx != AUDIO ==> outcome(h, m, idx, args).host.pending == h.pending,
{
}

/// A continuation is asked for by the entry for it and by no other; the
/// engine is not called back from there.
pub proof fn law_yield_sets_flag(h: HostView, m: Seq<u8>, idx: i32, args: Seq<i32>)
    ensures
        outcome(h, m, YIELD, args) == plain(HostView { needs_more: true, ..h }, m, 0),
        outcome(h, m, idx, args).host.needs_more && !h.needs_more ==> idx == YIELD,
{
}

/// A path that the table tells is one under which the engine finds the file:
/// opened, it names the file itself.
pub proof fn law_local_path_found(name: Seq<char>)
    requires
        !name.contains('/'),
        name.len() > 0,
    ensures
        syscalls::local_name(path_of(name)) == name,
        !syscalls::is_root(path_of(name)),
{
    reveal_strlit("/cfdir/");
    reveal_strlit("/cfdir");
    let path = path_of(name);
    let prefix = "/cfdir/"@;
    assert(path.subrange(0, 7) =~= prefix);
    assert(text::occurs_at(path, prefix, 0));
    assert(path.subrange(7, path.len() as int) =~= name);
    assert(path[7] == name[0]);
    assert forall|p: Seq<char>| p.len() > 0 && p[0] == '/' implies !#[trigger] text::occurs_at(
        name,
        p,
        0,
    ) by {
        if text::occurs_at(name, p, 0) {
            assert(name.subrange(0, p.len() as int)[0] == name[0]);
            assert(name.contains(name[0]));
        }
    }
    assert(text::strip_prefixes(name, prefix) == name);
    assert(text::strip_prefixes(path, prefix) == name);
    assert(text::strip_prefixes(name, "/cfdir"@) == name);
    text::lemma_no_slash(name);
    assert(path.last() == name.last());
    assert(name.contains(name.last()));
    assert(text::trim_end(path, '/') == path);
    assert(path.len() > 7);
}

/// A text of parameters that was put into the engine's memory and is handed
/// back by the engine sets what the text says.
pub proof fn law_params_reach_engine(h: HostView, m: Seq<u8>, ptr: i32, params: Seq<char>)
    requires
        0 <= ptr,
        memory::fits(m, ptr as int, encode_utf8(params).len() as int + 1),
        text::without_nul(params),
    ensures
        outcome(
            h,
            memory::put_text(m, ptr as int, encode_utf8(params)),
            SET_PARAMS,
            seq![ptr],
        ).action == Some(Action::Apply(documents::settings_in(params))),
{
    memory::law_text_round_trip(m, ptr as int, params);
}

/// Closing a file forgets it and nothing else: every other file, the next
/// descriptor and the memory stay, and closing twice is closing once. What is
/// not open is not changed. From there on a read gives nothing, a seek is
/// refused, and the size is zero; only the product of the two sizes of a read
/// has to be a 64-bit number.
pub proof fn law_close_forgets(h: HostView, m: Seq<u8>, fd: i32, later: Seq<u8>, args: Seq<i32>)
    requires
        state::descriptors_used(h),
        args.len() > 0,
        args[0] == fd,
    ensures
        ({
            let o = outcome(h, m, FILE_CLOSE, seq![fd]);
            &&& o == plain(state::closed(h, fd), m, 0)
            &&& o.host.files == h.files.remove(fd)
            &&& o.host.next_fd == h.next_fd
            &&& !h.files.contains_key(fd) ==> o.host == h
            &&& outcome(o.host, m, FILE_CLOSE, seq![fd]) == o
            &&& size(args, 1) * size(args, 2) <= u64::MAX ==> outcome(
                o.host,
                later,
                FILE_READ,
                args,
            ) == plain(o.host, later, 0)
            &&& outcome(o.host, later, FILE_SEEK, args) == plain(
                o.host,
                later,
                SEEK_ERROR as int,
            )
            &&& outcome(o.host, later, FILE_SIZE, args) == plain(o.host, later, 0)
        }),
{
    let o = outcome(h, m, FILE_CLOSE, seq![fd]);
    assert(!o.host.files.contains_key(fd));
    assert(o.host =~= state::closed(h, fd));
    if !h.files.contains_key(fd) {
        assert(h.files.remove(fd) =~= h.files);
    }
    assert(state::closed(o.host, fd) =~= o.host);
}

/// What can happen to the host's files.
pub enum FileOp {
    /// A file, or the directory, is opened.
    Open(FileView),
    /// Bytes are read.
    Read { fd: i32, want: int },
    /// Bytes are read into several buffers.
    Scatter { mem: Seq<u8>, fd: i32, iov: int, n: int },
    /// The position is moved, by a seek or a listing.
    Move { fd: i32, position: int },
    /// A file is closed.
    Close(i32),
    /// An entry of the table is called.
    Entry { mem: Seq<u8>, idx: i32, args: Seq<i32> },
}

/// The host after `op`. Nothing is opened once the descriptors are used up, and
/// what is not open is not moved.
pub open spec fn after_op(h: HostView, op: FileOp) -> HostView {
    match op {
        FileOp::Open(file) => if h.next_fd < i32::MAX {
            state::opened(h, file)
        } else {
            h
        },
        FileOp::Read { fd, want } => state::after_read(h, fd, want),
        FileOp::Scatter { mem, fd, iov, n } => syscalls::scatter(h, mem, fd, iov, n, 0, 0).host,
        FileOp::Move { fd, position } => if h.files.contains_key(fd) {
            state::moved(h, fd, position)
        } else {
            h
        },
        FileOp::Close(fd) => state::closed(h, fd),
        FileOp::Entry { mem, idx, args } => outcome(h, mem, idx, args).host,
    }
}

/// The descriptor that `op` hands out, if any.
pub open spec fn handed_out(h: HostView, op: FileOp) -> Option<int> {
    if op is Open && h.next_fd < i32::MAX {
        Some(h.next_fd)
    } else {
        None
    }
}

/// The host after all of `ops`.
pub open spec fn after_ops(h: HostView, ops: Seq<FileOp>) -> HostView
    decreases ops.len(),
{
    if ops.len() == 0 {
        h
    } else {
        after_op(after_ops(h, ops.drop_last()), ops.last())
    }
}

/// Whatever happens to the files, every open one has a descriptor that was
/// handed out, and the next descriptor never goes down. A descriptor that is
/// handed out is no smaller than the first and belongs to no open file, and
/// the next one lies above it.
pub proof fn law_descriptors_grow(h: HostView, op: FileOp)
    requires
        state::descriptors_used(h),
    ensures
        state::descriptors_used(after_op(h, op)),
        h.next_fd <= after_op(h, op).next_fd,
        handed_out(h, op) matches Some(fd) ==> {
            &&& FIRST_FD <= fd <= i32::MAX
            &&& !h.files.contains_key(fd as i32)
            &&& after_op(h, op).files.contains_key(fd as i32)
            &&& after_op(h, op).next_fd == fd + 1
        },
{
    match op {
        FileOp::Open(file) => {
            if h.next_fd < i32::MAX {
                state::law_descriptor_is_new(h, file);
            }
        },
        FileOp::Read { fd, want } => state::law_descriptors_kept(h, fd, want, 0),
        FileOp::Scatter { mem, fd, iov, n } => syscalls::law_scatter_keeps_descriptors(
            h,
            mem,
            fd,
            iov,
            n,
            0,
            0,
        ),
        FileOp::Move { fd, position } => state::law_descriptors_kept(h, fd, 0, position),
        FileOp::Close(fd) => state::law_descriptors_kept(h, fd, 0, 0),
        FileOp::Entry { mem, idx, args } => law_table_is_safe(h, mem, idx, args),
    }
}

/// After any number of operations the next descriptor is no smaller than
/// before.
proof fn lemma_descriptors_grow(h: HostView, ops: Seq<FileOp>, i: int)
    requires
        state::descriptors_used(h),
        0 <= i <= ops.len(),
    ensures
        state::descriptors_used(after_ops(h, ops)),
        after_ops(h, ops.take(i)).next_fd <= after_ops(h, ops).next_fd,
        state::descriptors_used(after_ops(h, ops.take(i))),
    decreases ops.len(),
{
    if i < ops.len() {
        lemma_descriptors_grow(h, ops.drop_last(), i);
        law_descriptors_grow(after_ops(h, ops.drop_last()), ops.last());
        assert(ops.drop_last().take(i) =~= ops.take(i));
    } else {
        assert(ops.take(i) =~= ops);
        if ops.len() > 0 {
            lemma_descriptors_grow(h, ops.drop_last(), 0);
            law_descriptors_grow(after_ops(h, ops.drop_last()), ops.last());
        }
    }
}

/// No descriptor is handed out twice, also where the first file was closed
/// since: of two that are handed out the later one is the larger one, and both
/// are no smaller than the first descriptor.
pub proof fn law_descriptors_never_reused(h: HostView, ops: Seq<FileOp>, i: int, j: int)
    requires
        state::descriptors_used(h),
        0 <= i < j < ops.len(),
        handed_out(after_ops(h, ops.take(i)), ops[i]) is Some,
        handed_out(after_ops(h, ops.take(j)), ops[j]) is Some,
    ensures
        FIRST_FD <= handed_out(after_ops(h, ops.take(i)), ops[i])->0,
        handed_out(after_ops(h, ops.take(i)), ops[i])->0 < handed_out(
            after_ops(h, ops.take(j)),
            ops[j],
        )->0,
{
    lemma_descriptors_grow(h, ops, i);
    law_descriptors_grow(after_ops(h, ops.take(i)), ops[i]);
    assert(ops.take(i + 1).drop_last() =~= ops.take(i));
    assert(after_ops(h, ops.take(i + 1)) == after_op(after_ops(h, ops.take(i)), ops[i]));
    lemma_descriptors_grow(h, ops.take(j), i + 1);
    assert(ops.take(j).take(i + 1) =~= ops.take(i + 1));
}

/// A plain answer or a fault leaves host and memory as they are.
pub proof fn law_plain_changes_nothing(h: HostView, m: Seq<u8>, v: int)
    ensures
        plain(h, m, v).host == h && plain(h, m, v).mem == m,
        plain(h, m, v).action == Some(Action::Return(v)),
        faulty(h, m).host == h && faulty(h, m).mem == m && faulty(h, m).action is None,
{
}

/// An argument is the word that was passed, or zero; as an address it is counted
/// up from zero by 32 bits, and as a size by 64.
pub proof fn law_arguments(args: Seq<i32>, k: int)
    ensures
        0 <= k < args.len() ==> slot(args, k) == args[k],
        k >= args.len() ==> slot(args, k) == 0,
        0 <= k < args.len() && args[k] >= 0 ==> address(args, k) == args[k] && size(args, k)
            == args[k],
        0 <= k < args.len() && args[k] < 0 ==> address(args, k) == args[k] + 0x1_0000_0000 && size(
            args,
            k,
        ) == args[k] + 0x1_0000_0000_0000_0000,
        k >= args.len() ==> address(args, k) == 0 && size(args, k) == 0,
{
}

/// A buffer of audio that lies in memory puts half as many samples as it has
/// bytes behind those that are pending, and each is the signed little-endian
/// number at its place in the buffer.
pub proof fn law_audio_queued(h: HostView, m: Seq<u8>, args: Seq<i32>)
    requires
        args.len() >= 3,
        args[1] >= 0,
        args[2] >= 0,
        args[1] + 2 * (args[2] as int / 2) <= m.len(),
    ensures
        ({
            let o = outcome(h, m, 7, args);
            let at = args[1] as int;
            let count = args[2] as int / 2;
            let before = h.pending.len() as int;
            &&& o.action == Some(Action::Return(0))
            &&& o.mem == m
            &&& o.host.pending.len() == before + count
            &&& forall|i: int| 0 <= i < before ==> #[trigger] o.host.pending[i] == h.pending[i]
            &&& forall|i: int|
                before <= i < before + count ==> #[trigger] o.host.pending[i] == (if m[at + 2 * (i
                    - before) + 1] < 128 {
                    m[at + 2 * (i - before)] + 256 * m[at + 2 * (i - before) + 1]
                } else {
                    m[at + 2 * (i - before)] + 256 * m[at + 2 * (i - before) + 1] - 65536
                })
            &&& o.host == (HostView {
                pending: o.host.pending,
                needs_more: h.needs_more && !(args.len() > 5 && args[5] == 1),
                ..h
            })
        }),
{
    let o = outcome(h, m, 7, args);
    let at = args[1] as int;
    let count = args[2] as int / 2;
    let before = h.pending.len() as int;
    if count > 0 {
        assert(o.host.pending == h.pending + samples_at(m, at, count));
    } else {
        assert(o.host.pending == h.pending);
    }
    assert forall|i: int| before <= i < before + count implies #[trigger] o.host.pending[i] == (if m[at
        + 2 * (i - before) + 1] < 128 {
        m[at + 2 * (i - before)] + 256 * m[at + 2 * (i - before) + 1]
    } else {
        m[at + 2 * (i - before)] + 256 * m[at + 2 * (i - before) + 1] - 65536
    }) by {
        assert(o.host.pending[i] == samples_at(m, at, count)[i - before]);
    }
}

/// A buffer of audio that does not lie in memory puts no sample anywhere.
pub proof fn law_audio_outside_dropped(h: HostView, m: Seq<u8>, args: Seq<i32>)
    requires
        args.len() >= 3,
        args[1] >= 0,
        args[2] >= 0,
        args[1] + 2 * (args[2] as int / 2) > m.len(),
    ensures
        outcome(h, m, 7, args).host.pending == h.pending,
        outcome(h, m, 7, args).mem == m,
        outcome(h, m, 7, args).action == Some(Action::Return(0)),
{
}

/// A read hands the guest the bytes from the file's position on, as many as the
/// two sizes ask for or as there are, moves the position past them, and answers
/// their number.
pub proof fn law_file_read(h: HostView, m: Seq<u8>, args: Seq<i32>, n: int)
    requires
        args.len() >= 4,
        args[1] >= 0,
        args[2] >= 0,
        args[3] >= 0,
        h.files.contains_key(args[0]),
        0 <= h.files[args[0]].position <= h.files[args[0]].data.len(),
        n <= i32::MAX,
        n == (if args[1] * args[2] <= h.files[args[0]].data.len() - h.files[args[0]].position {
            args[1] * args[2]
        } else {
            h.files[args[0]].data.len() - h.files[args[0]].position
        }),
    ensures
        ({
            let o = outcome(h, m, 16, args);
            let f = h.files[args[0]];
            let buf = args[3] as int;
            let data = f.data.subrange(f.position, f.position + n);
            &&& o.action == Some(Action::Return(n))
            &&& o.host.files[args[0]] == (FileView { data: f.data, position: f.position + n })
            &&& buf + n <= m.len() ==> o.mem == m.take(buf) + data + m.skip(buf + n)
            &&& buf + n > m.len() ==> o.mem == m
        }),
{
    let fd = args[0];
    let f = h.files[fd];
    let want = args[1] * args[2];
    assert(0 <= want <= 0x4000_0000_0000_0000) by (nonlinear_arith)
        requires
            want == args[1] * args[2],
            0 <= args[1] <= 0x7fff_ffff,
            0 <= args[2] <= 0x7fff_ffff,
    ;
    assert(size(args, 1) * size(args, 2) == want);
    let data = f.data.subrange(f.position, f.position + n);
    assert(state::chunk(f, want) =~= data);
    memory::law_store_takes_place(m, args[3] as int, data);
}

/// A seek that leads into or behind the file moves its position there and is
/// answered by zero; one that leads before its start, counts in no known way or
/// means no open file is answered by the error, and changes nothing.
pub proof fn law_file_seek(h: HostView, m: Seq<u8>, args: Seq<i32>)
    requires
        args.len() >= 3,
        h.files.contains_key(args[0]) ==> 0 <= h.files[args[0]].position < 0x4000_0000_0000_0000
            && h.files[args[0]].data.len() < 0x4000_0000_0000_0000,
    ensures
        ({
            let o = outcome(h, m, 17, args);
            let f = h.files[args[0]];
            let place = args[1] + (if args[2] == 0 {
                0
            } else if args[2] == 1 {
                f.position
            } else {
                f.data.len() as int
            });
            &&& o.mem == m
            &&& if h.files.contains_key(args[0]) && 0 <= args[2] <= 2 && place >= 0 {
                o.action == Some(Action::Return(0)) && o.host.files == h.files.insert(
                    args[0],
                    FileView { data: f.data, position: place },
                )
            } else {
                o.action == Some(Action::Return(0x8000_0104 - 0x1_0000_0000)) && o.host == h
            }
        }),
{
    state::law_seek_is_exact(h, args[0], args[2] as int, args[1] as int, false);
}

/// The size of a file is the number of its bytes, and zero of none.
pub proof fn law_file_size(h: HostView, m: Seq<u8>, fd: i32)
    requires
        h.files.contains_key(fd) ==> h.files[fd].data.len() <= i32::MAX,
    ensures
        outcome(h, m, 18, seq![fd]) == plain(
            h,
            m,
            if h.files.contains_key(fd) {
                h.files[fd].data.len() as int
            } else {
                0
            },
        ),
{
}

/// Completion is noted once it is reported, by either entry, and stays noted.
pub proof fn law_completion_noted(h: HostView, m: Seq<u8>, a: i32, b: i32, code: i32)
    ensures
        ({
            let noted = HostView { init_complete: h.init_complete || code == 1, ..h };
            &&& outcome(h, m, 5, seq![a, b, code]) == plain(noted, m, 0)
            &&& outcome(h, m, 8, seq![a, b, code]) == plain(noted, m, 0)
        }),
{
}

/// Entries that need nothing from the host change nothing and answer zero.
pub proof fn law_quiet_entries(h: HostView, m: Seq<u8>, idx: i32, args: Seq<i32>)
    requires
        idx < 0 || idx == 1 || idx == 2 || idx == 6 || idx == 9 || idx == 10 || idx == 12 || idx
            == 13 || idx > 21,
    ensures
        outcome(h, m, idx, args) == plain(h, m, 0),
{
}

/// What the entries make of a text that stands in the guest's memory: a
/// configuration of ten bytes or more is taken as it is, and a shorter one is
/// asked for; a path is opened as it is or by its last part; and an asset is
/// looked up by its name.
pub proof fn law_text_entries(h: HostView, m: Seq<u8>, ptr: i32, text: Seq<char>)
    requires
        0 <= ptr,
        ptr + encode_utf8(text).len() < m.len(),
        text::without_nul(text),
    ensures
        ({
            let mem = memory::put_text(m, ptr as int, encode_utf8(text));
            let args = seq![ptr];
            &&& outcome(h, mem, 0, args) == (if encode_utf8(text).len() < 10 {
                Outcome { host: h, mem, action: Some(Action::WriteConfig(ptr as int)) }
            } else {
                plain(h, mem, 67108864)
            })
            &&& outcome(h, mem, 14, args) == (Outcome {
                host: h,
                mem,
                action: Some(Action::OpenFile(text, text::base_name(text))),
            })
            &&& state::find_asset(h.assets, text, 0) is None ==> outcome(h, mem, 19, args)
                == plain(h, mem, 0) && outcome(h, mem, 20, args) == plain(h, mem, 0)
            &&& state::find_asset(h.assets, text, 0) matches Some(a) ==> (0 <= a.len
                < 0x8000_0000 && 0 <= a.ptr < 0x8000_0000 ==> outcome(h, mem, 19, args) == plain(
                h,
                mem,
                a.len,
            ) && outcome(h, mem, 20, args) == plain(h, mem, a.ptr))
        }),
{
    memory::law_text_round_trip(m, ptr as int, text);
}

/// A text that stands behind the end of memory is a fault of every entry that
/// reads one.
pub proof fn law_text_behind_memory_faults(h: HostView, m: Seq<u8>, args: Seq<i32>)
    requires
        args.len() >= 2,
        args[0] > m.len(),
        args[1] > m.len(),
    ensures
        outcome(h, m, 0, args) == faulty(h, m),
        outcome(h, m, 4, args) == faulty(h, m),
        outcome(h, m, 14, args) == faulty(h, m),
        outcome(h, m, 19, args) == faulty(h, m),
        outcome(h, m, 20, args) == faulty(h, m),
        outcome(h, m, 21, args) == faulty(h, m),
{
}

/// The guest is told the path of a file in its buffer, with a NUL: all of it,
/// or as much as the buffer holds.
pub proof fn law_local_path_told(
    h: HostView,
    m: Seq<u8>,
    out: i32,
    ptr: i32,
    room: i32,
    name: Seq<char>,
    bytes: Seq<u8>,
)
    requires
        0 <= ptr,
        ptr + encode_utf8(name).len() < m.len(),
        text::without_nul(name),
        0 < out,
        0 < room,
        out + room <= m.len(),
        bytes == encode_utf8("/cfdir/"@ + name),
    ensures
        ({
            let mem = memory::put_text(m, ptr as int, encode_utf8(name));
            let o = outcome(h, mem, 21, seq![out, ptr, room]);
            let told = if bytes.len() <= room - 1 {
                bytes
            } else {
                bytes.take(room - 1)
            };
            &&& o.host == h
            &&& o.action == Some(Action::Return(0))
            &&& o.mem == mem.take(out as int) + told.push(0u8) + mem.skip(out + told.len() + 1)
        }),
{
    let mem = memory::put_text(m, ptr as int, encode_utf8(name));
    memory::law_text_round_trip(m, ptr as int, name);
    let told = cut(bytes, room - 1);
    memory::law_text_stored(mem, out as int, told);
}

/// Without a buffer no path is told.
pub proof fn law_no_buffer_no_path(h: HostView, m: Seq<u8>, out: i32, ptr: i32, room: i32)
    requires
        0 <= ptr <= m.len(),
        out == 0 || room == 0,
    ensures
        outcome(h, m, 21, seq![out, ptr, room]) == plain(h, m, 0),
{
}

/// The configuration goes to the guest with a NUL behind it, cut to four
/// thousand bytes.
pub proof fn law_config_written(m: Seq<u8>, ptr: int, files: Seq<FileEntry>, bytes: Seq<u8>)
    requires
        0 <= ptr,
        ptr + 4000 < m.len(),
        bytes == encode_utf8(crate::json::json_text(documents::config_doc(files))),
    ensures
        ({
            let told = if bytes.len() <= 4000 {
                bytes
            } else {
                bytes.take(4000)
            };
            put_config(m, ptr, files) == m.take(ptr) + told.push(0u8) + m.skip(
                ptr + told.len() + 1,
            )
        }),
{
    memory::law_text_stored(m, ptr, cut(bytes, 4000));
}

} // verus!
