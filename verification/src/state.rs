//! What the host remembers between the guest's calls: open files, audio that
//! waits to be delivered, and a few flags.

use crate::num;
use crate::text;
use std::collections::HashMap;
use vstd::prelude::*;

verus! {

/// The descriptor that the first opened file gets.
pub const FIRST_FD: i32 = 10;

/// The guest asked for something that the host cannot do without breaking
/// off: an address outside the memory, a read past the end of a file, or a
/// number that does not fit its type.
#[derive(Debug, Clone, Copy, PartialEq, Eq, Structural)]
pub struct Fault;

/// A call was answered with `v`.
pub open spec fn answers(r: Result<i32, Fault>, v: int) -> bool {
    r matches Ok(n) && n == v
}

/// A file held in memory, with the guest's position in it.
pub struct VFile {
    pub data: Vec<u8>,
    pub position: u64,
}

/// A named block of data in the guest's heap.
pub struct Asset {
    pub name: String,
    pub ptr: u32,
    pub len: u32,
}

/// The state of one running guest.
pub struct State {
    pub files: HashMap<i32, VFile>,
    pub next_fd: i32,
    pub assets: Vec<Asset>,
    pub pending_samples: Vec<i16>,
    pub temp_ret: i32,
    pub init_complete: bool,
    pub needs_more_audio: bool,
}

/// A file as data and position.
pub struct FileView {
    pub data: Seq<u8>,
    pub position: int,
}

/// An asset as name, address and length.
pub struct AssetView {
    pub name: Seq<char>,
    pub ptr: int,
    pub len: int,
}

/// The host's state as mathematical values.
#[verifier::ext_equal]
pub struct HostView {
    pub files: Map<i32, FileView>,
    pub next_fd: int,
    pub assets: Seq<AssetView>,
    pub pending: Seq<i16>,
    pub temp_ret: int,
    pub init_complete: bool,
    pub needs_more: bool,
}

impl View for VFile {
    type V = FileView;

    open spec fn view(&self) -> FileView {
        FileView { data: self.data@, position: self.position as int }
    }
}

impl View for Asset {
    type V = AssetView;

    open spec fn view(&self) -> AssetView {
        AssetView { name: self.name@, ptr: self.ptr as int, len: self.len as int }
    }
}

impl View for State {
    type V = HostView;

    open spec fn view(&self) -> HostView {
        HostView {
            files: self.files@.map_values(|f: VFile| f@),
            next_fd: self.next_fd as int,
            assets: Seq::new(self.assets@.len(), |i: int| self.assets@[i]@),
            pending: self.pending_samples@,
            temp_ret: self.temp_ret as int,
            init_complete: self.init_complete,
            needs_more: self.needs_more_audio,
        }
    }
}

/// The state before the guest has run.
pub open spec fn fresh() -> HostView {
    HostView {
        files: Map::empty(),
        next_fd: FIRST_FD as int,
        assets: Seq::empty(),
        pending: Seq::empty(),
        temp_ret: 0,
        init_complete: false,
        needs_more: false,
    }
}

/// Every open file has a descriptor that was handed out already, from the
/// first one on, so the next one is new.
pub open spec fn descriptors_used(h: HostView) -> bool {
    &&& FIRST_FD <= h.next_fd <= i32::MAX
    &&& forall|fd: i32| #[trigger] h.files.contains_key(fd) ==> FIRST_FD <= fd < h.next_fd
}

/// No two assets have the same name.
pub open spec fn assets_distinct(h: HostView) -> bool {
    forall|i: int, j: int|
        0 <= i < j < h.assets.len() ==> (#[trigger] h.assets[i]).name != (
        #[trigger] h.assets[j]).name
}

/// The state with the file `fd` at another position.
pub open spec fn moved(h: HostView, fd: i32, position: int) -> HostView {
    HostView {
        files: h.files.insert(fd, FileView { data: h.files[fd].data, position }),
        ..h
    }
}

/// The state with a new file at the next descriptor.
pub open spec fn opened(h: HostView, file: FileView) -> HostView {
    HostView { files: h.files.insert(h.next_fd as i32, file), next_fd: h.next_fd + 1, ..h }
}

/// The state without the file `fd`.
pub open spec fn closed(h: HostView, fd: i32) -> HostView {
    HostView { files: h.files.remove(fd), ..h }
}

/// What a read of `want` bytes takes from a file, from its position on.
pub open spec fn chunk(f: FileView, want: int) -> Seq<u8> {
    f.data.subrange(
        f.position,
        if want <= f.data.len() - f.position {
            f.position + want
        } else {
            f.data.len() as int
        },
    )
}

/// A read from `fd` stays inside its file, or there is no such file.
pub open spec fn readable(h: HostView, fd: i32) -> bool {
    h.files.contains_key(fd) ==> h.files[fd].position <= h.files[fd].data.len()
}

/// The state after a read of `want` bytes from `fd`.
pub open spec fn after_read(h: HostView, fd: i32, want: int) -> HostView {
    if h.files.contains_key(fd) {
        moved(h, fd, h.files[fd].position + chunk(h.files[fd], want).len())
    } else {
        h
    }
}

/// Where a seek starts to count: the start, the position or the end of the
/// file.
pub open spec fn seek_base(f: FileView, whence: int) -> int {
    if whence == 0 {
        0
    } else if whence == 1 {
        num::signed64(f.position)
    } else {
        num::signed64(f.data.len() as int)
    }
}

/// `v` is a value of a 64-bit signed type.
pub open spec fn is_i64(v: int) -> bool {
    -0x8000_0000_0000_0000 <= v < 0x8000_0000_0000_0000
}

/// Where a seek leads: the new place, nothing where the request makes no
/// sense, or a fault where the place is no 64-bit number.
pub open spec fn reposition_result(
    h: HostView,
    fd: i32,
    whence: int,
    distance: int,
    clamp: bool,
) -> Result<Option<u64>, Fault> {
    if !h.files.contains_key(fd) || !(0 <= whence <= 2) {
        Ok(None)
    } else {
        let place = seek_base(h.files[fd], whence) + distance;
        if !is_i64(place) {
            Err(Fault)
        } else if place >= 0 {
            Ok(Some(place as u64))
        } else if clamp {
            Ok(Some(0u64))
        } else {
            Ok(None)
        }
    }
}

/// The first asset that is called `name`, at index `from` or behind.
pub open spec fn find_asset(assets: Seq<AssetView>, name: Seq<char>, from: int) -> Option<AssetView>
    decreases assets.len() - from,
{
    if from < 0 || from >= assets.len() {
        None
    } else if assets[from].name == name {
        Some(assets[from])
    } else {
        find_asset(assets, name, from + 1)
    }
}

impl State {
    /// The state of a guest that has not run yet.
    pub fn new() -> (s: State)
        ensures
            s@ == fresh(),
            descriptors_used(s@),
            assets_distinct(s@),
    {
        let s: State = State {
            files: HashMap::new(),
            next_fd: FIRST_FD,
            assets: Vec::new(),
            pending_samples: Vec::new(),
            temp_ret: 0,
            init_complete: false,
            needs_more_audio: false,
        };
        assert(s@ =~= fresh());
        s
    }

    /// Takes up to `want` bytes from the file `fd` and moves its position past
    /// them. A position behind the end of the file is a fault.
    pub fn take_chunk(&mut self, fd: i32, want: u64) -> (r: Result<Option<Vec<u8>>, Fault>)
        ensures
            r is Ok <==> readable(old(self)@, fd),
            r is Err ==> final(self)@ == old(self)@,
            r matches Ok(None) ==> !old(self)@.files.contains_key(fd),
            r matches Ok(Some(data)) ==> old(self)@.files.contains_key(fd) && data@ == chunk(
                old(self)@.files[fd],
                want as int,
            ),
            r is Ok ==> final(self)@ == after_read(old(self)@, fd, want as int),
    {
        broadcast use vstd::std_specs::hash::group_hash_axioms;

        let ghost before = self@;
        match self.files.remove(&fd) {
            None => {
                assert(self@ =~= before);
                Ok(None)
            },
            Some(file) => {
                let mut file: VFile = file;
                let ghost f = file@;
                assert(before.files[fd] == f);
                let size: u64 = file.data.len() as u64;
                if file.position > size {
                    self.files.insert(fd, file);
                    assert(self@.files =~= before.files);
                    assert(self@ =~= before);
                    return Err(Fault);
                }
                let rest: u64 = size - file.position;
                let count: u64 = if want <= rest {
                    want
                } else {
                    rest
                };
                let from: usize = file.position as usize;
                let to: usize = (file.position + count) as usize;
                let data: Vec<u8> = vstd::slice::slice_to_vec(
                    vstd::slice::slice_subrange(file.data.as_slice(), from, to),
                );
                file.position = file.position + count;
                self.files.insert(fd, file);
                proof {
                    assert(data@ =~= chunk(f, want as int));
                    assert(self@.files =~= after_read(before, fd, want as int).files);
                    assert(self@ =~= after_read(before, fd, want as int));
                }
                Ok(Some(data))
            },
        }
    }

    /// Puts the file `fd` at another position.
    pub(crate) fn move_to(&mut self, fd: i32, position: u64)
        requires
            old(self)@.files.contains_key(fd),
        ensures
            final(self)@ == moved(old(self)@, fd, position as int),
    {
        broadcast use vstd::std_specs::hash::group_hash_axioms;

        let ghost before = self@;
        if let Some(file) = self.files.remove(&fd) {
            let mut file: VFile = file;
            assert(file@ == before.files[fd]);
            file.position = position;
            self.files.insert(fd, file);
            proof {
                assert(self@.files =~= moved(before, fd, position as int).files);
                assert(self@ =~= moved(before, fd, position as int));
            }
        }
    }

    /// The length and position of the file `fd`.
    pub fn extent(&self, fd: i32) -> (r: Option<(u64, u64)>)
        ensures
            r is Some <==> self@.files.contains_key(fd),
            r matches Some(e) ==> e.0 == self@.files[fd].data.len() && e.1
                == self@.files[fd].position,
    {
        broadcast use vstd::std_specs::hash::group_hash_axioms;

        match self.files.get(&fd) {
            Some(file) => Some((file.data.len() as u64, file.position)),
            None => None,
        }
    }

    /// Gives a file the next descriptor. There being none left is a fault.
    pub fn open(&mut self, data: Vec<u8>, position: u64) -> (r: Result<i32, Fault>)
        ensures
            r is Ok <==> old(self)@.next_fd < i32::MAX,
            r is Err ==> final(self)@ == old(self)@,
            r matches Ok(fd) ==> fd == old(self)@.next_fd && final(self)@ == opened(
                old(self)@,
                FileView { data: data@, position: position as int },
            ),
    {
        broadcast use vstd::std_specs::hash::group_hash_axioms;

        let fd: i32 = self.next_fd;
        if fd == i32::MAX {
            return Err(Fault);
        }
        let ghost before = self@;
        let file: VFile = VFile { data, position };
        let ghost f = file@;
        self.files.insert(fd, file);
        self.next_fd = fd + 1;
        proof {
            assert(self@.files =~= opened(before, f).files);
            assert(self@ =~= opened(before, f));
        }
        Ok(fd)
    }

    /// Answers an open request with what was read from the disk: a new
    /// descriptor, or `missing` where there was no file.
    pub fn open_reply(&mut self, data: Option<Vec<u8>>, missing: i32) -> (r: Result<i32, Fault>)
        ensures
            data is None ==> r == Ok::<i32, Fault>(missing) && final(self)@ == old(self)@,
            data matches Some(d) ==> {
                &&& r is Ok <==> old(self)@.next_fd < i32::MAX
                &&& r is Err ==> final(self)@ == old(self)@
                &&& r matches Ok(fd) ==> fd == old(self)@.next_fd && final(self)@ == opened(
                    old(self)@,
                    FileView { data: d@, position: 0 },
                )
            },
    {
        match data {
            Some(d) => self.open(d, 0),
            None => Ok(missing),
        }
    }

    /// Forgets the file `fd`.
    pub fn close(&mut self, fd: i32)
        ensures
            final(self)@ == closed(old(self)@, fd),
    {
        broadcast use vstd::std_specs::hash::group_hash_axioms;

        let ghost before = self@;
        let _ = self.files.remove(&fd);
        proof {
            assert(self@.files =~= closed(before, fd).files);
            assert(self@ =~= closed(before, fd));
        }
    }

    /// Where a seek of the file `fd` leads. A place before the start is
    /// `clamp`ed to the start or refused. A place that is no 64-bit number is
    /// a fault.
    pub fn seek_target(&self, fd: i32, whence: i32, distance: i64, clamp: bool) -> (r: Result<
        Option<u64>,
        Fault,
    >)
        ensures
            r == reposition_result(self@, fd, whence as int, distance as int, clamp),
    {
        let (size, position): (u64, u64) = match self.extent(fd) {
            Some(e) => e,
            None => {
                return Ok(None);
            },
        };
        let base: i64 = if whence == 0 {
            0
        } else if whence == 1 {
            num::offset(position)
        } else if whence == 2 {
            num::offset(size)
        } else {
            return Ok(None);
        };
        match base.checked_add(distance) {
            None => Err(Fault),
            Some(place) => {
                if place >= 0 {
                    Ok(Some(place as u64))
                } else if clamp {
                    Ok(Some(0))
                } else {
                    Ok(None)
                }
            },
        }
    }

    /// Moves the file `fd` to where a seek leads, and returns the place.
    pub fn reposition(&mut self, fd: i32, whence: i32, distance: i64, clamp: bool) -> (r: Result<
        Option<u64>,
        Fault,
    >)
        ensures
            r == reposition_result(old(self)@, fd, whence as int, distance as int, clamp),
            final(self)@ == (match r {
                Ok(Some(place)) => moved(old(self)@, fd, place as int),
                _ => old(self)@,
            }),
    {
        let r: Result<Option<u64>, Fault> = self.seek_target(fd, whence, distance, clamp);
        if let Ok(Some(place)) = r {
            self.move_to(fd, place);
        }
        r
    }

    /// The first asset called `name`, as its address and length.
    pub fn asset(&self, name: &str) -> (r: Option<(u32, u32)>)
        ensures
            r is Some <==> find_asset(self@.assets, name@, 0) is Some,
            r matches Some(a) ==> a.0 == find_asset(self@.assets, name@, 0)->0.ptr && a.1
                == find_asset(self@.assets, name@, 0)->0.len,
    {
        let mut i: usize = 0;
        while i < self.assets.len()
            invariant
                i <= self.assets@.len(),
                find_asset(self@.assets, name@, 0) == find_asset(self@.assets, name@, i as int),
            decreases self.assets@.len() - i,
        {
            if text::same(self.assets[i].name.as_str(), name) {
                return Some((self.assets[i].ptr, self.assets[i].len));
            }
            i = i + 1;
        }
        None
    }

    /// Takes all audio that waits to be delivered.
    pub fn take_samples(&mut self) -> (samples: Vec<i16>)
        ensures
            samples@ == old(self)@.pending,
            final(self)@ == (HostView { pending: Seq::empty(), ..old(self)@ }),
    {
        let mut samples: Vec<i16> = Vec::new();
        std::mem::swap(&mut samples, &mut self.pending_samples);
        assert(self@ =~= (HostView { pending: Seq::empty(), ..old(self)@ }));
        samples
    }
}

/// The next descriptor belongs to no open file, and opening one keeps it so.
pub proof fn law_descriptor_is_new(h: HostView, file: FileView)
    requires
        descriptors_used(h),
        h.next_fd < i32::MAX,
    ensures
        h.next_fd >= FIRST_FD,
        !h.files.contains_key(h.next_fd as i32),
        opened(h, file).files[h.next_fd as i32] == file,
        descriptors_used(opened(h, file)),
{
}

/// Reading, seeking and closing hand out no descriptor.
pub proof fn law_descriptors_kept(h: HostView, fd: i32, want: int, position: int)
    requires
        descriptors_used(h),
    ensures
        descriptors_used(after_read(h, fd, want)),
        h.files.contains_key(fd) ==> descriptors_used(moved(h, fd, position)),
        descriptors_used(closed(h, fd)),
{
}

/// What is done to one file leaves every other file as it was.
pub proof fn law_files_are_apart(h: HostView, fd: i32, other: i32, want: int, position: int)
    requires
        fd != other,
    ensures
        after_read(h, fd, want).files.contains_key(other) == h.files.contains_key(other),
        moved(h, fd, position).files.contains_key(other) == h.files.contains_key(other),
        closed(h, fd).files.contains_key(other) == h.files.contains_key(other),
        h.files.contains_key(other) ==> {
            &&& after_read(h, fd, want).files[other] == h.files[other]
            &&& moved(h, fd, position).files[other] == h.files[other]
            &&& closed(h, fd).files[other] == h.files[other]
        },
{
}

/// Two reads in a row take what one read of both lengths takes.
pub proof fn law_reads_add_up(h: HostView, fd: i32, first: int, second: int)
    requires
        h.files.contains_key(fd),
        0 <= h.files[fd].position,
        readable(h, fd),
        0 <= first,
        0 <= second,
    ensures
        ({
            let between = after_read(h, fd, first);
            &&& readable(between, fd)
            &&& chunk(h.files[fd], first) + chunk(between.files[fd], second) == chunk(
                h.files[fd],
                first + second,
            )
            &&& after_read(between, fd, second) == after_read(h, fd, first + second)
        }),
{
    let between = after_read(h, fd, first);
    assert(chunk(h.files[fd], first) + chunk(between.files[fd], second) =~= chunk(
        h.files[fd],
        first + second,
    ));
    assert(after_read(between, fd, second) =~= after_read(h, fd, first + second));
}

/// A file that was opened gives back all of its bytes to a read that asks for
/// no fewer, and nothing to the read behind it.
pub proof fn law_open_then_read(h: HostView, data: Seq<u8>, want: int)
    requires
        i32::MIN <= h.next_fd < i32::MAX,
        want >= data.len(),
    ensures
        ({
            let fd = h.next_fd as i32;
            let open = opened(h, FileView { data, position: 0 });
            &&& readable(open, fd)
            &&& chunk(open.files[fd], want) == data
            &&& chunk(after_read(open, fd, want).files[fd], want).len() == 0
        }),
{
    let fd = h.next_fd as i32;
    let open = opened(h, FileView { data, position: 0 });
    assert(chunk(open.files[fd], want) =~= data);
}

/// After a seek from the start a read begins at the place that was asked for.
pub proof fn law_seek_then_read(h: HostView, fd: i32, place: int, want: int)
    requires
        h.files.contains_key(fd),
        0 <= place <= h.files[fd].data.len(),
        0 <= want <= h.files[fd].data.len() - place,
        is_i64(place),
    ensures
        reposition_result(h, fd, 0, place, false) == Ok::<Option<u64>, Fault>(Some(place as u64)),
        chunk(moved(h, fd, place).files[fd], want) == h.files[fd].data.subrange(
            place,
            place + want,
        ),
{
}

/// An asset is found by its name, whichever place it has.
pub proof fn law_asset_found(h: HostView, i: int, from: int)
    requires
        assets_distinct(h),
        0 <= from <= i < h.assets.len(),
    ensures
        find_asset(h.assets, h.assets[i].name, from) == Some(h.assets[i]),
    decreases i - from,
{
    if from < i {
        law_asset_found(h, i, from + 1);
    }
}

/// A read takes the bytes from the position on, one for one, as many as are
/// wanted or as there are.
pub proof fn law_chunk_is_exact(f: FileView, want: int)
    requires
        0 <= f.position <= f.data.len(),
        0 <= want,
    ensures
        want <= f.data.len() - f.position ==> chunk(f, want).len() == want,
        want > f.data.len() - f.position ==> chunk(f, want).len() == f.data.len() - f.position,
        forall|i: int|
            0 <= i < chunk(f, want).len() ==> #[trigger] chunk(f, want)[i] == f.data[f.position
                + i],
{
}

/// A read moves the position by what it takes, and changes nothing else: not the
/// data, not another file, nothing of the host but its files.
pub proof fn law_read_moves_only(h: HostView, fd: i32, want: int, other: i32)
    requires
        h.files.contains_key(fd),
        0 <= h.files[fd].position <= h.files[fd].data.len(),
        0 <= want,
    ensures
        ({
            let after = after_read(h, fd, want);
            let left = h.files[fd].data.len() - h.files[fd].position;
            &&& after.files.dom() == h.files.dom()
            &&& after.files[fd].data == h.files[fd].data
            &&& after.files[fd].position == h.files[fd].position + (if want <= left {
                want
            } else {
                left
            })
            &&& other != fd ==> after.files[other] == h.files[other]
            &&& after.next_fd == h.next_fd && after.assets == h.assets
            &&& after.pending == h.pending && after.temp_ret == h.temp_ret
            &&& after.init_complete == h.init_complete && after.needs_more == h.needs_more
        }),
{
    assert(after_read(h, fd, want).files.dom() =~= h.files.dom());
}

/// Opening adds one file under the next descriptor, closing takes one away, and
/// a seek moves one position. Nothing else of the host changes.
pub proof fn law_files_change_alone(h: HostView, fd: i32, file: FileView, position: int)
    requires
        i32::MIN <= h.next_fd < i32::MAX,
    ensures
        opened(h, file) == (HostView {
            files: h.files.insert(h.next_fd as i32, file),
            next_fd: h.next_fd + 1,
            assets: h.assets,
            pending: h.pending,
            temp_ret: h.temp_ret,
            init_complete: h.init_complete,
            needs_more: h.needs_more,
        }),
        closed(h, fd).files == h.files.remove(fd),
        moved(h, fd, position).files == h.files.insert(
            fd,
            FileView { data: h.files[fd].data, position },
        ),
        ({
            let c = closed(h, fd);
            let m = moved(h, fd, position);
            &&& c.next_fd == h.next_fd && m.next_fd == h.next_fd
            &&& c.assets == h.assets && m.assets == h.assets
            &&& c.pending == h.pending && m.pending == h.pending
            &&& c.temp_ret == h.temp_ret && m.temp_ret == h.temp_ret
            &&& c.init_complete == h.init_complete && m.init_complete == h.init_complete
            &&& c.needs_more == h.needs_more && m.needs_more == h.needs_more
        }),
{
}

/// A seek leads `distance` bytes on from the start, the position or the end of
/// the file. A place before the start is refused or is the start, and any other
/// way of counting, as well as a file that is not open, is refused.
pub proof fn law_seek_is_exact(h: HostView, fd: i32, whence: int, distance: int, clamp: bool)
    requires
        h.files.contains_key(fd) ==> 0 <= h.files[fd].position < 0x4000_0000_0000_0000
            && h.files[fd].data.len() < 0x4000_0000_0000_0000,
        -0x4000_0000_0000_0000 <= distance < 0x4000_0000_0000_0000,
    ensures
        ({
            let r = reposition_result(h, fd, whence, distance, clamp);
            let from = if whence == 0 {
                0
            } else if whence == 1 {
                h.files[fd].position
            } else {
                h.files[fd].data.len() as int
            };
            if !h.files.contains_key(fd) || whence < 0 || whence > 2 {
                r == Ok::<Option<u64>, Fault>(None)
            } else if from + distance >= 0 {
                r matches Ok(Some(place)) && place == from + distance
            } else if clamp {
                r matches Ok(Some(place)) && place == 0
            } else {
                r == Ok::<Option<u64>, Fault>(None)
            }
        }),
{
}

/// An asset of another name is not found.
pub proof fn law_asset_has_its_name(assets: Seq<AssetView>, name: Seq<char>, from: int)
    requires
        0 <= from,
    ensures
        find_asset(assets, name, from) matches Some(a) ==> a.name == name && assets.contains(a),
        find_asset(assets, name, from) is None ==> forall|i: int|
            from <= i < assets.len() ==> (#[trigger] assets[i]).name != name,
    decreases assets.len() - from,
{
    if from < assets.len() {
        if assets[from].name != name {
            law_asset_has_its_name(assets, name, from + 1);
        } else {
            assert(assets.contains(assets[from]));
        }
    }
}

} // verus!
