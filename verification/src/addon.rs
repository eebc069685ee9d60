//! Voice files in an add-on, which is a ZIP archive. Reading the archive is
//! the work of `zip`; which of its files belong to the voice is decided here.

#[allow(unused_imports)]
use crate::runtime;
use crate::text;
use vstd::prelude::*;

verus! {

/// The outside type of ZIP archives.
#[verifier::external_type_specification]
#[verifier::external_body]
#[verifier::reject_recursive_types(R)]
pub struct OutsideArchive<R>(zip::ZipArchive<R>);

/// The outside type of bytes that are read like a file.
#[verifier::external_type_specification]
#[verifier::external_body]
#[verifier::reject_recursive_types(T)]
pub struct OutsideCursor<T>(std::io::Cursor<T>);

/// The bytes that an archive was opened on.
pub uninterp spec fn archive_bytes(archive: zip::ZipArchive<std::io::Cursor<Vec<u8>>>) -> Seq<u8>;

/// The number of entries of a ZIP archive, or none where the bytes are no
/// archive.
pub uninterp spec fn archive_len(bytes: Seq<u8>) -> Option<int>;

/// The name of an entry, or none where the entry cannot be opened.
pub uninterp spec fn entry_name(bytes: Seq<u8>, index: int) -> Option<Seq<char>>;

/// The contents of an entry, or none where they cannot be read.
pub uninterp spec fn entry_data(bytes: Seq<u8>, index: int) -> Option<Seq<u8>>;

/// Calls `zip::ZipArchive::new` on bytes. Whether the call succeeds is up to
/// the bytes alone: it does where `archive_len` has a number.
#[verifier::external_body]
fn open_archive(bytes: Vec<u8>) -> (r: Option<zip::ZipArchive<std::io::Cursor<Vec<u8>>>>)
    ensures
        r is Some <==> archive_len(bytes@) is Some,
        r matches Some(archive) ==> archive_bytes(archive) == bytes@,
{
    zip::ZipArchive::new(std::io::Cursor::new(bytes)).ok()
}

/// Calls `zip::ZipArchive::len`, whose result goes by the name `archive_len`.
#[verifier::external_body]
fn count_entries(archive: &zip::ZipArchive<std::io::Cursor<Vec<u8>>>) -> (n: usize)
    ensures
        archive_len(archive_bytes(*archive)) == Some(n as int),
{
    archive.len()
}

/// Calls `zip::ZipArchive::by_index` and `name` of the entry. The result goes
/// by the name `entry_name`; the archive stays that of the same bytes.
#[verifier::external_body]
fn open_entry(archive: &mut zip::ZipArchive<std::io::Cursor<Vec<u8>>>, index: usize) -> (r: Option<
    String,
>)
    ensures
        archive_bytes(*final(archive)) == archive_bytes(*old(archive)),
        match r {
            Some(name) => entry_name(archive_bytes(*old(archive)), index as int) == Some(name@),
            None => entry_name(archive_bytes(*old(archive)), index as int) is None,
        },
{
    archive.by_index(index).ok().map(|entry| entry.name().to_string())
}

/// Calls `zip::ZipArchive::by_index` and reads the entry to its end. The
/// result goes by the name `entry_data`; the archive stays that of the same
/// bytes.
#[verifier::external_body]
fn read_entry(archive: &mut zip::ZipArchive<std::io::Cursor<Vec<u8>>>, index: usize) -> (r: Option<
    Vec<u8>,
>)
    ensures
        archive_bytes(*final(archive)) == archive_bytes(*old(archive)),
        match r {
            Some(data) => entry_data(archive_bytes(*old(archive)), index as int) == Some(data@),
            None => entry_data(archive_bytes(*old(archive)), index as int) is None,
        },
{
    let mut data: Vec<u8> = Vec::new();
    let mut entry = archive.by_index(index).ok()?;
    std::io::copy(&mut entry, &mut data).ok()?;
    Some(data)
}

/// Why an add-on cannot be read.
#[derive(Debug, Clone, Copy, PartialEq, Eq, Structural)]
pub enum AddonError {
    /// It is no ZIP archive.
    NotAnArchive,
    /// The entry of this number cannot be opened or read.
    BrokenEntry(usize),
}

/// A file of the voice.
#[derive(Debug)]
pub struct VoiceFile {
    pub name: String,
    pub data: Vec<u8>,
}

/// An add-on whose files are being taken out.
pub struct Addon {
    archive: zip::ZipArchive<std::io::Cursor<Vec<u8>>>,
    count: usize,
    next: usize,
}

/// The files that every voice shares, and that come with the engine instead.
pub open spec fn common_names() -> Seq<Seq<char>> {
    seq!["sysdct.dat"@, "clm.dat"@, "lid.dat"@, "synth_med_fxd_bet3f22.dat"@]
}

/// A file that every voice shares.
pub open spec fn is_common(name: Seq<char>) -> bool {
    common_names().contains(name)
}

/// An entry is a file of the voice: data or a header, and not a common one.
pub open spec fn is_wanted(name: Seq<char>) -> bool {
    &&& text::ends_with(name, ".dat"@) || text::ends_with(name, ".hdr"@)
    &&& !is_common(text::base_name(name))
}

/// The next file of the voice, at entry `from` or behind: its entry, name and
/// contents.
pub enum Finding {
    /// There is none.
    Nothing,
    /// An entry before it cannot be read.
    Broken(int),
    /// It is this one.
    File(int, Seq<char>, Seq<u8>),
}

/// The next file of the voice among the first `count` entries, at entry `from`
/// or behind.
pub open spec fn find_file(bytes: Seq<u8>, count: int, from: int) -> Finding
    decreases count - from,
{
    if from >= count {
        Finding::Nothing
    } else {
        match entry_name(bytes, from) {
            None => Finding::Broken(from),
            Some(name) => if is_wanted(name) {
                match entry_data(bytes, from) {
                    None => Finding::Broken(from),
                    Some(data) => Finding::File(from, text::base_name(name), data),
                }
            } else {
                find_file(bytes, count, from + 1)
            },
        }
    }
}

/// The files of the voice among the first `count` entries, at entry `from` or
/// behind, up to an entry that cannot be read.
pub open spec fn all_files(bytes: Seq<u8>, count: int, from: int) -> Seq<(Seq<char>, Seq<u8>)>
    decreases count - from,
{
    if from >= count {
        Seq::empty()
    } else {
        match entry_name(bytes, from) {
            None => Seq::empty(),
            Some(name) => if is_wanted(name) {
                match entry_data(bytes, from) {
                    None => Seq::empty(),
                    Some(data) => seq![(text::base_name(name), data)] + all_files(
                        bytes,
                        count,
                        from + 1,
                    ),
                }
            } else {
                all_files(bytes, count, from + 1)
            },
        }
    }
}

/// The files that every voice shares.
pub fn common_files() -> (list: Vec<String>)
    ensures
        text::views(list@) == common_names(),
{
    let mut list: Vec<String> = Vec::new();
    list.push("sysdct.dat".to_owned());
    list.push("clm.dat".to_owned());
    list.push("lid.dat".to_owned());
    list.push("synth_med_fxd_bet3f22.dat".to_owned());
    assert(text::views(list@) =~= common_names());
    list
}

/// Whether a file is a common one.
fn names_common(name: &str) -> (r: bool)
    ensures
        r == is_common(name@),
{
    let list: Vec<String> = common_files();
    let mut i: usize = 0;
    while i < list.len()
        invariant
            i <= list@.len(),
            text::views(list@) == common_names(),
            forall|k: int| 0 <= k < i ==> common_names()[k] != name@,
        decreases list@.len() - i,
    {
        assert(common_names()[i as int] == list@[i as int]@);
        if text::same(name, list[i].as_str()) {
            return true;
        }
        i = i + 1;
    }
    false
}

/// The name under which an entry is a file of the voice, if it is one.
pub fn wanted_file(entry: &str) -> (r: Option<String>)
    ensures
        r is Some <==> is_wanted(entry@),
        r matches Some(name) ==> name@ == text::base_name(entry@),
{
    if text::has_suffix(entry, ".dat") || text::has_suffix(entry, ".hdr") {
        let name: String = text::file_name(entry);
        if !names_common(name.as_str()) {
            return Some(name);
        }
    }
    None
}

impl Addon {
    /// The bytes of the add-on.
    pub closed spec fn bytes(self) -> Seq<u8> {
        archive_bytes(self.archive)
    }

    /// The number of its entries.
    pub closed spec fn count(self) -> int {
        self.count as int
    }

    /// The entry that is looked at next.
    pub closed spec fn next(self) -> int {
        self.next as int
    }

    /// Opens an add-on.
    pub fn open(bytes: Vec<u8>) -> (r: Result<Addon, AddonError>)
        ensures
            r is Ok <==> archive_len(bytes@) is Some,
            r matches Err(error) ==> error == AddonError::NotAnArchive,
            r matches Ok(addon) ==> addon.bytes() == bytes@ && archive_len(bytes@) == Some(
                addon.count(),
            ) && addon.next() == 0,
    {
        match open_archive(bytes) {
            Some(archive) => {
                let count: usize = count_entries(&archive);
                Ok(Addon { archive, count, next: 0 })
            },
            None => Err(AddonError::NotAnArchive),
        }
    }

    /// Takes out the next file of the voice.
    pub fn next_file(&mut self) -> (r: Result<Option<VoiceFile>, AddonError>)
        ensures
            final(self).bytes() == old(self).bytes(),
            final(self).count() == old(self).count(),
            match find_file(old(self).bytes(), old(self).count(), old(self).next()) {
                Finding::Nothing => r matches Ok(None) && final(self).next() >= old(self).count(),
                Finding::Broken(index) => r matches Err(AddonError::BrokenEntry(i)) && i == index
                    && final(self).next() == index,
                Finding::File(index, name, data) => r matches Ok(Some(file)) && file.name@ == name
                    && file.data@ == data && final(self).next() == index + 1,
            },
    {
        let ghost bytes = self.bytes();
        let ghost start = self.next();
        while self.next < self.count
            invariant
                self.bytes() == bytes,
                start == old(self).next(),
                self.bytes() == old(self).bytes(),
                self.count() == old(self).count(),
                self.count == self.count(),
                self.next == self.next(),
                find_file(bytes, self.count(), start) == find_file(
                    bytes,
                    self.count(),
                    self.next(),
                ),
            decreases self.count - self.next,
        {
            let index: usize = self.next;
            let entry: String = match open_entry(&mut self.archive, index) {
                Some(entry) => entry,
                None => {
                    return Err(AddonError::BrokenEntry(index));
                },
            };
            if let Some(name) = wanted_file(entry.as_str()) {
                match read_entry(&mut self.archive, index) {
                    Some(data) => {
                        self.next = index + 1;
                        return Ok(Some(VoiceFile { name, data }));
                    },
                    None => {
                        return Err(AddonError::BrokenEntry(index));
                    },
                }
            }
            self.next = index + 1;
        }
        Ok(None)
    }
}

/// Taking out one file after the other takes out all of them, in the order of
/// the archive.
pub proof fn law_files_in_order(bytes: Seq<u8>, count: int, from: int)
    ensures
        match find_file(bytes, count, from) {
            Finding::File(index, name, data) => from <= index < count && all_files(
                bytes,
                count,
                from,
            ) == seq![(name, data)] + all_files(bytes, count, index + 1),
            _ => all_files(bytes, count, from) == Seq::<(Seq<char>, Seq<u8>)>::empty(),
        },
    decreases count - from,
{
    if from < count && entry_name(bytes, from) is Some && !is_wanted(entry_name(bytes, from)->0) {
        law_files_in_order(bytes, count, from + 1);
    }
}

/// Every entry at `from` or behind can be opened, and those that are files of
/// the voice can be read.
pub open spec fn can_be_taken_out(bytes: Seq<u8>, count: int, from: int) -> bool {
    forall|i: int|
        from <= i < count ==> #[trigger] entry_name(bytes, i) is Some && (is_wanted(
            entry_name(bytes, i)->0,
        ) ==> entry_data(bytes, i) is Some)
}

/// Every file of the voice is taken out of an archive whose files can be read.
pub proof fn law_no_file_missing(bytes: Seq<u8>, count: int, from: int, index: int)
    requires
        from <= index < count,
        can_be_taken_out(bytes, count, from),
        is_wanted(entry_name(bytes, index)->0),
    ensures
        all_files(bytes, count, from).contains(
            (text::base_name(entry_name(bytes, index)->0), entry_data(bytes, index)->0),
        ),
    decreases index - from,
{
    let file = (text::base_name(entry_name(bytes, index)->0), entry_data(bytes, index)->0);
    let all = all_files(bytes, count, from);
    assert(entry_name(bytes, from) is Some);
    if from == index {
        assert(all[0] == file);
    } else {
        law_no_file_missing(bytes, count, from + 1, index);
        let rest = all_files(bytes, count, from + 1);
        let i = choose|i: int| 0 <= i < rest.len() && rest[i] == file;
        if is_wanted(entry_name(bytes, from)->0) {
            assert(all[i + 1] == file);
        } else {
            assert(all[i] == file);
        }
    }
}

/// A file that is taken out has a plain name, which keeps it inside the
/// directory of the voice, and never takes the place of a common file.
pub proof fn law_names_are_plain(bytes: Seq<u8>, count: int, from: int, k: int)
    requires
        0 <= k < all_files(bytes, count, from).len(),
    ensures
        ({
            let name = all_files(bytes, count, from)[k].0;
            &&& !name.contains('/')
            &&& !is_common(name)
            &&& text::ends_with(name, ".dat"@) || text::ends_with(name, ".hdr"@)
        }),
    decreases count - from,
{
    let name = entry_name(bytes, from)->0;
    if is_wanted(name) {
        reveal_strlit(".dat");
        reveal_strlit(".hdr");
        text::lemma_base_name(name);
        if text::ends_with(name, ".dat"@) {
            text::lemma_base_name_end(name, ".dat"@);
        } else {
            text::lemma_base_name_end(name, ".hdr"@);
        }
        if k > 0 {
            law_names_are_plain(bytes, count, from + 1, k - 1);
        }
    } else {
        law_names_are_plain(bytes, count, from + 1, k);
    }
}

/// A voice that was taken out of an add-on is found in its directory again: a
/// pipeline header is one of the files that are taken out.
pub proof fn law_voice_is_found_again(bytes: Seq<u8>, count: int, index: int)
    requires
        0 <= index < count,
        can_be_taken_out(bytes, count, 0),
        runtime::is_header(text::base_name(entry_name(bytes, index)->0)),
    ensures
        exists|k: int|
            0 <= k < all_files(bytes, count, 0).len() && runtime::is_header(
                (#[trigger] all_files(bytes, count, 0)[k]).0,
            ),
{
    let path = entry_name(bytes, index)->0;
    let name = text::base_name(path);
    reveal_strlit(".hdr");
    reveal_strlit("sysdct.dat");
    reveal_strlit("clm.dat");
    reveal_strlit("lid.dat");
    reveal_strlit("synth_med_fxd_bet3f22.dat");
    assert(name.subrange(name.len() - 4, name.len() as int)[3] == 'r');
    assert(name.last() == 'r');
    assert(!is_common(name)) by {
        assert forall|i: int| 0 <= i < common_names().len() implies common_names()[i] != name by {
            assert(common_names()[i].last() == 't');
        }
    }
    text::lemma_base_name_is_end(path, ".hdr"@);
    law_no_file_missing(bytes, count, 0, index);
    let file = (name, entry_data(bytes, index)->0);
    let k = choose|k: int|
        0 <= k < all_files(bytes, count, 0).len() && all_files(bytes, count, 0)[k] == file;
    assert(runtime::is_header(all_files(bytes, count, 0)[k].0));
}

/// An entry is a file of the voice where its name is something and one of two
/// extensions, and where it is not one of the four files that every voice
/// shares, whatever directory it stands in.
pub proof fn law_wanted_names(stem: Seq<char>, name: Seq<char>)
    ensures
        is_wanted(name) <==> ((text::ends_with(name, ".dat"@) || text::ends_with(name, ".hdr"@))
            && text::base_name(name) != "sysdct.dat"@ && text::base_name(name) != "clm.dat"@
            && text::base_name(name) != "lid.dat"@ && text::base_name(name)
            != "synth_med_fxd_bet3f22.dat"@),
        text::ends_with(stem + ".dat"@, ".dat"@),
        text::ends_with(stem + ".hdr"@, ".hdr"@),
{
    lemma_common(text::base_name(name));
    assert((stem + ".dat"@).subrange(stem.len() as int, (stem + ".dat"@).len() as int) =~= ".dat"@);
    assert((stem + ".hdr"@).subrange(stem.len() as int, (stem + ".hdr"@).len() as int) =~= ".hdr"@);
}

/// The four files that every voice shares.
proof fn lemma_common(name: Seq<char>)
    ensures
        is_common(name) <==> (name == "sysdct.dat"@ || name == "clm.dat"@ || name == "lid.dat"@
            || name == "synth_med_fxd_bet3f22.dat"@),
{
    let list = common_names();
    assert(list[0] == "sysdct.dat"@ && list[1] == "clm.dat"@);
    assert(list[2] == "lid.dat"@ && list[3] == "synth_med_fxd_bet3f22.dat"@);
}

/// What is taken out are entries of the archive that are files of the voice,
/// with their contents, under the last parts of their names.
pub proof fn law_only_wanted_taken_out(bytes: Seq<u8>, count: int, from: int, k: int)
    requires
        0 <= k < all_files(bytes, count, from).len(),
    ensures
        exists|i: int|
            from <= i < count && (#[trigger] entry_name(bytes, i)) is Some && is_wanted(
                entry_name(bytes, i)->0,
            ) && entry_data(bytes, i) is Some && all_files(bytes, count, from)[k] == (
                text::base_name(entry_name(bytes, i)->0),
                entry_data(bytes, i)->0,
            ),
    decreases count - from,
{
    let all = all_files(bytes, count, from);
    let name = entry_name(bytes, from)->0;
    let rest = all_files(bytes, count, from + 1);
    if is_wanted(name) && k == 0 {
        assert(entry_name(bytes, from) is Some);
    } else {
        let j = if is_wanted(name) {
            k - 1
        } else {
            k
        };
        assert(all[k] == rest[j]);
        law_only_wanted_taken_out(bytes, count, from + 1, j);
        let i = choose|i: int|
            from + 1 <= i < count && (#[trigger] entry_name(bytes, i)) is Some && is_wanted(
                entry_name(bytes, i)->0,
            ) && entry_data(bytes, i) is Some && rest[j] == (
                text::base_name(entry_name(bytes, i)->0),
                entry_data(bytes, i)->0,
            );
        assert(entry_name(bytes, i) is Some);
    }
}

/// An archive gives as many files as it has entries that are files of the voice,
/// one for each: one more entry gives one more file at the end, or none.
pub proof fn law_one_file_for_each_entry(bytes: Seq<u8>, count: int, from: int)
    requires
        from <= count,
        can_be_taken_out(bytes, count + 1, from),
    ensures
        all_files(bytes, from, from).len() == 0,
        all_files(bytes, count + 1, from) == all_files(bytes, count, from) + (if is_wanted(
            entry_name(bytes, count)->0,
        ) {
            seq![(text::base_name(entry_name(bytes, count)->0), entry_data(bytes, count)->0)]
        } else {
            Seq::empty()
        }),
    decreases count - from,
{
    let last = if is_wanted(entry_name(bytes, count)->0) {
        seq![(text::base_name(entry_name(bytes, count)->0), entry_data(bytes, count)->0)]
    } else {
        Seq::<(Seq<char>, Seq<u8>)>::empty()
    };
    assert(entry_name(bytes, from) is Some);
    assert(entry_name(bytes, count) is Some);
    if from == count {
        reveal_with_fuel(all_files, 2);
        assert(all_files(bytes, count + 1, from) =~= all_files(bytes, count, from) + last);
    } else {
        assert(can_be_taken_out(bytes, count + 1, from + 1)) by {
            assert forall|i: int| from + 1 <= i < count + 1 implies #[trigger] entry_name(bytes, i)
                is Some && (is_wanted(entry_name(bytes, i)->0) ==> entry_data(bytes, i)
                is Some) by {}
        }
        law_one_file_for_each_entry(bytes, count, from + 1);
        assert(all_files(bytes, count + 1, from) =~= all_files(bytes, count, from) + last);
    }
}

} // verus!
