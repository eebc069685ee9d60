//! How the files of an add-on's voice come into a directory: unpacked, unless a
//! cache directory holds them already.

use crate::addon;
#[allow(unused_imports)]
use crate::runtime;
use vstd::prelude::*;

verus! {

/// What has to be done next to have the voice.
#[derive(Debug, Clone, Copy, PartialEq, Eq, Structural)]
pub enum InstallStep {
    /// Create the directory, unless it is there.
    CreateDir,
    /// Look whether the directory holds a pipeline header, as
    /// `voices::has_header` tells: the step is done where it does.
    Look,
    /// Unpack the add-on into the directory.
    Unpack,
    /// Open the voice in the directory.
    Open,
    /// There is no voice.
    Failed,
}

/// A voice on its way into a directory.
#[derive(Debug)]
pub struct Install {
    step: InstallStep,
}

/// The step that follows one that was done, well or not.
pub open spec fn install_after(step: InstallStep, done: bool) -> InstallStep {
    match step {
        InstallStep::CreateDir => if done {
            InstallStep::Look
        } else {
            InstallStep::Failed
        },
        InstallStep::Look => if done {
            InstallStep::Open
        } else {
            InstallStep::Unpack
        },
        InstallStep::Unpack => if done {
            InstallStep::Open
        } else {
            InstallStep::Failed
        },
        InstallStep::Open => InstallStep::Open,
        InstallStep::Failed => InstallStep::Failed,
    }
}

impl Install {
    /// What has to be done next.
    pub closed spec fn step(self) -> InstallStep {
        self.step
    }

    /// A voice that is unpacked into a new directory.
    pub fn from_addon() -> (i: Install)
        ensures
            i.step() == InstallStep::Unpack,
    {
        Install { step: InstallStep::Unpack }
    }

    /// A voice that is unpacked into a cache directory once.
    pub fn from_addon_cached() -> (i: Install)
        ensures
            i.step() == InstallStep::CreateDir,
    {
        Install { step: InstallStep::CreateDir }
    }

    /// What has to be done next.
    pub fn current(&self) -> (step: InstallStep)
        ensures
            step == self.step(),
    {
        self.step
    }

    /// Takes note of whether the step was done.
    pub fn report(&mut self, done: bool)
        ensures
            final(self).step() == install_after(old(self).step(), done),
    {
        self.step = match self.step {
            InstallStep::CreateDir => if done {
                InstallStep::Look
            } else {
                InstallStep::Failed
            },
            InstallStep::Look => if done {
                InstallStep::Open
            } else {
                InstallStep::Unpack
            },
            InstallStep::Unpack => if done {
                InstallStep::Open
            } else {
                InstallStep::Failed
            },
            InstallStep::Open => InstallStep::Open,
            InstallStep::Failed => InstallStep::Failed,
        };
    }
}

/// A directory: the names of its files, or none where it does not exist.
pub type Directory = Option<Seq<Seq<char>>>;

/// What the world allows during an installation: that the directory is
/// created, and the names of the files that unpacking the add-on writes, or
/// none where that fails.
pub struct Source {
    pub creatable: bool,
    pub files: Option<Seq<Seq<char>>>,
}

/// An installation: the next step, the directory, and whether the add-on was
/// opened.
pub struct Installation {
    pub step: InstallStep,
    pub dir: Directory,
    pub opened: bool,
}

/// Some file is a pipeline header.
pub open spec fn some_header(names: Seq<Seq<char>>) -> bool {
    exists|i: int| 0 <= i < names.len() && runtime::is_header(#[trigger] names[i])
}

/// The files of a directory.
pub open spec fn names_in(dir: Directory) -> Seq<Seq<char>> {
    match dir {
        Some(names) => names,
        None => Seq::empty(),
    }
}

/// An installation, one step on.
pub open spec fn install_step(i: Installation, source: Source) -> Installation {
    match i.step {
        InstallStep::CreateDir => Installation {
            step: install_after(i.step, i.dir is Some || source.creatable),
            dir: if i.dir is None && source.creatable {
                Some(Seq::empty())
            } else {
                i.dir
            },
            ..i
        },
        InstallStep::Look => Installation {
            step: install_after(i.step, some_header(names_in(i.dir))),
            ..i
        },
        InstallStep::Unpack => match source.files {
            Some(files) => Installation {
                step: install_after(i.step, true),
                dir: Some(names_in(i.dir) + files),
                opened: true,
            },
            None => Installation { step: install_after(i.step, false), opened: true, ..i },
        },
        InstallStep::Open => i,
        InstallStep::Failed => i,
    }
}

/// An installation into a cache directory, gone through to its end: after three
/// steps it has opened the voice or has failed.
pub open spec fn installed(dir: Directory, source: Source) -> Installation {
    let begin = Installation { step: InstallStep::CreateDir, dir, opened: false };
    install_step(install_step(install_step(begin, source), source), source)
}

/// A cache directory is there afterwards or the installation fails. Where it
/// holds a pipeline header, the add-on is not opened and the directory stays as
/// it is. Where it holds none, the add-on is unpacked first; failing that, the
/// installation fails.
pub proof fn law_unpacked_where_missing(dir: Directory, source: Source)
    ensures
        ({
            let end = installed(dir, source);
            if dir is None && !source.creatable {
                end.step == InstallStep::Failed && !end.opened && end.dir == dir
            } else if some_header(names_in(dir)) {
                end.step == InstallStep::Open && !end.opened && end.dir == dir
            } else {
                &&& end.opened
                &&& end.dir is Some
                &&& source.files is None ==> end.step == InstallStep::Failed
                &&& source.files matches Some(files) ==> end.step == InstallStep::Open && end.dir
                    == Some(names_in(dir) + files)
            }
        }),
{
    if dir is None {
        assert(!some_header(Seq::<Seq<char>>::empty()));
    }
}

/// The names of the files that an add-on's voice is unpacked into: its own and
/// the common ones.
pub open spec fn unpacked_names(bytes: Seq<u8>, count: int) -> Seq<Seq<char>> {
    let files = addon::all_files(bytes, count, 0);
    Seq::new(files.len(), |k: int| files[k].0) + addon::common_names()
}

/// An add-on with a pipeline header is unpacked into a cache directory once:
/// the next installation finds the header and does not open the add-on, be it
/// missing.
pub proof fn law_unpacked_once(
    bytes: Seq<u8>,
    count: int,
    index: int,
    dir: Directory,
    source: Source,
    later: Source,
)
    requires
        0 <= index < count,
        addon::can_be_taken_out(bytes, count, 0),
        runtime::is_header(crate::text::base_name(addon::entry_name(bytes, index)->0)),
        source.files == Some(unpacked_names(bytes, count)),
        installed(dir, source).step == InstallStep::Open,
    ensures
        ({
            let end = installed(dir, source);
            let next = installed(end.dir, later);
            &&& next.step == InstallStep::Open
            &&& !next.opened
            &&& next.dir == end.dir
        }),
{
    let end = installed(dir, source);
    law_unpacked_where_missing(dir, source);
    law_unpacked_where_missing(end.dir, later);
    if !some_header(names_in(dir)) {
        addon::law_voice_is_found_again(bytes, count, index);
        let files = addon::all_files(bytes, count, 0);
        let k = choose|k: int|
            0 <= k < files.len() && runtime::is_header((#[trigger] files[k]).0);
        let names = names_in(end.dir);
        assert(names[names_in(dir).len() + k] == files[k].0);
        assert(some_header(names));
    }
}

} // verus!
