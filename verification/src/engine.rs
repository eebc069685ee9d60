//! How the engine's module is had: from a cache where there is a sound one,
//! or by compiling it.

use vstd::prelude::*;

verus! {

/// What has to be done next to get the module.
#[derive(Debug, Clone, Copy, PartialEq, Eq, Structural)]
pub enum EngineStep {
    /// Create the cache directory, unless it is there.
    CreateDir,
    /// Look whether a cached module is there: the step is done where one is.
    Look,
    /// Load the cached module.
    Load,
    /// Remove the cached module; it does not matter if that fails.
    Discard,
    /// Compile the module.
    Compile,
    /// Save the compiled module in the cache; it does not matter if that
    /// fails.
    Save,
    /// Use the module that was loaded or compiled.
    Ready,
    /// There is no module.
    Failed,
}

/// A module on its way.
#[derive(Debug)]
pub struct Engine {
    step: EngineStep,
    saves: bool,
}

/// The step that follows one that was done, well or not.
pub open spec fn step_after(step: EngineStep, saves: bool, done: bool) -> EngineStep {
    match step {
        EngineStep::CreateDir => if done {
            EngineStep::Look
        } else {
            EngineStep::Failed
        },
        EngineStep::Look => if done {
            EngineStep::Load
        } else {
            EngineStep::Compile
        },
        EngineStep::Load => if done {
            EngineStep::Ready
        } else {
            EngineStep::Discard
        },
        EngineStep::Discard => EngineStep::Compile,
        EngineStep::Compile => if !done {
            EngineStep::Failed
        } else if saves {
            EngineStep::Save
        } else {
            EngineStep::Ready
        },
        EngineStep::Save => EngineStep::Ready,
        EngineStep::Ready => EngineStep::Ready,
        EngineStep::Failed => EngineStep::Failed,
    }
}

impl Engine {
    /// What has to be done next.
    pub closed spec fn step(self) -> EngineStep {
        self.step
    }

    /// A compiled module is saved.
    pub closed spec fn saves(self) -> bool {
        self.saves
    }

    /// A module without a cache.
    pub fn new() -> (e: Engine)
        ensures
            e.step() == EngineStep::Compile,
            !e.saves(),
    {
        Engine { step: EngineStep::Compile, saves: false }
    }

    /// A module with a cache directory.
    pub fn with_cache() -> (e: Engine)
        ensures
            e.step() == EngineStep::CreateDir,
            e.saves(),
    {
        Engine { step: EngineStep::CreateDir, saves: true }
    }

    /// A module of a file, with a cache beside it.
    pub fn from_file() -> (e: Engine)
        ensures
            e.step() == EngineStep::Look,
            e.saves(),
    {
        Engine { step: EngineStep::Look, saves: true }
    }

    /// What has to be done next.
    pub fn current(&self) -> (step: EngineStep)
        ensures
            step == self.step(),
    {
        self.step
    }

    /// Takes note of whether the step was done.
    pub fn report(&mut self, done: bool)
        ensures
            final(self).step() == step_after(old(self).step(), old(self).saves(), done),
            final(self).saves() == old(self).saves(),
    {
        self.step = match self.step {
            EngineStep::CreateDir => if done {
                EngineStep::Look
            } else {
                EngineStep::Failed
            },
            EngineStep::Look => if done {
                EngineStep::Load
            } else {
                EngineStep::Compile
            },
            EngineStep::Load => if done {
                EngineStep::Ready
            } else {
                EngineStep::Discard
            },
            EngineStep::Discard => EngineStep::Compile,
            EngineStep::Compile => if !done {
                EngineStep::Failed
            } else if self.saves {
                EngineStep::Save
            } else {
                EngineStep::Ready
            },
            EngineStep::Save => EngineStep::Ready,
            EngineStep::Ready => EngineStep::Ready,
            EngineStep::Failed => EngineStep::Failed,
        };
    }
}

/// The steps that are left at most.
pub open spec fn steps_left(step: EngineStep) -> int {
    match step {
        EngineStep::CreateDir => 6,
        EngineStep::Look => 5,
        EngineStep::Load => 4,
        EngineStep::Discard => 3,
        EngineStep::Compile => 2,
        EngineStep::Save => 1,
        EngineStep::Ready => 0,
        EngineStep::Failed => 0,
    }
}

/// Getting a module ends, and nothing but a missing directory or a failed
/// compilation makes it fail: a cached module that cannot be loaded, removed or
/// written never does.
pub proof fn law_cache_never_fails(step: EngineStep, saves: bool, done: bool)
    ensures
        steps_left(step) > 0 ==> steps_left(step_after(step, saves, done)) < steps_left(step),
        step_after(step, saves, done) == EngineStep::Failed ==> step == EngineStep::Failed || ((step
            == EngineStep::Compile || step == EngineStep::CreateDir) && !done),
{
}

/// A module is used only where it was loaded or compiled.
pub proof fn law_ready_has_module(step: EngineStep, saves: bool, done: bool)
    requires
        step_after(step, saves, done) == EngineStep::Ready,
    ensures
        step == EngineStep::Ready || step == EngineStep::Save || ((step == EngineStep::Load || step
            == EngineStep::Compile) && done),
{
}

/// The file of a cached module.
pub enum CacheFile {
    Missing,
    /// It can be loaded.
    Sound,
    /// It cannot be loaded.
    Broken,
}

/// A cache on a disk: whether its directory is there, and its file.
pub struct Disk {
    pub dir: bool,
    pub file: CacheFile,
}

/// What the world allows during a start: that the directory is created, the
/// file removed, the module compiled, and the file written. `leftover` is what
/// becomes of a file whose writing fails.
pub struct World {
    pub creatable: bool,
    pub removable: bool,
    pub compiles: bool,
    pub writable: bool,
    pub leftover: CacheFile,
}

/// Where a module was had from.
pub enum Origin {
    Cache,
    Compiler,
}

/// A start: the next step, the disk, and the module, if there is one.
pub struct Start {
    pub step: EngineStep,
    pub disk: Disk,
    pub module: Option<Origin>,
}

/// A step is done well.
pub open spec fn succeeds(step: EngineStep, disk: Disk, w: World) -> bool {
    match step {
        EngineStep::CreateDir => disk.dir || w.creatable,
        EngineStep::Look => disk.file !is Missing,
        EngineStep::Load => disk.file is Sound,
        EngineStep::Discard => w.removable,
        EngineStep::Compile => w.compiles,
        EngineStep::Save => w.writable,
        EngineStep::Ready => true,
        EngineStep::Failed => true,
    }
}

/// The disk after a step. No step but three of them changes it.
pub open spec fn disk_after(step: EngineStep, disk: Disk, w: World) -> Disk {
    match step {
        EngineStep::CreateDir => Disk { dir: disk.dir || w.creatable, ..disk },
        EngineStep::Discard => if w.removable {
            Disk { file: CacheFile::Missing, ..disk }
        } else {
            disk
        },
        EngineStep::Save => if w.writable {
            Disk { file: CacheFile::Sound, ..disk }
        } else {
            Disk { file: w.leftover, ..disk }
        },
        _ => disk,
    }
}

/// A start, one step on.
pub open spec fn advance(s: Start, saves: bool, w: World) -> Start {
    let done = succeeds(s.step, s.disk, w);
    Start {
        step: step_after(s.step, saves, done),
        disk: disk_after(s.step, s.disk, w),
        module: if s.step == EngineStep::Load && done {
            Some(Origin::Cache)
        } else if s.step == EngineStep::Compile && done {
            Some(Origin::Compiler)
        } else {
            s.module
        },
    }
}

/// A start, gone through to its end.
pub open spec fn finished(s: Start, saves: bool, w: World) -> Start
    decreases steps_left(s.step),
{
    if steps_left(s.step) <= 0 {
        s
    } else {
        finished(advance(s, saves, w), saves, w)
    }
}

/// The end of a start from the step `first`.
pub open spec fn started(first: EngineStep, saves: bool, disk: Disk, w: World) -> Start {
    finished(Start { step: first, disk, module: None }, saves, w)
}

/// With a cache directory, the directory is there afterwards or the start
/// fails. A sound module is loaded: the disk stays as it is, and nothing is
/// compiled. Without one the module is compiled, and saved where that is
/// possible; that it is not possible is no error.
pub proof fn law_start_with_cache(disk: Disk, w: World)
    ensures
        ({
            let end = started(EngineStep::CreateDir, true, disk, w);
            if !disk.dir && !w.creatable {
                end.step == EngineStep::Failed && end.disk == disk
            } else {
                &&& end.disk.dir
                &&& disk.file is Sound ==> end.step == EngineStep::Ready && end.module == Some(
                    Origin::Cache,
                ) && end.disk.file == disk.file
                &&& disk.file !is Sound && w.compiles ==> end.step == EngineStep::Ready
                    && end.module == Some(Origin::Compiler) && (w.writable ==> end.disk.file
                    is Sound)
                &&& disk.file !is Sound && !w.compiles ==> end.step == EngineStep::Failed
            }
        }),
{
    reveal_with_fuel(finished, 8);
}

/// The same with a cache beside a file, where no directory has to be created.
pub proof fn law_start_from_file(disk: Disk, w: World)
    ensures
        ({
            let end = started(EngineStep::Look, true, disk, w);
            &&& end.disk.dir == disk.dir
            &&& disk.file is Sound ==> end.step == EngineStep::Ready && end.module == Some(
                Origin::Cache,
            ) && end.disk == disk
            &&& disk.file !is Sound && w.compiles ==> end.step == EngineStep::Ready && end.module
                == Some(Origin::Compiler) && (w.writable ==> end.disk.file is Sound)
            &&& disk.file !is Sound && !w.compiles ==> end.step == EngineStep::Failed
        }),
{
    reveal_with_fuel(finished, 8);
}

/// What one start has saved the next one loads, whatever the world allows
/// then, and it leaves it as it is.
pub proof fn law_next_start_loads(first: EngineStep, disk: Disk, w: World, later: World)
    requires
        first == EngineStep::CreateDir || first == EngineStep::Look,
        started(first, true, disk, w).step == EngineStep::Ready,
        w.writable || disk.file is Sound,
    ensures
        ({
            let end = started(first, true, disk, w);
            let next = started(first, true, end.disk, later);
            &&& next.step == EngineStep::Ready
            &&& next.module == Some(Origin::Cache)
            &&& next.disk == end.disk
        }),
{
    law_start_with_cache(disk, w);
    law_start_from_file(disk, w);
    let end = started(first, true, disk, w);
    law_start_with_cache(end.disk, later);
    law_start_from_file(end.disk, later);
}

/// Without a cache the module is compiled, and no cache is read or written.
pub proof fn law_start_without_cache(disk: Disk, w: World)
    ensures
        ({
            let end = started(EngineStep::Compile, false, disk, w);
            &&& end.disk == disk
            &&& w.compiles ==> end.step == EngineStep::Ready && end.module == Some(
                Origin::Compiler,
            )
            &&& !w.compiles ==> end.step == EngineStep::Failed && end.module is None
        }),
{
    reveal_with_fuel(finished, 8);
}

/// A cached module that cannot be loaded is removed before another is compiled,
/// where that is possible.
pub proof fn law_broken_cache_removed(disk: Disk, w: World)
    requires
        disk.file is Broken,
        w.removable,
        !w.compiles,
    ensures
        started(EngineStep::Look, true, disk, w).disk.file is Missing,
        disk.dir ==> started(EngineStep::CreateDir, true, disk, w).disk.file is Missing,
{
    reveal_with_fuel(finished, 8);
}

} // verus!
