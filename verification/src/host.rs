//! What belongs to one guest: the host's state, the directory of the voice, and
//! the guest's memory, once the guest is loaded.

use crate::state;
use crate::state::State;
use vstd::prelude::*;

verus! {

/// The host of one guest. `D` names the voice directory, and `M` the guest's
/// memory in the runtime that runs it.
pub struct Host<D, M> {
    state: State,
    voice_dir: D,
    memory: Option<M>,
}

impl<D, M> Host<D, M> {
    /// The host's state.
    pub closed spec fn inner(self) -> State {
        self.state
    }

    /// The voice directory.
    pub closed spec fn dir(self) -> D {
        self.voice_dir
    }

    /// The guest's memory, once the guest is loaded.
    pub closed spec fn held(self) -> Option<M> {
        self.memory
    }

    /// The host of a guest that is not loaded yet.
    pub fn new(voice_dir: D) -> (h: Host<D, M>)
        ensures
            h.inner()@ == state::fresh(),
            state::descriptors_used(h.inner()@),
            state::assets_distinct(h.inner()@),
            h.dir() == voice_dir,
            h.held() is None,
    {
        Host { state: State::new(), voice_dir, memory: None }
    }

    /// Takes the memory of the guest that is being loaded. It stays from there
    /// on, and so do the voice directory and the state.
    pub fn attach(&mut self, memory: M)
        ensures
            final(self).held() == Some(memory),
            final(self).dir() == old(self).dir(),
            final(self).inner() == old(self).inner(),
    {
        self.memory = Some(memory);
    }

    /// The host's state, to be changed. Memory and voice directory stay.
    pub fn state(&mut self) -> (state: &mut State)
        ensures
            *state == old(self).inner(),
            final(self).inner() == *final(state),
            final(self).dir() == old(self).dir(),
            final(self).held() == old(self).held(),
    {
        &mut self.state
    }

    /// Whether the guest's memory is there.
    pub fn has_memory(&self) -> (r: bool)
        ensures
            r == self.held() is Some,
    {
        self.memory.is_some()
    }

    /// The guest's memory.
    pub fn get_memory(&self) -> (memory: &M)
        requires
            self.held() is Some,
        ensures
            *memory == self.held()->0,
    {
        self.memory.as_ref().unwrap()
    }

    /// The voice directory.
    pub fn voice_dir(&self) -> (dir: &D)
        ensures
            *dir == self.dir(),
    {
        &self.voice_dir
    }
}

} // verus!
