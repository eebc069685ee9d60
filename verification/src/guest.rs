//! Calls into the engine, and the scripts of calls that set it up.
//!
//! A script is a list of steps. Steps that hand the engine a text first have it
//! allocate a block; later steps name that block by its slot, the number of
//! blocks that were allocated before it.

use crate::documents;
use crate::documents::FileEntry;
use crate::documents::ParamSetting;
#[allow(unused_imports)]
use crate::documents::Setting;
use crate::json;
use crate::memory;
use crate::num;
use crate::params::SpeechParams;
use crate::runtime;
use crate::state::Fault;
use crate::voices;
#[allow(unused_imports)]
use crate::voices::Choice;
use crate::voices::VoiceChoice;
use vstd::prelude::*;
#[allow(unused_imports)]
use vstd::utf8::*;

verus! {

/// The worker that requests go to.
pub const WORKER: i32 = -1;

/// The request that starts the engine.
pub const START_REQUEST: i32 = 1;

/// The request that selects a voice.
pub const VOICE_REQUEST: i32 = 2;

/// The request that speaks a text.
pub const SPEAK_REQUEST: i32 = 3;

/// The request that sets speech parameters.
pub const PARAMS_REQUEST: i32 = 4;

/// A call of one of the engine's functions.
#[derive(Debug, Clone, Copy, PartialEq, Eq, Structural)]
pub enum GuestCall {
    /// `_main`
    Main,
    /// `_malloc`
    Malloc { size: i32 },
    /// `_free`
    Free { ptr: i32 },
    /// `_imp_ttsInitialize`
    Initialize { worker: i32, ptr: i32, request: i32 },
    /// `_ttsSetOneParamStr`
    SetText { id: i32, ptr: i32 },
    /// `_ttsSetOneParamInt`
    SetNumber { id: i32, value: i32 },
    /// `_imp_ttsSetSpeechParams`
    SetSpeech { worker: i32, ptr: i32, request: i32 },
    /// `stackSave`
    StackSave,
    /// `stackAlloc`
    StackAlloc { size: i32 },
    /// `_imp_ttsSpeak`
    Speak { worker: i32, ptr: i32, request: i32 },
    /// `stackRestore`
    StackRestore { sp: i32 },
    /// `_worker_ttsSpeak`, with two zeros
    Continue,
}

/// A step of a script.
#[derive(Debug)]
pub enum Op {
    /// Run the engine's entry point.
    Main,
    /// Put a text into a new block.
    Store { text: String },
    /// Start the engine with the text of a slot.
    Initialize { slot: usize, request: i32 },
    /// Set a parameter to the text of a slot.
    SetText { id: i32, slot: usize },
    /// Set a parameter to a number.
    SetNumber { id: i32, value: i32 },
    /// Hand the text of a slot to the engine's parameter parser.
    SetSpeech { slot: usize, request: i32 },
    /// Give the block of a slot back.
    Free { slot: usize },
}

/// A step of a script, as mathematical values.
pub enum Step {
    Main,
    Store(Seq<char>),
    Initialize { slot: int, request: i32 },
    SetText { id: i32, slot: int },
    SetNumber { id: i32, value: i32 },
    SetSpeech { slot: int, request: i32 },
    Free(int),
}

impl View for Op {
    type V = Step;

    open spec fn view(&self) -> Step {
        match *self {
            Op::Main => Step::Main,
            Op::Store { text } => Step::Store(text@),
            Op::Initialize { slot, request } => Step::Initialize { slot: slot as int, request },
            Op::SetText { id, slot } => Step::SetText { id, slot: slot as int },
            Op::SetNumber { id, value } => Step::SetNumber { id, value },
            Op::SetSpeech { slot, request } => Step::SetSpeech { slot: slot as int, request },
            Op::Free { slot } => Step::Free(slot as int),
        }
    }
}

/// Why a script cannot go on.
#[derive(Debug, Clone, Copy, PartialEq, Eq, Structural)]
pub enum ScriptError {
    /// A size or an address leaves the range of its type.
    Fault,
    /// The engine handed out a block outside its memory.
    OutOfBounds,
}

/// A script that is being carried out.
#[derive(Debug)]
pub struct Script {
    ops: Vec<Op>,
    next: usize,
    slots: Vec<i32>,
    waiting: bool,
}

/// A script that is being carried out: its steps, how many of them were
/// called, the addresses of the blocks, and whether the last call asked for a
/// block.
#[verifier::ext_equal]
pub struct ScriptView {
    pub ops: Seq<Step>,
    pub next: int,
    pub slots: Seq<i32>,
    pub waiting: bool,
}

/// The steps of a list.
pub open spec fn steps(ops: Seq<Op>) -> Seq<Step> {
    Seq::new(ops.len(), |i: int| ops[i]@)
}

/// How many of the first `n` steps put a text into a block.
pub open spec fn stores(ops: Seq<Step>, n: int) -> int
    decreases n,
{
    if n <= 0 {
        0
    } else if ops[n - 1] is Store {
        stores(ops, n - 1) + 1
    } else {
        stores(ops, n - 1)
    }
}

/// The slot that a step names, if any.
pub open spec fn slot_of(step: Step) -> Option<int> {
    match step {
        Step::Initialize { slot, .. } => Some(slot),
        Step::SetText { slot, .. } => Some(slot),
        Step::SetSpeech { slot, .. } => Some(slot),
        Step::Free(slot) => Some(slot),
        _ => None,
    }
}

/// Every slot that a step names was filled before.
pub open spec fn slots_filled(ops: Seq<Step>) -> bool {
    forall|i: int|
        0 <= i < ops.len() ==> (slot_of(#[trigger] ops[i]) matches Some(k) ==> 0 <= k < stores(
            ops,
            i,
        ))
}

/// Every block is given back once, and no step names it from there on.
pub open spec fn blocks_freed(ops: Seq<Step>) -> bool {
    &&& forall|k: int|
        0 <= k < stores(ops, ops.len() as int) ==> #[trigger] ops.contains(Step::Free(k))
    &&& forall|i: int, j: int|
        0 <= i < j < ops.len() && #[trigger] ops[i] is Free ==> slot_of(#[trigger] ops[j])
            != Some(ops[i]->Free_0)
}

/// The call that a step makes, or none where its text has a size that is no
/// word.
pub open spec fn call_of(step: Step, slots: Seq<i32>) -> Option<GuestCall> {
    match step {
        Step::Main => Some(GuestCall::Main),
        Step::Store(text) => if runtime::block_size(encode_utf8(text)) <= i32::MAX {
            Some(GuestCall::Malloc { size: runtime::block_size(encode_utf8(text)) as i32 })
        } else {
            None
        },
        Step::Initialize { slot, request } => Some(
            GuestCall::Initialize { worker: WORKER, ptr: slots[slot], request },
        ),
        Step::SetText { id, slot } => Some(GuestCall::SetText { id, ptr: slots[slot] }),
        Step::SetNumber { id, value } => Some(GuestCall::SetNumber { id, value }),
        Step::SetSpeech { slot, request } => Some(
            GuestCall::SetSpeech { worker: WORKER, ptr: slots[slot], request },
        ),
        Step::Free(slot) => Some(GuestCall::Free { ptr: slots[slot] }),
    }
}

/// What the reply to the last call comes to: the script with the new block, or
/// an error.
pub open spec fn settled(v: ScriptView, m: Seq<u8>, reply: i32) -> Result<ScriptView, ScriptError> {
    if v.waiting {
        let at = num::unsigned64(reply as int);
        let len = encode_utf8(v.ops[v.next - 1]->Store_0).len();
        if at + len > u64::MAX {
            Err(ScriptError::Fault)
        } else if !memory::fits(m, at, len as int + 1) {
            Err(ScriptError::OutOfBounds)
        } else {
            Ok(ScriptView { slots: v.slots.push(reply), waiting: false, ..v })
        }
    } else {
        Ok(v)
    }
}

/// Memory after the reply to the last call.
pub open spec fn settled_memory(v: ScriptView, m: Seq<u8>, reply: i32) -> Seq<u8> {
    let at = num::unsigned64(reply as int);
    let bytes = encode_utf8(v.ops[v.next - 1]->Store_0);
    if v.waiting && at + bytes.len() <= u64::MAX {
        memory::put_text(m, at, bytes)
    } else {
        m
    }
}

/// A script that was not started yet.
pub open spec fn unstarted(ops: Seq<Step>) -> ScriptView {
    ScriptView { ops, next: 0, slots: Seq::empty(), waiting: false }
}

/// The addresses of the blocks once the first calls were answered by
/// `replies`.
pub open spec fn blocks(ops: Seq<Step>, replies: Seq<i32>) -> Seq<i32>
    decreases replies.len(),
{
    if replies.len() == 0 {
        Seq::empty()
    } else if ops[replies.len() - 1] is Store {
        blocks(ops, replies.drop_last()).push(replies.last())
    } else {
        blocks(ops, replies.drop_last())
    }
}

/// A script whose first calls were answered by `replies` and whose next call
/// was made and waits for its reply.
pub open spec fn called(ops: Seq<Step>, replies: Seq<i32>) -> ScriptView {
    ScriptView {
        ops,
        next: replies.len() as int + 1,
        slots: blocks(ops, replies),
        waiting: ops[replies.len() as int] is Store,
    }
}

impl View for Script {
    type V = ScriptView;

    closed spec fn view(&self) -> ScriptView {
        ScriptView {
            ops: steps(self.ops@),
            next: self.next as int,
            slots: self.slots@,
            waiting: self.waiting,
        }
    }
}

/// A script is at one of its steps, and its blocks are those of the steps
/// before.
pub open spec fn script_wf(v: ScriptView) -> bool {
    &&& slots_filled(v.ops)
    &&& 0 <= v.next <= v.ops.len()
    &&& v.waiting ==> v.next > 0 && v.ops[v.next - 1] is Store
    &&& v.slots.len() + (if v.waiting {
        1int
    } else {
        0
    }) == stores(v.ops, v.next)
}

impl Script {
    /// A script of the steps `ops`.
    fn of(ops: Vec<Op>) -> (s: Script)
        requires
            slots_filled(steps(ops@)),
        ensures
            s@ == unstarted(steps(ops@)),
            script_wf(s@),
    {
        let s: Script = Script { ops, next: 0, slots: Vec::new(), waiting: false };
        assert(s@ =~= unstarted(steps(ops@)));
        s
    }

    /// Takes the engine's reply to the last call and gives the next call, or
    /// none at the end. Before the first call the reply counts for nothing.
    pub fn step(&mut self, mem: &mut [u8], reply: i32) -> (r: Result<
        Option<GuestCall>,
        ScriptError,
    >)
        requires
            script_wf(old(self)@),
        ensures
            final(mem)@ == settled_memory(old(self)@, old(mem)@, reply),
            script_wf(final(self)@),
            match settled(old(self)@, old(mem)@, reply) {
                Err(error) => r == Err::<Option<GuestCall>, ScriptError>(error) && final(self)@
                    == old(self)@,
                Ok(v) => if v.next == v.ops.len() {
                    r == Ok::<Option<GuestCall>, ScriptError>(None) && final(self)@ == v
                } else {
                    match call_of(v.ops[v.next], v.slots) {
                        Some(call) => r == Ok::<Option<GuestCall>, ScriptError>(Some(call))
                            && final(self)@ == (ScriptView {
                            next: v.next + 1,
                            waiting: v.ops[v.next] is Store,
                            ..v
                        }),
                        None => r == Err::<Option<GuestCall>, ScriptError>(ScriptError::Fault)
                            && final(self)@ == v,
                    }
                },
            },
    {
        let ghost before = self@;
        if self.waiting {
            let at: usize = self.next - 1;
            assert(before.ops[at as int] == self.ops@[at as int]@);
            if let Op::Store { text } = &self.ops[at] {
                match runtime::place_text(mem, reply, text.as_str()) {
                    Err(_) => {
                        return Err(ScriptError::Fault);
                    },
                    Ok(stored) => {
                        if !stored {
                            return Err(ScriptError::OutOfBounds);
                        }
                    },
                }
            }
            self.slots.push(reply);
            self.waiting = false;
        }
        let ghost v = self@;
        assert(v =~= settled(before, old(mem)@, reply)->Ok_0);
        if self.next >= self.ops.len() {
            return Ok(None);
        }
        let at: usize = self.next;
        assert(v.ops[at as int] == self.ops@[at as int]@);
        let mut waiting: bool = false;
        let call: GuestCall = match &self.ops[at] {
            Op::Main => GuestCall::Main,
            Op::Store { text } => {
                match runtime::text_block(text.as_str()) {
                    Ok(size) => {
                        waiting = true;
                        GuestCall::Malloc { size }
                    },
                    Err(_) => {
                        return Err(ScriptError::Fault);
                    },
                }
            },
            Op::Initialize { slot, request } => GuestCall::Initialize {
                worker: WORKER,
                ptr: self.slots[*slot],
                request: *request,
            },
            Op::SetText { id, slot } => GuestCall::SetText { id: *id, ptr: self.slots[*slot] },
            Op::SetNumber { id, value } => GuestCall::SetNumber { id: *id, value: *value },
            Op::SetSpeech { slot, request } => GuestCall::SetSpeech {
                worker: WORKER,
                ptr: self.slots[*slot],
                request: *request,
            },
            Op::Free { slot } => GuestCall::Free { ptr: self.slots[*slot] },
        };
        self.waiting = waiting;
        self.next = at + 1;
        assert(self@ =~= (ScriptView {
            next: v.next + 1,
            waiting: v.ops[v.next] is Store,
            ..v
        }));
        Ok(Some(call))
    }
}

/// The steps that set the engine up: it is started with the text `start`, the
/// voice and the parameters are set one by one, the voice is loaded by the text
/// `voice`, and the parameters, which loading a voice resets, are set again by
/// the text `again`.
pub open spec fn voice_steps(
    start: Seq<char>,
    choice: Choice,
    voice: Seq<char>,
    params: SpeechParams,
    again: Seq<char>,
) -> Seq<Step> {
    seq![
        Step::Store(start),
        Step::Initialize { slot: 0, request: START_REQUEST },
        Step::Store(choice.language),
        Step::SetText { id: documents::LANGUAGE_ID, slot: 1 },
        Step::Store(choice.name),
        Step::SetText { id: documents::NAME_ID, slot: 2 },
        Step::Store(choice.vop),
        Step::SetText { id: documents::VOP_ID, slot: 3 },
        Step::SetNumber { id: documents::VOLUME_ID, value: params.volume },
        Step::SetNumber { id: documents::SPEED_ID, value: params.speed },
        Step::SetNumber { id: documents::PITCH_ID, value: params.pitch },
        Step::Store(voice),
        Step::SetSpeech { slot: 4, request: VOICE_REQUEST },
        Step::Store(again),
        Step::SetSpeech { slot: 5, request: PARAMS_REQUEST },
        Step::Free(0),
        Step::Free(1),
        Step::Free(2),
        Step::Free(3),
        Step::Free(4),
        Step::Free(5),
    ]
}

/// The steps that set the engine up for a voice: on its files, in the
/// directory `root`.
pub open spec fn setup_steps(
    files: Seq<FileEntry>,
    root: Seq<char>,
    choice: Choice,
    params: SpeechParams,
) -> Seq<Step> {
    voice_steps(
        json::json_text(documents::start_doc(files, root)),
        choice,
        json::json_text(documents::voice_doc(choice.name, choice.language, choice.vop)),
        params,
        json::json_text(documents::params_doc(params)),
    )
}

/// The steps that hand the engine the text `text` of parameters.
pub open spec fn text_steps(text: Seq<char>) -> Seq<Step> {
    seq![
        Step::Store(text),
        Step::SetSpeech { slot: 0, request: PARAMS_REQUEST },
        Step::Free(0),
    ]
}

/// The steps that set the parameters of an engine that is set up.
pub open spec fn update_steps(params: SpeechParams) -> Seq<Step> {
    text_steps(json::json_text(documents::params_doc(params)))
}

impl Script {
    /// The script that runs the engine's entry point.
    pub fn entry() -> (s: Script)
        ensures
            s@ == unstarted(seq![Step::Main]),
            script_wf(s@),
    {
        let mut ops: Vec<Op> = Vec::new();
        ops.push(Op::Main);
        assert(steps(ops@) =~= seq![Step::Main]);
        Script::of(ops)
    }

    /// The script that sets the engine up for the voice whose files are
    /// `files`, in the directory `root`, and whose pipeline header is
    /// `header`.
    pub fn setup(
        files: &Vec<FileEntry>,
        root: &str,
        header: &Option<String>,
        params: &SpeechParams,
    ) -> (r: Result<Script, Fault>)
        ensures
            r is Ok <==> voices::sound_header(voices::header_view(*header)),
            r matches Ok(s) ==> script_wf(s@) && s@ == unstarted(
                setup_steps(
                    files@,
                    root@,
                    voices::choice_of(voices::header_view(*header)),
                    *params,
                ),
            ),
    {
        let choice: VoiceChoice = match voices::detect_voice(header) {
            Ok(choice) => choice,
            Err(fault) => {
                return Err(fault);
            },
        };
        let start: String = documents::start_text(files, root);
        let voice: String = documents::voice_text(
            choice.name.as_str(),
            choice.language.as_str(),
            choice.vop.as_str(),
        );
        let again: String = documents::params_text(params);
        Ok(Script::for_voice(start, choice, voice, params, again))
    }

    /// The script that sets the engine up with given texts: `start` starts it,
    /// `voice` loads the voice, and `again` sets the parameters after that.
    pub fn for_voice(
        start: String,
        choice: VoiceChoice,
        voice: String,
        params: &SpeechParams,
        again: String,
    ) -> (s: Script)
        ensures
            s@ == unstarted(voice_steps(start@, choice@, voice@, *params, again@)),
            script_wf(s@),
    {
        let ghost all = voice_steps(start@, choice@, voice@, *params, again@);
        let mut ops: Vec<Op> = Vec::new();
        ops.push(Op::Store { text: start });
        ops.push(Op::Initialize { slot: 0, request: START_REQUEST });
        ops.push(Op::Store { text: choice.language });
        ops.push(Op::SetText { id: documents::LANGUAGE_ID, slot: 1 });
        ops.push(Op::Store { text: choice.name });
        ops.push(Op::SetText { id: documents::NAME_ID, slot: 2 });
        ops.push(Op::Store { text: choice.vop });
        ops.push(Op::SetText { id: documents::VOP_ID, slot: 3 });
        ops.push(Op::SetNumber { id: documents::VOLUME_ID, value: params.volume });
        ops.push(Op::SetNumber { id: documents::SPEED_ID, value: params.speed });
        ops.push(Op::SetNumber { id: documents::PITCH_ID, value: params.pitch });
        ops.push(Op::Store { text: voice });
        ops.push(Op::SetSpeech { slot: 4, request: VOICE_REQUEST });
        ops.push(Op::Store { text: again });
        ops.push(Op::SetSpeech { slot: 5, request: PARAMS_REQUEST });
        ops.push(Op::Free { slot: 0 });
        ops.push(Op::Free { slot: 1 });
        ops.push(Op::Free { slot: 2 });
        ops.push(Op::Free { slot: 3 });
        ops.push(Op::Free { slot: 4 });
        ops.push(Op::Free { slot: 5 });
        proof {
            assert(steps(ops@) =~= all);
            law_setup_frees_blocks(start@, choice@, voice@, *params, again@);
        }
        Script::of(ops)
    }

    /// The script that sets the parameters of an engine that is set up.
    pub fn update(params: &SpeechParams) -> (s: Script)
        ensures
            s@ == unstarted(update_steps(*params)),
            script_wf(s@),
    {
        Script::for_text(documents::params_text(params))
    }

    /// The script that hands the engine a text of parameters.
    pub fn for_text(text: String) -> (s: Script)
        ensures
            s@ == unstarted(text_steps(text@)),
            script_wf(s@),
    {
        let mut ops: Vec<Op> = Vec::new();
        ops.push(Op::Store { text });
        ops.push(Op::SetSpeech { slot: 0, request: PARAMS_REQUEST });
        ops.push(Op::Free { slot: 0 });
        proof {
            assert(steps(ops@) =~= text_steps(text@));
            law_update_frees_blocks(text@);
        }
        Script::of(ops)
    }
}

/// Setting up gives every block back once, and names none before it is filled
/// or after it was given back.
pub proof fn law_setup_frees_blocks(
    start: Seq<char>,
    choice: Choice,
    voice: Seq<char>,
    params: SpeechParams,
    again: Seq<char>,
)
    ensures
        slots_filled(voice_steps(start, choice, voice, params, again)),
        blocks_freed(voice_steps(start, choice, voice, params, again)),
{
    let ops = voice_steps(start, choice, voice, params, again);
    reveal_with_fuel(stores, 22);
    assert(stores(ops, 1) == 1);
    assert(stores(ops, 3) == 2);
    assert(stores(ops, 5) == 3);
    assert(stores(ops, 7) == 4);
    assert(stores(ops, 12) == 5);
    assert(stores(ops, 14) == 6);
    assert(stores(ops, 15) == 6);
    assert(stores(ops, 16) == 6);
    assert(stores(ops, 17) == 6);
    assert(stores(ops, 18) == 6);
    assert(stores(ops, 19) == 6);
    assert(stores(ops, 20) == 6);
    assert(stores(ops, 21) == 6);
    assert forall|k: int| 0 <= k < stores(ops, ops.len() as int) implies #[trigger] ops.contains(
        Step::Free(k),
    ) by {
        assert(ops[15 + k] == Step::Free(k));
    }
}

/// Setting the parameters gives the one block back once, after its use.
pub proof fn law_update_frees_blocks(text: Seq<char>)
    ensures
        slots_filled(text_steps(text)),
        blocks_freed(text_steps(text)),
{
    let ops = text_steps(text);
    reveal_with_fuel(stores, 4);
    assert forall|k: int| 0 <= k < stores(ops, ops.len() as int) implies #[trigger] ops.contains(
        Step::Free(k),
    ) by {
        assert(ops[2] == Step::Free(k));
    }
}

/// After a voice is loaded the parameters are set again, from the block that
/// holds their text.
pub proof fn law_params_set_after_voice(
    files: Seq<FileEntry>,
    root: Seq<char>,
    choice: Choice,
    params: SpeechParams,
    i: int,
)
    requires
        0 <= i < setup_steps(files, root, choice, params).len(),
        setup_steps(files, root, choice, params)[i] matches Step::SetSpeech {
            request,
            ..
        } && request == VOICE_REQUEST,
    ensures
        exists|n: int, j: int|
            i < n < j && #[trigger] sets_params(
                setup_steps(files, root, choice, params),
                params,
                n,
                j,
            ),
{
    let ops = setup_steps(files, root, choice, params);
    reveal_with_fuel(stores, 22);
    assert(stores(ops, 13) == 5);
    assert(sets_params(ops, params, 13, 14));
}

/// Step `n` puts the text of the parameters into a block, and step `j` hands
/// that block to the engine.
pub open spec fn sets_params(ops: Seq<Step>, params: SpeechParams, n: int, j: int) -> bool {
    &&& 0 <= n < j < ops.len()
    &&& ops[n] == Step::Store(json::json_text(documents::params_doc(params)))
    &&& ops[j] == Step::SetSpeech { slot: stores(ops, n), request: PARAMS_REQUEST }
}

/// Parameters that are being set in the engine, one after the other.
#[derive(Debug)]
pub struct Application {
    settings: Vec<ParamSetting>,
    next: usize,
    waiting: bool,
}

/// Parameters that are being set: all of them, how many were dealt with, and
/// whether a block for the next one was asked for.
#[verifier::ext_equal]
pub struct ApplicationView {
    pub settings: Seq<Setting>,
    pub next: int,
    pub waiting: bool,
}

impl View for Application {
    type V = ApplicationView;

    closed spec fn view(&self) -> ApplicationView {
        ApplicationView {
            settings: documents::setting_views(self.settings@),
            next: self.next as int,
            waiting: self.waiting,
        }
    }
}

/// Only a text waits for a block.
pub open spec fn application_wf(v: ApplicationView) -> bool {
    &&& 0 <= v.next <= v.settings.len()
    &&& v.waiting ==> v.next < v.settings.len() && v.settings[v.next] is Text
}

/// The call that comes next, the reply to the last one being `reply`: none at
/// the end, or a fault.
pub open spec fn application_call(v: ApplicationView, reply: i32) -> Result<
    Option<GuestCall>,
    Fault,
> {
    if v.next >= v.settings.len() {
        Ok(None)
    } else {
        match v.settings[v.next] {
            Setting::Int { id, value } => Ok(
                Some(GuestCall::SetNumber { id: id as i32, value: value as i32 }),
            ),
            Setting::Text { id, text } => {
                let bytes = encode_utf8(text);
                if v.waiting {
                    if num::unsigned64(reply as int) + bytes.len() > u64::MAX {
                        Err(Fault)
                    } else {
                        Ok(Some(GuestCall::SetText { id: id as i32, ptr: reply }))
                    }
                } else if runtime::block_size(bytes) > i32::MAX {
                    Err(Fault)
                } else {
                    Ok(Some(GuestCall::Malloc { size: runtime::block_size(bytes) as i32 }))
                }
            },
        }
    }
}

/// The parameters that are being set, after the next call.
pub open spec fn application_after(v: ApplicationView, reply: i32) -> ApplicationView {
    match application_call(v, reply) {
        Ok(Some(GuestCall::Malloc { .. })) => ApplicationView { waiting: true, ..v },
        Ok(Some(_)) => ApplicationView { next: v.next + 1, waiting: false, ..v },
        _ => v,
    }
}

/// Memory before the next call: a text that waited for a block is in it, as
/// far as it fits.
pub open spec fn application_memory(v: ApplicationView, m: Seq<u8>, reply: i32) -> Seq<u8> {
    if v.waiting && application_call(v, reply) is Ok {
        memory::put_text(
            m,
            num::unsigned64(reply as int),
            encode_utf8(v.settings[v.next]->Text_text),
        )
    } else {
        m
    }
}

impl Application {
    /// Starts to set parameters.
    pub fn new(settings: Vec<ParamSetting>) -> (a: Application)
        ensures
            a@ == (ApplicationView {
                settings: documents::setting_views(settings@),
                next: 0,
                waiting: false,
            }),
            application_wf(a@),
    {
        Application { settings, next: 0, waiting: false }
    }

    /// Takes the engine's reply to the last call and gives the next call, or
    /// none at the end. Only the reply to a call for a block counts.
    pub fn step(&mut self, mem: &mut [u8], reply: i32) -> (r: Result<Option<GuestCall>, Fault>)
        requires
            application_wf(old(self)@),
        ensures
            r == application_call(old(self)@, reply),
            final(self)@ == application_after(old(self)@, reply),
            final(mem)@ == application_memory(old(self)@, old(mem)@, reply),
            application_wf(final(self)@),
    {
        let ghost v = self@;
        if self.next >= self.settings.len() {
            return Ok(None);
        }
        let at: usize = self.next;
        assert(v.settings[at as int] == self.settings@[at as int]@);
        let call: GuestCall = match &self.settings[at] {
            ParamSetting::Int { id, value } => GuestCall::SetNumber { id: *id, value: *value },
            ParamSetting::Text { id, text } => {
                if self.waiting {
                    match runtime::place_text(mem, reply, text.as_str()) {
                        Ok(_) => GuestCall::SetText { id: *id, ptr: reply },
                        Err(fault) => {
                            return Err(fault);
                        },
                    }
                } else {
                    match runtime::text_block(text.as_str()) {
                        Ok(size) => {
                            self.waiting = true;
                            assert(self@ =~= application_after(v, reply));
                            return Ok(Some(GuestCall::Malloc { size }));
                        },
                        Err(fault) => {
                            return Err(fault);
                        },
                    }
                }
            },
        };
        self.waiting = false;
        self.next = at + 1;
        assert(self@ =~= application_after(v, reply));
        Ok(Some(call))
    }
}

/// Each parameter is set once, in order: a number at once, and a text after
/// one call for a block, to the block that the engine gave.
pub proof fn law_settings_in_order(v: ApplicationView, first: i32, second: i32)
    requires
        application_wf(v),
        !v.waiting,
        v.next < v.settings.len(),
        application_call(v, first) is Ok,
    ensures
        match v.settings[v.next] {
            Setting::Int { id, value } => application_call(v, first) == Ok::<
                Option<GuestCall>,
                Fault,
            >(Some(GuestCall::SetNumber { id: id as i32, value: value as i32 }))
                && application_after(v, first).next == v.next + 1,
            Setting::Text { id, text } => {
                let waiting = application_after(v, first);
                application_call(waiting, second) is Ok ==> application_call(waiting, second)
                    == Ok::<Option<GuestCall>, Fault>(
                    Some(GuestCall::SetText { id: id as i32, ptr: second }),
                ) && application_after(waiting, second).next == v.next + 1
            },
        },
{
}

/// Step by step a script makes the calls of its steps, each with the blocks
/// that the replies so far have given.
pub proof fn law_script_order(ops: Seq<Step>, replies: Seq<i32>, m: Seq<u8>, reply: i32)
    requires
        replies.len() < ops.len(),
        settled(called(ops, replies), m, reply) is Ok,
    ensures
        ({
            let v = settled(called(ops, replies), m, reply)->Ok_0;
            &&& v.ops == ops
            &&& v.next == replies.len() + 1
            &&& v.slots == blocks(ops, replies.push(reply))
            &&& replies.len() + 1 < ops.len() ==> (ScriptView {
                next: v.next + 1,
                waiting: ops[v.next] is Store,
                ..v
            }) == called(ops, replies.push(reply))
        }),
{
    assert(replies.push(reply).drop_last() =~= replies);
}

/// A slot holds the reply to the call that asked for its block, and keeps it:
/// what is given back is what the engine has handed out.
pub proof fn law_slot_holds_reply(ops: Seq<Step>, replies: Seq<i32>, i: int)
    requires
        0 <= i < replies.len() <= ops.len(),
        ops[i] is Store,
    ensures
        blocks(ops, replies).len() == stores(ops, replies.len() as int),
        0 <= stores(ops, i) < blocks(ops, replies).len(),
        blocks(ops, replies)[stores(ops, i)] == replies[i],
    decreases replies.len(),
{
    lemma_blocks_len(ops, replies);
    lemma_blocks_len(ops, replies.drop_last());
    if i < replies.len() - 1 {
        law_slot_holds_reply(ops, replies.drop_last(), i);
    } else {
        lemma_blocks_len(ops, replies.take(i));
        assert(replies.take(i) =~= replies.drop_last());
    }
}

/// There are as many blocks as steps that asked for one.
proof fn lemma_blocks_len(ops: Seq<Step>, replies: Seq<i32>)
    requires
        replies.len() <= ops.len(),
    ensures
        blocks(ops, replies).len() == stores(ops, replies.len() as int),
    decreases replies.len(),
{
    if replies.len() > 0 {
        lemma_blocks_len(ops, replies.drop_last());
    }
}

/// Step `j` names the block that an earlier step has put `text` into.
pub open spec fn hands_over(ops: Seq<Step>, text: Seq<char>, j: int) -> bool {
    exists|n: int|
        0 <= n < j && #[trigger] ops[n] == Step::Store(text) && slot_of(ops[j]) == Some(
            stores(ops, n),
        )
}

/// Setting up hands the engine every text and every number that it is to have,
/// each to the function and under the number that it is for: first the start
/// parameters, the language, the name and the operating point, the volume, the
/// speed and the pitch, and at last the voice and the parameters.
pub proof fn law_setup_hands_over_everything(
    start: Seq<char>,
    choice: Choice,
    voice: Seq<char>,
    params: SpeechParams,
    again: Seq<char>,
)
    ensures
        ({
            let ops = voice_steps(start, choice, voice, params, again);
            &&& hands_over(ops, start, 1) && (ops[1] matches Step::Initialize { request, .. }
                && request == 1)
            &&& hands_over(ops, choice.language, 3) && (ops[3] matches Step::SetText { id, .. }
                && id == 1)
            &&& hands_over(ops, choice.name, 5) && (ops[5] matches Step::SetText { id, .. } && id
                == 2)
            &&& hands_over(ops, choice.vop, 7) && (ops[7] matches Step::SetText { id, .. } && id
                == 3)
            &&& ops[8] == Step::SetNumber { id: 8, value: params.volume }
            &&& ops[9] == Step::SetNumber { id: 9, value: params.speed }
            &&& ops[10] == Step::SetNumber { id: 10, value: params.pitch }
            &&& hands_over(ops, voice, 12) && (ops[12] matches Step::SetSpeech { request, .. }
                && request == 2)
            &&& hands_over(ops, again, 14) && (ops[14] matches Step::SetSpeech { request, .. }
                && request == 4)
            &&& ops.len() == 21
            &&& forall|j: int| 15 <= j < 21 ==> #[trigger] ops[j] is Free
        }),
{
    let ops = voice_steps(start, choice, voice, params, again);
    reveal_with_fuel(stores, 22);
    assert(ops[0] == Step::Store(start) && stores(ops, 0) == 0);
    assert(ops[2] == Step::Store(choice.language) && stores(ops, 2) == 1);
    assert(ops[4] == Step::Store(choice.name) && stores(ops, 4) == 2);
    assert(ops[6] == Step::Store(choice.vop) && stores(ops, 6) == 3);
    assert(ops[11] == Step::Store(voice) && stores(ops, 11) == 4);
    assert(ops[13] == Step::Store(again) && stores(ops, 13) == 5);
}

/// The texts of setting up and of setting parameters are those of the voice's
/// files and directory, of the voice, and of the parameters.
pub proof fn law_setup_texts(
    files: Seq<FileEntry>,
    root: Seq<char>,
    choice: Choice,
    params: SpeechParams,
)
    ensures
        ({
            let ops = setup_steps(files, root, choice, params);
            let voice = json::json_text(
                documents::voice_doc(choice.name, choice.language, choice.vop),
            );
            let text = json::json_text(documents::params_doc(params));
            &&& hands_over(ops, json::json_text(documents::start_doc(files, root)), 1)
            &&& hands_over(ops, voice, 12)
            &&& hands_over(ops, text, 14)
            &&& ops[8] == Step::SetNumber { id: 8, value: params.volume }
            &&& ops[9] == Step::SetNumber { id: 9, value: params.speed }
            &&& ops[10] == Step::SetNumber { id: 10, value: params.pitch }
            &&& hands_over(update_steps(params), text, 1)
            &&& update_steps(params).len() == 3
            &&& update_steps(params)[1] matches Step::SetSpeech { request, .. } && request == 4
        }),
{
    let voice = json::json_text(documents::voice_doc(choice.name, choice.language, choice.vop));
    let text = json::json_text(documents::params_doc(params));
    law_setup_hands_over_everything(
        json::json_text(documents::start_doc(files, root)),
        choice,
        voice,
        params,
        text,
    );
    let ops = update_steps(params);
    reveal_with_fuel(stores, 4);
    assert(ops[0] == Step::Store(text) && stores(ops, 0) == 0);
}

/// Each step calls the function that it is for, with its numbers and with the
/// address of the block that it names; a text asks for a block of its bytes and
/// a NUL.
pub proof fn law_steps_call_their_functions(
    slots: Seq<i32>,
    k: int,
    id: i32,
    value: i32,
    text: Seq<char>,
)
    requires
        0 <= k < slots.len(),
        encode_utf8(text).len() < i32::MAX,
    ensures
        call_of(Step::Main, slots) == Some(GuestCall::Main),
        call_of(Step::Store(text), slots) matches Some(GuestCall::Malloc { size }) && size
            == encode_utf8(text).len() + 1,
        call_of(Step::Initialize { slot: k, request: id }, slots) == Some(
            GuestCall::Initialize { worker: WORKER, ptr: slots[k], request: id },
        ),
        call_of(Step::SetText { id, slot: k }, slots) == Some(
            GuestCall::SetText { id, ptr: slots[k] },
        ),
        call_of(Step::SetNumber { id, value }, slots) == Some(GuestCall::SetNumber { id, value }),
        call_of(Step::SetSpeech { slot: k, request: id }, slots) == Some(
            GuestCall::SetSpeech { worker: WORKER, ptr: slots[k], request: id },
        ),
        call_of(Step::Free(k), slots) == Some(GuestCall::Free { ptr: slots[k] }),
{
}

/// A text stands in the block that the engine gave for it, whole and with a
/// NUL, and the block is kept under the next slot. A block outside the memory is
/// an error.
pub proof fn law_text_stands_in_its_block(
    v: ScriptView,
    m: Seq<u8>,
    reply: i32,
    text: Seq<char>,
)
    requires
        script_wf(v),
        v.waiting,
        v.ops[v.next - 1] == Step::Store(text),
        0 <= reply,
        encode_utf8(text).len() < i32::MAX,
    ensures
        reply + encode_utf8(text).len() < m.len() ==> {
            &&& settled(v, m, reply) == Ok::<ScriptView, ScriptError>(
                ScriptView { slots: v.slots.push(reply), waiting: false, ..v },
            )
            &&& settled_memory(v, m, reply) == m.take(reply as int) + encode_utf8(text).push(0u8)
                + m.skip(reply + encode_utf8(text).len() + 1)
            &&& crate::text::without_nul(text) ==> memory::text_at(
                settled_memory(v, m, reply),
                reply as int,
            ) == text
        },
        reply + encode_utf8(text).len() >= m.len() ==> settled(v, m, reply) == Err::<
            ScriptView,
            ScriptError,
        >(ScriptError::OutOfBounds),
{
    if reply + encode_utf8(text).len() < m.len() {
        memory::law_text_stored(m, reply as int, encode_utf8(text));
        if crate::text::without_nul(text) {
            memory::law_text_round_trip(m, reply as int, text);
        }
    }
}

/// A text that is set by itself asks for a block of its bytes and a NUL, stands
/// in the block that the engine gave, and is set from there.
pub proof fn law_setting_stands_in_its_block(
    v: ApplicationView,
    m: Seq<u8>,
    first: i32,
    reply: i32,
    id: i32,
    text: Seq<char>,
)
    requires
        application_wf(v),
        !v.waiting,
        v.next < v.settings.len(),
        v.settings[v.next] == (Setting::Text { id: id as int, text }),
        encode_utf8(text).len() < i32::MAX,
        crate::text::without_nul(text),
        0 <= reply,
        reply + encode_utf8(text).len() < m.len(),
        m.len() <= u64::MAX,
    ensures
        application_call(v, first) matches Ok(Some(GuestCall::Malloc { size })) && size
            == encode_utf8(text).len() + 1,
        application_memory(v, m, first) == m,
        ({
            let waiting = application_after(v, first);
            &&& application_call(waiting, reply) == Ok::<Option<GuestCall>, Fault>(
                Some(GuestCall::SetText { id, ptr: reply }),
            )
            &&& memory::text_at(application_memory(waiting, m, reply), reply as int) == text
            &&& application_after(waiting, reply).next == v.next + 1
            &&& !application_after(waiting, reply).waiting
        }),
{
    memory::law_text_round_trip(m, reply as int, text);
}

/// A number is set at once, and at the end nothing is called.
pub proof fn law_numbers_set_at_once(v: ApplicationView, reply: i32, id: i32, value: i32)
    requires
        application_wf(v),
    ensures
        v.next < v.settings.len() && v.settings[v.next] == (Setting::Int {
            id: id as int,
            value: value as int,
        }) ==> application_call(v, reply) == Ok::<Option<GuestCall>, Fault>(
            Some(GuestCall::SetNumber { id, value }),
        ) && application_after(v, reply).next == v.next + 1,
        v.next == v.settings.len() ==> application_call(v, reply) == Ok::<
            Option<GuestCall>,
            Fault,
        >(None),
{
}

} // verus!
