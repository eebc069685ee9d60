//! Speaking a text: the calls into the engine, the samples that come out of
//! it, and the limits that end a synthesis which does not end by itself.

use crate::documents::FileEntry;
use crate::guest;
use crate::guest::GuestCall;
use crate::guest::Script;
use crate::memory;
use crate::num;
use crate::params::AudioChunk;
use crate::params::SpeechEvent;
use crate::params::SpeechParams;
use crate::params::SynthesisLimits;
use crate::params::SAMPLE_RATE;
use crate::state::Fault;
#[allow(unused_imports)]
use crate::state::HostView;
use crate::state::State;
use crate::utf16;
use crate::voices;
use vstd::prelude::*;

verus! {

/// How far an utterance has come: the call whose reply it waits for.
#[derive(Debug, Clone, Copy, PartialEq, Eq, Structural)]
pub enum Phase {
    /// Nothing was called yet.
    Ready,
    /// The stack is being saved.
    Saving,
    /// Room for the text is being taken from the stack.
    Allocating,
    /// The text is being spoken.
    Speaking,
    /// The stack is being restored.
    Restoring,
    /// The synthesis is being continued.
    Continuing,
    /// Nothing is left to do.
    Over,
}

/// The engine handed out room outside its memory.
#[derive(Debug, Clone, Copy, PartialEq, Eq, Structural)]
pub struct OutOfBounds;

/// A text that is being spoken.
#[derive(Debug)]
pub struct Utterance {
    phase: Phase,
    message: Vec<u8>,
    sp: i32,
    left: u64,
    idle: u32,
    max_idle: u32,
}

/// A text that is being spoken: the bytes that the engine gets, the saved
/// stack, the samples that are left before the limit, and the continuations
/// without samples so far.
#[verifier::ext_equal]
pub struct UtteranceView {
    pub phase: Phase,
    pub message: Seq<u8>,
    pub sp: i32,
    pub left: int,
    pub idle: int,
    pub max_idle: int,
}

/// What comes next: samples to deliver, if there are any, and a call to make,
/// if the utterance is not over.
#[derive(Debug)]
pub struct Turn {
    pub samples: Vec<i16>,
    pub call: Option<GuestCall>,
}

/// What a reply of the engine leads to.
pub struct Sequel {
    pub utterance: UtteranceView,
    pub host: HostView,
    pub mem: Seq<u8>,
    pub samples: Seq<i16>,
    pub call: Option<GuestCall>,
    pub sound: bool,
}

impl View for Utterance {
    type V = UtteranceView;

    closed spec fn view(&self) -> UtteranceView {
        UtteranceView {
            phase: self.phase,
            message: self.message@,
            sp: self.sp,
            left: self.left as int,
            idle: self.idle as int,
            max_idle: self.max_idle as int,
        }
    }
}

/// The number of samples that the limit on the duration allows.
pub open spec fn sample_limit(limits: SynthesisLimits) -> int {
    limits.max_duration_secs * SAMPLE_RATE
}

/// A text of which nothing was spoken yet.
pub open spec fn unspoken(text: Seq<char>, limits: SynthesisLimits) -> UtteranceView {
    UtteranceView {
        phase: Phase::Ready,
        message: utf16::message(text),
        sp: 0,
        left: sample_limit(limits),
        idle: 0,
        max_idle: limits.max_idle_iterations as int,
    }
}

/// What is left of `left` after `count` samples.
pub open spec fn less(left: int, count: int) -> int {
    if count <= left {
        left - count
    } else {
        0
    }
}

/// At most the first `limit` samples.
pub open spec fn capped(samples: Seq<i16>, limit: int) -> Seq<i16> {
    if samples.len() <= limit {
        samples
    } else {
        samples.take(limit)
    }
}

/// The continuations without samples, after one that gave `count` samples.
pub open spec fn idle_after(idle: int, count: int) -> int {
    if count > 0 {
        0
    } else {
        idle + 1
    }
}

/// The host without pending samples, which waits for no continuation.
pub open spec fn drained(h: HostView) -> HostView {
    HostView { pending: Seq::empty(), needs_more: false, ..h }
}

/// The utterance makes another call.
pub open spec fn goes_on(
    u: UtteranceView,
    h: HostView,
    m: Seq<u8>,
    samples: Seq<i16>,
    call: GuestCall,
) -> Sequel {
    Sequel { utterance: u, host: h, mem: m, samples, call: Some(call), sound: true }
}

/// The utterance is over.
pub open spec fn ends(u: UtteranceView, h: HostView, m: Seq<u8>, samples: Seq<i16>) -> Sequel {
    Sequel {
        utterance: UtteranceView { phase: Phase::Over, ..u },
        host: h,
        mem: m,
        samples,
        call: None,
        sound: true,
    }
}

/// The pending samples are delivered as far as they are `allowed`, and the
/// others are dropped. The synthesis is continued where the engine asks for it
/// and no limit is reached.
pub open spec fn continued(
    u: UtteranceView,
    allowed: int,
    h: HostView,
    m: Seq<u8>,
    stop: bool,
) -> Sequel {
    if !stop && h.needs_more {
        goes_on(
            UtteranceView { phase: Phase::Continuing, ..u },
            drained(h),
            m,
            capped(h.pending, allowed),
            GuestCall::Continue,
        )
    } else {
        ends(u, HostView { pending: Seq::empty(), ..h }, m, capped(h.pending, allowed))
    }
}

/// What the reply to the last call leads to.
pub open spec fn sequel(u: UtteranceView, h: HostView, m: Seq<u8>, reply: i32) -> Sequel {
    match u.phase {
        Phase::Ready => goes_on(
            UtteranceView { phase: Phase::Saving, ..u },
            drained(h),
            m,
            Seq::empty(),
            GuestCall::StackSave,
        ),
        Phase::Saving => goes_on(
            UtteranceView { phase: Phase::Allocating, sp: reply, ..u },
            h,
            m,
            Seq::empty(),
            GuestCall::StackAlloc { size: num::signed32(u.message.len() as int) as i32 },
        ),
        Phase::Allocating => {
            let at = num::unsigned64(reply as int);
            if memory::fits(m, at, u.message.len() as int) {
                goes_on(
                    UtteranceView { phase: Phase::Speaking, ..u },
                    h,
                    memory::put(m, at, u.message),
                    Seq::empty(),
                    GuestCall::Speak {
                        worker: guest::WORKER,
                        ptr: reply,
                        request: guest::SPEAK_REQUEST,
                    },
                )
            } else {
                Sequel { sound: false, ..ends(u, h, m, Seq::empty()) }
            }
        },
        Phase::Speaking => goes_on(
            UtteranceView { phase: Phase::Restoring, ..u },
            h,
            m,
            Seq::empty(),
            GuestCall::StackRestore { sp: u.sp },
        ),
        Phase::Restoring => continued(
            UtteranceView { left: less(u.left, h.pending.len() as int), ..u },
            u.left,
            h,
            m,
            false,
        ),
        Phase::Continuing => {
            let count = h.pending.len() as int;
            let next = UtteranceView {
                left: less(u.left, count),
                idle: idle_after(u.idle, count),
                ..u
            };
            continued(next, u.left, h, m, next.idle >= next.max_idle || next.left == 0)
        },
        Phase::Over => ends(u, h, m, Seq::empty()),
    }
}

/// Only continuations without samples count, and the limit ends them.
pub open spec fn utterance_wf(u: UtteranceView) -> bool {
    &&& 0 <= u.left
    &&& 0 <= u.idle
    &&& u.phase != Phase::Over ==> u.idle == 0 || u.idle < u.max_idle
    &&& u.phase != Phase::Over && u.phase != Phase::Continuing ==> u.idle == 0
}

impl Utterance {
    /// Starts to speak a text.
    pub fn new(text: &str, limits: &SynthesisLimits) -> (u: Utterance)
        ensures
            u@ == unspoken(text@, *limits),
            utterance_wf(u@),
    {
        let message: Vec<u8> = utf16::encode(text);
        assert(limits.max_duration_secs * SAMPLE_RATE <= u64::MAX) by (nonlinear_arith)
            requires
                limits.max_duration_secs <= u32::MAX,
                SAMPLE_RATE <= u32::MAX,
        ;
        Utterance {
            phase: Phase::Ready,
            message,
            sp: 0,
            left: limits.max_duration_secs as u64 * SAMPLE_RATE as u64,
            idle: 0,
            max_idle: limits.max_idle_iterations,
        }
    }

    /// Takes the pending samples, as many as are `allowed`, and continues the
    /// synthesis or ends it.
    fn proceed(&mut self, host: &mut State, allowed: u64, stop: bool) -> (turn: Turn)
        ensures
            forall|m: Seq<u8>|
                #![trigger continued(old(self)@, allowed as int, old(host)@, m, stop)]
                {
                    let s = continued(old(self)@, allowed as int, old(host)@, m, stop);
                    &&& final(self)@ == s.utterance
                    &&& final(host)@ == s.host
                    &&& turn.samples@ == s.samples
                    &&& turn.call == s.call
                },
    {
        let ghost u = self@;
        let ghost h = host@;
        let mut samples: Vec<i16> = host.take_samples();
        if samples.len() as u64 > allowed {
            samples.truncate(allowed as usize);
        }
        assert(samples@ =~= capped(h.pending, allowed as int));
        if !stop && host.needs_more_audio {
            host.needs_more_audio = false;
            self.phase = Phase::Continuing;
            assert(host@ =~= drained(h));
            assert(self@ =~= (UtteranceView { phase: Phase::Continuing, ..u }));
            Turn { samples, call: Some(GuestCall::Continue) }
        } else {
            self.phase = Phase::Over;
            assert(self@ =~= (UtteranceView { phase: Phase::Over, ..u }));
            Turn { samples, call: None }
        }
    }

    /// Counts pending samples against the limit on the duration.
    fn count_samples(&mut self, count: usize)
        ensures
            final(self)@ == (UtteranceView { left: less(old(self)@.left, count as int), ..old(self)@
            }),
    {
        if count as u64 <= self.left {
            self.left = self.left - count as u64;
        } else {
            self.left = 0;
        }
        assert(self@ =~= (UtteranceView { left: less(old(self)@.left, count as int), ..old(self)@ }));
    }

    /// Takes the engine's reply to the last call, and gives the samples to
    /// deliver and the next call. Before the first call the reply counts for
    /// nothing.
    pub fn step(&mut self, host: &mut State, mem: &mut [u8], reply: i32) -> (r: Result<
        Turn,
        OutOfBounds,
    >)
        requires
            utterance_wf(old(self)@),
        ensures
            utterance_wf(final(self)@),
            ({
                let s = sequel(old(self)@, old(host)@, old(mem)@, reply);
                &&& final(self)@ == s.utterance
                &&& final(host)@ == s.host
                &&& final(mem)@ == s.mem
                &&& r is Ok <==> s.sound
                &&& r matches Ok(turn) ==> turn.samples@ == s.samples && turn.call == s.call
            }),
    {
        let ghost u = self@;
        let ghost h = host@;
        let ghost m = mem@;
        match self.phase {
            Phase::Ready => {
                host.needs_more_audio = false;
                host.pending_samples = Vec::new();
                self.phase = Phase::Saving;
                assert(host@ =~= drained(h));
                assert(self@ =~= sequel(u, h, m, reply).utterance);
                Ok(Turn { samples: Vec::new(), call: Some(GuestCall::StackSave) })
            },
            Phase::Saving => {
                let size: i32 = num::narrow(self.message.len() as u64);
                self.sp = reply;
                self.phase = Phase::Allocating;
                assert(self@ =~= sequel(u, h, m, reply).utterance);
                Ok(Turn { samples: Vec::new(), call: Some(GuestCall::StackAlloc { size }) })
            },
            Phase::Allocating => {
                let stored: bool = memory::write_bytes(
                    mem,
                    num::wide(reply),
                    self.message.as_slice(),
                );
                if !stored {
                    self.phase = Phase::Over;
                    assert(self@ =~= sequel(u, h, m, reply).utterance);
                    return Err(OutOfBounds);
                }
                self.phase = Phase::Speaking;
                assert(self@ =~= sequel(u, h, m, reply).utterance);
                let call: GuestCall = GuestCall::Speak {
                    worker: guest::WORKER,
                    ptr: reply,
                    request: guest::SPEAK_REQUEST,
                };
                Ok(Turn { samples: Vec::new(), call: Some(call) })
            },
            Phase::Speaking => {
                self.phase = Phase::Restoring;
                assert(self@ =~= sequel(u, h, m, reply).utterance);
                let call: GuestCall = GuestCall::StackRestore { sp: self.sp };
                Ok(Turn { samples: Vec::new(), call: Some(call) })
            },
            Phase::Restoring => {
                let allowed: u64 = self.left;
                self.count_samples(host.pending_samples.len());
                Ok(self.proceed(host, allowed, false))
            },
            Phase::Continuing => {
                let allowed: u64 = self.left;
                let count: usize = host.pending_samples.len();
                self.count_samples(count);
                let ghost counted = self@;
                if count > 0 {
                    self.idle = 0;
                } else {
                    self.idle = self.idle + 1;
                }
                assert(self@ =~= (UtteranceView {
                    idle: idle_after(u.idle, count as int),
                    ..counted
                }));
                let stop: bool = self.idle >= self.max_idle || self.left == 0;
                Ok(self.proceed(host, allowed, stop))
            },
            Phase::Over => {
                assert(self@ =~= sequel(u, h, m, reply).utterance);
                Ok(Turn { samples: Vec::new(), call: None })
            },
        }
    }
}

/// A text that is being spoken, with all the samples so far.
#[derive(Debug)]
pub struct Synthesis {
    utterance: Utterance,
    samples: Vec<i16>,
}

impl Synthesis {
    /// The text that is being spoken.
    pub closed spec fn utterance(self) -> UtteranceView {
        self.utterance@
    }

    /// The samples so far.
    pub closed spec fn samples(self) -> Seq<i16> {
        self.samples@
    }

    /// Takes the engine's reply to the last call, keeps the samples, and gives
    /// the next call, or none at the end.
    pub fn step(&mut self, host: &mut State, mem: &mut [u8], reply: i32) -> (r: Result<
        Option<GuestCall>,
        OutOfBounds,
    >)
        requires
            utterance_wf(old(self).utterance()),
        ensures
            utterance_wf(final(self).utterance()),
            ({
                let s = sequel(old(self).utterance(), old(host)@, old(mem)@, reply);
                &&& final(self).utterance() == s.utterance
                &&& final(self).samples() == old(self).samples() + s.samples
                &&& final(self).samples() == collected(old(self).samples(), s.samples)
                &&& final(host)@ == s.host
                &&& final(mem)@ == s.mem
                &&& r is Ok <==> s.sound
                &&& r matches Ok(call) ==> call == s.call
            }),
    {
        let ghost before = self.samples@;
        match self.utterance.step(host, mem, reply) {
            Ok(turn) => {
                let mut samples: Vec<i16> = turn.samples;
                let ghost new = samples@;
                self.samples.append(&mut samples);
                assert(self.samples@ =~= before + new);
                Ok(turn.call)
            },
            Err(error) => {
                assert(self.samples@ =~= before + Seq::empty());
                Err(error)
            },
        }
    }

    /// All the samples.
    pub fn finish(self) -> (samples: Vec<i16>)
        ensures
            samples@ == self.samples(),
    {
        self.samples
    }
}

/// What is delivered of the samples of a turn, to a receiver that may have
/// failed.
pub open spec fn delivered(failed: bool, samples: Seq<i16>) -> Option<Seq<i16>> {
    if failed || samples.len() == 0 {
        None
    } else {
        Some(samples)
    }
}

/// The samples of turns, put together.
pub open spec fn collected(all: Seq<i16>, samples: Seq<i16>) -> Seq<i16> {
    all + samples
}

/// The events of one utterance on their way to a receiver that may fail.
#[derive(Debug)]
pub struct Delivery {
    failed: bool,
}

impl Delivery {
    /// The receiver has failed.
    pub closed spec fn failed(self) -> bool {
        self.failed
    }

    /// Starts to deliver.
    pub fn new() -> (d: Delivery)
        ensures
            !d.failed(),
    {
        Delivery { failed: false }
    }

    /// The event for the samples of a turn: none where there are no samples or
    /// the receiver has failed before.
    pub fn audio(&self, samples: Vec<i16>) -> (event: Option<SpeechEvent>)
        ensures
            event is Some <==> !self.failed() && samples@.len() > 0,
            event matches Some(e) ==> e == SpeechEvent::Audio(
                AudioChunk { samples, sample_rate: SAMPLE_RATE },
            ),
            match delivered(self.failed(), samples@) {
                Some(s) => event matches Some(SpeechEvent::Audio(chunk)) && chunk.samples@ == s
                    && chunk.sample_rate == 22050,
                None => event is None,
            },
    {
        if self.failed || samples.len() == 0 {
            None
        } else {
            Some(SpeechEvent::Audio(AudioChunk { samples, sample_rate: SAMPLE_RATE }))
        }
    }

    /// Takes note of whether the receiver took an event.
    pub fn report(&mut self, taken: bool)
        ensures
            final(self).failed() == (old(self).failed() || !taken),
    {
        if !taken {
            self.failed = true;
        }
    }

    /// The last event: none where the receiver has failed.
    pub fn finish(&self) -> (event: Option<SpeechEvent>)
        ensures
            event is Some <==> !self.failed(),
            event matches Some(e) ==> e == SpeechEvent::Done,
    {
        if self.failed {
            None
        } else {
            Some(SpeechEvent::Done)
        }
    }
}

/// A voice and the limits on what it speaks.
#[derive(Debug)]
pub struct Voice {
    limits: SynthesisLimits,
}

impl Voice {
    /// The limits on each utterance.
    pub closed spec fn limits(self) -> SynthesisLimits {
        self.limits
    }

    /// A voice with the default limits, and the script that sets its engine
    /// up: for the files of the directory `root`, with the pipeline header
    /// `header`.
    pub fn from_dir(
        files: &Vec<FileEntry>,
        root: &str,
        header: &Option<String>,
        params: SpeechParams,
    ) -> (r: Result<(Voice, Script), Fault>)
        ensures
            r is Ok <==> voices::sound_header(voices::header_view(*header)),
            r matches Ok(pair) ==> {
                &&& pair.0.limits() == (SynthesisLimits {
                    max_duration_secs: 300,
                    max_idle_iterations: 200,
                })
                &&& guest::script_wf(pair.1@)
                &&& pair.1@ == guest::unstarted(
                    guest::setup_steps(
                        files@,
                        root@,
                        voices::choice_of(voices::header_view(*header)),
                        params,
                    ),
                )
            },
    {
        match Script::setup(files, root, header, &params) {
            Ok(script) => Ok((Voice { limits: SynthesisLimits::default() }, script)),
            Err(fault) => Err(fault),
        }
    }

    /// Starts to speak a text within the limits.
    pub fn speak(&self, text: &str) -> (u: Utterance)
        ensures
            u@ == unspoken(text@, self.limits()),
            utterance_wf(u@),
    {
        Utterance::new(text, &self.limits)
    }

    /// Starts to speak a text within the limits, to have all samples at once.
    pub fn synthesize(&self, text: &str) -> (s: Synthesis)
        ensures
            s.utterance() == unspoken(text@, self.limits()),
            utterance_wf(s.utterance()),
            s.samples() == Seq::<i16>::empty(),
    {
        Synthesis { utterance: Utterance::new(text, &self.limits), samples: Vec::new() }
    }

    /// The script that sets the speech parameters of a voice that is set up.
    pub fn set_params(&self, params: SpeechParams) -> (s: Script)
        ensures
            s@ == guest::unstarted(guest::update_steps(params)),
            guest::script_wf(s@),
    {
        Script::update(&params)
    }

    /// Overrides the limits on each utterance.
    pub fn set_limits(&mut self, limits: SynthesisLimits)
        ensures
            final(self).limits() == limits,
    {
        self.limits = limits;
    }
}

/// What the engine may still do: an upper bound on the continuations to come.
pub open spec fn budget(u: UtteranceView) -> int {
    u.left * u.max_idle + (u.max_idle - u.idle)
}

/// No utterance is continued for ever: whatever the engine does, each
/// continuation but the first uses up some of a finite budget.
pub proof fn law_continuations_end(u: UtteranceView, h: HostView, m: Seq<u8>, reply: i32)
    requires
        utterance_wf(u),
        u.phase == Phase::Continuing,
        sequel(u, h, m, reply).call is Some,
    ensures
        sequel(u, h, m, reply).call == Some(GuestCall::Continue),
        0 <= budget(sequel(u, h, m, reply).utterance) < budget(u),
{
    let next = sequel(u, h, m, reply).utterance;
    let count = h.pending.len() as int;
    if count > 0 {
        assert(next.left <= u.left - 1);
        assert(next.left * u.max_idle <= (u.left - 1) * u.max_idle) by (nonlinear_arith)
            requires
                next.left <= u.left - 1,
                u.max_idle >= 0,
        ;
        assert((u.left - 1) * u.max_idle == u.left * u.max_idle - u.max_idle) by (nonlinear_arith);
    }
    assert(next.left * next.max_idle >= 0) by (nonlinear_arith)
        requires
            next.left >= 0,
            next.max_idle >= 0,
    ;
}

/// Samples are delivered once and in order, up to the limit on the duration: a
/// turn delivers or leaves pending what was pending before it, or it reaches
/// the limit, delivers what was left up to it, and drops the others. At the end
/// nothing is pending. The samples of an earlier utterance, which are dropped
/// at the start, are no part of this one.
pub proof fn law_samples_delivered_once(u: UtteranceView, h: HostView, m: Seq<u8>, reply: i32)
    requires
        utterance_wf(u),
        u.phase != Phase::Ready,
    ensures
        ({
            let s = sequel(u, h, m, reply);
            &&& s.samples.len() <= u.left
            &&& {
                ||| s.samples + s.host.pending == h.pending && s.utterance.left == u.left
                    - s.samples.len()
                ||| s.samples == h.pending.take(u.left) && u.left < h.pending.len()
                    && s.host.pending.len() == 0 && s.utterance.left == 0
            }
            &&& u.phase != Phase::Over && s.sound && s.call is None ==> s.host.pending.len() == 0
        }),
{
    let s = sequel(u, h, m, reply);
    if u.left >= h.pending.len() || s.host.pending.len() > 0 {
        assert(s.samples + s.host.pending =~= h.pending);
    }
}

/// The samples of an earlier utterance are not delivered.
pub proof fn law_starts_clean(u: UtteranceView, h: HostView, m: Seq<u8>, reply: i32)
    requires
        u.phase == Phase::Ready,
    ensures
        sequel(u, h, m, reply).samples.len() == 0,
        sequel(u, h, m, reply).host.pending.len() == 0,
        !sequel(u, h, m, reply).host.needs_more,
{
}

/// The stack pointer that was saved is restored after the text was spoken,
/// whatever the engine replied in between.
pub proof fn law_stack_restored(
    u: UtteranceView,
    h: HostView,
    m: Seq<u8>,
    sp: i32,
    h2: HostView,
    m2: Seq<u8>,
    room: i32,
    h3: HostView,
    m3: Seq<u8>,
    reply: i32,
)
    requires
        u.phase == Phase::Saving,
        sequel(sequel(u, h, m, sp).utterance, h2, m2, room).sound,
    ensures
        ({
            let allocating = sequel(u, h, m, sp).utterance;
            let speaking = sequel(allocating, h2, m2, room).utterance;
            sequel(speaking, h3, m3, reply).call == Some(GuestCall::StackRestore { sp })
        }),
{
}

/// The limit on idle continuations counts those in a row: samples start the
/// count again, and once it is reached no further continuation follows.
pub proof fn law_idle_limit(u: UtteranceView, h: HostView, m: Seq<u8>, reply: i32)
    requires
        u.phase == Phase::Continuing,
    ensures
        ({
            let s = sequel(u, h, m, reply);
            &&& h.pending.len() > 0 ==> s.utterance.idle == 0
            &&& h.pending.len() == 0 ==> s.utterance.idle == u.idle + 1
            &&& s.utterance.idle >= u.max_idle ==> s.call is None
            &&& s.call is None ==> s.utterance.idle >= u.max_idle || s.utterance.left == 0
                || !h.needs_more
        }),
{
}

/// The samples that the turns of an utterance deliver, one piece for each
/// turn. What the engine did before each turn is the state, the memory and the
/// reply that the turn finds.
pub open spec fn heard(u: UtteranceView, turns: Seq<(HostView, Seq<u8>, i32)>) -> Seq<Seq<i16>>
    decreases turns.len(),
{
    if turns.len() == 0 {
        Seq::empty()
    } else {
        let s = sequel(u, turns[0].0, turns[0].1, turns[0].2);
        seq![s.samples] + heard(s.utterance, turns.skip(1))
    }
}

/// All samples of a list of pieces.
pub open spec fn whole(pieces: Seq<Seq<i16>>) -> Seq<i16>
    decreases pieces.len(),
{
    if pieces.len() == 0 {
        Seq::empty()
    } else {
        pieces[0] + whole(pieces.skip(1))
    }
}

/// The pieces that are delivered as events: those with samples.
pub open spec fn chunks(pieces: Seq<Seq<i16>>) -> Seq<Seq<i16>>
    decreases pieces.len(),
{
    if pieces.len() == 0 {
        Seq::empty()
    } else if pieces[0].len() == 0 {
        chunks(pieces.skip(1))
    } else {
        seq![pieces[0]] + chunks(pieces.skip(1))
    }
}

/// The chunks of a streamed utterance, put together, are the samples that come
/// of collecting them all at once.
pub proof fn law_stream_is_whole(pieces: Seq<Seq<i16>>)
    ensures
        whole(chunks(pieces)) == whole(pieces),
    decreases pieces.len(),
{
    if pieces.len() > 0 {
        law_stream_is_whole(pieces.skip(1));
        if pieces[0].len() == 0 {
            assert(whole(pieces) =~= whole(pieces.skip(1)));
        } else {
            assert(chunks(pieces).skip(1) =~= chunks(pieces.skip(1)));
        }
    }
}

/// Between turns the engine only adds to the pending samples: before turn `i`
/// it adds `queued[i]`.
pub open spec fn queued_between(
    u: UtteranceView,
    h: HostView,
    turns: Seq<(HostView, Seq<u8>, i32)>,
    queued: Seq<Seq<i16>>,
) -> bool
    decreases turns.len(),
{
    if turns.len() == 0 {
        true
    } else {
        let s = sequel(u, turns[0].0, turns[0].1, turns[0].2);
        &&& turns[0].0.pending == h.pending + queued[0]
        &&& queued_between(s.utterance, s.host, turns.skip(1), queued.skip(1))
    }
}

/// The samples that are pending after the last turn.
pub open spec fn last_pending(
    u: UtteranceView,
    h: HostView,
    turns: Seq<(HostView, Seq<u8>, i32)>,
) -> Seq<i16>
    decreases turns.len(),
{
    if turns.len() == 0 {
        h.pending
    } else {
        let s = sequel(u, turns[0].0, turns[0].1, turns[0].2);
        last_pending(s.utterance, s.host, turns.skip(1))
    }
}

/// No utterance is longer than its limit: whatever the engine queues, and
/// however many turns there are, all that is delivered is no more than what was
/// left, and with the limit reached no continuation follows another.
pub proof fn law_duration_limit(u: UtteranceView, turns: Seq<(HostView, Seq<u8>, i32)>)
    requires
        utterance_wf(u),
    ensures
        whole(heard(u, turns)).len() <= u.left,
        turns.len() > 0 && u.phase == Phase::Continuing && turns[0].0.pending.len() >= u.left
            ==> sequel(u, turns[0].0, turns[0].1, turns[0].2).call is None,
    decreases turns.len(),
{
    if turns.len() > 0 {
        let (h, m, reply) = turns[0];
        let s = sequel(u, h, m, reply);
        if u.phase != Phase::Ready {
            law_samples_delivered_once(u, h, m, reply);
        }
        law_duration_limit(s.utterance, turns.skip(1));
        assert(heard(u, turns).skip(1) =~= heard(s.utterance, turns.skip(1)));
    }
}

/// A text is spoken for no longer than the limit on the duration.
pub proof fn law_audio_within_duration(
    text: Seq<char>,
    limits: SynthesisLimits,
    turns: Seq<(HostView, Seq<u8>, i32)>,
)
    ensures
        whole(heard(unspoken(text, limits), turns)).len() <= limits.max_duration_secs
            * SAMPLE_RATE,
{
    assert(sample_limit(limits) >= 0) by (nonlinear_arith)
        requires
            sample_limit(limits) == limits.max_duration_secs * SAMPLE_RATE,
            limits.max_duration_secs >= 0,
            SAMPLE_RATE >= 0,
    ;
    law_duration_limit(unspoken(text, limits), turns);
}

/// Up to the limit on the duration all that the engine has queued is heard, in
/// order and once, from the moment at which the text is being spoken:
/// `queued` are the samples that it adds before each turn. Once nothing is
/// pending any more, what was heard is exactly that.
pub proof fn law_all_queued_is_heard(
    u: UtteranceView,
    h: HostView,
    turns: Seq<(HostView, Seq<u8>, i32)>,
    queued: Seq<Seq<i16>>,
)
    requires
        utterance_wf(u),
        u.phase != Phase::Ready,
        turns.len() == queued.len(),
        queued_between(u, h, turns, queued),
    ensures
        capped(whole(heard(u, turns)) + last_pending(u, h, turns), u.left) == capped(
            h.pending + whole(queued),
            u.left,
        ),
        last_pending(u, h, turns).len() == 0 ==> whole(heard(u, turns)) == capped(
            h.pending + whole(queued),
            u.left,
        ),
    decreases turns.len(),
{
    law_duration_limit(u, turns);
    let all = h.pending + whole(queued);
    let told = whole(heard(u, turns)) + last_pending(u, h, turns);
    if turns.len() == 0 {
        assert(told =~= all);
    } else {
        let (before, m, reply) = turns[0];
        let s = sequel(u, before, m, reply);
        law_samples_delivered_once(u, before, m, reply);
        let later = heard(s.utterance, turns.skip(1));
        assert(heard(u, turns).skip(1) =~= later);
        let rest = whole(later) + last_pending(u, h, turns);
        let to_come = s.host.pending + whole(queued.skip(1));
        assert(told =~= s.samples + rest);
        assert(all =~= before.pending + whole(queued.skip(1)));
        if s.samples + s.host.pending == before.pending && s.utterance.left == u.left
            - s.samples.len() {
            law_all_queued_is_heard(s.utterance, s.host, turns.skip(1), queued.skip(1));
            assert(all =~= s.samples + to_come);
            lemma_capped_behind(s.samples, rest, u.left);
            lemma_capped_behind(s.samples, to_come, u.left);
        } else {
            assert(capped(told, u.left) =~= s.samples);
            assert(capped(all, u.left) =~= s.samples);
        }
    }
    if last_pending(u, h, turns).len() == 0 {
        assert(told =~= whole(heard(u, turns)));
    }
}

/// The limit goes first to what comes first.
proof fn lemma_capped_behind(first: Seq<i16>, rest: Seq<i16>, limit: int)
    requires
        first.len() <= limit,
    ensures
        capped(first + rest, limit) == first + capped(rest, limit - first.len()),
{
    assert(capped(first + rest, limit) =~= first + capped(rest, limit - first.len()));
}

/// An utterance starts with the message of its whole text, and with the limits
/// that are set: so many samples as the seconds have, and so many idle
/// continuations.
pub proof fn law_utterance_of_text(text: Seq<char>, limits: SynthesisLimits)
    ensures
        unspoken(text, limits).message == utf16::message(text),
        unspoken(text, limits).left == limits.max_duration_secs * 22050,
        unspoken(text, limits).max_idle == limits.max_idle_iterations,
        unspoken(text, limits).idle == 0,
        unspoken(text, limits).phase == Phase::Ready,
{
}

/// The text is handed to the engine as a whole: it gets room for all bytes of the
/// message, they stand there, and the engine is told to speak them. Room outside
/// the memory ends the utterance with an error.
pub proof fn law_text_handed_over(u: UtteranceView, h: HostView, m: Seq<u8>, reply: i32)
    requires
        u.message.len() <= i32::MAX,
    ensures
        ({
            let s = sequel(u, h, m, reply);
            let len = u.message.len();
            &&& s.utterance.message == u.message
            &&& u.phase == Phase::Ready ==> s.call == Some(GuestCall::StackSave)
                && s.utterance.phase == Phase::Saving
            &&& u.phase == Phase::Saving ==> (s.call matches Some(GuestCall::StackAlloc { size })
                && size == len) && s.utterance.phase == Phase::Allocating
            &&& u.phase == Phase::Allocating && 0 <= reply && reply + len <= m.len() ==> s.sound
                && s.call == Some(
                GuestCall::Speak { worker: guest::WORKER, ptr: reply, request: 3 },
            ) && s.mem == m.take(reply as int) + u.message + m.skip(reply + len)
                && s.utterance.phase == Phase::Speaking
            &&& u.phase == Phase::Allocating && 0 <= reply && reply + len > m.len() ==> !s.sound
                && s.call is None && s.mem == m
            &&& u.phase != Phase::Allocating ==> s.mem == m && s.sound
            &&& u.phase == Phase::Speaking ==> s.utterance.phase == Phase::Restoring && s.call
                is Some
        }),
{
    if u.phase == Phase::Allocating && 0 <= reply {
        memory::law_store_takes_place(m, reply as int, u.message);
    }
}

/// The synthesis is continued exactly where the engine asks for it and, after
/// the first continuation, no limit is reached; the request is answered by it.
pub proof fn law_continued_exactly(u: UtteranceView, h: HostView, m: Seq<u8>, reply: i32)
    requires
        utterance_wf(u),
    ensures
        ({
            let s = sequel(u, h, m, reply);
            let idle = if h.pending.len() > 0 {
                0
            } else {
                u.idle + 1
            };
            &&& u.phase == Phase::Restoring ==> (s.call is Some <==> h.needs_more)
            &&& u.phase == Phase::Continuing ==> (s.call is Some <==> h.needs_more && idle
                < u.max_idle && h.pending.len() < u.left)
            &&& (u.phase == Phase::Restoring || u.phase == Phase::Continuing) && s.call is Some
                ==> s.call == Some(GuestCall::Continue) && !s.host.needs_more && s.utterance.phase
                == Phase::Continuing
            &&& u.phase == Phase::Over ==> s.call is None && s.samples.len() == 0 && s.host == h
        }),
{
}

/// Samples that stay within the limit are delivered whole, at once.
pub proof fn law_pending_delivered(u: UtteranceView, h: HostView, m: Seq<u8>, reply: i32)
    requires
        utterance_wf(u),
        u.phase == Phase::Restoring || u.phase == Phase::Continuing,
    ensures
        h.pending.len() <= u.left ==> sequel(u, h, m, reply).samples == h.pending,
        h.pending.len() > u.left ==> sequel(u, h, m, reply).samples == h.pending.take(u.left),
        sequel(u, h, m, reply).host.pending.len() == 0,
        sequel(u, h, m, reply).utterance.max_idle == u.max_idle,
{
}

/// A turn's samples are delivered whole, to a receiver that has not failed, and
/// collected whole, behind those before: neither loses one.
pub proof fn law_turns_arrive_whole(all: Seq<i16>, samples: Seq<i16>)
    ensures
        samples.len() > 0 ==> delivered(false, samples) == Some(samples),
        delivered(false, Seq::<i16>::empty()) is None,
        delivered(true, samples) is None,
        collected(all, samples).len() == all.len() + samples.len(),
        collected(all, samples).take(all.len() as int) == all,
        collected(all, samples).skip(all.len() as int) == samples,
{
    assert(collected(all, samples).take(all.len() as int) =~= all);
    assert(collected(all, samples).skip(all.len() as int) =~= samples);
}

} // verus!
