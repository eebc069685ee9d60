use yuri::guest::GuestCall;
use yuri::speech::{Delivery, OutOfBounds, Synthesis, Utterance};
use yuri::state::State;
use yuri::{SpeechEvent, SpeechParams, SynthesisLimits, Voice};

fn limits(secs: u32, idle: u32) -> SynthesisLimits {
    SynthesisLimits { max_duration_secs: secs, max_idle_iterations: idle }
}

fn voice() -> Voice {
    Voice::from_dir(&vec![], "", &None, SpeechParams::default()).unwrap().0
}

/// An engine that queues `first` samples when it speaks and then one of
/// `rest` for each continuation, and asks for another as long as `rest` lasts
/// or for ever.
struct Engine {
    first: usize,
    rest: Vec<usize>,
    forever: bool,
    made: i16,
    calls: Vec<GuestCall>,
}

impl Engine {
    fn queue(&mut self, host: &mut State, count: usize) {
        for _ in 0..count {
            host.pending_samples.push(self.made);
            self.made = self.made.wrapping_add(1);
        }
        host.needs_more_audio = self.forever || !self.rest.is_empty();
    }

    fn call(&mut self, host: &mut State, call: GuestCall) -> i32 {
        self.calls.push(call);
        match call {
            GuestCall::StackSave => 1000,
            GuestCall::StackAlloc { size } => 1000 - size,
            GuestCall::Speak { .. } => {
                let first = self.first;
                self.queue(host, first);
                0
            }
            GuestCall::Continue => {
                let count = if self.rest.is_empty() { 0 } else { self.rest.remove(0) };
                self.queue(host, count);
                0
            }
            _ => 0,
        }
    }
}

fn engine(first: usize, rest: &[usize], forever: bool) -> Engine {
    Engine { first, rest: rest.to_vec(), forever, made: 0, calls: Vec::new() }
}

fn synthesize(s: &mut Synthesis, host: &mut State, e: &mut Engine) -> Vec<u8> {
    let mut mem = vec![0u8; 2048];
    let mut reply = 0;
    while let Some(call) = s.step(host, &mut mem, reply).unwrap() {
        reply = e.call(host, call);
    }
    mem
}

#[test]
fn text_is_spoken_and_the_stack_restored() {
    let mut host = State::new();
    let mut e = engine(3, &[2, 4], false);
    let mut s = voice().synthesize("Да");
    let mem = synthesize(&mut s, &mut host, &mut e);
    assert_eq!(
        e.calls,
        vec![
            GuestCall::StackSave,
            GuestCall::StackAlloc { size: 6 },
            GuestCall::Speak { worker: -1, ptr: 994, request: 3 },
            GuestCall::StackRestore { sp: 1000 },
            GuestCall::Continue,
            GuestCall::Continue,
        ]
    );
    assert_eq!(mem[994..1000], [0x14, 0x04, 0x30, 0x04, 0, 0]);
    assert_eq!(s.finish(), (0..9).collect::<Vec<i16>>());
    assert!(host.pending_samples.is_empty());
}

#[test]
fn chunks_come_as_they_are_made() {
    let mut host = State::new();
    let mut mem = vec![0u8; 2048];
    let mut e = engine(3, &[0, 4], false);
    let mut u = voice().speak("x");
    let mut chunks = Vec::new();
    let mut reply = 0;
    loop {
        let turn = u.step(&mut host, &mut mem, reply).unwrap();
        if !turn.samples.is_empty() {
            chunks.push(turn.samples);
        }
        match turn.call {
            Some(call) => reply = e.call(&mut host, call),
            None => break,
        }
    }
    assert_eq!(chunks, vec![vec![0, 1, 2], vec![3, 4, 5, 6]]);
}

#[test]
fn old_samples_are_dropped() {
    let mut host = State::new();
    host.pending_samples = vec![9, 9, 9];
    host.needs_more_audio = true;
    let mut e = engine(1, &[], false);
    let mut s = voice().synthesize("x");
    synthesize(&mut s, &mut host, &mut e);
    assert_eq!(s.finish(), vec![0]);
}

#[test]
fn idle_engine_is_stopped() {
    let mut host = State::new();
    let mut e = engine(0, &[], true);
    let mut v = voice();
    v.set_limits(limits(300, 5));
    let mut s = v.synthesize("x");
    synthesize(&mut s, &mut host, &mut e);
    assert_eq!(e.calls.iter().filter(|c| **c == GuestCall::Continue).count(), 5);
    assert!(host.needs_more_audio);
}

#[test]
fn idle_count_starts_again_with_samples() {
    let mut host = State::new();
    let mut e = engine(0, &[0, 0, 1, 0, 0, 1], true);
    let mut v = voice();
    v.set_limits(limits(300, 3));
    let mut s = v.synthesize("x");
    synthesize(&mut s, &mut host, &mut e);
    assert_eq!(e.calls.iter().filter(|c| **c == GuestCall::Continue).count(), 9);
    assert_eq!(s.finish(), vec![0, 1]);
}

#[test]
fn duration_limit_stops_the_engine() {
    let mut host = State::new();
    let mut e = engine(22049, &[1, 7], true);
    let mut v = voice();
    v.set_limits(limits(1, 200));
    let mut s = v.synthesize("x");
    synthesize(&mut s, &mut host, &mut e);
    assert_eq!(e.calls.iter().filter(|c| **c == GuestCall::Continue).count(), 1);
    assert_eq!(s.finish().len(), 22050);
}

#[test]
fn one_continuation_comes_before_the_limits() {
    for (l, heard) in [(limits(0, 200), 0), (limits(300, 0), 15)] {
        let mut host = State::new();
        let mut e = engine(10, &[5, 5], true);
        let mut v = voice();
        v.set_limits(l);
        let mut s = v.synthesize("x");
        synthesize(&mut s, &mut host, &mut e);
        assert_eq!(e.calls.iter().filter(|c| **c == GuestCall::Continue).count(), 1);
        assert_eq!(s.finish().len(), heard);
        assert!(host.pending_samples.is_empty());
    }
}

#[test]
fn room_outside_the_memory_ends_the_utterance() {
    let mut host = State::new();
    let mut mem = vec![0u8; 16];
    let mut u = Utterance::new("abc", &limits(1, 1));
    assert!(u.step(&mut host, &mut mem, 0).is_ok());
    assert!(u.step(&mut host, &mut mem, 0).is_ok());
    assert_eq!(u.step(&mut host, &mut mem, 9).err(), Some(OutOfBounds));
    let turn = u.step(&mut host, &mut mem, 0).unwrap();
    assert_eq!(turn.call, None);
    assert_eq!(mem, vec![0u8; 16]);
}

#[test]
fn events_are_delivered() {
    let mut d = Delivery::new();
    assert!(d.audio(vec![]).is_none());
    match d.audio(vec![1, 2]) {
        Some(SpeechEvent::Audio(chunk)) => {
            assert_eq!(chunk.samples, vec![1, 2]);
            assert_eq!(chunk.sample_rate, 22050);
        }
        other => panic!("unexpected {:?}", other),
    }
    d.report(true);
    assert!(matches!(d.finish(), Some(SpeechEvent::Done)));
}

#[test]
fn failed_receiver_gets_nothing_more() {
    let mut d = Delivery::new();
    assert!(d.audio(vec![1]).is_some());
    d.report(false);
    d.report(true);
    assert!(d.audio(vec![2]).is_none());
    assert!(d.finish().is_none());
}

#[test]
fn stream_and_whole_are_the_same() {
    let mut host = State::new();
    let mut e = engine(3, &[0, 2, 0, 5], false);
    let mut s = voice().synthesize("abc");
    synthesize(&mut s, &mut host, &mut e);
    let all = s.finish();

    let mut e = engine(3, &[0, 2, 0, 5], false);
    let mut u = voice().speak("abc");
    let d = Delivery::new();
    let mut mem = vec![0u8; 2048];
    let mut heard = Vec::new();
    let mut reply = 0;
    loop {
        let turn = u.step(&mut host, &mut mem, reply).unwrap();
        if let Some(SpeechEvent::Audio(chunk)) = d.audio(turn.samples) {
            assert!(!chunk.samples.is_empty());
            heard.extend(chunk.samples);
        }
        match turn.call {
            Some(call) => reply = e.call(&mut host, call),
            None => break,
        }
    }
    assert_eq!(heard, all);
    assert_eq!(all.len(), 10);
}

#[test]
fn audio_is_no_longer_than_the_limit() {
    for (first, rest) in [(30000, vec![]), (22050, vec![1]), (22000, vec![40, 40, 40]), (0, vec![50000])] {
        let mut host = State::new();
        let mut e = engine(first, &rest, true);
        let mut v = voice();
        v.set_limits(limits(1, 200));
        let mut s = v.synthesize("x");
        synthesize(&mut s, &mut host, &mut e);
        let heard = s.finish();
        assert_eq!(heard, (0..22050).collect::<Vec<i16>>());
        assert!(host.pending_samples.is_empty());
    }
}

#[test]
fn streamed_audio_stops_at_the_limit() {
    let mut host = State::new();
    let mut mem = vec![0u8; 2048];
    let mut e = engine(22000, &[40, 40, 40], true);
    let mut u = Utterance::new("x", &limits(1, 200));
    let mut sizes = Vec::new();
    let mut reply = 0;
    loop {
        let turn = u.step(&mut host, &mut mem, reply).unwrap();
        if !turn.samples.is_empty() {
            sizes.push(turn.samples.len());
        }
        match turn.call {
            Some(call) => reply = e.call(&mut host, call),
            None => break,
        }
    }
    assert_eq!(sizes, vec![22000, 40, 10]);
}
