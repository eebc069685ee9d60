//! The decisions of the command line: where engine and voice come from, and
//! what is read as text to speak.

use crate::escape;
use crate::text;
use vstd::prelude::*;

verus! {

/// Where the engine comes from.
#[derive(Debug, Clone, Copy, PartialEq, Eq, Structural)]
pub enum EngineSource {
    /// The given file.
    File,
    /// The embedded engine, with a cache directory.
    Cached,
    /// The embedded engine.
    Embedded,
}

/// Where the voice comes from.
#[derive(Debug, Clone, Copy, PartialEq, Eq, Structural)]
pub enum VoiceSource {
    /// The add-on, unpacked into the cache.
    CachedAddon,
    /// The add-on, unpacked for this run.
    Addon,
    /// The voice directory.
    Directory,
    /// Nowhere: none was given.
    Missing,
}

/// The cache directory: none where caching is off, else the given one, else
/// the default.
pub fn choose_cache<T>(off: bool, given: Option<T>, default: Option<T>) -> (r: Option<T>)
    ensures
        r == (if off {
            None
        } else if given is Some {
            given
        } else {
            default
        }),
{
    if off {
        None
    } else {
        match given {
            Some(dir) => Some(dir),
            None => default,
        }
    }
}

/// Where the engine comes from.
pub open spec fn engine_source(file: bool, cache: bool) -> EngineSource {
    match (file, cache) {
        (true, _) => EngineSource::File,
        (false, true) => EngineSource::Cached,
        (false, false) => EngineSource::Embedded,
    }
}

/// Where the voice comes from.
pub open spec fn voice_source(addon: bool, cache: bool, dir: bool) -> VoiceSource {
    match (addon, cache, dir) {
        (true, true, _) => VoiceSource::CachedAddon,
        (true, false, _) => VoiceSource::Addon,
        (false, _, true) => VoiceSource::Directory,
        (false, _, false) => VoiceSource::Missing,
    }
}

/// Where the engine comes from: a given file goes before the cache.
pub fn choose_engine(file: bool, cache: bool) -> (r: EngineSource)
    ensures
        r == (if file {
            EngineSource::File
        } else if cache {
            EngineSource::Cached
        } else {
            EngineSource::Embedded
        }),
        r == engine_source(file, cache),
{
    if file {
        EngineSource::File
    } else if cache {
        EngineSource::Cached
    } else {
        EngineSource::Embedded
    }
}

/// Where the voice comes from: an add-on goes before a directory.
pub fn choose_voice(addon: bool, cache: bool, dir: bool) -> (r: VoiceSource)
    ensures
        r == (if addon && cache {
            VoiceSource::CachedAddon
        } else if addon {
            VoiceSource::Addon
        } else if dir {
            VoiceSource::Directory
        } else {
            VoiceSource::Missing
        }),
        r == voice_source(addon, cache, dir),
{
    if addon && cache {
        VoiceSource::CachedAddon
    } else if addon {
        VoiceSource::Addon
    } else if dir {
        VoiceSource::Directory
    } else {
        VoiceSource::Missing
    }
}

/// The name under which an add-on is unpacked into the cache: that of its file
/// without the extension, where it has one.
pub fn cache_name(stem: Option<String>) -> (r: String)
    ensures
        r@ == (match stem {
            Some(name) => name@,
            None => "default"@,
        }),
{
    match stem {
        Some(name) => name,
        None => "default".to_owned(),
    }
}

/// A character with the Unicode property `White_Space`.
pub open spec fn is_space(c: char) -> bool {
    let v = c as u32;
    ||| 0x09 <= v <= 0x0D
    ||| v == 0x20
    ||| v == 0x85
    ||| v == 0xA0
    ||| v == 0x1680
    ||| 0x2000 <= v <= 0x200A
    ||| v == 0x2028
    ||| v == 0x2029
    ||| v == 0x202F
    ||| v == 0x205F
    ||| v == 0x3000
}

/// `s` without the white space at its start.
pub open spec fn trim_start(s: Seq<char>) -> Seq<char>
    decreases s.len(),
{
    if s.len() > 0 && is_space(s[0]) {
        trim_start(s.skip(1))
    } else {
        s
    }
}

/// `s` without the white space at its end.
pub open spec fn trim_end(s: Seq<char>) -> Seq<char>
    decreases s.len(),
{
    if s.len() > 0 && is_space(s.last()) {
        trim_end(s.drop_last())
    } else {
        s
    }
}

/// `s` without the white space around it.
pub open spec fn trim(s: Seq<char>) -> Seq<char> {
    trim_end(trim_start(s))
}

/// The text to speak that bytes hold: decoded, trimmed and with its control
/// sequences marked.
pub open spec fn spoken(bytes: Seq<u8>) -> Seq<char> {
    escape::mark_all(trim(text::decoded(bytes)), escape::sequences())
}

/// Whether a character is white space.
fn white(c: char) -> (r: bool)
    ensures
        r == is_space(c),
{
    let v: u32 = c as u32;
    (0x09 <= v && v <= 0x0D) || v == 0x20 || v == 0x85 || v == 0xA0 || v == 0x1680 || (0x2000 <= v
        && v <= 0x200A) || v == 0x2028 || v == 0x2029 || v == 0x202F || v == 0x205F || v == 0x3000
}

/// A text without the white space around it.
pub fn trimmed(s: &str) -> (r: String)
    ensures
        r@ == trim(s@),
{
    let chars: Vec<char> = text::chars_of(s);
    let mut from: usize = 0;
    assert(s@.skip(0) =~= s@);
    while from < chars.len() && white(chars[from])
        invariant
            from <= chars@.len(),
            chars@ == s@,
            trim_start(s@) == trim_start(s@.skip(from as int)),
        decreases chars@.len() - from,
    {
        assert(s@.skip(from as int).skip(1) =~= s@.skip(from + 1));
        from = from + 1;
    }
    let ghost rest = s@.skip(from as int);
    assert(trim_start(s@) == rest);
    let mut to: usize = chars.len();
    assert(s@.subrange(from as int, to as int) =~= rest);
    while from < to && white(chars[to - 1])
        invariant
            from <= to <= chars@.len(),
            chars@ == s@,
            trim_end(rest) == trim_end(s@.subrange(from as int, to as int)),
        decreases to,
    {
        assert(s@.subrange(from as int, to as int).drop_last() =~= s@.subrange(
            from as int,
            to - 1,
        ));
        to = to - 1;
    }
    text::part(chars.as_slice(), from, to)
}

/// The text to speak that bytes hold, or none where it is empty.
pub fn spoken_text(bytes: &[u8]) -> (r: Option<String>)
    ensures
        r is Some <==> spoken(bytes@).len() > 0,
        r matches Some(s) ==> s@ == spoken(bytes@),
{
    let all: String = text::decode(bytes);
    let line: String = trimmed(all.as_str());
    let s: String = escape::process_escapes(line.as_str());
    if s.as_str().is_empty() {
        None
    } else {
        Some(s)
    }
}

/// What a read of one byte gave.
#[derive(Debug, Clone, Copy, PartialEq, Eq, Structural)]
pub enum Input {
    Byte(u8),
    End,
    Error,
}

/// What a read of one byte leads to.
#[derive(Debug)]
pub enum LineEvent {
    /// The line goes on.
    More,
    /// The line is complete.
    Line(Vec<u8>),
    /// The input is over, and no line is open.
    Quit,
}

/// The event hands over the line `bytes`.
pub open spec fn completes(event: LineEvent, bytes: Seq<u8>) -> bool {
    event matches LineEvent::Line(line) && line@ == bytes
}

/// What a read of one byte leads to, as mathematical values.
pub enum Reading {
    More,
    Line(Seq<u8>),
    Quit,
}

/// What a read leads to, with the open line `line`.
pub open spec fn read_of(line: Seq<u8>, input: Input) -> Reading {
    match input {
        Input::Byte(b) => if b == 10 {
            Reading::Line(line)
        } else {
            Reading::More
        },
        Input::End => if line.len() == 0 {
            Reading::Quit
        } else {
            Reading::Line(line)
        },
        Input::Error => Reading::Line(line),
    }
}

/// The open line after a read.
pub open spec fn line_after(line: Seq<u8>, input: Input) -> Seq<u8> {
    match read_of(line, input) {
        Reading::More => line.push(input->Byte_0),
        _ => Seq::empty(),
    }
}

/// The open line after all of `bytes` were read.
pub open spec fn line_after_all(line: Seq<u8>, bytes: Seq<u8>) -> Seq<u8>
    decreases bytes.len(),
{
    if bytes.len() == 0 {
        line
    } else {
        line_after(line_after_all(line, bytes.drop_last()), Input::Byte(bytes.last()))
    }
}

/// The byte that ends a line.
pub const NEWLINE: u8 = 10;

/// A line that is read byte by byte.
#[derive(Debug)]
pub struct LineReader {
    buf: Vec<u8>,
}

impl LineReader {
    /// The bytes of the open line.
    pub closed spec fn line(self) -> Seq<u8> {
        self.buf@
    }

    /// Starts with an empty line.
    pub fn new() -> (l: LineReader)
        ensures
            l.line() == Seq::<u8>::empty(),
    {
        LineReader { buf: Vec::new() }
    }

    /// Takes what was read. A newline, an error and the end of the input
    /// complete the line; the end of the input right behind a line is the end.
    pub fn feed(&mut self, input: Input) -> (event: LineEvent)
        ensures
            match input {
                Input::Byte(b) => if b == NEWLINE {
                    completes(event, old(self).line()) && final(self).line().len() == 0
                } else {
                    event is More && final(self).line() == old(self).line().push(b)
                },
                Input::End => if old(self).line().len() == 0 {
                    event is Quit && final(self).line() == old(self).line()
                } else {
                    completes(event, old(self).line()) && final(self).line().len() == 0
                },
                Input::Error => completes(event, old(self).line()) && final(self).line().len()
                    == 0,
            },
            final(self).line() == line_after(old(self).line(), input),
            match read_of(old(self).line(), input) {
                Reading::More => event is More,
                Reading::Line(line) => completes(event, line),
                Reading::Quit => event is Quit,
            },
    {
        if let Input::Byte(b) = input {
            if b != NEWLINE {
                self.buf.push(b);
                return LineEvent::More;
            }
        } else if let Input::End = input {
            if self.buf.len() == 0 {
                return LineEvent::Quit;
            }
        }
        let mut line: Vec<u8> = Vec::new();
        std::mem::swap(&mut line, &mut self.buf);
        LineEvent::Line(line)
    }
}

/// What trimming leaves of a text neither starts nor ends with white space.
pub proof fn law_trimmed(s: Seq<char>)
    ensures
        trim(s).len() > 0 ==> !is_space(trim(s)[0]) && !is_space(trim(s).last()),
{
    lemma_trim_start(s);
    lemma_trim_end(trim_start(s));
}

/// No white space is left at the start.
proof fn lemma_trim_start(s: Seq<char>)
    ensures
        trim_start(s).len() > 0 ==> !is_space(trim_start(s)[0]),
    decreases s.len(),
{
    if s.len() > 0 && is_space(s[0]) {
        lemma_trim_start(s.skip(1));
    }
}

/// No white space is left at the end, and the start stays.
proof fn lemma_trim_end(s: Seq<char>)
    ensures
        trim_end(s).len() > 0 ==> !is_space(trim_end(s).last()) && trim_end(s)[0] == s[0],
    decreases s.len(),
{
    if s.len() > 0 && is_space(s.last()) {
        lemma_trim_end(s.drop_last());
    }
}

/// `a` is made of white space.
pub open spec fn all_space(a: Seq<char>) -> bool {
    forall|i: int| 0 <= i < a.len() ==> is_space(#[trigger] a[i])
}

/// Trimming the start takes white space away and nothing else.
proof fn lemma_start_taken(s: Seq<char>)
    ensures
        trim_start(s).len() <= s.len(),
        s.skip(s.len() - trim_start(s).len()) == trim_start(s),
        all_space(s.take(s.len() - trim_start(s).len())),
    decreases s.len(),
{
    let t = trim_start(s);
    if s.len() > 0 && is_space(s[0]) {
        let rest = s.skip(1);
        lemma_start_taken(rest);
        let n = s.len() - t.len();
        assert(s.skip(n) =~= rest.skip(n - 1));
        assert forall|i: int| 0 <= i < n implies is_space(#[trigger] s.take(n)[i]) by {
            if i > 0 {
                assert(rest.take(n - 1)[i - 1] == s[i]);
            }
        }
    } else {
        assert(s.skip(0) =~= s);
    }
}

/// Trimming the end takes white space away and nothing else.
proof fn lemma_end_taken(s: Seq<char>)
    ensures
        trim_end(s).len() <= s.len(),
        s.take(trim_end(s).len() as int) == trim_end(s),
        all_space(s.skip(trim_end(s).len() as int)),
    decreases s.len(),
{
    let t = trim_end(s);
    let n = t.len() as int;
    if s.len() > 0 && is_space(s.last()) {
        let rest = s.drop_last();
        lemma_end_taken(rest);
        assert(s.take(n) =~= rest.take(n));
        assert forall|i: int| 0 <= i < s.len() - n implies is_space(#[trigger] s.skip(n)[i]) by {
            if i < s.len() - n - 1 {
                assert(rest.skip(n)[i] == s[n + i]);
            }
        }
    } else {
        assert(s.take(n) =~= s);
    }
}

/// Trimming takes away white space only: a text is white space, what is left of
/// it, and white space.
pub proof fn law_only_space_trimmed(s: Seq<char>)
    ensures
        exists|a: Seq<char>, b: Seq<char>|
            #[trigger] (a + trim(s) + b) == s && all_space(a) && all_space(b),
{
    let mid = trim_start(s);
    lemma_start_taken(s);
    lemma_end_taken(mid);
    let a = s.take(s.len() - mid.len());
    let b = mid.skip(trim(s).len() as int);
    assert(mid =~= trim(s) + b);
    assert(a + trim(s) + b =~= s);
}

/// White space around a text is taken away, all of it, and what is inside stays.
pub proof fn law_trimmed_to_the_text(a: Seq<char>, t: Seq<char>, b: Seq<char>)
    requires
        all_space(a),
        all_space(b),
        t.len() > 0 ==> !is_space(t[0]) && !is_space(t.last()),
    ensures
        trim(a + t + b) == t,
    decreases a.len() + b.len(),
{
    if a.len() > 0 {
        assert(is_space(a[0]));
        let s = a + t + b;
        assert(s[0] == a[0]);
        assert(s.skip(1) =~= a.skip(1) + t + b);
        assert forall|i: int| 0 <= i < a.skip(1).len() implies is_space(
            #[trigger] a.skip(1)[i],
        ) by {
            assert(a.skip(1)[i] == a[i + 1]);
        }
        law_trimmed_to_the_text(a.skip(1), t, b);
    } else if t.len() == 0 {
        lemma_all_trimmed(b);
        assert(a + t + b =~= b);
        assert(trim(b) =~= t);
    } else {
        let s = a + t + b;
        assert(s =~= t + b);
        assert(s[0] == t[0]);
        assert(trim_start(s) == s);
        lemma_trailing_space(t, b);
    }
}

/// Of white space nothing is left.
proof fn lemma_all_trimmed(b: Seq<char>)
    requires
        all_space(b),
    ensures
        trim(b).len() == 0,
    decreases b.len(),
{
    if b.len() > 0 {
        assert(is_space(b[0]));
        assert forall|i: int| 0 <= i < b.skip(1).len() implies is_space(
            #[trigger] b.skip(1)[i],
        ) by {
            assert(b.skip(1)[i] == b[i + 1]);
        }
        lemma_all_trimmed(b.skip(1));
    }
}

/// White space behind a text is taken away.
proof fn lemma_trailing_space(t: Seq<char>, b: Seq<char>)
    requires
        all_space(b),
        t.len() > 0,
        !is_space(t.last()),
    ensures
        trim_end(t + b) == t,
    decreases b.len(),
{
    if b.len() == 0 {
        assert(t + b =~= t);
    } else {
        assert(is_space(b[b.len() - 1]));
        assert((t + b).last() == b.last());
        assert((t + b).drop_last() =~= t + b.drop_last());
        assert forall|i: int| 0 <= i < b.drop_last().len() implies is_space(
            #[trigger] b.drop_last()[i],
        ) by {
            assert(b.drop_last()[i] == b[i]);
        }
        lemma_trailing_space(t, b.drop_last());
    }
}

/// White space is what Unicode calls so: twenty-five characters.
pub proof fn law_white_space(c: char)
    ensures
        is_space(c) <==> (c == '\u{9}' || c == '\u{a}' || c == '\u{b}' || c == '\u{c}' || c == '\u{d}'
            || c == ' ' || c == '\u{85}' || c == '\u{a0}' || c == '\u{1680}' || ('\u{2000}' <= c
            <= '\u{200a}') || c == '\u{2028}' || c == '\u{2029}' || c == '\u{202f}' || c
            == '\u{205f}' || c == '\u{3000}'),
{
}

/// The text that is spoken of bytes is the text that they are, without white
/// space around it, and nothing of that is lost: the escape characters apart,
/// both are the same.
pub proof fn law_spoken_is_the_text(s: Seq<char>, a: Seq<char>, t: Seq<char>, b: Seq<char>)
    requires
        s == a + t + b,
        all_space(a),
        all_space(b),
        t.len() > 0 ==> !is_space(t[0]) && !is_space(t.last()),
    ensures
        escape::bare(spoken(vstd::utf8::encode_utf8(s))) == escape::bare(t),
        spoken(vstd::utf8::encode_utf8(s)) == escape::mark_all(t, escape::sequences()),
{
    text::law_valid_text_decoded(s);
    law_trimmed_to_the_text(a, t, b);
    escape::law_only_escapes_added(t, escape::sequences());
}

/// A line is all the bytes up to the newline, however many they are, and so is
/// what the end of the input or an error leaves of one; the next line starts
/// empty, and the end of the input without a line is the end.
pub proof fn law_lines_are_whole(bytes: Seq<u8>)
    requires
        forall|i: int| 0 <= i < bytes.len() ==> #[trigger] bytes[i] != 10,
    ensures
        ({
            let line = line_after_all(Seq::empty(), bytes);
            &&& line == bytes
            &&& read_of(line, Input::Byte(10)) == Reading::Line(bytes)
            &&& line_after(line, Input::Byte(10)).len() == 0
            &&& read_of(line, Input::Error) == Reading::Line(bytes)
            &&& bytes.len() > 0 ==> read_of(line, Input::End) == Reading::Line(bytes)
            &&& bytes.len() == 0 ==> read_of(line, Input::End) == Reading::Quit
        }),
    decreases bytes.len(),
{
    if bytes.len() > 0 {
        let head = bytes.drop_last();
        assert forall|i: int| 0 <= i < head.len() implies #[trigger] head[i] != 10 by {
            assert(head[i] == bytes[i]);
        }
        law_lines_are_whole(head);
        assert(bytes[bytes.len() - 1] != 10);
        assert(head.push(bytes.last()) =~= bytes);
    } else {
        assert(bytes =~= Seq::empty());
    }
}

/// A given file is the engine, and an add-on the voice, whatever else is given;
/// a cache is used where there is one, and only without any voice there is
/// none.
pub proof fn law_sources(a: bool, b: bool)
    ensures
        engine_source(true, a) == EngineSource::File,
        engine_source(false, true) == EngineSource::Cached,
        engine_source(false, false) == EngineSource::Embedded,
        voice_source(true, true, a) == VoiceSource::CachedAddon,
        voice_source(true, false, a) == VoiceSource::Addon,
        voice_source(false, a, true) == VoiceSource::Directory,
        voice_source(a, b, false) == VoiceSource::Missing <==> !a,
{
}

} // verus!
