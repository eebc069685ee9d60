//! Text as sequences of characters: decoding, searching, trimming, splitting.

use vstd::prelude::*;
use vstd::slice::slice_subrange;
#[allow(unused_imports)]
use vstd::utf8::*;

verus! {

/// The text that `String::from_utf8_lossy` makes of `bytes`.
pub uninterp spec fn lossy_utf8(bytes: Seq<u8>) -> Seq<char>;

/// No byte is zero.
pub open spec fn nonzero(bytes: Seq<u8>) -> bool {
    forall|i: int| 0 <= i < bytes.len() ==> #[trigger] bytes[i] != 0
}

/// No character is NUL.
pub open spec fn without_nul(s: Seq<char>) -> bool {
    forall|i: int| 0 <= i < s.len() ==> #[trigger] s[i] != '\0'
}

/// Calls `String::from_utf8_lossy`: valid UTF-8 is decoded as it stands, and
/// what the call makes of other bytes goes by the name `lossy_utf8`. Each invalid
/// sequence becomes U+FFFD, so that a NUL in the text comes of a zero byte only.
#[verifier::external_body]
fn lossy_text(bytes: &[u8]) -> (text: String)
    ensures
        text@ == lossy_utf8(bytes@),
        valid_utf8(bytes@) ==> text@ == decode_utf8(bytes@),
        nonzero(bytes@) ==> without_nul(text@),
{
    String::from_utf8_lossy(bytes).into_owned()
}

/// The text that bytes are: valid UTF-8 decoded, or what
/// `String::from_utf8_lossy` makes of other bytes.
pub open spec fn decoded(bytes: Seq<u8>) -> Seq<char> {
    if valid_utf8(bytes) {
        decode_utf8(bytes)
    } else {
        lossy_utf8(bytes)
    }
}

/// The text that bytes are.
pub fn decode(bytes: &[u8]) -> (text: String)
    ensures
        text@ == decoded(bytes@),
        nonzero(bytes@) ==> without_nul(text@),
{
    lossy_text(bytes)
}

/// `String::push` appends one character.
pub assume_specification[ String::push ](s: &mut String, c: char)
    ensures
        final(s)@ == old(s)@.push(c),
;

/// `pattern` stands in `s` at index `at`.
pub open spec fn occurs_at(s: Seq<char>, pattern: Seq<char>, at: int) -> bool {
    &&& 0 <= at
    &&& at + pattern.len() <= s.len()
    &&& s.subrange(at, at + pattern.len()) == pattern
}

/// `s` ends with `suffix`.
pub open spec fn ends_with(s: Seq<char>, suffix: Seq<char>) -> bool {
    occurs_at(s, suffix, s.len() - suffix.len())
}

/// `pattern` stands somewhere in `s`.
pub open spec fn contains(s: Seq<char>, pattern: Seq<char>) -> bool {
    exists|at: int| #[trigger] occurs_at(s, pattern, at)
}

/// The index of the last `c` in `s`, or -1.
pub open spec fn last_index(s: Seq<char>, c: char) -> int
    decreases s.len(),
{
    if s.len() == 0 {
        -1
    } else if s.last() == c {
        s.len() - 1
    } else {
        last_index(s.drop_last(), c)
    }
}

/// What follows the last slash of a path, or the whole path without one.
pub open spec fn base_name(path: Seq<char>) -> Seq<char> {
    path.subrange(last_index(path, '/') + 1, path.len() as int)
}

/// `s` without the run of `c` at its end.
pub open spec fn trim_end(s: Seq<char>, c: char) -> Seq<char>
    decreases s.len(),
{
    if s.len() > 0 && s.last() == c {
        trim_end(s.drop_last(), c)
    } else {
        s
    }
}

/// `s` without the copies of `prefix` at its start.
pub open spec fn strip_prefixes(s: Seq<char>, prefix: Seq<char>) -> Seq<char>
    decreases s.len(),
{
    if prefix.len() > 0 && occurs_at(s, prefix, 0) {
        strip_prefixes(s.subrange(prefix.len() as int, s.len() as int), prefix)
    } else {
        s
    }
}

/// `s` without the copies of `suffix` at its end.
pub open spec fn strip_suffixes(s: Seq<char>, suffix: Seq<char>) -> Seq<char>
    decreases s.len(),
{
    if suffix.len() > 0 && ends_with(s, suffix) {
        strip_suffixes(s.subrange(0, s.len() - suffix.len()), suffix)
    } else {
        s
    }
}

/// The pieces of `s` between the separators `c`, first to last.
pub open spec fn split(s: Seq<char>, c: char) -> Seq<Seq<char>>
    decreases s.len(),
{
    if s.len() == 0 {
        seq![Seq::empty()]
    } else if s.last() == c {
        split(s.drop_last(), c).push(Seq::empty())
    } else {
        let head = split(s.drop_last(), c);
        head.drop_last().push(head.last().push(s.last()))
    }
}

/// The pieces `parts` in order with `sep` between neighbours.
pub open spec fn join(parts: Seq<Seq<char>>, sep: Seq<char>) -> Seq<char>
    decreases parts.len(),
{
    if parts.len() == 0 {
        Seq::empty()
    } else if parts.len() == 1 {
        parts[0]
    } else {
        join(parts.drop_last(), sep) + sep + parts.last()
    }
}

/// The characters of each text of a list.
pub open spec fn views(list: Seq<String>) -> Seq<Seq<char>> {
    Seq::new(list.len(), |i: int| list[i]@)
}

/// The characters of `s`.
pub fn chars_of(s: &str) -> (chars: Vec<char>)
    ensures
        chars@ == s@,
{
    let mut chars: Vec<char> = Vec::new();
    for c in it: s.chars()
        invariant
            it.seq() == s@,
            chars@.len() == it.index(),
            forall|i: int| 0 <= i < chars@.len() ==> chars@[i] == s@[i],
    {
        chars.push(c);
    }
    assert(chars@ =~= s@);
    chars
}

/// The text made of `chars`.
pub fn string_of(chars: &[char]) -> (s: String)
    ensures
        s@ == chars@,
{
    let mut s: String = String::new();
    let mut i: usize = 0;
    while i < chars.len()
        invariant
            i <= chars@.len(),
            s@ == chars@.subrange(0, i as int),
        decreases chars@.len() - i,
    {
        s.push(chars[i]);
        i = i + 1;
        assert(s@ =~= chars@.subrange(0, i as int));
    }
    assert(s@ =~= chars@);
    s
}

/// Whether `pattern` stands in `s` at index `at`.
pub fn found_at(s: &[char], pattern: &[char], at: usize) -> (found: bool)
    ensures
        found == occurs_at(s@, pattern@, at as int),
{
    if at > s.len() || pattern.len() > s.len() - at {
        return false;
    }
    let size: usize = s.len();
    let mut i: usize = 0;
    while i < pattern.len()
        invariant
            i <= pattern@.len(),
            size == s@.len(),
            at + pattern@.len() <= size,
            forall|k: int| 0 <= k < i ==> s@[at + k] == pattern@[k],
        decreases pattern@.len() - i,
    {
        if s[at + i] != pattern[i] {
            proof {
                assert(s@.subrange(at as int, at + pattern@.len())[i as int] == s@[at + i]);
            }
            return false;
        }
        i = i + 1;
    }
    assert(s@.subrange(at as int, at + pattern@.len()) =~= pattern@);
    true
}

/// Whether two texts are the same.
pub fn same(a: &str, b: &str) -> (equal: bool)
    ensures
        equal == (a@ == b@),
{
    let x: Vec<char> = chars_of(a);
    let y: Vec<char> = chars_of(b);
    if x.len() != y.len() {
        return false;
    }
    let found: bool = found_at(x.as_slice(), y.as_slice(), 0);
    assert(x@.subrange(0, x@.len() as int) =~= x@);
    found
}

/// Whether `s` ends with `suffix`.
pub fn has_suffix(s: &str, suffix: &str) -> (found: bool)
    ensures
        found == ends_with(s@, suffix@),
{
    let x: Vec<char> = chars_of(s);
    let y: Vec<char> = chars_of(suffix);
    if x.len() < y.len() {
        return false;
    }
    found_at(x.as_slice(), y.as_slice(), x.len() - y.len())
}

/// Whether `pattern` stands somewhere in `s`.
pub fn has_part(s: &str, pattern: &str) -> (found: bool)
    ensures
        found == contains(s@, pattern@),
{
    let x: Vec<char> = chars_of(s);
    let y: Vec<char> = chars_of(pattern);
    let mut i: usize = 0;
    while i <= x.len() && y.len() <= x.len() - i
        invariant
            x@ == s@,
            y@ == pattern@,
            i <= x@.len() + 1,
            forall|k: int| 0 <= k < i ==> !#[trigger] occurs_at(s@, pattern@, k),
        decreases x@.len() + 1 - i,
    {
        if found_at(x.as_slice(), y.as_slice(), i) {
            return true;
        }
        if i == x.len() {
            return false;
        }
        i = i + 1;
    }
    false
}

/// The index of the last `c`, as one more than it; zero without one.
fn past_last(s: &[char], c: char) -> (n: usize)
    ensures
        n == last_index(s@, c) + 1,
        n <= s@.len(),
{
    let mut n: usize = s.len();
    proof {
        assert(s@.subrange(0, n as int) =~= s@);
    }
    while n > 0 && s[n - 1] != c
        invariant
            n <= s@.len(),
            last_index(s@, c) == last_index(s@.subrange(0, n as int), c),
        decreases n,
    {
        proof {
            let head = s@.subrange(0, n as int);
            assert(head.last() == s@[n - 1]);
            assert(head.drop_last() =~= s@.subrange(0, n - 1));
        }
        n = n - 1;
    }
    proof {
        if n > 0 {
            assert(s@.subrange(0, n as int).last() == s@[n - 1]);
        }
    }
    n
}

/// Part of a text, from index `from` up to `to`.
pub fn part(chars: &[char], from: usize, to: usize) -> (s: String)
    requires
        from <= to <= chars@.len(),
    ensures
        s@ == chars@.subrange(from as int, to as int),
{
    string_of(slice_subrange(chars, from, to))
}

/// What follows the last slash of `path`, or all of it without one.
pub fn file_name(path: &str) -> (name: String)
    ensures
        name@ == base_name(path@),
{
    let chars: Vec<char> = chars_of(path);
    let start: usize = past_last(chars.as_slice(), '/');
    part(chars.as_slice(), start, chars.len())
}

/// `s` without the slashes at its end.
pub fn without_end(s: &str, c: char) -> (t: String)
    ensures
        t@ == trim_end(s@, c),
{
    let chars: Vec<char> = chars_of(s);
    let mut n: usize = chars.len();
    proof {
        assert(chars@.subrange(0, n as int) =~= s@);
    }
    while n > 0 && chars[n - 1] == c
        invariant
            n <= chars@.len(),
            trim_end(s@, c) == trim_end(chars@.subrange(0, n as int), c),
        decreases n,
    {
        proof {
            assert(chars@.subrange(0, n as int).drop_last() =~= chars@.subrange(0, n - 1));
        }
        n = n - 1;
    }
    part(chars.as_slice(), 0, n)
}

/// `s` without the copies of `prefix` at its start.
pub fn without_prefixes(s: &str, prefix: &str) -> (t: String)
    ensures
        t@ == strip_prefixes(s@, prefix@),
{
    let x: Vec<char> = chars_of(s);
    let y: Vec<char> = chars_of(prefix);
    let size: usize = x.len();
    let mut n: usize = 0;
    proof {
        assert(x@.subrange(0, x@.len() as int) =~= s@);
    }
    while y.len() > 0 && found_at(x.as_slice(), y.as_slice(), n)
        invariant
            x@ == s@,
            y@ == prefix@,
            n <= size,
            size == x@.len(),
            strip_prefixes(s@, y@) == strip_prefixes(x@.subrange(n as int, x@.len() as int), y@),
        decreases x@.len() - n,
    {
        proof {
            let rest = x@.subrange(n as int, x@.len() as int);
            assert(rest.subrange(0, y@.len() as int) =~= x@.subrange(n as int, n + y@.len()));
            assert(rest.subrange(y@.len() as int, rest.len() as int) =~= x@.subrange(
                n + y@.len(),
                x@.len() as int,
            ));
        }
        n = n + y.len();
    }
    proof {
        let rest = x@.subrange(n as int, x@.len() as int);
        if occurs_at(rest, y@, 0) {
            assert(rest.subrange(0, y@.len() as int) =~= x@.subrange(n as int, n + y@.len()));
        }
    }
    part(x.as_slice(), n, x.len())
}

/// `s` without the copies of `suffix` at its end.
pub fn without_suffixes(s: &str, suffix: &str) -> (t: String)
    ensures
        t@ == strip_suffixes(s@, suffix@),
{
    let x: Vec<char> = chars_of(s);
    let y: Vec<char> = chars_of(suffix);
    let mut n: usize = x.len();
    proof {
        assert(x@.subrange(0, n as int) =~= s@);
    }
    while y.len() > 0 && y.len() <= n && found_at(x.as_slice(), y.as_slice(), n - y.len())
        invariant
            x@ == s@,
            y@ == suffix@,
            n <= x@.len(),
            strip_suffixes(s@, y@) == strip_suffixes(x@.subrange(0, n as int), y@),
        decreases n,
    {
        proof {
            let head = x@.subrange(0, n as int);
            assert(head.subrange(n - y@.len(), n as int) =~= x@.subrange(n - y@.len(), n as int));
            assert(head.subrange(0, n - y@.len()) =~= x@.subrange(0, n - y@.len()));
        }
        n = n - y.len();
    }
    proof {
        let head = x@.subrange(0, n as int);
        if y@.len() <= n {
            assert(head.subrange(n - y@.len(), n as int) =~= x@.subrange(n - y@.len(), n as int));
        }
    }
    part(x.as_slice(), 0, n)
}

/// The pieces of `s` between the separators `c`.
pub fn pieces(s: &str, c: char) -> (list: Vec<String>)
    ensures
        views(list@) == split(s@, c),
        list@.len() >= 1,
{
    let x: Vec<char> = chars_of(s);
    let mut list: Vec<String> = Vec::new();
    let mut piece: String = String::new();
    let mut i: usize = 0;
    proof {
        assert(views(list@).push(piece@) =~= split(x@.subrange(0, 0), c));
    }
    while i < x.len()
        invariant
            i <= x@.len(),
            views(list@).push(piece@) == split(x@.subrange(0, i as int), c),
        decreases x@.len() - i,
    {
        let ghost seen = views(list@);
        let ghost head = x@.subrange(0, i + 1);
        proof {
            assert(head.drop_last() =~= x@.subrange(0, i as int));
            assert(seen.push(piece@).drop_last() =~= seen);
        }
        if x[i] == c {
            list.push(piece);
            piece = String::new();
            assert(views(list@) =~= split(head.drop_last(), c));
        } else {
            piece.push(x[i]);
        }
        i = i + 1;
    }
    proof {
        assert(x@.subrange(0, x@.len() as int) =~= s@);
    }
    let ghost seen = views(list@);
    let ghost last = piece@;
    list.push(piece);
    assert(views(list@) =~= seen.push(last));
    list
}

/// The texts of `list` from index `from` up to `to` with `sep` between
/// neighbours.
pub fn joined(list: &Vec<String>, from: usize, to: usize, sep: &str) -> (s: String)
    requires
        from <= to <= list@.len(),
    ensures
        s@ == join(views(list@).subrange(from as int, to as int), sep@),
{
    let mut s: String = String::new();
    let mut i: usize = from;
    proof {
        assert(views(list@).subrange(from as int, from as int) =~= Seq::empty());
        assert(s@ =~= join(views(list@).subrange(from as int, from as int), sep@));
    }
    while i < to
        invariant
            from <= i <= to,
            to <= list@.len(),
            s@ == join(views(list@).subrange(from as int, i as int), sep@),
        decreases to - i,
    {
        proof {
            let next = views(list@).subrange(from as int, i + 1);
            assert(next.drop_last() =~= views(list@).subrange(from as int, i as int));
            assert(next.last() == list@[i as int]@);
        }
        if i > from {
            s.append(sep);
        }
        s.append(list[i].as_str());
        i = i + 1;
        proof {
            if i == from + 1 {
                assert(s@ =~= list@[from as int]@);
            }
        }
    }
    s
}

/// Behind the last index of a character it does not occur any more.
proof fn lemma_last_index(s: Seq<char>, c: char)
    ensures
        -1 <= last_index(s, c) < s.len(),
        last_index(s, c) >= 0 ==> s[last_index(s, c)] == c,
        forall|i: int| last_index(s, c) < i < s.len() ==> s[i] != c,
    decreases s.len(),
{
    if s.len() > 0 && s.last() != c {
        lemma_last_index(s.drop_last(), c);
        assert forall|i: int| last_index(s, c) < i < s.len() implies s[i] != c by {
            if i < s.len() - 1 {
                assert(s[i] == s.drop_last()[i]);
            }
        }
    }
}

/// What follows the last slash holds no slash.
pub proof fn lemma_base_name(path: Seq<char>)
    ensures
        !base_name(path).contains('/'),
{
    lemma_last_index(path, '/');
}

/// An end without a slash is an end of what follows the last slash.
pub proof fn lemma_base_name_end(path: Seq<char>, suffix: Seq<char>)
    requires
        ends_with(path, suffix),
        !suffix.contains('/'),
    ensures
        ends_with(base_name(path), suffix),
{
    lemma_last_index(path, '/');
    let at = last_index(path, '/');
    let start = path.len() - suffix.len();
    if at >= start {
        assert(path.subrange(start, path.len() as int)[at - start] == '/');
        assert(suffix[at - start] == '/');
    }
    let name = base_name(path);
    assert(name.subrange(name.len() - suffix.len(), name.len() as int) =~= path.subrange(
        start,
        path.len() as int,
    ));
}

/// A name without a slash is its own base name.
pub proof fn lemma_no_slash(name: Seq<char>)
    requires
        !name.contains('/'),
    ensures
        base_name(name) == name,
{
    lemma_last_index(name, '/');
    if last_index(name, '/') >= 0 {
        assert(name.contains(name[last_index(name, '/')]));
    }
    assert(base_name(name) =~= name);
}

/// An end of what follows the last slash is an end of the path.
pub proof fn lemma_base_name_is_end(path: Seq<char>, suffix: Seq<char>)
    requires
        ends_with(base_name(path), suffix),
    ensures
        ends_with(path, suffix),
{
    lemma_last_index(path, '/');
    let name = base_name(path);
    assert(name.subrange(name.len() - suffix.len(), name.len() as int) =~= path.subrange(
        path.len() - suffix.len(),
        path.len() as int,
    ));
}

/// A text ends with another where it is something and that, and holds it where
/// it stands between two parts.
pub proof fn law_parts_of_texts(a: Seq<char>, p: Seq<char>, b: Seq<char>, s: Seq<char>)
    ensures
        ends_with(a + p, p),
        occurs_at(a + p + b, p, a.len() as int),
        contains(a + p + b, p),
        ends_with(s, p) ==> s == s.take(s.len() - p.len()) + p,
        occurs_at(s, p, a.len() as int) ==> s == s.take(a.len() as int) + p + s.skip(
            (a.len() + p.len()) as int,
        ),
        contains(s, p) ==> exists|at: int|
            0 <= at <= s.len() - p.len() && s == #[trigger] s.take(at) + p + s.skip(at + p.len()),
{
    assert((a + p).subrange(a.len() as int, (a + p).len() as int) =~= p);
    assert((a + p + b).subrange(a.len() as int, (a.len() + p.len()) as int) =~= p);
    assert(occurs_at(a + p + b, p, a.len() as int));
    if ends_with(s, p) {
        let at = s.len() - p.len();
        assert(s =~= s.take(at) + s.subrange(at, s.len() as int));
    }
    if occurs_at(s, p, a.len() as int) {
        let at = a.len() as int;
        assert(s =~= s.take(at) + s.subrange(at, at + p.len()) + s.skip(at + p.len()));
    }
    if contains(s, p) {
        let at = choose|at: int| #[trigger] occurs_at(s, p, at);
        assert(s =~= s.take(at) + s.subrange(at, at + p.len()) + s.skip(at + p.len()));
    }
}

/// The base name is the end of a path, from behind a slash or from the start
/// on, and holds no slash.
pub proof fn law_base_name_is_the_end(path: Seq<char>)
    ensures
        base_name(path).len() <= path.len(),
        path.skip(path.len() - base_name(path).len()) == base_name(path),
        !base_name(path).contains('/'),
        base_name(path).len() < path.len() ==> path[path.len() - base_name(path).len() - 1] == '/',
{
    lemma_last_index(path, '/');
    lemma_base_name(path);
    assert(path.skip(path.len() - base_name(path).len()) =~= base_name(path));
}

/// What is behind a slash is found whatever stands before it.
pub proof fn law_base_name_behind_slash(dir: Seq<char>, name: Seq<char>)
    requires
        !name.contains('/'),
    ensures
        base_name(dir.push('/') + name) == name,
        base_name(name) == name,
{
    lemma_no_slash(name);
    let path = dir.push('/') + name;
    law_base_name_is_the_end(path);
    let found = base_name(path);
    if found.len() > name.len() {
        assert(found[found.len() - name.len() - 1] == path[dir.len() as int]);
        assert(found.contains('/'));
    }
    if found.len() < name.len() {
        assert(name[name.len() - found.len() - 1] == '/');
        assert(name.contains('/'));
    }
    assert(found =~= name);
}

/// A run at the end is taken off as a whole, and nothing but that run.
pub proof fn law_end_taken_off(s: Seq<char>, c: char)
    ensures
        trim_end(s.push(c), c) == trim_end(s, c),
        s.len() == 0 || s.last() != c ==> trim_end(s, c) == s,
{
    assert(s.push(c).drop_last() =~= s);
}

/// A prefix is taken off as often as it stands there, and nothing but that.
pub proof fn law_prefixes_taken_off(s: Seq<char>, prefix: Seq<char>)
    ensures
        prefix.len() > 0 ==> strip_prefixes(prefix + s, prefix) == strip_prefixes(s, prefix),
        prefix.len() == 0 || s.len() < prefix.len() || s.take(prefix.len() as int) != prefix
            ==> strip_prefixes(s, prefix) == s,
{
    assert((prefix + s).subrange(0, prefix.len() as int) =~= prefix);
    assert((prefix + s).subrange(prefix.len() as int, (prefix + s).len() as int) =~= s);
    if s.len() >= prefix.len() {
        assert(s.take(prefix.len() as int) =~= s.subrange(0, prefix.len() as int));
    }
}

/// A suffix is taken off as often as it stands there, and nothing but that.
pub proof fn law_suffixes_taken_off(s: Seq<char>, suffix: Seq<char>)
    ensures
        suffix.len() > 0 ==> strip_suffixes(s + suffix, suffix) == strip_suffixes(s, suffix),
        suffix.len() == 0 || s.len() < suffix.len() || s.skip(s.len() - suffix.len()) != suffix
            ==> strip_suffixes(s, suffix) == s,
{
    let all = s + suffix;
    assert(all.subrange(s.len() as int, all.len() as int) =~= suffix);
    assert(all.subrange(0, all.len() - suffix.len()) =~= s);
    if s.len() >= suffix.len() {
        assert(s.skip(s.len() - suffix.len()) =~= s.subrange(
            s.len() - suffix.len(),
            s.len() as int,
        ));
    }
}

/// Pieces put together with one more between them and the separator.
pub proof fn law_joined_one_by_one(parts: Seq<Seq<char>>, sep: Seq<char>, last: Seq<char>)
    ensures
        join(Seq::<Seq<char>>::empty(), sep) == Seq::<char>::empty(),
        join(seq![last], sep) == last,
        parts.len() > 0 ==> join(parts.push(last), sep) == join(parts, sep) + sep + last,
{
    assert(parts.push(last).drop_last() =~= parts);
}

/// The pieces of a text hold no separator, and joined by it they are the text.
pub proof fn law_split_loses_nothing(s: Seq<char>, c: char)
    ensures
        split(s, c).len() >= 1,
        join(split(s, c), seq![c]) == s,
        forall|i: int| 0 <= i < split(s, c).len() ==> !(#[trigger] split(s, c)[i]).contains(c),
    decreases s.len(),
{
    if s.len() == 0 {
    } else {
        let head = s.drop_last();
        let before = split(head, c);
        law_split_loses_nothing(head, c);
        if s.last() == c {
            law_joined_one_by_one(before, seq![c], Seq::empty());
            assert(head + seq![c] + Seq::<char>::empty() =~= s);
        } else {
            let init = before.drop_last();
            let last = before.last();
            assert(before =~= init.push(last));
            assert(!before[before.len() - 1].contains(c));
            law_joined_one_by_one(init, seq![c], last);
            law_joined_one_by_one(init, seq![c], last.push(s.last()));
            if init.len() == 0 {
                assert(before =~= seq![last]);
                assert(init.push(last.push(s.last())) =~= seq![last.push(s.last())]);
                law_joined_one_by_one(init, seq![c], last);
                assert(last == head);
                law_joined_one_by_one(init, seq![c], last.push(s.last()));
                assert(last.push(s.last()) =~= s);
            } else {
                assert(join(init, seq![c]) + seq![c] + last == head);
                assert(join(init, seq![c]) + seq![c] + last.push(s.last()) =~= head.push(s.last()));
                assert(head.push(s.last()) =~= s);
            }
            assert forall|i: int| 0 <= i < split(s, c).len() implies !(#[trigger] split(
                s,
                c,
            )[i]).contains(c) by {
                if i < init.len() {
                    assert(split(s, c)[i] == before[i]);
                } else {
                    let piece = last.push(s.last());
                    assert(split(s, c)[i] == piece);
                    if piece.contains(c) {
                        let k = choose|k: int| 0 <= k < piece.len() && piece[k] == c;
                        assert(last[k] == c);
                        assert(last.contains(c));
                    }
                }
            }
        }
    }
}

/// Pieces without the separator that were joined by it are found again.
pub proof fn law_split_finds_pieces(parts: Seq<Seq<char>>, c: char)
    requires
        parts.len() > 0,
        forall|i: int| 0 <= i < parts.len() ==> !(#[trigger] parts[i]).contains(c),
    ensures
        split(join(parts, seq![c]), c) == parts,
    decreases parts.len(),
{
    let last = parts.last();
    assert(!parts[parts.len() - 1].contains(c));
    if parts.len() == 1 {
        lemma_split_behind(Seq::empty(), Seq::empty(), last, c);
        assert(split(Seq::<char>::empty(), c) == seq![Seq::<char>::empty()]);
        assert(Seq::<char>::empty() + last =~= last);
        assert(parts =~= Seq::<Seq<char>>::empty().push(last));
        assert(split(last, c) =~= parts);
    } else {
        let init = parts.drop_last();
        assert forall|i: int| 0 <= i < init.len() implies !(#[trigger] init[i]).contains(c) by {
            assert(init[i] == parts[i]);
        }
        law_split_finds_pieces(init, c);
        let start = (join(init, seq![c]) + seq![c]);
        assert(start.drop_last() =~= join(init, seq![c]));
        assert(split(start, c) =~= init.push(Seq::empty()));
        lemma_split_behind(start, init, last, c);
        assert(parts =~= init.push(last));
    }
}

/// What holds no separator goes to the last piece.
proof fn lemma_split_behind(s: Seq<char>, init: Seq<Seq<char>>, last: Seq<char>, c: char)
    requires
        split(s, c) == init.push(Seq::empty()),
        !last.contains(c),
    ensures
        split(s + last, c) == init.push(last),
    decreases last.len(),
{
    if last.len() == 0 {
        assert(s + last =~= s);
        assert(last =~= Seq::empty());
    } else {
        let head = last.drop_last();
        if head.contains(c) {
            let k = choose|k: int| 0 <= k < head.len() && head[k] == c;
            assert(last[k] == c);
        }
        lemma_split_behind(s, init, head, c);
        assert((s + last).drop_last() =~= s + head);
        assert((s + last).last() == last.last());
        assert(last.contains(last.last()));
        assert(init.push(head).drop_last() =~= init);
        assert(head.push(last.last()) =~= last);
    }
}

/// Valid UTF-8 is decoded as it stands.
pub proof fn law_valid_text_decoded(s: Seq<char>)
    ensures
        decoded(encode_utf8(s)) == s,
{
    encode_utf8_valid_utf8(s);
    encode_utf8_decode_utf8(s);
}

} // verus!
