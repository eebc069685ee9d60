//! Control sequences in the text to speak.
//!
//! The engine takes a sequence such as `\pause=500\` for a command where an
//! escape character stands before it. On a command line that character is
//! hard to type, so it is put in here.

use crate::text;
use vstd::prelude::*;

verus! {

/// The character that makes a control sequence of the text behind it.
pub const ESC: char = '\x1B';

/// The starts of the control sequences, in the order in which they are looked
/// for.
pub open spec fn sequences() -> Seq<Seq<char>> {
    seq![
        "\\pause="@,
        "\\rate="@,
        "\\pitch="@,
        "\\vol="@,
        "\\voice="@,
        "\\lang="@,
        "\\readmode="@,
        "\\mrk="@,
        "\\rst\\"@,
    ]
}

/// `s` with an escape character before each occurrence of `p`. Occurrences are
/// taken from left to right and do not overlap.
pub open spec fn mark(s: Seq<char>, p: Seq<char>) -> Seq<char>
    decreases s.len(),
{
    if p.len() == 0 || s.len() < p.len() {
        s
    } else if text::occurs_at(s, p, 0) {
        seq![ESC] + p + mark(s.skip(p.len() as int), p)
    } else {
        seq![s[0]] + mark(s.skip(1), p)
    }
}

/// `s` with an escape character before each of `list`, one after the other.
pub open spec fn mark_all(s: Seq<char>, list: Seq<Seq<char>>) -> Seq<char>
    decreases list.len(),
{
    if list.len() == 0 {
        s
    } else {
        mark(mark_all(s, list.drop_last()), list.last())
    }
}

/// `s` without its escape characters.
pub open spec fn bare(s: Seq<char>) -> Seq<char> {
    s.filter(|c: char| c != ESC)
}

/// An escape character stands before the place `i`.
pub open spec fn escaped(s: Seq<char>, i: int) -> bool {
    0 < i <= s.len() && s[i - 1] == ESC
}

/// An escape character stands before every `p` in `s`.
pub open spec fn all_escaped(s: Seq<char>, p: Seq<char>) -> bool {
    forall|i: int| #[trigger] text::occurs_at(s, p, i) ==> escaped(s, i)
}

/// Puts an escape character before each occurrence of `pattern`.
fn marked(s: &str, pattern: &str) -> (r: String)
    requires
        pattern@.len() > 0,
    ensures
        r@ == mark(s@, pattern@),
{
    let chars: Vec<char> = text::chars_of(s);
    let pat: Vec<char> = text::chars_of(pattern);
    let size: usize = chars.len();
    let step: usize = pat.len();
    let mut r: String = String::new();
    let mut i: usize = 0;
    assert(s@.skip(0) =~= s@);
    while i < size && step <= size - i
        invariant
            i <= size,
            size == s@.len(),
            chars@ == s@,
            pat@ == pattern@,
            step == pattern@.len(),
            step > 0,
            r@ + mark(s@.skip(i as int), pattern@) == mark(s@, pattern@),
        decreases size - i,
    {
        let ghost before = r@;
        let ghost rest = s@.skip(i as int);
        if text::found_at(chars.as_slice(), pat.as_slice(), i) {
            r.push(ESC);
            r.append(pattern);
            i = i + step;
            proof {
                assert(text::occurs_at(rest, pattern@, 0)) by {
                    assert(rest.subrange(0, step as int) =~= s@.subrange(
                        i - step,
                        i as int,
                    ));
                }
                assert(rest.skip(step as int) =~= s@.skip(i as int));
                assert(r@ + mark(s@.skip(i as int), pattern@) =~= before + mark(rest, pattern@));
            }
        } else {
            r.push(chars[i]);
            i = i + 1;
            proof {
                assert(!text::occurs_at(rest, pattern@, 0)) by {
                    assert(rest.subrange(0, step as int) =~= s@.subrange(i - 1, i - 1 + step));
                }
                assert(rest.skip(1) =~= s@.skip(i as int));
                assert(r@ + mark(s@.skip(i as int), pattern@) =~= before + mark(rest, pattern@));
            }
        }
    }
    let ghost before = r@;
    let ghost tail = s@.skip(i as int);
    let mut k: usize = i;
    while k < size
        invariant
            i <= k <= size,
            size == s@.len(),
            chars@ == s@,
            r@ == before + s@.subrange(i as int, k as int),
        decreases size - k,
    {
        r.push(chars[k]);
        k = k + 1;
        assert(r@ =~= before + s@.subrange(i as int, k as int));
    }
    assert(s@.subrange(i as int, size as int) =~= tail);
    r
}

/// Puts an escape character before each control sequence of the text:
/// `\pause=500\` becomes a command of the engine.
pub fn process_escapes(text: &str) -> (r: String)
    ensures
        r@ == mark_all(text@, sequences()),
{
    let list: [&str; 9] = [
        "\\pause=",
        "\\rate=",
        "\\pitch=",
        "\\vol=",
        "\\voice=",
        "\\lang=",
        "\\readmode=",
        "\\mrk=",
        "\\rst\\",
    ];
    proof {
        lemma_sequences();
        assert(sequences().take(0) =~= Seq::empty());
    }
    assert forall|k: int| 0 <= k < 9 implies (#[trigger] list@[k])@ == sequences()[k] by {}
    let mut r: String = text.to_owned();
    let mut i: usize = 0;
    while i < 9
        invariant
            i <= 9,
            list@.len() == 9,
            forall|k: int| 0 <= k < 9 ==> (#[trigger] list@[k])@ == sequences()[k],
            forall|k: int| 0 <= k < 9 ==> (#[trigger] sequences()[k]).len() > 0,
            sequences().len() == 9,
            r@ == mark_all(text@, sequences().take(i as int)),
        decreases 9 - i,
    {
        assert(list@[i as int]@ == sequences()[i as int]);
        r = marked(r.as_str(), list[i]);
        assert(sequences().take(i + 1).drop_last() =~= sequences().take(i as int));
        i = i + 1;
    }
    assert(sequences().take(9) =~= sequences());
    r
}

/// Each control sequence starts with a backslash and holds no escape
/// character; no second backslash stands in it but at its end.
proof fn lemma_sequences()
    ensures
        sequences().len() == 9,
        forall|k: int| 0 <= k < 9 ==> (#[trigger] sequences()[k]).len() > 1,
        forall|k: int| 0 <= k < 9 ==> (#[trigger] sequences()[k])[0] == '\\',
        forall|k: int, d: int|
            0 <= k < 9 && 0 <= d < sequences()[k].len() ==> (#[trigger] sequences()[k][d]) != ESC,
        forall|k: int, d: int|
            0 <= k < 8 && 0 < d < sequences()[k].len() ==> (#[trigger] sequences()[k][d]) != '\\',
        forall|d: int| 0 < d < sequences()[8].len() - 1 ==> (#[trigger] sequences()[8][d]) != '\\',
{
    reveal_strlit("\\pause=");
    reveal_strlit("\\rate=");
    reveal_strlit("\\pitch=");
    reveal_strlit("\\vol=");
    reveal_strlit("\\voice=");
    reveal_strlit("\\lang=");
    reveal_strlit("\\readmode=");
    reveal_strlit("\\mrk=");
    reveal_strlit("\\rst\\");
}

/// Where a pattern stands, each of its characters stands.
proof fn lemma_occurs_chars(s: Seq<char>, p: Seq<char>, at: int)
    requires
        text::occurs_at(s, p, at),
    ensures
        forall|d: int| 0 <= d < p.len() ==> s[at + d] == #[trigger] p[d],
{
    assert forall|d: int| 0 <= d < p.len() implies s[at + d] == #[trigger] p[d] by {
        assert(s.subrange(at, at + p.len())[d] == s[at + d]);
    }
}

/// A part of a marked text that starts with it and holds no escape character
/// is a part of the text itself.
proof fn lemma_mark_prefix(s: Seq<char>, q: Seq<char>, len: int)
    requires
        0 <= len <= mark(s, q).len(),
        forall|i: int| 0 <= i < len ==> mark(s, q)[i] != ESC,
    ensures
        len <= s.len(),
        mark(s, q).take(len) == s.take(len),
    decreases s.len(),
{
    if q.len() == 0 || s.len() < q.len() {
    } else if text::occurs_at(s, q, 0) {
        if len > 0 {
            assert(mark(s, q)[0] == ESC);
        }
        assert(mark(s, q).take(len) =~= s.take(len));
    } else {
        if len > 0 {
            let rest = mark(s.skip(1), q);
            assert forall|i: int| 0 <= i < len - 1 implies rest[i] != ESC by {
                assert(mark(s, q)[i + 1] == rest[i]);
            }
            lemma_mark_prefix(s.skip(1), q, len - 1);
            assert forall|i: int| 0 <= i < len implies mark(s, q)[i] == s[i] by {
                if i > 0 {
                    assert(rest.take(len - 1)[i - 1] == rest[i - 1]);
                    assert(s.skip(1).take(len - 1)[i - 1] == s[i]);
                }
            }
        }
        assert(mark(s, q).take(len) =~= s.take(len));
    }
}

/// A pattern without escape characters that stands in a marked text stands in
/// the text itself, and marking takes no escape character away before it.
proof fn lemma_mark_keeps_places(s: Seq<char>, q: Seq<char>, p: Seq<char>, i: int) -> (j: int)
    requires
        p.len() > 0,
        forall|d: int| 0 <= d < p.len() ==> #[trigger] p[d] != ESC,
        forall|d: int| 0 <= d < q.len() ==> #[trigger] q[d] != ESC,
        text::occurs_at(mark(s, q), p, i),
    ensures
        text::occurs_at(s, p, j),
        escaped(s, j) ==> escaped(mark(s, q), i),
        j == 0 ==> i == 0 || escaped(mark(s, q), i),
    decreases s.len(),
{
    let t = mark(s, q);
    lemma_occurs_chars(t, p, i);
    if q.len() == 0 || s.len() < q.len() {
        i
    } else if text::occurs_at(s, q, 0) {
        let n = q.len() as int;
        let rest = mark(s.skip(n), q);
        lemma_occurs_chars(s, q, 0);
        assert(t == seq![ESC] + q + rest);
        if i == 0 {
            assert(p[0] == t[0]);
        }
        if i >= 1 + n {
            assert(rest.subrange(i - 1 - n, i - 1 - n + p.len()) =~= t.subrange(i, i + p.len()));
            let k = lemma_mark_keeps_places(s.skip(n), q, p, i - 1 - n);
            assert(s.subrange(k + n, k + n + p.len()) =~= s.skip(n).subrange(k, k + p.len()));
            if k == 0 {
                assert(s[n - 1] == q[n - 1]);
            } else if escaped(s, k + n) {
                assert(s.skip(n)[k - 1] == s[k + n - 1]);
                assert(rest[i - 2 - n] == t[i - 1]);
            }
            k + n
        } else {
            let j = i - 1;
            let over = i + p.len() - (1 + n);
            if over > 0 {
                assert forall|d: int| 0 <= d < over implies rest[d] != ESC by {
                    assert(rest[d] == t[1 + n + d]);
                    assert(t[i + (1 + n + d - i)] == p[1 + n + d - i]);
                }
                lemma_mark_prefix(s.skip(n), q, over);
            }
            assert forall|d: int| 0 <= d < p.len() implies s[j + d] == p[d] by {
                assert(t[i + d] == p[d]);
                if j + d < n {
                    assert(t[i + d] == q[j + d]);
                } else {
                    assert(t[i + d] == rest[j + d - n]);
                    assert(rest.take(over)[j + d - n] == s.skip(n).take(over)[j + d - n]);
                    assert(s.skip(n).take(over)[j + d - n] == s[j + d]);
                }
            }
            assert(s.subrange(j, j + p.len()) =~= p);
            if j > 0 {
                assert(s[j - 1] == q[j - 1]);
            } else {
                assert(t[0] == ESC);
            }
            j
        }
    } else {
        let rest = mark(s.skip(1), q);
        assert(t == seq![s[0]] + rest);
        if i == 0 {
            let over = p.len() - 1;
            assert forall|d: int| 0 <= d < over implies rest[d] != ESC by {
                assert(rest[d] == t[1 + d]);
                assert(t[0 + (1 + d)] == p[1 + d]);
            }
            lemma_mark_prefix(s.skip(1), q, over);
            assert forall|d: int| 0 <= d < p.len() implies s[d] == p[d] by {
                assert(t[0 + d] == p[d]);
                if d > 0 {
                    assert(t[d] == rest[d - 1]);
                    assert(rest.take(over)[d - 1] == s.skip(1).take(over)[d - 1]);
                }
            }
            assert(s.subrange(0, p.len() as int) =~= p);
            0
        } else {
            assert(rest.subrange(i - 1, i - 1 + p.len()) =~= t.subrange(i, i + p.len()));
            let k = lemma_mark_keeps_places(s.skip(1), q, p, i - 1);
            assert(s.subrange(k + 1, k + 1 + p.len()) =~= s.skip(1).subrange(k, k + p.len()));
            if escaped(rest, i - 1) {
                assert(rest[i - 2] == t[i - 1]);
            }
            if k > 0 && escaped(s, k + 1) {
                assert(s.skip(1)[k - 1] == s[k]);
            }
            if k == 0 && i > 1 {
                assert(escaped(rest, i - 1));
            }
            k + 1
        }
    }
}

/// Marking one pattern leaves another marked.
proof fn lemma_mark_keeps_escaped(s: Seq<char>, q: Seq<char>, p: Seq<char>)
    requires
        p.len() > 0,
        forall|d: int| 0 <= d < p.len() ==> #[trigger] p[d] != ESC,
        forall|d: int| 0 <= d < q.len() ==> #[trigger] q[d] != ESC,
        all_escaped(s, p),
    ensures
        all_escaped(mark(s, q), p),
{
    assert forall|i: int| #[trigger] text::occurs_at(mark(s, q), p, i) implies escaped(
        mark(s, q),
        i,
    ) by {
        let j = lemma_mark_keeps_places(s, q, p, i);
        assert(escaped(s, j));
    }
}

/// After marking, a pattern has an escape character before it, or overlaps the
/// end of one that has. `gap` is where the pattern starts again in itself.
proof fn lemma_mark_escapes(s: Seq<char>, p: Seq<char>, gap: int, i: int)
    requires
        0 < gap <= p.len(),
        forall|d: int| 0 <= d < p.len() ==> #[trigger] p[d] != ESC,
        forall|d: int| 0 < d < p.len() && d != gap ==> #[trigger] p[d] != p[0],
        text::occurs_at(mark(s, p), p, i),
    ensures
        escaped(mark(s, p), i) || (gap < p.len() && text::occurs_at(mark(s, p), p, i - gap)
            && escaped(mark(s, p), i - gap)),
    decreases s.len(),
{
    let t = mark(s, p);
    let n = p.len() as int;
    lemma_occurs_chars(t, p, i);
    assert(t[i + 0] == p[0]);
    if s.len() < n {
    } else if text::occurs_at(s, p, 0) {
        let rest = mark(s.skip(n), p);
        assert(t == seq![ESC] + p + rest);
        assert(t.subrange(1, 1 + n) =~= p);
        if i == 0 {
            assert(t[0] == ESC);
        } else if i < 1 + n {
            assert(t[i] == p[i - 1]);
            if i > 1 {
                assert(i - 1 == gap);
                assert(text::occurs_at(t, p, i - gap));
            }
        } else {
            let k = i - 1 - n;
            assert(rest.subrange(k, k + n) =~= t.subrange(i, i + n));
            lemma_mark_escapes(s.skip(n), p, gap, k);
            if escaped(rest, k) {
                assert(rest[k - 1] == t[i - 1]);
            } else {
                assert(rest.subrange(k - gap, k - gap + n) =~= t.subrange(i - gap, i - gap + n));
                assert(rest[k - gap - 1] == t[i - gap - 1]);
            }
        }
    } else {
        let rest = mark(s.skip(1), p);
        assert(t == seq![s[0]] + rest);
        if i == 0 {
            assert forall|d: int| 0 <= d < n - 1 implies rest[d] != ESC by {
                assert(rest[d] == t[1 + d]);
                assert(t[0 + (1 + d)] == p[1 + d]);
            }
            lemma_mark_prefix(s.skip(1), p, n - 1);
            assert forall|d: int| 0 <= d < n implies s[d] == p[d] by {
                assert(t[0 + d] == p[d]);
                if d > 0 {
                    assert(t[d] == rest[d - 1]);
                    assert(rest.take(n - 1)[d - 1] == s.skip(1).take(n - 1)[d - 1]);
                }
            }
            assert(s.subrange(0, n) =~= p);
        } else {
            let k = i - 1;
            assert(rest.subrange(k, k + n) =~= t.subrange(i, i + n));
            lemma_mark_escapes(s.skip(1), p, gap, k);
            if escaped(rest, k) {
                assert(rest[k - 1] == t[i - 1]);
            } else {
                assert(rest.subrange(k - gap, k - gap + n) =~= t.subrange(i - gap, i - gap + n));
                assert(rest[k - gap - 1] == t[i - gap - 1]);
            }
        }
    }
}

/// Every control sequence but the last kind is marked once its turn is over.
proof fn lemma_turns(s: Seq<char>, n: int, k: int)
    requires
        0 <= k < n <= 9,
        k < 8,
    ensures
        all_escaped(mark_all(s, sequences().take(n)), sequences()[k]),
    decreases n,
{
    lemma_sequences();
    let list = sequences().take(n);
    assert(list.drop_last() =~= sequences().take(n - 1));
    assert(list.last() == sequences()[n - 1]);
    let before = mark_all(s, sequences().take(n - 1));
    let p = sequences()[k];
    if k == n - 1 {
        assert forall|i: int| #[trigger] text::occurs_at(mark(before, p), p, i) implies escaped(
            mark(before, p),
            i,
        ) by {
            lemma_mark_escapes(before, p, p.len() as int, i);
        }
    } else {
        lemma_turns(s, n - 1, k);
        lemma_mark_keeps_escaped(before, sequences()[n - 1], p);
    }
}

/// In a processed text an escape character stands before every control
/// sequence. The reset `\rst\` alone can overlap the end of another reset that
/// has the escape character.
pub proof fn law_sequences_escaped(s: Seq<char>, k: int, i: int)
    requires
        0 <= k < sequences().len(),
        text::occurs_at(mark_all(s, sequences()), sequences()[k], i),
    ensures
        ({
            let r = mark_all(s, sequences());
            escaped(r, i) || (sequences()[k] == "\\rst\\"@ && text::occurs_at(
                r,
                sequences()[k],
                i - 4,
            ) && escaped(r, i - 4))
        }),
{
    lemma_sequences();
    assert(sequences().take(9) =~= sequences());
    if k < 8 {
        lemma_turns(s, 9, k);
    } else {
        reveal_strlit("\\rst\\");
        assert(sequences().drop_last() =~= sequences().take(8));
        lemma_mark_escapes(mark_all(s, sequences().take(8)), sequences()[8], 4, i);
    }
}

/// Escape characters are dropped from each part on its own.
proof fn lemma_bare_concat(a: Seq<char>, b: Seq<char>)
    ensures
        bare(a + b) == bare(a) + bare(b),
{
    Seq::filter_distributes_over_add(a, b, |c: char| c != ESC);
}

/// Marking changes nothing but escape characters.
proof fn lemma_mark_bare(s: Seq<char>, p: Seq<char>)
    ensures
        bare(mark(s, p)) == bare(s),
    decreases s.len(),
{
    if p.len() == 0 || s.len() < p.len() {
    } else if text::occurs_at(s, p, 0) {
        let n = p.len() as int;
        let rest = s.skip(n);
        lemma_mark_bare(rest, p);
        lemma_bare_concat(seq![ESC] + p, mark(rest, p));
        lemma_bare_concat(seq![ESC], p);
        lemma_bare_concat(p, rest);
        assert(bare(seq![ESC]) =~= Seq::empty()) by {
            reveal_with_fuel(Seq::filter, 2);
            assert(seq![ESC].drop_last() =~= Seq::empty());
        }
        assert(s =~= p + rest);
        assert(bare(mark(s, p)) =~= bare(s));
    } else {
        let rest = s.skip(1);
        lemma_mark_bare(rest, p);
        lemma_bare_concat(seq![s[0]], mark(rest, p));
        lemma_bare_concat(seq![s[0]], rest);
        assert(s =~= seq![s[0]] + rest);
    }
}

/// Processing puts escape characters in and changes nothing else.
pub proof fn law_only_escapes_added(s: Seq<char>, list: Seq<Seq<char>>)
    ensures
        bare(mark_all(s, list)) == bare(s),
    decreases list.len(),
{
    if list.len() > 0 {
        law_only_escapes_added(s, list.drop_last());
        lemma_mark_bare(mark_all(s, list.drop_last()), list.last());
    }
}

/// A text without the pattern stays as it is.
proof fn lemma_mark_absent(s: Seq<char>, p: Seq<char>)
    requires
        !text::contains(s, p),
    ensures
        mark(s, p) == s,
    decreases s.len(),
{
    if p.len() == 0 || s.len() < p.len() {
    } else {
        assert(!text::occurs_at(s, p, 0));
        assert forall|i: int| !#[trigger] text::occurs_at(s.skip(1), p, i) by {
            if text::occurs_at(s.skip(1), p, i) {
                assert(s.subrange(i + 1, i + 1 + p.len()) =~= s.skip(1).subrange(i, i + p.len()));
                assert(text::occurs_at(s, p, i + 1));
            }
        }
        lemma_mark_absent(s.skip(1), p);
        assert(mark(s, p) =~= s);
    }
}

/// A text without control sequences stays as it is.
pub proof fn law_plain_text_unchanged(s: Seq<char>, list: Seq<Seq<char>>)
    requires
        forall|k: int| 0 <= k < list.len() ==> !text::contains(s, #[trigger] list[k]),
    ensures
        mark_all(s, list) == s,
    decreases list.len(),
{
    if list.len() > 0 {
        assert forall|k: int| 0 <= k < list.drop_last().len() implies !text::contains(
            s,
            #[trigger] list.drop_last()[k],
        ) by {
            assert(list.drop_last()[k] == list[k]);
        }
        law_plain_text_unchanged(s, list.drop_last());
        assert(list.last() == list[list.len() - 1]);
        lemma_mark_absent(s, list.last());
    }
}

/// The first occurrence of a pattern gets an escape character before it; what
/// stands before that stays, and what stands behind it is marked in turn.
pub proof fn law_first_occurrence_marked(a: Seq<char>, p: Seq<char>, b: Seq<char>)
    requires
        p.len() > 0,
        forall|i: int| 0 <= i < a.len() ==> !#[trigger] text::occurs_at(a + p + b, p, i),
    ensures
        mark(a + p + b, p) == a + seq![ESC] + p + mark(b, p),
    decreases a.len(),
{
    let s = a + p + b;
    if a.len() == 0 {
        assert(s =~= p + b);
        assert(s.subrange(0, p.len() as int) =~= p);
        assert(s.skip(p.len() as int) =~= b);
        assert(mark(s, p) =~= a + seq![ESC] + p + mark(b, p));
    } else {
        assert(!text::occurs_at(s, p, 0));
        let rest = a.skip(1) + p + b;
        assert(s.skip(1) =~= rest);
        assert forall|i: int| 0 <= i < a.skip(1).len() implies !#[trigger] text::occurs_at(
            rest,
            p,
            i,
        ) by {
            if text::occurs_at(rest, p, i) {
                assert(s.subrange(i + 1, i + 1 + p.len()) =~= rest.subrange(i, i + p.len()));
                assert(text::occurs_at(s, p, i + 1));
            }
        }
        law_first_occurrence_marked(a.skip(1), p, b);
        assert(mark(s, p) =~= a + seq![ESC] + p + mark(b, p));
    }
}

/// A text in which a pattern does not stand is not marked.
pub proof fn law_absent_pattern(s: Seq<char>, p: Seq<char>)
    requires
        forall|i: int| !#[trigger] text::occurs_at(s, p, i),
    ensures
        mark(s, p) == s,
{
    lemma_mark_absent(s, p);
}

/// The patterns are marked one after the other.
pub proof fn law_marked_in_turn(s: Seq<char>, list: Seq<Seq<char>>, p: Seq<char>)
    ensures
        mark_all(s, Seq::empty()) == s,
        mark_all(s, list.push(p)) == mark(mark_all(s, list), p),
{
    assert(list.push(p).drop_last() =~= list);
}

/// The nine control sequences, and no others, are marked: each of them has an
/// escape character before it in a processed text, but for a reset that
/// overlaps another one, and a text that holds none of them stays as it is.
pub proof fn law_nine_sequences(s: Seq<char>, p: Seq<char>, i: int)
    ensures
        ({
            let r = mark_all(s, sequences());
            (p == "\\pause="@ || p == "\\rate="@ || p == "\\pitch="@ || p == "\\vol="@ || p
                == "\\voice="@ || p == "\\lang="@ || p == "\\readmode="@ || p == "\\mrk="@ || p
                == "\\rst\\"@) && text::occurs_at(r, p, i) ==> (i > 0 && r[i - 1] == '\x1B') || (p
                == "\\rst\\"@ && i > 4 && r[i - 5] == '\x1B' && text::occurs_at(r, p, i - 4))
        }),
        (forall|q: Seq<char>, at: int|
            (q == "\\pause="@ || q == "\\rate="@ || q == "\\pitch="@ || q == "\\vol="@ || q
                == "\\voice="@ || q == "\\lang="@ || q == "\\readmode="@ || q == "\\mrk="@ || q
                == "\\rst\\"@) ==> !#[trigger] text::occurs_at(s, q, at)) ==> mark_all(
            s,
            sequences(),
        ) == s,
{
    let r = mark_all(s, sequences());
    lemma_sequences();
    let list = sequences();
    assert(list[0] == "\\pause="@ && list[1] == "\\rate="@ && list[2] == "\\pitch="@);
    assert(list[3] == "\\vol="@ && list[4] == "\\voice="@ && list[5] == "\\lang="@);
    assert(list[6] == "\\readmode="@ && list[7] == "\\mrk="@ && list[8] == "\\rst\\"@);
    if list.contains(p) && text::occurs_at(r, p, i) {
        let k = choose|k: int| 0 <= k < list.len() && list[k] == p;
        law_sequences_escaped(s, k, i);
    }
    if forall|q: Seq<char>, at: int|
        (q == "\\pause="@ || q == "\\rate="@ || q == "\\pitch="@ || q == "\\vol="@ || q
            == "\\voice="@ || q == "\\lang="@ || q == "\\readmode="@ || q == "\\mrk="@ || q
            == "\\rst\\"@) ==> !#[trigger] text::occurs_at(s, q, at) {
        assert forall|k: int| 0 <= k < list.len() implies !text::contains(
            s,
            #[trigger] list[k],
        ) by {
            if text::contains(s, list[k]) {
                let at = choose|at: int| #[trigger] text::occurs_at(s, list[k], at);
            }
        }
        law_plain_text_unchanged(s, list);
    }
}

} // verus!
