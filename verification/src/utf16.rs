//! Text as UTF-16 in little-endian order, the engine's own encoding.

use crate::memory;
use crate::text;
use vstd::prelude::*;

verus! {

/// The number of a character.
pub open spec fn code_point(c: char) -> int {
    c as u32 as int
}

/// The units of one character: a pair of surrogates above the basic plane.
pub open spec fn units_of(c: char) -> Seq<u16> {
    let v = code_point(c);
    if v < 0x1_0000 {
        seq![v as u16]
    } else {
        seq![(0xD800 + (v - 0x1_0000) / 0x400) as u16, (0xDC00 + (v - 0x1_0000) % 0x400) as u16]
    }
}

/// The units of a text.
pub open spec fn units(s: Seq<char>) -> Seq<u16>
    decreases s.len(),
{
    if s.len() == 0 {
        Seq::empty()
    } else {
        units(s.drop_last()) + units_of(s.last())
    }
}

/// The bytes of units, the low byte of each first.
pub open spec fn unit_bytes(list: Seq<u16>) -> Seq<u8> {
    Seq::new(list.len() * 2, |i: int| memory::le16(list[i / 2] as int)[i % 2])
}

/// What the engine gets of a text: its units and a unit of zero.
pub open spec fn message(s: Seq<char>) -> Seq<u8> {
    unit_bytes(units(s).push(0u16))
}

/// The numbers of the characters that units stand for.
pub open spec fn code_points(list: Seq<u16>) -> Seq<int>
    decreases list.len(),
{
    if list.len() == 0 {
        Seq::empty()
    } else if 0xD800 <= list[0] < 0xDC00 && list.len() > 1 {
        seq![0x1_0000 + (list[0] - 0xD800) * 0x400 + (list[1] - 0xDC00)] + code_points(
            list.skip(2),
        )
    } else {
        seq![list[0] as int] + code_points(list.skip(1))
    }
}

/// Appends one unit.
fn push_unit(bytes: &mut Vec<u8>, unit: u16)
    ensures
        final(bytes)@ == old(bytes)@ + memory::le16(unit as int),
{
    bytes.push((unit % 256) as u8);
    bytes.push((unit / 256) as u8);
    assert(bytes@ =~= old(bytes)@ + memory::le16(unit as int));
}

/// One more unit is two more bytes.
proof fn lemma_unit_bytes_push(list: Seq<u16>, unit: u16)
    ensures
        unit_bytes(list.push(unit)) == unit_bytes(list) + memory::le16(unit as int),
{
    assert(unit_bytes(list.push(unit)) =~= unit_bytes(list) + memory::le16(unit as int));
}

/// Encodes a text for the engine, with a unit of zero behind it.
pub fn encode(text: &str) -> (bytes: Vec<u8>)
    ensures
        bytes@ == message(text@),
{
    let chars: Vec<char> = text::chars_of(text);
    let mut bytes: Vec<u8> = Vec::new();
    let mut i: usize = 0;
    assert(text@.take(0) =~= Seq::empty());
    assert(unit_bytes(units(text@.take(0))) =~= Seq::empty());
    while i < chars.len()
        invariant
            i <= chars@.len(),
            chars@ == text@,
            bytes@ == unit_bytes(units(text@.take(i as int))),
        decreases chars@.len() - i,
    {
        let ghost done = units(text@.take(i as int));
        let c: char = chars[i];
        let v: u32 = c as u32;
        assert(text@.take(i + 1).drop_last() =~= text@.take(i as int));
        assert(units(text@.take(i + 1)) == done + units_of(c));
        if v < 0x1_0000 {
            push_unit(&mut bytes, v as u16);
            proof {
                assert(done + units_of(c) =~= done.push(v as u16));
                lemma_unit_bytes_push(done, v as u16);
            }
        } else {
            let high: u16 = (0xD800 + (v - 0x1_0000) / 0x400) as u16;
            let low: u16 = (0xDC00 + (v - 0x1_0000) % 0x400) as u16;
            push_unit(&mut bytes, high);
            push_unit(&mut bytes, low);
            proof {
                assert(done + units_of(c) =~= done.push(high).push(low));
                lemma_unit_bytes_push(done, high);
                lemma_unit_bytes_push(done.push(high), low);
            }
        }
        i = i + 1;
    }
    assert(text@.take(text@.len() as int) =~= text@);
    push_unit(&mut bytes, 0);
    proof {
        lemma_unit_bytes_push(units(text@), 0u16);
    }
    bytes
}

/// No character has the number of a surrogate, and NUL alone has zero.
proof fn lemma_code_point(c: char)
    ensures
        0 <= code_point(c) < 0x11_0000,
        !(0xD800 <= code_point(c) < 0xE000),
        code_point(c) == 0 ==> c == '\0',
{
}

/// The units of a text start with those of its first character.
proof fn lemma_units_first(s: Seq<char>)
    requires
        s.len() > 0,
    ensures
        units(s) == units_of(s[0]) + units(s.skip(1)),
    decreases s.len(),
{
    if s.len() == 1 {
        assert(s.drop_last() =~= Seq::empty());
        assert(s.skip(1) =~= Seq::empty());
        assert(units(s) =~= units_of(s[0]) + units(s.skip(1)));
    } else {
        lemma_units_first(s.drop_last());
        assert(s.drop_last().skip(1) =~= s.skip(1).drop_last());
        assert(units(s) =~= units_of(s[0]) + units(s.skip(1)));
    }
}

/// Nothing of a text is lost: its units give back the number of every
/// character.
pub proof fn law_round_trip(s: Seq<char>)
    ensures
        code_points(units(s)) == s.map_values(|c: char| code_point(c)),
    decreases s.len(),
{
    let f = |c: char| code_point(c);
    if s.len() == 0 {
        assert(code_points(units(s)) =~= s.map_values(f));
    } else {
        let c = s[0];
        let rest = units(s.skip(1));
        lemma_units_first(s);
        law_round_trip(s.skip(1));
        let all = units(s);
        lemma_code_point(c);
        if code_point(c) < 0x1_0000 {
            assert(all.skip(1) =~= rest);
            assert(all[0] == code_point(c));
            assert(!(0xD800 <= all[0] < 0xDC00));
        } else {
            assert(all.skip(2) =~= rest);
        }
        assert(code_points(all) =~= s.map_values(f));
    }
}

/// The unit of zero ends a text without NUL, for no unit before it is zero.
pub proof fn law_terminated_once(s: Seq<char>)
    requires
        text::without_nul(s),
    ensures
        forall|i: int| 0 <= i < units(s).len() ==> #[trigger] units(s)[i] != 0,
        message(s).len() == 2 * units(s).len() + 2,
        message(s)[2 * units(s).len() as int] == 0,
        message(s)[2 * units(s).len() as int + 1] == 0,
    decreases s.len(),
{
    if s.len() > 0 {
        law_terminated_once(s.drop_last());
        assert(s.last() != '\0');
        lemma_code_point(s.last());
    }
}

/// The units of two texts, one behind the other, are those of each.
proof fn lemma_units_concat(a: Seq<char>, b: Seq<char>)
    ensures
        units(a + b) == units(a) + units(b),
    decreases b.len(),
{
    if b.len() == 0 {
        assert(a + b =~= a);
        assert(units(a) + units(b) =~= units(a));
    } else {
        lemma_units_concat(a, b.drop_last());
        assert((a + b).drop_last() =~= a + b.drop_last());
        assert((a + b).last() == b.last());
        assert(units(a + b) =~= units(a) + units(b));
    }
}

/// A text of characters below the supplementary planes has one unit for each.
proof fn lemma_units_basic(s: Seq<char>)
    requires
        forall|i: int| 0 <= i < s.len() ==> (#[trigger] s[i] as u32) < 0x1_0000,
    ensures
        units(s).len() == s.len(),
        forall|i: int| 0 <= i < s.len() ==> #[trigger] units(s)[i] == s[i] as u32,
    decreases s.len(),
{
    if s.len() > 0 {
        let head = s.drop_last();
        assert forall|i: int| 0 <= i < head.len() implies (#[trigger] head[i] as u32) < 0x1_0000 by {
            assert(head[i] == s[i]);
        }
        lemma_units_basic(head);
        assert((s[s.len() - 1] as u32) < 0x1_0000);
        assert forall|i: int| 0 <= i < s.len() implies #[trigger] units(s)[i] == s[i] as u32 by {
            if i < head.len() {
                assert(units(s)[i] == units(head)[i]);
                assert(head[i] == s[i]);
            }
        }
    }
}

/// Two bytes of a message are a unit, the low byte first.
proof fn lemma_message_unit(s: Seq<char>, i: int)
    requires
        0 <= i <= units(s).len(),
    ensures
        message(s).len() == 2 * units(s).len() + 2,
        message(s)[2 * i] + 256 * message(s)[2 * i + 1] == (if i < units(s).len() {
            units(s)[i] as int
        } else {
            0
        }),
{
    let list = units(s).push(0u16);
    assert((2 * i) / 2 == i && (2 * i) % 2 == 0);
    assert((2 * i + 1) / 2 == i && (2 * i + 1) % 2 == 1);
    assert(message(s)[2 * i] == memory::le16(list[i] as int)[0]);
    assert(message(s)[2 * i + 1] == memory::le16(list[i] as int)[1]);
}

/// The message of a text below the supplementary planes has two bytes for each
/// character and two of zero: read as a little-endian number, each pair of
/// bytes is the number of its character. The whole text is there.
pub proof fn law_message_is_the_text(s: Seq<char>)
    requires
        forall|i: int| 0 <= i < s.len() ==> (#[trigger] s[i] as u32) < 0x1_0000,
    ensures
        message(s).len() == 2 * s.len() + 2,
        forall|i: int|
            0 <= i < s.len() ==> message(s)[2 * i] + 256 * message(s)[2 * i + 1] == (
            #[trigger] s[i]) as u32,
        message(s)[2 * s.len() as int] == 0,
        message(s)[2 * s.len() as int + 1] == 0,
{
    lemma_units_basic(s);
    assert forall|i: int| 0 <= i < s.len() implies message(s)[2 * i] + 256 * message(s)[2 * i + 1]
        == (#[trigger] s[i]) as u32 by {
        lemma_message_unit(s, i);
        assert(units(s)[i] == s[i] as u32);
    }
    lemma_message_unit(s, s.len() as int);
}

/// The message of a character of a supplementary plane is a pair of surrogates
/// that hold the number above the basic plane in ten bits each, and a zero.
pub proof fn law_message_of_pair(c: char)
    requires
        c as u32 >= 0x1_0000,
    ensures
        ({
            let m = message(seq![c]);
            let high = m[0] + 256 * m[1];
            let low = m[2] + 256 * m[3];
            &&& m.len() == 6
            &&& 0xD800 <= high < 0xDC00
            &&& 0xDC00 <= low < 0xE000
            &&& (high - 0xD800) * 0x400 + (low - 0xDC00) + 0x1_0000 == c as u32
            &&& m[4] == 0 && m[5] == 0
        }),
{
    let s = seq![c];
    lemma_code_point(c);
    assert(s.drop_last() =~= Seq::empty());
    assert(units(s.drop_last()) == Seq::<u16>::empty());
    assert(units(s) =~= units_of(c));
    lemma_message_unit(s, 0);
    lemma_message_unit(s, 1);
    lemma_message_unit(s, 2);
}

/// The message of two texts, one behind the other, is that of each, with one
/// terminator at the end: nothing of either is lost, however long they are.
pub proof fn law_message_concat(a: Seq<char>, b: Seq<char>)
    ensures
        message(a).len() >= 2,
        message(a + b) == message(a).take(message(a).len() - 2) + message(b),
{
    lemma_units_concat(a, b);
    let x = units(a);
    let y = units(b).push(0u16);
    assert(units(a + b).push(0u16) =~= x + y);
    assert(message(a).take(message(a).len() - 2) =~= unit_bytes(x));
    assert(unit_bytes(x + y) =~= unit_bytes(x) + unit_bytes(y)) by {
        assert forall|i: int| 0 <= i < 2 * (x + y).len() implies #[trigger] unit_bytes(x + y)[i]
            == (unit_bytes(x) + unit_bytes(y))[i] by {
            if i >= 2 * x.len() {
                let k = i - 2 * x.len();
                assert(i / 2 - x.len() == k / 2 && i % 2 == k % 2);
            }
        }
    }
}

/// Read as little-endian 16-bit units, a message is the units of the whole text
/// and one unit of zero, and these units give back the number of every
/// character.
pub proof fn law_message_decoded(s: Seq<char>, list: Seq<u16>)
    requires
        2 * list.len() + 2 == message(s).len(),
        forall|i: int|
            0 <= i < list.len() ==> #[trigger] list[i] == message(s)[2 * i] + 256 * message(s)[2 * i
                + 1],
    ensures
        list == units(s),
        code_points(list) == s.map_values(|c: char| c as u32 as int),
        message(s)[2 * list.len() as int] == 0,
        message(s)[2 * list.len() as int + 1] == 0,
{
    lemma_message_unit(s, 0);
    assert forall|i: int| 0 <= i < list.len() implies list[i] == units(s)[i] by {
        lemma_message_unit(s, i);
    }
    lemma_message_unit(s, list.len() as int);
    assert(list =~= units(s));
    law_round_trip(s);
    assert(s.map_values(|c: char| c as u32 as int) =~= s.map_values(|c: char| code_point(c)));
}

} // verus!
