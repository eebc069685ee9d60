//! Which voice a directory holds, told from the name of its pipeline header.

use crate::runtime;
use crate::state::Fault;
use crate::text;
use vstd::prelude::*;

verus! {

/// A voice as the engine is asked for it: its language, its name and its
/// operating point.
#[derive(Debug)]
pub struct VoiceChoice {
    pub language: String,
    pub name: String,
    pub vop: String,
}

/// A voice as mathematical values.
pub struct Choice {
    pub language: Seq<char>,
    pub name: Seq<char>,
    pub vop: Seq<char>,
}

impl View for VoiceChoice {
    type V = Choice;

    open spec fn view(&self) -> Choice {
        Choice { language: self.language@, name: self.name@, vop: self.vop@ }
    }
}

/// An ASCII letter in upper case; any other ASCII character as it is.
pub open spec fn upper(c: char) -> char {
    if 'a' <= c <= 'z' {
        ((c as u8) - 32) as u8 as char
    } else {
        c
    }
}

/// A word that starts with an ASCII character.
pub open spec fn starts_ascii(s: Seq<char>) -> bool {
    s.len() > 0 && (s[0] as u32) < 128
}

/// A word with its first letter in upper case.
pub open spec fn capitalized(s: Seq<char>) -> Seq<char> {
    seq![upper(s[0])] + s.skip(1)
}

/// The language that a code stands for.
pub open spec fn language_of(code: Seq<char>) -> Seq<char> {
    if code == "rur"@ {
        "Russian"@
    } else {
        "American English"@
    }
}

/// The parts of a header's name between underscores, such as
/// `ve_pipeline_enu_zoe_22_embedded-compact_2-2-1.hdr`.
pub open spec fn name_parts(header: Seq<char>) -> Seq<Seq<char>> {
    text::split(text::strip_suffixes(header, ".hdr"@), '_')
}

/// The operating point that the parts of a header's name give: what stands
/// between the rate and the version, where that is an embedded one.
pub open spec fn vop_of(parts: Seq<Seq<char>>) -> Seq<char> {
    let joined = text::join(parts.subrange(5, parts.len() - 1), "-"@);
    if text::contains(joined, "embedded"@) {
        joined
    } else {
        Seq::empty()
    }
}

/// The voice of a directory without a header that tells another.
pub open spec fn default_choice() -> Choice {
    Choice { language: "American English"@, name: "Zoe"@, vop: "embedded-compact"@ }
}

/// The voice that a header's name tells.
pub open spec fn choice_of(header: Option<Seq<char>>) -> Choice {
    match header {
        Some(name) => {
            let parts = name_parts(name);
            if parts.len() >= 6 {
                Choice {
                    language: language_of(parts[2]),
                    name: capitalized(parts[3]),
                    vop: vop_of(parts),
                }
            } else {
                default_choice()
            }
        },
        None => default_choice(),
    }
}

/// The name of the voice in a header's name can be put in upper case.
pub open spec fn sound_header(header: Option<Seq<char>>) -> bool {
    header matches Some(name) ==> name_parts(name).len() >= 6 ==> starts_ascii(
        name_parts(name)[3],
    )
}

/// The first name with the extension of a header, at index `from` or behind.
pub open spec fn first_header(names: Seq<Seq<char>>, from: int) -> Option<Seq<char>>
    decreases names.len() - from,
{
    if from < 0 || from >= names.len() {
        None
    } else if runtime::is_header(names[from]) {
        Some(names[from])
    } else {
        first_header(names, from + 1)
    }
}

/// A header as mathematical values.
pub open spec fn header_view(header: Option<String>) -> Option<Seq<char>> {
    match header {
        Some(name) => Some(name@),
        None => None,
    }
}

/// The first pipeline header of a directory.
pub fn find_header(names: &Vec<String>) -> (r: Option<String>)
    ensures
        header_view(r) == first_header(text::views(names@), 0),
{
    let mut i: usize = 0;
    while i < names.len()
        invariant
            i <= names@.len(),
            first_header(text::views(names@), 0) == first_header(text::views(names@), i as int),
        decreases names@.len() - i,
    {
        if runtime::is_pipeline_header(names[i].as_str()) {
            return Some(names[i].clone());
        }
        i = i + 1;
    }
    None
}

/// Whether a directory holds the files of a voice already.
pub fn has_header(names: &Vec<String>) -> (r: bool)
    ensures
        r == exists|i: int| 0 <= i < names@.len() && runtime::is_header(#[trigger] names@[i]@),
{
    let mut i: usize = 0;
    while i < names.len()
        invariant
            i <= names@.len(),
            forall|k: int| 0 <= k < i ==> !runtime::is_header(#[trigger] names@[k]@),
        decreases names@.len() - i,
    {
        if runtime::is_pipeline_header(names[i].as_str()) {
            return true;
        }
        i = i + 1;
    }
    false
}

/// A word with its first letter in upper case.
fn capitalize(word: &str) -> (r: Result<String, Fault>)
    ensures
        r is Ok <==> starts_ascii(word@),
        r matches Ok(s) ==> s@ == capitalized(word@),
{
    let chars: Vec<char> = text::chars_of(word);
    if chars.len() == 0 || chars[0] as u32 >= 128 {
        return Err(Fault);
    }
    let first: char = chars[0];
    let mut s: String = String::new();
    if 'a' <= first && first <= 'z' {
        s.push(((first as u8) - 32) as u8 as char);
    } else {
        s.push(first);
    }
    let mut i: usize = 1;
    assert(s@ =~= seq![upper(word@[0])] + word@.subrange(1, 1));
    while i < chars.len()
        invariant
            1 <= i <= chars@.len(),
            chars@ == word@,
            s@ == seq![upper(word@[0])] + word@.subrange(1, i as int),
        decreases chars@.len() - i,
    {
        s.push(chars[i]);
        i = i + 1;
        assert(s@ =~= seq![upper(word@[0])] + word@.subrange(1, i as int));
    }
    assert(s@ =~= capitalized(word@));
    Ok(s)
}

/// The voice that the header of a directory tells. A header whose voice has no
/// ASCII letter at its start is a fault.
pub fn detect_voice(header: &Option<String>) -> (r: Result<VoiceChoice, Fault>)
    ensures
        r is Ok <==> sound_header(header_view(*header)),
        r matches Ok(choice) ==> choice@ == choice_of(header_view(*header)),
{
    if let Some(name) = header {
        let stem: String = text::without_suffixes(name.as_str(), ".hdr");
        let parts: Vec<String> = text::pieces(stem.as_str(), '_');
        let ghost views = text::views(parts@);
        assert(views == name_parts(name@));
        let size: usize = parts.len();
        if size >= 6 {
            assert(views[2] == parts@[2]@ && views[3] == parts@[3]@);
            let voice: String = match capitalize(parts[3].as_str()) {
                Ok(voice) => voice,
                Err(fault) => {
                    return Err(fault);
                },
            };
            let language: String = if text::same(parts[2].as_str(), "rur") {
                "Russian".to_owned()
            } else {
                "American English".to_owned()
            };
            let vop: String = text::joined(&parts, 5, size - 1, "-");
            let vop: String = if text::has_part(vop.as_str(), "embedded") {
                vop
            } else {
                String::new()
            };
            assert(vop@ =~= vop_of(views));
            return Ok(VoiceChoice { language, name: voice, vop });
        }
    }
    Ok(
        VoiceChoice {
            language: "American English".to_owned(),
            name: "Zoe".to_owned(),
            vop: "embedded-compact".to_owned(),
        },
    )
}

/// A directory has a header to detect the voice from exactly where it holds
/// the files of a voice.
pub proof fn law_header_found(names: Seq<Seq<char>>, from: int)
    requires
        0 <= from,
    ensures
        first_header(names, from) is Some <==> exists|i: int|
            from <= i < names.len() && runtime::is_header(#[trigger] names[i]),
    decreases names.len() - from,
{
    if from < names.len() && !runtime::is_header(names[from]) {
        law_header_found(names, from + 1);
    }
}

/// A word that is capitalized has its first letter, where that is a small one,
/// at the same place among the capitals, and keeps the rest. It never starts
/// with a small letter.
pub proof fn law_capitalized(word: Seq<char>)
    requires
        word.len() > 0,
    ensures
        capitalized(word).len() == word.len(),
        capitalized(word).skip(1) == word.skip(1),
        'a' <= word[0] <= 'z' ==> capitalized(word)[0] as u32 - 'A' as u32 == word[0] as u32
            - 'a' as u32,
        !('a' <= word[0] <= 'z') ==> capitalized(word)[0] == word[0],
        !('a' <= capitalized(word)[0] <= 'z'),
{
    assert(capitalized(word).skip(1) =~= word.skip(1));
}

/// A voice is what the parts of its header's name say, the parts being joined by
/// underscores and followed by the extension: the third is the code of the
/// language, the fourth the name, and what stands between the fifth and the
/// last is the operating point, where it is an embedded one.
pub proof fn law_voice_of_parts(parts: Seq<Seq<char>>)
    requires
        parts.len() >= 6,
        forall|i: int| 0 <= i < parts.len() ==> !(#[trigger] parts[i]).contains('_'),
        !text::ends_with(text::join(parts, seq!['_']), ".hdr"@),
        parts[3].len() > 0,
        (parts[3][0] as u32) < 128,
    ensures
        ({
            let header = Some(text::join(parts, seq!['_']) + ".hdr"@);
            let voice = choice_of(header);
            let point = text::join(parts.subrange(5, parts.len() - 1), "-"@);
            &&& sound_header(header)
            &&& voice.language == (if parts[2] == "rur"@ {
                "Russian"@
            } else {
                "American English"@
            })
            &&& voice.name.len() == parts[3].len()
            &&& voice.name.skip(1) == parts[3].skip(1)
            &&& !('a' <= voice.name[0] <= 'z')
            &&& 'a' <= parts[3][0] <= 'z' ==> voice.name[0] as u32 == parts[3][0] as u32 - 32
            &&& !('a' <= parts[3][0] <= 'z') ==> voice.name == parts[3]
            &&& (exists|at: int| #[trigger] text::occurs_at(point, "embedded"@, at))
                ==> voice.vop == point
            &&& (forall|at: int| !#[trigger] text::occurs_at(point, "embedded"@, at))
                ==> voice.vop.len() == 0
            &&& parts.len() == 7 ==> point == parts[5]
        }),
{
    lemma_parts_found(parts);
    law_capitalized(parts[3]);
    let name = capitalized(parts[3]);
    if !('a' <= parts[3][0] <= 'z') {
        assert(name =~= parts[3]);
    }
    if parts.len() == 7 {
        assert(parts.subrange(5, 6) =~= seq![parts[5]]);
        text::law_joined_one_by_one(parts, "-"@, parts[5]);
    }
}

/// The parts of a header's name are found again.
proof fn lemma_parts_found(parts: Seq<Seq<char>>)
    requires
        parts.len() > 0,
        forall|i: int| 0 <= i < parts.len() ==> !(#[trigger] parts[i]).contains('_'),
        !text::ends_with(text::join(parts, seq!['_']), ".hdr"@),
    ensures
        name_parts(text::join(parts, seq!['_']) + ".hdr"@) == parts,
{
    reveal_strlit(".hdr");
    let stem = text::join(parts, seq!['_']);
    text::law_suffixes_taken_off(stem, ".hdr"@);
    assert(text::strip_suffixes(stem, ".hdr"@) == stem);
    text::law_split_finds_pieces(parts, '_');
}

/// A header whose name has fewer than six parts, like no header at all, gives
/// the default voice.
pub proof fn law_default_voice(parts: Seq<Seq<char>>)
    requires
        0 < parts.len() < 6,
        forall|i: int| 0 <= i < parts.len() ==> !(#[trigger] parts[i]).contains('_'),
        !text::ends_with(text::join(parts, seq!['_']), ".hdr"@),
    ensures
        ({
            let header = Some(text::join(parts, seq!['_']) + ".hdr"@);
            let voice = choice_of(header);
            &&& sound_header(header)
            &&& voice.language == "American English"@
            &&& voice.name == "Zoe"@
            &&& voice.vop == "embedded-compact"@
            &&& choice_of(None) == voice
            &&& sound_header(None)
        }),
{
    lemma_parts_found(parts);
}

/// A voice part without an ASCII character at its start is a fault, and nothing
/// else is.
pub proof fn law_faulty_headers(header: Seq<char>)
    ensures
        sound_header(Some(header)) <==> (name_parts(header).len() < 6 || (name_parts(
            header,
        )[3].len() > 0 && (name_parts(header)[3][0] as u32) < 128)),
{
}

/// The header of a directory is the first name with the extension.
pub proof fn law_first_header(names: Seq<Seq<char>>, from: int)
    requires
        0 <= from,
    ensures
        first_header(names, from) matches Some(name) ==> exists|i: int|
            from <= i < names.len() && #[trigger] names[i] == name && runtime::is_header(name)
                && forall|j: int| from <= j < i ==> !runtime::is_header(#[trigger] names[j]),
    decreases names.len() - from,
{
    if from < names.len() {
        if runtime::is_header(names[from]) {
            assert(names[from] == first_header(names, from)->0);
        } else {
            law_first_header(names, from + 1);
            if first_header(names, from + 1) is Some {
                let name = first_header(names, from + 1)->0;
                let i = choose|i: int|
                    from + 1 <= i < names.len() && #[trigger] names[i] == name
                        && runtime::is_header(name) && forall|j: int|
                        from + 1 <= j < i ==> !runtime::is_header(#[trigger] names[j]);
                assert forall|j: int| from <= j < i implies !runtime::is_header(
                    #[trigger] names[j],
                ) by {}
                assert(names[i] == name);
            }
        }
    }
}

} // verus!
