//! JSON documents: what they hold, how they become text, and how text becomes
//! a document. Encoding and decoding is the work of `serde_json`.

use vstd::prelude::*;

verus! {

/// What a JSON value holds. A number that is no integer is kept as its bits;
/// the members of an object stand in ascending order of their keys.
pub enum Json {
    Null,
    Flag(bool),
    Int(int),
    Fraction(u64),
    Text(Seq<char>),
    List(Seq<Json>),
    Object(Seq<(Seq<char>, Json)>),
}

/// `a` comes before `b` in the order of texts.
pub open spec fn comes_before(a: Seq<char>, b: Seq<char>) -> bool
    decreases b.len(),
{
    if b.len() == 0 {
        false
    } else if a.len() == 0 {
        true
    } else if a[0] != b[0] {
        a[0] < b[0]
    } else {
        comes_before(a.drop_first(), b.drop_first())
    }
}

/// Members, in ascending order of keys, with `key` set to `value`.
pub open spec fn with_member(
    members: Seq<(Seq<char>, Json)>,
    key: Seq<char>,
    value: Json,
) -> Seq<(Seq<char>, Json)>
    decreases members.len(),
{
    if members.len() == 0 {
        seq![(key, value)]
    } else if members[0].0 == key {
        seq![(key, value)] + members.drop_first()
    } else if comes_before(key, members[0].0) {
        seq![(key, value)] + members
    } else {
        seq![members[0]] + with_member(members.drop_first(), key, value)
    }
}

/// The members that come from setting each of `list` in turn.
pub open spec fn members_of(list: Seq<(Seq<char>, Json)>) -> Seq<(Seq<char>, Json)>
    decreases list.len(),
{
    if list.len() == 0 {
        Seq::empty()
    } else {
        with_member(members_of(list.drop_last()), list.last().0, list.last().1)
    }
}

/// The object in which each of `list` was set in turn.
pub open spec fn object(list: Seq<(Seq<char>, Json)>) -> Json {
    Json::Object(members_of(list))
}

/// An object whose members hold no number but integers and nothing nested.
pub open spec fn is_flat(doc: Json) -> bool {
    doc matches Json::Object(members) && forall|i: int|
        0 <= i < members.len() ==> match (#[trigger] members[i]).1 {
            Json::Fraction(_) => false,
            Json::List(_) => false,
            Json::Object(_) => false,
            _ => true,
        }
}

/// The outside type of JSON values.
#[verifier::external_type_specification]
#[verifier::external_body]
pub struct OutsideValue(serde_json::Value);

/// The outside type of JSON objects.
#[verifier::external_type_specification]
#[verifier::external_body]
#[verifier::reject_recursive_types(K)]
#[verifier::reject_recursive_types(V)]
pub struct OutsideMap<K, V>(serde_json::Map<K, V>);

/// What a JSON value holds.
pub uninterp spec fn json_of(value: serde_json::Value) -> Json;

/// The members of a JSON object.
pub uninterp spec fn json_members(map: serde_json::Map<String, serde_json::Value>) -> Seq<
    (Seq<char>, Json),
>;

/// The compact text of a JSON document.
pub uninterp spec fn json_text(doc: Json) -> Seq<char>;

/// The document that a text is, or none where it is not JSON.
pub uninterp spec fn json_parse(text: Seq<char>) -> Option<Json>;

/// What each of a list of JSON values holds.
pub open spec fn docs(values: Seq<serde_json::Value>) -> Seq<Json> {
    Seq::new(values.len(), |i: int| json_of(values[i]))
}

/// What each of a list of JSON members holds.
pub open spec fn member_docs(list: Seq<(String, serde_json::Value)>) -> Seq<(Seq<char>, Json)> {
    Seq::new(list.len(), |i: int| (list[i].0@, json_of(list[i].1)))
}

/// Calls `serde_json::Value::from` on a text: a JSON string.
#[verifier::external_body]
pub(crate) fn text_value(text: &str) -> (value: serde_json::Value)
    ensures
        json_of(value) == Json::Text(text@),
{
    serde_json::Value::from(text)
}

/// Calls `serde_json::Value::from` on a word: a JSON number.
#[verifier::external_body]
pub(crate) fn int_value(v: i32) -> (value: serde_json::Value)
    ensures
        json_of(value) == Json::Int(v as int),
{
    serde_json::Value::from(v)
}

/// Calls `serde_json::Value::from` on a size: a JSON number.
#[verifier::external_body]
pub(crate) fn size_value(v: u64) -> (value: serde_json::Value)
    ensures
        json_of(value) == Json::Int(v as int),
{
    serde_json::Value::from(v)
}

/// Calls `serde_json::Value::from` on a truth value: a JSON boolean.
#[verifier::external_body]
pub(crate) fn flag_value(v: bool) -> (value: serde_json::Value)
    ensures
        json_of(value) == Json::Flag(v),
{
    serde_json::Value::from(v)
}

/// Calls `serde_json::Value::from` on a list: a JSON array of its items.
#[verifier::external_body]
pub(crate) fn list_value(list: Vec<serde_json::Value>) -> (value: serde_json::Value)
    ensures
        json_of(value) == Json::List(docs(list@)),
{
    serde_json::Value::from(list)
}

/// Calls `serde_json::Map::new`: an object without members.
#[verifier::external_body]
pub(crate) fn new_object() -> (map: serde_json::Map<String, serde_json::Value>)
    ensures
        json_members(map) == Seq::<(Seq<char>, Json)>::empty(),
{
    serde_json::Map::new()
}

/// Calls `serde_json::Map::insert`: the member is set, and the members stay in
/// ascending order of keys, which they have unless the crate's feature
/// `preserve_order` is on; it is off.
#[verifier::external_body]
pub(crate) fn set_member(
    map: &mut serde_json::Map<String, serde_json::Value>,
    key: &str,
    value: serde_json::Value,
)
    ensures
        json_members(*final(map)) == with_member(json_members(*old(map)), key@, json_of(value)),
{
    map.insert(key.to_string(), value);
}

/// Calls `serde_json::Value::from` on an object: a JSON object with its
/// members.
#[verifier::external_body]
pub(crate) fn object_value(map: serde_json::Map<String, serde_json::Value>) -> (value:
    serde_json::Value)
    ensures
        json_of(value) == Json::Object(json_members(map)),
{
    serde_json::Value::from(map)
}

/// Calls `to_string` of `serde_json::Value`. The text, which goes by the name
/// `json_text`, holds no control character, and the text of a flat object is
/// decoded to that object again.
#[verifier::external_body]
pub(crate) fn encode(value: &serde_json::Value) -> (text: String)
    ensures
        text@ == json_text(json_of(*value)),
        forall|i: int| 0 <= i < text@.len() ==> text@[i] >= ' ',
        is_flat(json_of(*value)) ==> json_parse(text@) == Some(json_of(*value)),
{
    value.to_string()
}

/// Calls `serde_json::from_str`, whose result goes by the name `json_parse`.
#[verifier::external_body]
pub(crate) fn decode(text: &str) -> (r: Option<serde_json::Value>)
    ensures
        match r {
            Some(value) => json_parse(text@) == Some(json_of(value)),
            None => json_parse(text@) is None,
        },
{
    serde_json::from_str::<serde_json::Value>(text).ok()
}

/// Takes a `serde_json::Value` apart: the members of an object in ascending
/// order of keys, or none where it is no object.
#[verifier::external_body]
pub(crate) fn into_members(value: serde_json::Value) -> (r: Option<
    Vec<(String, serde_json::Value)>,
>)
    ensures
        match r {
            Some(list) => json_of(value) == Json::Object(member_docs(list@)),
            None => json_of(value) !is Object,
        },
{
    match value {
        serde_json::Value::Object(map) => Some(map.into_iter().collect()),
        _ => None,
    }
}

/// Calls `serde_json::Value::as_i64`: an integer of 64 bits with a sign.
#[verifier::external_body]
pub(crate) fn as_int(value: &serde_json::Value) -> (r: Option<i64>)
    ensures
        match r {
            Some(n) => json_of(*value) == Json::Int(n as int),
            None => json_of(*value) matches Json::Int(n) ==> n < i64::MIN || n > i64::MAX,
        },
{
    value.as_i64()
}

/// Calls `serde_json::Value::as_str`: the text of a JSON string.
#[verifier::external_body]
pub(crate) fn as_text(value: &serde_json::Value) -> (r: Option<String>)
    ensures
        match r {
            Some(text) => json_of(*value) == Json::Text(text@),
            None => json_of(*value) !is Text,
        },
{
    value.as_str().map(str::to_string)
}

/// An object under construction.
pub(crate) struct ObjectBuilder {
    map: serde_json::Map<String, serde_json::Value>,
    list: Ghost<Seq<(Seq<char>, Json)>>,
}

impl ObjectBuilder {
    /// The members that were set, in the order of setting.
    pub(crate) closed spec fn list(self) -> Seq<(Seq<char>, Json)> {
        self.list@
    }

    /// The outside object has the members that were set.
    pub(crate) closed spec fn wf(self) -> bool {
        json_members(self.map) == members_of(self.list@)
    }

    /// An object without members.
    pub(crate) fn new() -> (b: ObjectBuilder)
        ensures
            b.wf(),
            b.list() == Seq::<(Seq<char>, Json)>::empty(),
    {
        ObjectBuilder { map: new_object(), list: Ghost(Seq::empty()) }
    }

    /// The object with one more member set.
    pub(crate) fn with(self, key: &str, value: serde_json::Value) -> (b: ObjectBuilder)
        requires
            self.wf(),
        ensures
            b.wf(),
            b.list() == self.list().push((key@, json_of(value))),
    {
        let mut map: serde_json::Map<String, serde_json::Value> = self.map;
        let ghost next = self.list@.push((key@, json_of(value)));
        set_member(&mut map, key, value);
        assert(next.drop_last() =~= self.list@);
        ObjectBuilder { map, list: Ghost(next) }
    }

    /// The finished object.
    pub(crate) fn build(self) -> (value: serde_json::Value)
        requires
            self.wf(),
        ensures
            json_of(value) == object(self.list()),
    {
        object_value(self.map)
    }
}

/// An object has a member.
pub open spec fn has(doc: Json, key: Seq<char>, value: Json) -> bool {
    doc matches Json::Object(members) && members.contains((key, value))
}

/// The keys of a list are different.
pub open spec fn keys_differ(list: Seq<(Seq<char>, Json)>) -> bool {
    forall|i: int, j: int|
        0 <= i < j < list.len() ==> (#[trigger] list[i]).0 != (#[trigger] list[j]).0
}

/// Setting a member gives it to an object, and leaves those of other keys.
proof fn lemma_with_member(
    members: Seq<(Seq<char>, Json)>,
    key: Seq<char>,
    value: Json,
    other: (Seq<char>, Json),
)
    requires
        other.0 != key,
    ensures
        with_member(members, key, value).contains((key, value)),
        with_member(members, key, value).contains(other) <==> members.contains(other),
    decreases members.len(),
{
    let after = with_member(members, key, value);
    if members.len() == 0 {
        assert(after[0] == (key, value));
    } else if members[0].0 == key {
        let rest = members.drop_first();
        assert(after[0] == (key, value));
        if after.contains(other) {
            let i = choose|i: int| 0 <= i < after.len() && after[i] == other;
            assert(members[i] == other);
        }
        if members.contains(other) {
            let i = choose|i: int| 0 <= i < members.len() && members[i] == other;
            assert(after[i] == rest[i - 1]);
            assert(after[i] == other);
        }
    } else if comes_before(key, members[0].0) {
        assert(after[0] == (key, value));
        if after.contains(other) {
            let i = choose|i: int| 0 <= i < after.len() && after[i] == other;
            assert(members[i - 1] == other);
        }
        if members.contains(other) {
            let i = choose|i: int| 0 <= i < members.len() && members[i] == other;
            assert(after[i + 1] == other);
        }
    } else {
        let rest = members.drop_first();
        let tail = with_member(rest, key, value);
        lemma_with_member(rest, key, value, other);
        let k = choose|k: int| 0 <= k < tail.len() && tail[k] == (key, value);
        assert(after[k + 1] == (key, value));
        if after.contains(other) {
            let i = choose|i: int| 0 <= i < after.len() && after[i] == other;
            if i > 0 {
                assert(tail[i - 1] == other);
                let j = choose|j: int| 0 <= j < rest.len() && rest[j] == other;
                assert(members[j + 1] == other);
            } else {
                assert(members[0] == other);
            }
        }
        if members.contains(other) {
            let i = choose|i: int| 0 <= i < members.len() && members[i] == other;
            if i > 0 {
                assert(rest[i - 1] == other);
                let j = choose|j: int| 0 <= j < tail.len() && tail[j] == other;
                assert(after[j + 1] == other);
            } else {
                assert(after[0] == other);
            }
        }
    }
}

/// A member that is set of a key that was not there is the only one of its key.
proof fn lemma_new_member(
    members: Seq<(Seq<char>, Json)>,
    key: Seq<char>,
    value: Json,
    found: Json,
)
    requires
        forall|i: int| 0 <= i < members.len() ==> (#[trigger] members[i]).0 != key,
        with_member(members, key, value).contains((key, found)),
    ensures
        found == value,
        with_member(members, key, value).len() == members.len() + 1,
    decreases members.len(),
{
    let after = with_member(members, key, value);
    let i = choose|i: int| 0 <= i < after.len() && after[i] == (key, found);
    if members.len() == 0 {
    } else if comes_before(key, members[0].0) {
        if i > 0 {
            assert(members[i - 1].0 == key);
        }
    } else {
        let rest = members.drop_first();
        assert forall|j: int| 0 <= j < rest.len() implies (#[trigger] rest[j]).0 != key by {
            assert(rest[j] == members[j + 1]);
        }
        assert(members[0].0 != key);
        assert(i > 0);
        assert(with_member(rest, key, value)[i - 1] == (key, found));
        lemma_new_member(rest, key, value, found);
    }
}

/// An object of members with different keys has exactly these members.
pub proof fn law_object_has_its_members(list: Seq<(Seq<char>, Json)>, key: Seq<char>, value: Json)
    requires
        keys_differ(list),
    ensures
        has(object(list), key, value) <==> list.contains((key, value)),
        object(list)->Object_0.len() == list.len(),
    decreases list.len(),
{
    let all = members_of(list);
    if list.len() == 0 {
        assert(!all.contains((key, value)));
        assert(!list.contains((key, value)));
    } else {
        let init = list.drop_last();
        let last = list.last();
        assert forall|i: int, j: int| 0 <= i < j < init.len() implies (#[trigger] init[i]).0 != (
        #[trigger] init[j]).0 by {
            assert(init[i] == list[i] && init[j] == list[j]);
        }
        law_object_has_its_members(init, key, value);
        let before = members_of(init);
        assert forall|i: int| 0 <= i < before.len() implies (#[trigger] before[i]).0 != last.0 by {
            law_object_has_its_members(init, before[i].0, before[i].1);
            assert(before.contains(before[i]));
            let j = choose|j: int| 0 <= j < init.len() && init[j] == before[i];
            assert(list[j] == init[j]);
            assert(list[j].0 != list[list.len() - 1].0);
        }
        let probe = (last.0.push('x'), last.1);
        assert(probe.0.len() != last.0.len());
        lemma_with_member(before, last.0, last.1, probe);
        lemma_new_member(before, last.0, last.1, last.1);
        if key != last.0 {
            lemma_with_member(before, last.0, last.1, (key, value));
            if init.contains((key, value)) {
                let j = choose|j: int| 0 <= j < init.len() && init[j] == (key, value);
                assert(list[j] == (key, value));
            }
            if list.contains((key, value)) {
                let j = choose|j: int| 0 <= j < list.len() && list[j] == (key, value);
                assert(init[j] == (key, value));
            }
        } else {
            if all.contains((key, value)) {
                lemma_new_member(before, last.0, last.1, value);
                assert(list[list.len() - 1] == (key, value));
            }
            if list.contains((key, value)) {
                let j = choose|j: int| 0 <= j < list.len() && list[j] == (key, value);
                assert(j == list.len() - 1);
            }
        }
    }
}

} // verus!
