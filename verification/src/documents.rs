//! The JSON documents that host and guest exchange.

use crate::json;
#[allow(unused_imports)]
use crate::json::Json;
use crate::json::ObjectBuilder;
use crate::num;
use crate::params::SpeechParams;
use crate::state;
use crate::text;
use vstd::prelude::*;

verus! {

/// The size of the heap that the guest is told to use.
pub const HEAP_SIZE: i32 = 67108864;

/// The days of grace that the guest is told it has.
pub const GRACE_PERIOD: i32 = 999999;

/// The engine's number for the volume.
pub const VOLUME_ID: i32 = 8;

/// The engine's number for the speed.
pub const SPEED_ID: i32 = 9;

/// The engine's number for the pitch.
pub const PITCH_ID: i32 = 10;

/// The engine's number for the length of pauses.
pub const WAIT_FACTOR_ID: i32 = 11;

/// The engine's number for the language.
pub const LANGUAGE_ID: i32 = 1;

/// The engine's number for the voice's name.
pub const NAME_ID: i32 = 2;

/// The engine's number for the operating point of the voice.
pub const VOP_ID: i32 = 3;

/// A file of the voice directory.
#[derive(Debug, Clone)]
pub struct FileEntry {
    pub name: String,
    pub size: u64,
}

/// A parameter to set in the engine.
#[derive(Debug)]
pub enum ParamSetting {
    Int { id: i32, value: i32 },
    Text { id: i32, text: String },
}

/// A parameter to set in the engine, as mathematical values.
pub enum Setting {
    Int { id: int, value: int },
    Text { id: int, text: Seq<char> },
}

/// The value of a member of a parameter document, as far as it counts.
#[derive(Debug)]
pub enum MemberValue {
    Number(i64),
    Text(String),
    Other,
}

/// The value of a member, as mathematical values.
pub enum Plain {
    Number(int),
    Text(Seq<char>),
    Other,
}

/// A member of a parameter document.
#[derive(Debug)]
pub struct Member {
    pub key: String,
    pub value: MemberValue,
}

impl View for MemberValue {
    type V = Plain;

    open spec fn view(&self) -> Plain {
        match *self {
            MemberValue::Number(n) => Plain::Number(n as int),
            MemberValue::Text(text) => Plain::Text(text@),
            MemberValue::Other => Plain::Other,
        }
    }
}

impl View for ParamSetting {
    type V = Setting;

    open spec fn view(&self) -> Setting {
        match *self {
            ParamSetting::Int { id, value } => Setting::Int { id: id as int, value: value as int },
            ParamSetting::Text { id, text } => Setting::Text { id: id as int, text: text@ },
        }
    }
}

/// The settings of a list.
pub open spec fn setting_views(list: Seq<ParamSetting>) -> Seq<Setting> {
    Seq::new(list.len(), |i: int| list[i]@)
}

/// Each file as an object with its name and size.
pub open spec fn sized_files(files: Seq<FileEntry>) -> Seq<Json> {
    Seq::new(
        files.len(),
        |i: int|
            json::object(
                seq![
                    ("name"@, Json::Text(files[i].name@)),
                    ("size"@, Json::Int(files[i].size as int)),
                ],
            ),
    )
}

/// Each file as an object with its name, its size, and its name as address.
pub open spec fn located_files(files: Seq<FileEntry>) -> Seq<Json> {
    Seq::new(
        files.len(),
        |i: int|
            json::object(
                seq![
                    ("name"@, Json::Text(files[i].name@)),
                    ("size"@, Json::Int(files[i].size as int)),
                    ("url"@, Json::Text(files[i].name@)),
                ],
            ),
    )
}

/// The configuration that the guest gets where it has none.
pub open spec fn config_doc(files: Seq<FileEntry>) -> Json {
    json::object(
        seq![
            ("heapSize"@, Json::Int(HEAP_SIZE as int)),
            ("files"@, Json::List(sized_files(files))),
            ("licensingmode"@, Json::Text("unmetered"@)),
            ("licensegraceperiod"@, Json::Int(GRACE_PERIOD as int)),
            ("licensingexplicit"@, Json::Flag(false)),
            ("companyname"@, Json::Text("Code Factory"@)),
            ("applicationname"@, Json::Text("Vocalizer"@)),
        ],
    )
}

/// The list of the voice's files that goes into the start parameters.
pub open spec fn metadata_doc(files: Seq<FileEntry>) -> Json {
    json::object(seq![("files"@, Json::List(located_files(files)))])
}

/// The parameters with which the engine is started.
pub open spec fn start_doc(files: Seq<FileEntry>, root: Seq<char>) -> Json {
    json::object(
        seq![
            ("env"@, Json::Text("node"@)),
            ("data"@, Json::Text("local"@)),
            ("cache"@, Json::Text("none"@)),
            ("metadata"@, Json::Text(json::json_text(metadata_doc(files)))),
            ("localroot"@, Json::Text(root)),
        ],
    )
}

/// The voice to select.
pub open spec fn voice_doc(name: Seq<char>, language: Seq<char>, vop: Seq<char>) -> Json {
    json::object(
        seq![
            ("name"@, Json::Text(name)),
            ("language"@, Json::Text(language)),
            ("vop"@, Json::Text(vop)),
        ],
    )
}

/// The speech parameters to set.
pub open spec fn params_doc(params: SpeechParams) -> Json {
    json::object(
        seq![
            ("speed"@, Json::Int(params.speed as int)),
            ("pitch"@, Json::Int(params.pitch as int)),
            ("volume"@, Json::Int(params.volume as int)),
        ],
    )
}

/// The engine's number for a parameter that is a number.
pub open spec fn int_id(key: Seq<char>) -> Option<int> {
    if key == "volume"@ {
        Some(VOLUME_ID as int)
    } else if key == "speed"@ {
        Some(SPEED_ID as int)
    } else if key == "pitch"@ {
        Some(PITCH_ID as int)
    } else if key == "waitFactor"@ {
        Some(WAIT_FACTOR_ID as int)
    } else {
        None
    }
}

/// The engine's number for a parameter that is a text.
pub open spec fn text_id(key: Seq<char>) -> Option<int> {
    if key == "language"@ {
        Some(LANGUAGE_ID as int)
    } else if key == "name"@ {
        Some(NAME_ID as int)
    } else if key == "vop"@ {
        Some(VOP_ID as int)
    } else {
        None
    }
}

/// What counts of the value of a member: a number of 64 bits with a sign, or a
/// text.
pub open spec fn plain_of(value: Json) -> Plain {
    match value {
        Json::Int(n) => if state::is_i64(n) {
            Plain::Number(n)
        } else {
            Plain::Other
        },
        Json::Text(t) => Plain::Text(t),
        _ => Plain::Other,
    }
}

/// What counts of the members of a parameter document.
pub open spec fn plain_members(members: Seq<(Seq<char>, Json)>) -> Seq<(Seq<char>, Plain)> {
    Seq::new(members.len(), |i: int| (members[i].0, plain_of(members[i].1)))
}

/// What a member of a parameter document sets: at most one parameter.
pub open spec fn setting_of(key: Seq<char>, value: Plain) -> Option<Setting> {
    match (int_id(key), text_id(key), value) {
        (Some(id), _, Plain::Number(n)) => Some(Setting::Int { id, value: num::signed32(n) }),
        (_, Some(id), Plain::Text(t)) => Some(Setting::Text { id, text: t }),
        _ => None,
    }
}

/// What the members of a parameter document set, in their order.
pub open spec fn settings_of(members: Seq<(Seq<char>, Plain)>) -> Seq<Setting>
    decreases members.len(),
{
    if members.len() == 0 {
        Seq::empty()
    } else {
        let head = settings_of(members.drop_last());
        match setting_of(members.last().0, members.last().1) {
            Some(s) => head.push(s),
            None => head,
        }
    }
}

/// What a parameter text sets: nothing where it is no JSON object.
pub open spec fn settings_in(text: Seq<char>) -> Seq<Setting> {
    match json::json_parse(text) {
        Some(Json::Object(members)) => settings_of(plain_members(members)),
        _ => Seq::empty(),
    }
}

/// The members of a list, as mathematical values.
pub open spec fn member_views(list: Seq<Member>) -> Seq<(Seq<char>, Plain)> {
    Seq::new(list.len(), |i: int| (list[i].key@, list[i].value@))
}

/// The text of the configuration that the guest gets where it has none.
pub fn config_text(files: &Vec<FileEntry>) -> (text: String)
    ensures
        text@ == json::json_text(config_doc(files@)),
        text::without_nul(text@),
{
    let mut list: Vec<serde_json::Value> = Vec::new();
    let mut i: usize = 0;
    while i < files.len()
        invariant
            i <= files@.len(),
            list@.len() == i,
            forall|k: int| 0 <= k < i ==> json::json_of(#[trigger] list@[k]) == sized_files(files@)[k],
        decreases files@.len() - i,
    {
        let item: ObjectBuilder = ObjectBuilder::new().with(
            "name",
            json::text_value(files[i].name.as_str()),
        ).with("size", json::size_value(files[i].size));
        assert(item.list() =~= seq![
            ("name"@, Json::Text(files@[i as int].name@)),
            ("size"@, Json::Int(files@[i as int].size as int)),
        ]);
        list.push(item.build());
        i = i + 1;
    }
    assert(json::docs(list@) =~= sized_files(files@));
    let config: ObjectBuilder = ObjectBuilder::new().with(
        "heapSize",
        json::int_value(HEAP_SIZE),
    ).with("files", json::list_value(list)).with(
        "licensingmode",
        json::text_value("unmetered"),
    ).with("licensegraceperiod", json::int_value(GRACE_PERIOD)).with(
        "licensingexplicit",
        json::flag_value(false),
    ).with("companyname", json::text_value("Code Factory")).with(
        "applicationname",
        json::text_value("Vocalizer"),
    );
    assert(config.list() =~= seq![
        ("heapSize"@, Json::Int(HEAP_SIZE as int)),
        ("files"@, Json::List(sized_files(files@))),
        ("licensingmode"@, Json::Text("unmetered"@)),
        ("licensegraceperiod"@, Json::Int(GRACE_PERIOD as int)),
        ("licensingexplicit"@, Json::Flag(false)),
        ("companyname"@, Json::Text("Code Factory"@)),
        ("applicationname"@, Json::Text("Vocalizer"@)),
    ]);
    json::encode(&config.build())
}

/// The text of the list of the voice's files.
pub fn metadata_text(files: &Vec<FileEntry>) -> (text: String)
    ensures
        text@ == json::json_text(metadata_doc(files@)),
        text::without_nul(text@),
{
    let mut list: Vec<serde_json::Value> = Vec::new();
    let mut i: usize = 0;
    while i < files.len()
        invariant
            i <= files@.len(),
            list@.len() == i,
            forall|k: int|
                0 <= k < i ==> json::json_of(#[trigger] list@[k]) == located_files(files@)[k],
        decreases files@.len() - i,
    {
        let item: ObjectBuilder = ObjectBuilder::new().with(
            "name",
            json::text_value(files[i].name.as_str()),
        ).with("size", json::size_value(files[i].size)).with(
            "url",
            json::text_value(files[i].name.as_str()),
        );
        assert(item.list() =~= seq![
            ("name"@, Json::Text(files@[i as int].name@)),
            ("size"@, Json::Int(files@[i as int].size as int)),
            ("url"@, Json::Text(files@[i as int].name@)),
        ]);
        list.push(item.build());
        i = i + 1;
    }
    assert(json::docs(list@) =~= located_files(files@));
    let metadata: ObjectBuilder = ObjectBuilder::new().with("files", json::list_value(list));
    assert(metadata.list() =~= seq![("files"@, Json::List(located_files(files@)))]);
    json::encode(&metadata.build())
}

/// The text of the parameters with which the engine is started: the voice's
/// files and the directory `root` that holds them.
pub fn start_text(files: &Vec<FileEntry>, root: &str) -> (text: String)
    ensures
        text@ == json::json_text(start_doc(files@, root@)),
        json::json_parse(text@) == Some(start_doc(files@, root@)),
        text::without_nul(text@),
{
    let metadata: String = metadata_text(files);
    let start: ObjectBuilder = ObjectBuilder::new().with("env", json::text_value("node")).with(
        "data",
        json::text_value("local"),
    ).with("cache", json::text_value("none")).with(
        "metadata",
        json::text_value(metadata.as_str()),
    ).with("localroot", json::text_value(root));
    assert(start.list() =~= seq![
        ("env"@, Json::Text("node"@)),
        ("data"@, Json::Text("local"@)),
        ("cache"@, Json::Text("none"@)),
        ("metadata"@, Json::Text(json::json_text(metadata_doc(files@)))),
        ("localroot"@, Json::Text(root@)),
    ]);
    proof {
        lemma_start_is_flat(files@, root@);
    }
    json::encode(&start.build())
}

/// The text that selects a voice. The guest hands it back to the host, which
/// then sets the language, the name and the operating point.
pub fn voice_text(name: &str, language: &str, vop: &str) -> (text: String)
    ensures
        text@ == json::json_text(voice_doc(name@, language@, vop@)),
        text::without_nul(text@),
        settings_in(text@) == seq![
            Setting::Text { id: LANGUAGE_ID as int, text: language@ },
            Setting::Text { id: NAME_ID as int, text: name@ },
            Setting::Text { id: VOP_ID as int, text: vop@ },
        ],
{
    let voice: ObjectBuilder = ObjectBuilder::new().with("name", json::text_value(name)).with(
        "language",
        json::text_value(language),
    ).with("vop", json::text_value(vop));
    assert(voice.list() =~= seq![
        ("name"@, Json::Text(name@)),
        ("language"@, Json::Text(language@)),
        ("vop"@, Json::Text(vop@)),
    ]);
    proof {
        lemma_voice_members(name@, language@, vop@);
    }
    json::encode(&voice.build())
}

/// The text that sets the speech parameters. The guest hands it back to the
/// host, which then sets exactly these values in the engine.
pub fn params_text(params: &SpeechParams) -> (text: String)
    ensures
        text@ == json::json_text(params_doc(*params)),
        settings_in(text@) == seq![
            Setting::Int { id: PITCH_ID as int, value: params.pitch as int },
            Setting::Int { id: SPEED_ID as int, value: params.speed as int },
            Setting::Int { id: VOLUME_ID as int, value: params.volume as int },
        ],
        text::without_nul(text@),
{
    let speech: ObjectBuilder = ObjectBuilder::new().with(
        "speed",
        json::int_value(params.speed),
    ).with("pitch", json::int_value(params.pitch)).with("volume", json::int_value(params.volume));
    assert(speech.list() =~= seq![
        ("speed"@, Json::Int(params.speed as int)),
        ("pitch"@, Json::Int(params.pitch as int)),
        ("volume"@, Json::Int(params.volume as int)),
    ]);
    proof {
        lemma_params_members(*params);
    }
    json::encode(&speech.build())
}

/// The members of a JSON object, or none where the text is none.
fn param_members(text: &str) -> (list: Vec<Member>)
    ensures
        settings_of(member_views(list@)) == settings_in(text@),
{
    let members: Option<Vec<(String, serde_json::Value)>> = match json::decode(text) {
        Some(value) => json::into_members(value),
        None => None,
    };
    let mut list: Vec<Member> = Vec::new();
    if let Some(members) = members {
        let ghost all = json::member_docs(members@);
        let mut i: usize = 0;
        while i < members.len()
            invariant
                i <= members@.len(),
                all == json::member_docs(members@),
                list@.len() == i,
                forall|k: int|
                    0 <= k < i ==> (#[trigger] list@[k]).key@ == all[k].0 && list@[k].value@
                        == plain_of(all[k].1),
            decreases members@.len() - i,
        {
            let key: String = members[i].0.clone();
            list.push(Member { key, value: plain_value(&members[i].1) });
            i = i + 1;
        }
        assert(member_views(list@) =~= plain_members(all));
    } else {
        assert(member_views(list@) =~= Seq::empty());
    }
    list
}

/// What counts of a JSON value.
fn plain_value(value: &serde_json::Value) -> (r: MemberValue)
    ensures
        r@ == plain_of(json::json_of(*value)),
{
    match json::as_int(value) {
        Some(n) => MemberValue::Number(n),
        None => match json::as_text(value) {
            Some(text) => MemberValue::Text(text),
            None => MemberValue::Other,
        },
    }
}

/// The parameters that a text sets in the engine, in the order in which they
/// are to be set: none where the text is no JSON object.
pub fn param_settings(text: &str) -> (list: Vec<ParamSetting>)
    ensures
        setting_views(list@) == settings_in(text@),
{
    member_settings(param_members(text))
}

/// The parameters that the members of a parameter document set in the engine,
/// in their order.
pub fn member_settings(members: Vec<Member>) -> (list: Vec<ParamSetting>)
    ensures
        setting_views(list@) == settings_of(member_views(members@)),
{
    let ghost all = member_views(members@);
    let mut list: Vec<ParamSetting> = Vec::new();
    let mut i: usize = 0;
    assert(all.take(0) =~= Seq::empty());
    assert(setting_views(list@) =~= Seq::empty());
    while i < members.len()
        invariant
            i <= members@.len(),
            all == member_views(members@),
            setting_views(list@) == settings_of(all.take(i as int)),
        decreases members@.len() - i,
    {
        let ghost before = list@;
        assert(all.take(i + 1).drop_last() =~= all.take(i as int));
        assert(all.take(i + 1).last() == (members@[i as int].key@, members@[i as int].value@));
        if let Some(setting) = param_setting(&members[i]) {
            list.push(setting);
            assert(setting_views(list@) =~= setting_views(before).push(setting@));
        }
        i = i + 1;
    }
    assert(all.take(members@.len() as int) =~= all);
    list
}

/// The parameter that one member of a parameter document sets, if any.
fn param_setting(member: &Member) -> (r: Option<ParamSetting>)
    ensures
        match r {
            Some(setting) => setting_of(member.key@, member.value@) == Some(setting@),
            None => setting_of(member.key@, member.value@) is None,
        },
{
    let key: &str = member.key.as_str();
    match &member.value {
        MemberValue::Number(n) => {
            let id: i32 = if text::same(key, "volume") {
                VOLUME_ID
            } else if text::same(key, "speed") {
                SPEED_ID
            } else if text::same(key, "pitch") {
                PITCH_ID
            } else if text::same(key, "waitFactor") {
                WAIT_FACTOR_ID
            } else {
                return None;
            };
            Some(ParamSetting::Int { id, value: num::narrow_signed(*n) })
        },
        MemberValue::Text(text) => {
            let id: i32 = if text::same(key, "language") {
                LANGUAGE_ID
            } else if text::same(key, "name") {
                NAME_ID
            } else if text::same(key, "vop") {
                VOP_ID
            } else {
                return None;
            };
            Some(ParamSetting::Text { id, text: text.clone() })
        },
        MemberValue::Other => None,
    }
}

/// Members are set one after the other.
proof fn lemma_three_members(a: (Seq<char>, Json), b: (Seq<char>, Json), c: (Seq<char>, Json))
    ensures
        json::members_of(seq![a, b, c]) == json::with_member(
            json::with_member(seq![a], b.0, b.1),
            c.0,
            c.1,
        ),
{
    reveal_with_fuel(json::members_of, 4);
    assert(seq![a, b, c].drop_last() =~= seq![a, b]);
    assert(seq![a, b].drop_last() =~= seq![a]);
    assert(seq![a].drop_last() =~= Seq::empty());
    assert(json::with_member(Seq::empty(), a.0, a.1) =~= seq![a]);
}

/// The members of a parameter document, in the order of their keys.
proof fn lemma_params_members(params: SpeechParams)
    ensures
        json::is_flat(params_doc(params)),
        params_doc(params) == Json::Object(
            seq![
                ("pitch"@, Json::Int(params.pitch as int)),
                ("speed"@, Json::Int(params.speed as int)),
                ("volume"@, Json::Int(params.volume as int)),
            ],
        ),
        settings_of(
            plain_members(
                seq![
                    ("pitch"@, Json::Int(params.pitch as int)),
                    ("speed"@, Json::Int(params.speed as int)),
                    ("volume"@, Json::Int(params.volume as int)),
                ],
            ),
        ) == seq![
            Setting::Int { id: PITCH_ID as int, value: params.pitch as int },
            Setting::Int { id: SPEED_ID as int, value: params.speed as int },
            Setting::Int { id: VOLUME_ID as int, value: params.volume as int },
        ],
{
    reveal_strlit("speed");
    reveal_strlit("pitch");
    reveal_strlit("volume");
    reveal_strlit("waitFactor");
    let speed = ("speed"@, Json::Int(params.speed as int));
    let pitch = ("pitch"@, Json::Int(params.pitch as int));
    let volume = ("volume"@, Json::Int(params.volume as int));
    lemma_three_members(speed, pitch, volume);
    reveal_with_fuel(json::with_member, 3);
    assert(pitch.0[0] == 'p' && speed.0[0] == 's' && volume.0[0] == 'v');
    assert(json::with_member(seq![speed], pitch.0, pitch.1) =~= seq![pitch, speed]);
    assert(seq![pitch, speed].drop_first() =~= seq![speed]);
    assert(seq![speed].drop_first() =~= Seq::empty());
    assert(json::with_member(seq![speed], volume.0, volume.1) =~= seq![speed, volume]);
    assert(json::with_member(seq![pitch, speed], volume.0, volume.1) =~= seq![
        pitch,
        speed,
        volume,
    ]);
    let all = seq![pitch, speed, volume];
    lemma_three_settings(pitch, speed, volume);
    assert(settings_of(plain_members(all)) =~= seq![
        Setting::Int { id: PITCH_ID as int, value: params.pitch as int },
        Setting::Int { id: SPEED_ID as int, value: params.speed as int },
        Setting::Int { id: VOLUME_ID as int, value: params.volume as int },
    ]);
}

/// Three members that each set something set three parameters.
proof fn lemma_three_settings(a: (Seq<char>, Json), b: (Seq<char>, Json), c: (Seq<char>, Json))
    requires
        setting_of(a.0, plain_of(a.1)) is Some,
        setting_of(b.0, plain_of(b.1)) is Some,
        setting_of(c.0, plain_of(c.1)) is Some,
    ensures
        settings_of(plain_members(seq![a, b, c])) == seq![
            setting_of(a.0, plain_of(a.1))->0,
            setting_of(b.0, plain_of(b.1))->0,
            setting_of(c.0, plain_of(c.1))->0,
        ],
{
    reveal_with_fuel(settings_of, 4);
    let x = (a.0, plain_of(a.1));
    let y = (b.0, plain_of(b.1));
    let z = (c.0, plain_of(c.1));
    assert(plain_members(seq![a, b, c]) =~= seq![x, y, z]);
    assert(seq![x, y, z].drop_last() =~= seq![x, y]);
    assert(seq![x, y].drop_last() =~= seq![x]);
    assert(seq![x].drop_last() =~= Seq::empty());
    assert(settings_of(seq![x, y, z]) =~= seq![
        setting_of(x.0, x.1)->0,
        setting_of(y.0, y.1)->0,
        setting_of(z.0, z.1)->0,
    ]);
}

/// The members of a voice document, in the order of their keys.
proof fn lemma_voice_members(name: Seq<char>, language: Seq<char>, vop: Seq<char>)
    ensures
        json::is_flat(voice_doc(name, language, vop)),
        voice_doc(name, language, vop) == Json::Object(
            seq![
                ("language"@, Json::Text(language)),
                ("name"@, Json::Text(name)),
                ("vop"@, Json::Text(vop)),
            ],
        ),
        settings_of(
            plain_members(
                seq![
                    ("language"@, Json::Text(language)),
                    ("name"@, Json::Text(name)),
                    ("vop"@, Json::Text(vop)),
                ],
            ),
        ) == seq![
            Setting::Text { id: LANGUAGE_ID as int, text: language },
            Setting::Text { id: NAME_ID as int, text: name },
            Setting::Text { id: VOP_ID as int, text: vop },
        ],
{
    reveal_strlit("language");
    reveal_strlit("name");
    reveal_strlit("vop");
    reveal_strlit("speed");
    reveal_strlit("pitch");
    reveal_strlit("volume");
    reveal_strlit("waitFactor");
    let n = ("name"@, Json::Text(name));
    let l = ("language"@, Json::Text(language));
    let v = ("vop"@, Json::Text(vop));
    lemma_three_members(n, l, v);
    reveal_with_fuel(json::with_member, 3);
    assert(n.0[0] == 'n' && l.0[0] == 'l' && v.0[0] == 'v');
    assert(json::with_member(seq![n], l.0, l.1) =~= seq![l, n]);
    assert(seq![l, n].drop_first() =~= seq![n]);
    assert(seq![n].drop_first() =~= Seq::empty());
    assert(json::with_member(seq![n], v.0, v.1) =~= seq![n, v]);
    assert(json::with_member(seq![l, n], v.0, v.1) =~= seq![l, n, v]);
    lemma_three_settings(l, n, v);
}

/// An object is one of a file: its members are the name and the size, and the
/// name as address where it is `located`.
pub open spec fn describes(doc: Json, file: FileEntry, located: bool) -> bool {
    &&& json::has(doc, "name"@, Json::Text(file.name@))
    &&& json::has(doc, "size"@, Json::Int(file.size as int))
    &&& located ==> json::has(doc, "url"@, Json::Text(file.name@))
    &&& doc->Object_0.len() == if located {
        3int
    } else {
        2
    }
}

/// The objects of files describe them.
proof fn lemma_files_described(files: Seq<FileEntry>, i: int)
    requires
        0 <= i < files.len(),
    ensures
        describes(sized_files(files)[i], files[i], false),
        describes(located_files(files)[i], files[i], true),
{
    reveal_strlit("name");
    reveal_strlit("size");
    reveal_strlit("url");
    let name = ("name"@, Json::Text(files[i].name@));
    let size = ("size"@, Json::Int(files[i].size as int));
    let url = ("url"@, Json::Text(files[i].name@));
    assert("name"@[0] == 'n' && "size"@[0] == 's' && "url"@[0] == 'u');
    let two = seq![name, size];
    let three = seq![name, size, url];
    assert(two[0] == name && two[1] == size);
    assert(three[0] == name && three[1] == size && three[2] == url);
    json::law_object_has_its_members(two, name.0, name.1);
    json::law_object_has_its_members(two, size.0, size.1);
    json::law_object_has_its_members(three, name.0, name.1);
    json::law_object_has_its_members(three, size.0, size.1);
    json::law_object_has_its_members(three, url.0, url.1);
}

/// The configuration lists every file of the voice directory, in order, with
/// its name and its size, and says the size of the heap and the license.
pub proof fn law_config_lists_every_file(files: Seq<FileEntry>)
    ensures
        ({
            let doc = config_doc(files);
            &&& doc->Object_0.len() == 7
            &&& json::has(doc, "heapSize"@, Json::Int(67108864))
            &&& json::has(doc, "licensingmode"@, Json::Text("unmetered"@))
            &&& json::has(doc, "licensegraceperiod"@, Json::Int(999999))
            &&& json::has(doc, "licensingexplicit"@, Json::Flag(false))
            &&& json::has(doc, "companyname"@, Json::Text("Code Factory"@))
            &&& json::has(doc, "applicationname"@, Json::Text("Vocalizer"@))
            &&& exists|list: Seq<Json>|
                #[trigger] json::has(doc, "files"@, Json::List(list)) && list.len() == files.len()
                    && forall|i: int|
                    0 <= i < files.len() ==> describes(#[trigger] list[i], files[i], false)
        }),
{
    reveal_strlit("heapSize");
    reveal_strlit("files");
    reveal_strlit("licensingmode");
    reveal_strlit("licensegraceperiod");
    reveal_strlit("licensingexplicit");
    reveal_strlit("companyname");
    reveal_strlit("applicationname");
    let list = seq![
        ("heapSize"@, Json::Int(67108864)),
        ("files"@, Json::List(sized_files(files))),
        ("licensingmode"@, Json::Text("unmetered"@)),
        ("licensegraceperiod"@, Json::Int(999999)),
        ("licensingexplicit"@, Json::Flag(false)),
        ("companyname"@, Json::Text("Code Factory"@)),
        ("applicationname"@, Json::Text("Vocalizer"@)),
    ];
    assert(config_doc(files) == json::object(list));
    assert("heapSize"@.len() == 8 && "files"@.len() == 5 && "licensingmode"@.len() == 13);
    assert("licensegraceperiod"@.len() == 18 && "licensingexplicit"@.len() == 17);
    assert("companyname"@.len() == 11 && "applicationname"@.len() == 15);
    assert forall|k: int| 0 <= k < 7 implies json::has(
        json::object(list),
        (#[trigger] list[k]).0,
        list[k].1,
    ) by {
        json::law_object_has_its_members(list, list[k].0, list[k].1);
    }
    json::law_object_has_its_members(list, list[0].0, list[0].1);
    assert(list[1] == ("files"@, Json::List(sized_files(files))));
    assert(list[2] == ("licensingmode"@, Json::Text("unmetered"@)));
    assert(list[3] == ("licensegraceperiod"@, Json::Int(999999)));
    assert(list[4] == ("licensingexplicit"@, Json::Flag(false)));
    assert(list[5] == ("companyname"@, Json::Text("Code Factory"@)));
    assert(list[6] == ("applicationname"@, Json::Text("Vocalizer"@)));
    assert forall|i: int| 0 <= i < files.len() implies describes(
        #[trigger] sized_files(files)[i],
        files[i],
        false,
    ) by {
        lemma_files_described(files, i);
    }
    assert(json::has(config_doc(files), "files"@, Json::List(sized_files(files))));
}

/// The metadata lists every file of the voice directory, in order, with its
/// name, its size and its name as address, and holds nothing else.
pub proof fn law_metadata_lists_every_file(files: Seq<FileEntry>)
    ensures
        metadata_doc(files)->Object_0.len() == 1,
        exists|list: Seq<Json>|
            #[trigger] json::has(metadata_doc(files), "files"@, Json::List(list)) && list.len()
                == files.len() && forall|i: int|
                0 <= i < files.len() ==> describes(#[trigger] list[i], files[i], true),
{
    let list = seq![("files"@, Json::List(located_files(files)))];
    assert(list[0] == ("files"@, Json::List(located_files(files))));
    json::law_object_has_its_members(list, list[0].0, list[0].1);
    assert forall|i: int| 0 <= i < files.len() implies describes(
        #[trigger] located_files(files)[i],
        files[i],
        true,
    ) by {
        lemma_files_described(files, i);
    }
    assert(json::has(metadata_doc(files), "files"@, Json::List(located_files(files))));
}

/// The members of the start parameters, as they are set.
spec fn start_list(files: Seq<FileEntry>, root: Seq<char>) -> Seq<(Seq<char>, Json)> {
    seq![
        ("env"@, Json::Text("node"@)),
        ("data"@, Json::Text("local"@)),
        ("cache"@, Json::Text("none"@)),
        ("metadata"@, Json::Text(json::json_text(metadata_doc(files)))),
        ("localroot"@, Json::Text(root)),
    ]
}

/// The start parameters have these members and no others.
proof fn lemma_start_members(files: Seq<FileEntry>, root: Seq<char>, key: Seq<char>, value: Json)
    ensures
        json::has(start_doc(files, root), key, value) <==> start_list(files, root).contains(
            (key, value),
        ),
        start_doc(files, root)->Object_0.len() == 5,
{
    reveal_strlit("env");
    reveal_strlit("data");
    reveal_strlit("cache");
    reveal_strlit("metadata");
    reveal_strlit("localroot");
    let list = start_list(files, root);
    assert("env"@.len() == 3 && "data"@.len() == 4 && "cache"@.len() == 5);
    assert("metadata"@.len() == 8 && "localroot"@.len() == 9);
    assert(json::keys_differ(list));
    assert(start_doc(files, root) == json::object(list));
    json::law_object_has_its_members(list, key, value);
}

/// The start parameters hold texts only.
proof fn lemma_start_is_flat(files: Seq<FileEntry>, root: Seq<char>)
    ensures
        json::is_flat(start_doc(files, root)),
{
    let members = start_doc(files, root)->Object_0;
    assert forall|i: int| 0 <= i < members.len() implies (#[trigger] members[i]).1 is Text by {
        lemma_start_members(files, root, members[i].0, members[i].1);
        assert(members.contains(members[i]));
        let k = choose|k: int|
            0 <= k < start_list(files, root).len() && start_list(files, root)[k] == members[i];
        assert(start_list(files, root)[k].1 is Text);
    }
}

/// The engine is started on the directory of the voice and on metadata that
/// list every file in it, in order, with its name, its size and its name as
/// address; it runs locally and without a cache.
pub proof fn law_started_on_every_file(files: Seq<FileEntry>, root: Seq<char>)
    ensures
        ({
            let doc = start_doc(files, root);
            &&& doc->Object_0.len() == 5
            &&& json::has(doc, "env"@, Json::Text("node"@))
            &&& json::has(doc, "data"@, Json::Text("local"@))
            &&& json::has(doc, "cache"@, Json::Text("none"@))
            &&& json::has(doc, "localroot"@, Json::Text(root))
            &&& exists|meta: Json, list: Seq<Json>|
                #[trigger] json::has(doc, "metadata"@, Json::Text(json::json_text(meta)))
                    && #[trigger] json::has(meta, "files"@, Json::List(list)) && list.len()
                    == files.len() && (forall|i: int|
                    0 <= i < files.len() ==> describes(#[trigger] list[i], files[i], true))
        }),
{
    let list = start_list(files, root);
    assert forall|k: int| 0 <= k < 5 implies json::has(
        start_doc(files, root),
        (#[trigger] list[k]).0,
        list[k].1,
    ) by {
        lemma_start_members(files, root, list[k].0, list[k].1);
        assert(list.contains(list[k]));
    }
    lemma_start_members(files, root, list[0].0, list[0].1);
    assert(list[1] == ("data"@, Json::Text("local"@)));
    assert(list[2] == ("cache"@, Json::Text("none"@)));
    assert(list[3] == ("metadata"@, Json::Text(json::json_text(metadata_doc(files)))));
    assert(list[4] == ("localroot"@, Json::Text(root)));
    law_metadata_lists_every_file(files);
    let found = choose|found: Seq<Json>|
        #[trigger] json::has(metadata_doc(files), "files"@, Json::List(found)) && found.len()
            == files.len() && forall|i: int|
            0 <= i < files.len() ==> describes(#[trigger] found[i], files[i], true);
    assert(json::has(
        start_doc(files, root),
        "metadata"@,
        Json::Text(json::json_text(metadata_doc(files))),
    ));
    assert(json::has(metadata_doc(files), "files"@, Json::List(found)));
}

/// The texts that select a voice and set parameters hold exactly what was asked
/// for, each under its name.
pub proof fn law_requests_hold_their_values(
    name: Seq<char>,
    language: Seq<char>,
    vop: Seq<char>,
    params: SpeechParams,
)
    ensures
        voice_doc(name, language, vop) == Json::Object(
            seq![
                ("language"@, Json::Text(language)),
                ("name"@, Json::Text(name)),
                ("vop"@, Json::Text(vop)),
            ],
        ),
        params_doc(params) == Json::Object(
            seq![
                ("pitch"@, Json::Int(params.pitch as int)),
                ("speed"@, Json::Int(params.speed as int)),
                ("volume"@, Json::Int(params.volume as int)),
            ],
        ),
{
    lemma_voice_members(name, language, vop);
    lemma_params_members(params);
}

/// The parameters and the numbers by which the engine knows them.
pub proof fn law_parameter_numbers(n: int, t: Seq<char>)
    requires
        -0x8000_0000 <= n < 0x8000_0000,
    ensures
        setting_of("volume"@, Plain::Number(n)) == Some(Setting::Int { id: 8, value: n }),
        setting_of("speed"@, Plain::Number(n)) == Some(Setting::Int { id: 9, value: n }),
        setting_of("pitch"@, Plain::Number(n)) == Some(Setting::Int { id: 10, value: n }),
        setting_of("waitFactor"@, Plain::Number(n)) == Some(Setting::Int { id: 11, value: n }),
        setting_of("language"@, Plain::Text(t)) == Some(Setting::Text { id: 1, text: t }),
        setting_of("name"@, Plain::Text(t)) == Some(Setting::Text { id: 2, text: t }),
        setting_of("vop"@, Plain::Text(t)) == Some(Setting::Text { id: 3, text: t }),
{
    reveal_strlit("volume");
    reveal_strlit("speed");
    reveal_strlit("pitch");
    reveal_strlit("waitFactor");
    reveal_strlit("language");
    reveal_strlit("name");
    reveal_strlit("vop");
    assert("language"@.len() == 8 && "name"@.len() == 4 && "vop"@.len() == 3);
    assert("volume"@.len() == 6 && "waitFactor"@.len() == 10);
    assert("speed"@[0] == 's' && "pitch"@[0] == 'p');
    assert("speed"@.len() == 5 && "pitch"@.len() == 5);
}

/// A member sets something only where its key is one of the seven and its value
/// is of the right sort; a number is cut to a word.
pub proof fn law_other_members_set_nothing(key: Seq<char>, value: Plain)
    ensures
        setting_of(key, value) is Some <==> ((key == "volume"@ || key == "speed"@ || key == "pitch"@
            || key == "waitFactor"@) && value is Number) || ((key == "language"@ || key == "name"@
            || key == "vop"@) && value is Text),
        setting_of(key, value) matches Some(Setting::Int { id, value: v }) ==> value
            matches Plain::Number(n) && (n - v) % 0x1_0000_0000 == 0 && -0x8000_0000 <= v
            < 0x8000_0000,
        setting_of(key, value) matches Some(Setting::Text { id, text: t }) ==> value
            == Plain::Text(t),
{
    reveal_strlit("volume");
    reveal_strlit("speed");
    reveal_strlit("pitch");
    reveal_strlit("waitFactor");
    reveal_strlit("language");
    reveal_strlit("name");
    reveal_strlit("vop");
    assert("language"@.len() == 8 && "name"@.len() == 4 && "vop"@.len() == 3);
    assert("volume"@.len() == 6 && "waitFactor"@.len() == 10);
    assert("speed"@.len() == 5 && "pitch"@.len() == 5);
}

/// What members set is set one after the other: none is left out, and none is
/// set twice.
pub proof fn law_members_set_in_turn(a: Seq<(Seq<char>, Plain)>, b: Seq<(Seq<char>, Plain)>)
    ensures
        settings_of(a + b) == settings_of(a) + settings_of(b),
        a.len() == 1 ==> settings_of(a) == (match setting_of(a[0].0, a[0].1) {
            Some(s) => seq![s],
            None => Seq::empty(),
        }),
    decreases b.len(),
{
    if b.len() == 0 {
        assert(a + b =~= a);
        assert(settings_of(a) + settings_of(b) =~= settings_of(a));
    } else {
        law_members_set_in_turn(a, b.drop_last());
        assert((a + b).drop_last() =~= a + b.drop_last());
        assert((a + b).last() == b.last());
        assert(settings_of(a + b) =~= settings_of(a) + settings_of(b));
    }
    if a.len() == 1 {
        reveal_with_fuel(settings_of, 2);
        assert(a.drop_last() =~= Seq::empty());
        assert(settings_of(a) =~= (match setting_of(a[0].0, a[0].1) {
            Some(s) => seq![s],
            None => Seq::empty(),
        }));
    }
}

/// What counts of a JSON value: a whole number of 64 bits, a text, or nothing.
pub proof fn law_plain_values(n: int, t: Seq<char>, value: Json)
    ensures
        -0x8000_0000_0000_0000 <= n < 0x8000_0000_0000_0000 ==> plain_of(Json::Int(n))
            == Plain::Number(n),
        plain_of(Json::Text(t)) == Plain::Text(t),
        plain_of(value) matches Plain::Number(k) ==> value == Json::Int(k),
        plain_of(value) matches Plain::Text(k) ==> value == Json::Text(k),
{
}

} // verus!
