use yuri::documents::{
    config_text, member_settings, metadata_text, param_settings, params_text, start_text,
    voice_text, FileEntry, Member, MemberValue, ParamSetting,
};
use yuri::SpeechParams;

fn files() -> Vec<FileEntry> {
    vec![
        FileEntry { name: "b.dat".to_string(), size: 7 },
        FileEntry { name: "a\"b.hdr".to_string(), size: u64::MAX },
    ]
}

#[test]
fn config_of_no_files() {
    assert_eq!(
        config_text(&vec![]),
        "{\"applicationname\":\"Vocalizer\",\"companyname\":\"Code Factory\",\"files\":[],\
         \"heapSize\":67108864,\"licensegraceperiod\":999999,\"licensingexplicit\":false,\
         \"licensingmode\":\"unmetered\"}"
    );
}

#[test]
fn metadata_lists_files() {
    assert_eq!(
        metadata_text(&files()),
        "{\"files\":[{\"name\":\"b.dat\",\"size\":7,\"url\":\"b.dat\"},\
         {\"name\":\"a\\\"b.hdr\",\"size\":18446744073709551615,\"url\":\"a\\\"b.hdr\"}]}"
    );
}

#[test]
fn start_parameters() {
    assert_eq!(
        start_text(&vec![], "/voices/yuri"),
        "{\"cache\":\"none\",\"data\":\"local\",\"env\":\"node\",\
         \"localroot\":\"/voices/yuri\",\"metadata\":\"{\\\"files\\\":[]}\"}"
    );
}

#[test]
fn voice_selection() {
    assert_eq!(
        voice_text("Yuri", "Russian", ""),
        "{\"language\":\"Russian\",\"name\":\"Yuri\",\"vop\":\"\"}"
    );
}

#[test]
fn speech_parameters() {
    let text = params_text(&SpeechParams { speed: 200, pitch: -1, volume: i32::MAX });
    assert_eq!(text, "{\"pitch\":-1,\"speed\":200,\"volume\":2147483647}");
}

#[test]
fn parameters_are_read_back() {
    let params = SpeechParams { speed: 120, pitch: 60, volume: 80 };
    let list = param_settings(&params_text(&params));
    assert_eq!(list.len(), 3);
    assert!(matches!(list[0], ParamSetting::Int { id: 10, value: 60 }));
    assert!(matches!(list[1], ParamSetting::Int { id: 9, value: 120 }));
    assert!(matches!(list[2], ParamSetting::Int { id: 8, value: 80 }));
}

#[test]
fn voice_is_read_back() {
    let list = param_settings(&voice_text("Zo\u{1}e\n", "American English", "embedded-compact"));
    assert_eq!(list.len(), 3);
    assert!(matches!(&list[0], ParamSetting::Text { id: 1, text } if text == "American English"));
    assert!(matches!(&list[1], ParamSetting::Text { id: 2, text } if text == "Zo\u{1}e\n"));
    assert!(matches!(&list[2], ParamSetting::Text { id: 3, text } if text == "embedded-compact"));
}

#[test]
fn other_texts_set_nothing() {
    for text in ["", "[]", "3", "{", "null", "{\"speed\":1.5}", "{\"speed\":\"1\"}",
        "{\"name\":null}", "{\"Speed\":1}", "{\"volume\":9223372036854775808}"]
    {
        assert!(param_settings(text).is_empty());
    }
}

#[test]
fn numbers_are_cut_to_words() {
    let list = param_settings("{\"waitFactor\":4294967298,\"pitch\":-4294967297}");
    assert_eq!(list.len(), 2);
    assert!(matches!(list[0], ParamSetting::Int { id: 10, value: -1 }));
    assert!(matches!(list[1], ParamSetting::Int { id: 11, value: 2 }));
}

#[test]
fn defaults() {
    assert_eq!(SpeechParams::default(), SpeechParams { speed: 100, pitch: 100, volume: 80 });
    let limits = yuri::SynthesisLimits::default();
    assert_eq!((limits.max_duration_secs, limits.max_idle_iterations), (300, 200));
    assert_eq!(yuri::SAMPLE_RATE, 22050);
}

#[test]
fn members_set_parameters() {
    let member = |key: &str, value: MemberValue| Member { key: key.to_string(), value };
    let list = member_settings(vec![
        member("volume", MemberValue::Number(5)),
        member("vop", MemberValue::Text("x".to_string())),
        member("volume", MemberValue::Number(1 << 32)),
        member("volume", MemberValue::Text("5".to_string())),
        member("name", MemberValue::Number(5)),
        member("language", MemberValue::Other),
        member("waitFactor", MemberValue::Number(-1)),
    ]);
    assert_eq!(list.len(), 4);
    assert!(matches!(list[0], ParamSetting::Int { id: 8, value: 5 }));
    assert!(matches!(&list[1], ParamSetting::Text { id: 3, text } if text == "x"));
    assert!(matches!(list[2], ParamSetting::Int { id: 8, value: 0 }));
    assert!(matches!(list[3], ParamSetting::Int { id: 11, value: -1 }));
}
