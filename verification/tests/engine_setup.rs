use yuri::documents::{params_text, start_text, voice_text, FileEntry, ParamSetting};
use yuri::guest::{Application, GuestCall, Script, ScriptError};
use yuri::memory::read_cstring;
use yuri::state::Fault;
use yuri::{SpeechParams, Voice};

fn run(script: &mut Script, mem: &mut [u8]) -> Vec<GuestCall> {
    let mut calls = Vec::new();
    let mut reply = 0;
    let mut top = 64;
    while let Some(call) = script.step(mem, reply).unwrap() {
        reply = match call {
            GuestCall::Malloc { size } => {
                top += size;
                top - size
            }
            _ => 5,
        };
        calls.push(call);
    }
    calls
}

#[test]
fn entry_runs_main() {
    let mut mem = vec![0u8; 16];
    assert_eq!(run(&mut Script::entry(), &mut mem), vec![GuestCall::Main]);
}

#[test]
fn setup_makes_the_calls_in_order() {
    let mut mem = vec![0u8; 4096];
    let files = vec![FileEntry { name: "a.hdr".to_string(), size: 3 }];
    let params = SpeechParams { speed: 120, pitch: 90, volume: 70 };
    let header = Some("ve_pipeline_rur_yuri_22_embedded-high_2.hdr".to_string());
    let mut script = match Voice::from_dir(&files, "/v", &header, params) {
        Ok((_, script)) => script,
        Err(Fault) => panic!("no script"),
    };
    let calls = run(&mut script, &mut mem);
    let texts = [
        start_text(&files, "/v"),
        "Russian".to_string(),
        "Yuri".to_string(),
        "embedded-high".to_string(),
        voice_text("Yuri", "Russian", "embedded-high"),
        params_text(&params),
    ];
    let sizes: Vec<i32> = texts.iter().map(|t| t.len() as i32 + 1).collect();
    let mut at = vec![64];
    for size in &sizes {
        at.push(at.last().unwrap() + size);
    }
    let expected = vec![
        GuestCall::Malloc { size: sizes[0] },
        GuestCall::Initialize { worker: -1, ptr: at[0], request: 1 },
        GuestCall::Malloc { size: sizes[1] },
        GuestCall::SetText { id: 1, ptr: at[1] },
        GuestCall::Malloc { size: sizes[2] },
        GuestCall::SetText { id: 2, ptr: at[2] },
        GuestCall::Malloc { size: sizes[3] },
        GuestCall::SetText { id: 3, ptr: at[3] },
        GuestCall::SetNumber { id: 8, value: 70 },
        GuestCall::SetNumber { id: 9, value: 120 },
        GuestCall::SetNumber { id: 10, value: 90 },
        GuestCall::Malloc { size: sizes[4] },
        GuestCall::SetSpeech { worker: -1, ptr: at[4], request: 2 },
        GuestCall::Malloc { size: sizes[5] },
        GuestCall::SetSpeech { worker: -1, ptr: at[5], request: 4 },
        GuestCall::Free { ptr: at[0] },
        GuestCall::Free { ptr: at[1] },
        GuestCall::Free { ptr: at[2] },
        GuestCall::Free { ptr: at[3] },
        GuestCall::Free { ptr: at[4] },
        GuestCall::Free { ptr: at[5] },
    ];
    assert_eq!(calls, expected);
    for (text, ptr) in texts.iter().zip(&at) {
        assert_eq!(read_cstring(&mem, *ptr as u32), *text);
    }
    assert_eq!(script.step(&mut mem, 0), Ok(None));
}

#[test]
fn setup_of_a_nameless_voice_is_a_fault() {
    let header = Some("a_b_c__e_f_g.hdr".to_string());
    assert!(Voice::from_dir(&vec![], "/v", &header, SpeechParams::default()).is_err());
}

#[test]
fn every_block_is_given_back() {
    let mut mem = vec![0u8; 4096];
    let mut script = Script::setup(&vec![], "", &None, &SpeechParams::default()).unwrap();
    let calls = run(&mut script, &mut mem);
    let mut top = 64;
    let mut blocks = Vec::new();
    let mut freed = Vec::new();
    for call in calls {
        match call {
            GuestCall::Malloc { size } => {
                blocks.push(top);
                top += size;
            }
            GuestCall::Free { ptr } => freed.push(ptr),
            _ => assert!(freed.is_empty()),
        }
    }
    assert_eq!(blocks, freed);
}

#[test]
fn update_sets_the_parameters() {
    let mut mem = vec![0u8; 512];
    let voice = Voice::from_dir(&vec![], "", &None, SpeechParams::default()).unwrap().0;
    let params = SpeechParams { speed: 50, pitch: 51, volume: 52 };
    let mut script = voice.set_params(params);
    let text = "{\"pitch\":51,\"speed\":50,\"volume\":52}";
    assert_eq!(
        run(&mut script, &mut mem),
        vec![
            GuestCall::Malloc { size: text.len() as i32 + 1 },
            GuestCall::SetSpeech { worker: -1, ptr: 64, request: 4 },
            GuestCall::Free { ptr: 64 },
        ]
    );
    assert_eq!(read_cstring(&mem, 64), text);
}

#[test]
fn block_outside_the_memory_ends_a_script() {
    let mut mem = vec![0u8; 64];
    let mut script = Script::update(&SpeechParams::default());
    assert!(script.step(&mut mem, 0).is_ok());
    assert_eq!(script.step(&mut mem, 60), Err(ScriptError::OutOfBounds));
    let mut script = Script::update(&SpeechParams::default());
    assert!(script.step(&mut mem, 0).is_ok());
    assert_eq!(script.step(&mut mem, -1), Err(ScriptError::Fault));
}

#[test]
fn settings_are_applied_in_order() {
    let mut mem = vec![0u8; 64];
    let mut a = Application::new(vec![
        ParamSetting::Int { id: 9, value: 120 },
        ParamSetting::Text { id: 2, text: "Zoe".to_string() },
        ParamSetting::Int { id: 8, value: -3 },
    ]);
    assert_eq!(a.step(&mut mem, 77), Ok(Some(GuestCall::SetNumber { id: 9, value: 120 })));
    assert_eq!(a.step(&mut mem, 77), Ok(Some(GuestCall::Malloc { size: 4 })));
    assert_eq!(a.step(&mut mem, 40), Ok(Some(GuestCall::SetText { id: 2, ptr: 40 })));
    assert_eq!(read_cstring(&mem, 40), "Zoe");
    assert_eq!(a.step(&mut mem, 77), Ok(Some(GuestCall::SetNumber { id: 8, value: -3 })));
    assert_eq!(a.step(&mut mem, 77), Ok(None));
    assert_eq!(a.step(&mut mem, 77), Ok(None));
}

#[test]
fn setting_without_room_is_still_made() {
    let mut mem = vec![0u8; 4];
    let mut a = Application::new(vec![ParamSetting::Text { id: 1, text: "Russian".to_string() }]);
    assert_eq!(a.step(&mut mem, 0), Ok(Some(GuestCall::Malloc { size: 8 })));
    assert_eq!(a.step(&mut mem, 2), Ok(Some(GuestCall::SetText { id: 1, ptr: 2 })));
    assert_eq!(mem, vec![0u8; 4]);
    let mut a = Application::new(vec![ParamSetting::Text { id: 1, text: "Russian".to_string() }]);
    assert!(a.step(&mut mem, 0).is_ok());
    assert_eq!(a.step(&mut mem, -1), Err(Fault));
}

#[test]
fn given_texts_are_handed_over() {
    let mut mem = vec![0u8; 512];
    let choice = yuri::voices::detect_voice(&None).unwrap();
    let mut script = Script::for_voice(
        "start".to_string(),
        choice,
        "voice".to_string(),
        &SpeechParams::default(),
        "again".to_string(),
    );
    assert_eq!(run(&mut script, &mut mem).len(), 21);
    assert_eq!(read_cstring(&mem, 64), "start");
    assert_eq!(read_cstring(&mem, 70), "American English");
    assert_eq!(read_cstring(&mem, 87), "Zoe");
    assert_eq!(read_cstring(&mem, 91), "embedded-compact");
    assert_eq!(read_cstring(&mem, 108), "voice");
    assert_eq!(read_cstring(&mem, 114), "again");
    let mut script = Script::for_text("{}".to_string());
    assert_eq!(
        run(&mut script, &mut mem),
        vec![
            GuestCall::Malloc { size: 3 },
            GuestCall::SetSpeech { worker: -1, ptr: 64, request: 4 },
            GuestCall::Free { ptr: 64 },
        ]
    );
}
