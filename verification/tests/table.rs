use yuri::dispatch::{write_config, Effect, SEEK_ERROR};
use yuri::documents::{FileEntry, ParamSetting, HEAP_SIZE};
use yuri::memory::{read_cstring, write_cstring};
use yuri::state::{Asset, Fault, State};

fn memory() -> Vec<u8> {
    vec![0u8; 8192]
}

fn answer(s: &mut State, mem: &mut [u8], idx: i32, args: &[i32]) -> i32 {
    match s.asm_const_dispatch(mem, idx, args) {
        Ok(Effect::Return(v)) => v,
        other => panic!("unexpected {:?}", other),
    }
}

#[test]
fn config_is_read_or_asked_for() {
    let mut s = State::new();
    let mut mem = memory();
    assert!(write_cstring(&mut mem, 100, "{\"heap\":1}"));
    assert_eq!(answer(&mut s, &mut mem, 0, &[100]), 67108864);
    assert!(write_cstring(&mut mem, 100, "123456789"));
    match s.asm_const_dispatch(&mut mem, 0, &[100]) {
        Ok(Effect::WriteConfig { ptr }) => assert_eq!(ptr, 100),
        other => panic!("unexpected {:?}", other),
    }
    match s.asm_const_dispatch(&mut mem, 0, &[]) {
        Ok(Effect::WriteConfig { ptr }) => assert_eq!(ptr, 0),
        other => panic!("unexpected {:?}", other),
    }
    assert_eq!(s.asm_const_dispatch(&mut mem, 0, &[-1]).err(), Some(Fault));
}

#[test]
fn config_counts_bytes_and_not_characters() {
    let mut s = State::new();
    let mut mem = memory();
    assert!(write_cstring(&mut mem, 8, "Привет"));
    assert_eq!(answer(&mut s, &mut mem, 0, &[8]), HEAP_SIZE);
}

#[test]
fn config_is_written_for_the_files() {
    let mut mem = memory();
    let files = vec![FileEntry { name: "a.dat".to_string(), size: 5 }];
    assert_eq!(write_config(&mut mem, 16, &files), 67108864);
    assert_eq!(
        read_cstring(&mem, 16),
        "{\"applicationname\":\"Vocalizer\",\"companyname\":\"Code Factory\",\
         \"files\":[{\"name\":\"a.dat\",\"size\":5}],\"heapSize\":67108864,\
         \"licensegraceperiod\":999999,\"licensingexplicit\":false,\
         \"licensingmode\":\"unmetered\"}"
    );
}

#[test]
fn config_is_cut() {
    let mut mem = memory();
    let files: Vec<FileEntry> =
        (0..500).map(|i| FileEntry { name: format!("file{}.dat", i), size: i }).collect();
    assert_eq!(write_config(&mut mem, 10, &files), 67108864);
    assert_eq!(read_cstring(&mem, 10).len(), 4000);
    assert_eq!(mem[10 + 4000], 0);
}

#[test]
fn quiet_entries_answer_zero() {
    let mut s = State::new();
    let mut mem = memory();
    for idx in [1, 2, 6, 9, 10, 12, 13, 22, 24, -1, 1000] {
        assert_eq!(answer(&mut s, &mut mem, idx, &[5, 6, 7]), 0);
    }
    assert!(!s.needs_more_audio && !s.init_complete && s.pending_samples.is_empty());
    assert_eq!(mem, memory());
}

#[test]
fn yield_sets_the_flag() {
    let mut s = State::new();
    let mut mem = memory();
    assert_eq!(answer(&mut s, &mut mem, 3, &[]), 0);
    assert!(s.needs_more_audio);
}

#[test]
fn params_are_read_from_the_text() {
    let mut s = State::new();
    let mut mem = memory();
    let text = "{\"volume\":70,\"speed\":-5,\"vop\":\"x\",\"other\":1,\"name\":3,\"pitch\":\"a\"}";
    assert!(write_cstring(&mut mem, 64, text));
    match s.asm_const_dispatch(&mut mem, 4, &[64]) {
        Ok(Effect::Apply(list)) => {
            assert_eq!(list.len(), 3);
            assert!(matches!(list[0], ParamSetting::Int { id: 9, value: -5 }));
            assert!(matches!(list[1], ParamSetting::Int { id: 8, value: 70 }));
            assert!(matches!(&list[2], ParamSetting::Text { id: 3, text } if text == "x"));
        }
        other => panic!("unexpected {:?}", other),
    }
    assert!(write_cstring(&mut mem, 64, "no json"));
    match s.asm_const_dispatch(&mut mem, 4, &[64]) {
        Ok(Effect::Apply(list)) => assert!(list.is_empty()),
        other => panic!("unexpected {:?}", other),
    }
    assert_eq!(s.asm_const_dispatch(&mut mem, 4, &[9000]).err(), Some(Fault));
}

#[test]
fn completion_is_noted() {
    for idx in [5, 8] {
        let mut s = State::new();
        let mut mem = memory();
        assert_eq!(answer(&mut s, &mut mem, idx, &[1, 1, 0]), 0);
        assert_eq!(answer(&mut s, &mut mem, idx, &[1, 1]), 0);
        assert!(!s.init_complete);
        assert_eq!(answer(&mut s, &mut mem, idx, &[0, 0, 1]), 0);
        assert!(s.init_complete);
    }
}

#[test]
fn audio_is_queued() {
    let mut s = State::new();
    let mut mem = memory();
    mem[200..206].copy_from_slice(&[1, 0, 0xFF, 0xFF, 0x00, 0x80]);
    s.needs_more_audio = true;
    assert_eq!(answer(&mut s, &mut mem, 7, &[0, 200, 7, 0, 0, 0]), 0);
    assert_eq!(s.pending_samples, vec![1, -1, -32768]);
    assert!(s.needs_more_audio);
    assert_eq!(answer(&mut s, &mut mem, 7, &[0, 200, 2, 0, 0, 1]), 0);
    assert_eq!(s.pending_samples, vec![1, -1, -32768, 1]);
    assert!(!s.needs_more_audio);
}

#[test]
fn audio_outside_the_memory_is_dropped() {
    let mut s = State::new();
    let mut mem = memory();
    s.needs_more_audio = true;
    assert_eq!(answer(&mut s, &mut mem, 7, &[0, 8190, 4, 0, 0, 1]), 0);
    assert!(s.pending_samples.is_empty());
    assert!(!s.needs_more_audio);
    assert_eq!(answer(&mut s, &mut mem, 7, &[0, 9000, 1]), 0);
    assert_eq!(s.asm_const_dispatch(&mut mem, 7, &[0, -1, 4]).err(), Some(Fault));
}

#[test]
fn assets_are_announced() {
    let mut s = State::new();
    let mut mem = memory();
    assert!(matches!(s.asm_const_dispatch(&mut mem, 11, &[]), Ok(Effect::NotifyAssets)));
}

#[test]
fn open_names_path_and_file() {
    let mut s = State::new();
    let mut mem = memory();
    assert!(write_cstring(&mut mem, 32, "/cfdir/voice/a.dat"));
    match s.asm_const_dispatch(&mut mem, 14, &[32]) {
        Ok(Effect::OpenFile { path, name }) => {
            assert_eq!(path, "/cfdir/voice/a.dat");
            assert_eq!(name, "a.dat");
        }
        other => panic!("unexpected {:?}", other),
    }
}

#[test]
fn file_is_read_sought_and_closed() {
    let mut s = State::new();
    let mut mem = memory();
    let fd = s.open_reply(Some((0..10).collect()), 0).unwrap();
    assert_eq!(answer(&mut s, &mut mem, 18, &[fd]), 10);
    assert_eq!(answer(&mut s, &mut mem, 16, &[fd, 2, 3, 500]), 6);
    assert_eq!(mem[500..507], [0, 1, 2, 3, 4, 5, 0]);
    assert_eq!(answer(&mut s, &mut mem, 16, &[fd, 2, 3, 500]), 4);
    assert_eq!(mem[500..506], [6, 7, 8, 9, 4, 5]);
    assert_eq!(answer(&mut s, &mut mem, 17, &[fd, -3, 2]), 0);
    assert_eq!(answer(&mut s, &mut mem, 16, &[fd, 1, 1, 600]), 1);
    assert_eq!(mem[600], 7);
    assert_eq!(answer(&mut s, &mut mem, 15, &[fd]), 0);
    assert_eq!(answer(&mut s, &mut mem, 18, &[fd]), 0);
    assert_eq!(answer(&mut s, &mut mem, 16, &[fd, 1, 1, 600]), 0);
}

#[test]
fn close_of_zero_does_nothing() {
    let mut s = State::new();
    let mut mem = memory();
    s.files.insert(0, yuri::state::VFile { data: vec![1], position: 0 });
    assert_eq!(answer(&mut s, &mut mem, 15, &[0]), 0);
    assert_eq!(s.files.len(), 1);
}

#[test]
fn bad_seeks_are_refused() {
    let mut s = State::new();
    let mut mem = memory();
    let fd = s.open_reply(Some(vec![0; 4]), 0).unwrap();
    assert_eq!(SEEK_ERROR, 0x80000104u32 as i32);
    assert_eq!(answer(&mut s, &mut mem, 17, &[fd, -1, 0]), 0x80000104u32 as i32);
    assert_eq!(answer(&mut s, &mut mem, 17, &[fd, 0, 3]), 0x80000104u32 as i32);
    assert_eq!(answer(&mut s, &mut mem, 17, &[77, 0, 0]), 0x80000104u32 as i32);
    assert_eq!(answer(&mut s, &mut mem, 17, &[fd, 9, 0]), 0);
    assert_eq!(s.asm_const_dispatch(&mut mem, 16, &[fd, 1, 1, 0]).err(), Some(Fault));
}

#[test]
fn read_of_too_many_bytes_is_a_fault() {
    let mut s = State::new();
    let mut mem = memory();
    assert_eq!(s.asm_const_dispatch(&mut mem, 16, &[5, -1, -1, 0]).err(), Some(Fault));
    assert_eq!(answer(&mut s, &mut mem, 16, &[5, -1, 1, 0]), 0);
}

#[test]
fn read_to_nowhere_still_counts() {
    let mut s = State::new();
    let mut mem = memory();
    let fd = s.open_reply(Some(vec![1, 2, 3]), 0).unwrap();
    assert_eq!(answer(&mut s, &mut mem, 16, &[fd, 1, 2, 8191]), 2);
    assert_eq!(mem, memory());
    assert_eq!(s.files[&fd].position, 2);
}

#[test]
fn assets_are_looked_up() {
    let mut s = State::new();
    let mut mem = memory();
    s.assets.push(Asset { name: "x".to_string(), ptr: 0x80000000, len: 12 });
    assert!(write_cstring(&mut mem, 40, "x"));
    assert!(write_cstring(&mut mem, 50, "y"));
    assert_eq!(answer(&mut s, &mut mem, 19, &[40]), 12);
    assert_eq!(answer(&mut s, &mut mem, 20, &[40]), i32::MIN);
    assert_eq!(answer(&mut s, &mut mem, 19, &[50]), 0);
    assert_eq!(answer(&mut s, &mut mem, 20, &[50]), 0);
}

#[test]
fn local_path_is_written_and_cut() {
    let mut s = State::new();
    let mut mem = memory();
    assert!(write_cstring(&mut mem, 40, "a.dat"));
    assert_eq!(answer(&mut s, &mut mem, 21, &[100, 40, 50]), 0);
    assert_eq!(read_cstring(&mem, 100), "/cfdir/a.dat");
    mem[200..220].fill(9);
    assert_eq!(answer(&mut s, &mut mem, 21, &[200, 40, 8]), 0);
    assert_eq!(read_cstring(&mem, 200), "/cfdir/");
    assert_eq!(mem[208], 9);
    mem[300] = 9;
    assert_eq!(answer(&mut s, &mut mem, 21, &[300, 40, 0]), 0);
    assert_eq!(mem[300], 9);
    let before = mem.clone();
    assert_eq!(answer(&mut s, &mut mem, 21, &[0, 40, 50]), 0);
    assert_eq!(mem, before);
    assert_eq!(s.asm_const_dispatch(&mut mem, 21, &[0, 9999, 0]).err(), Some(Fault));
}

#[test]
fn local_path_can_be_opened() {
    let mut s = State::new();
    let mut mem = memory();
    assert!(write_cstring(&mut mem, 40, "a.dat"));
    assert_eq!(answer(&mut s, &mut mem, 21, &[100, 40, 50]), 0);
    yuri::memory::write_i32(&mut mem, 16, 100);
    match s.sys_open(&mem, 16) {
        Ok(yuri::syscalls::OpenRequest::Find(name)) => assert_eq!(name, "a.dat"),
        other => panic!("unexpected {:?}", other),
    }
}

#[test]
fn params_reach_the_engine() {
    let mut s = State::new();
    let mut mem = memory();
    let params = yuri::SpeechParams { speed: 150, pitch: 60, volume: 33 };
    let mut script = yuri::guest::Script::update(&params);
    assert!(script.step(&mut mem, 0).is_ok());
    assert!(script.step(&mut mem, 700).is_ok());
    match s.asm_const_dispatch(&mut mem, 4, &[700]) {
        Ok(Effect::Apply(list)) => {
            assert_eq!(list.len(), 3);
            assert!(matches!(list[0], ParamSetting::Int { id: 10, value: 60 }));
            assert!(matches!(list[1], ParamSetting::Int { id: 9, value: 150 }));
            assert!(matches!(list[2], ParamSetting::Int { id: 8, value: 33 }));
        }
        other => panic!("unexpected {:?}", other),
    }
}

#[test]
fn fault_changes_nothing() {
    let mut s = State::new();
    let mut mem = memory();
    s.open_reply(Some(vec![1, 2, 3]), 0).unwrap();
    s.pending_samples = vec![4];
    s.needs_more_audio = true;
    for (idx, args) in [
        (0, vec![9000]),
        (4, vec![-1]),
        (7, vec![0, -1, 4, 0, 0, 1]),
        (14, vec![i32::MIN]),
        (16, vec![10, -1, -1, 0]),
        (19, vec![9000]),
        (20, vec![9000]),
        (21, vec![100, 9000, 50]),
    ] {
        assert_eq!(s.asm_const_dispatch(&mut mem, idx, &args).err(), Some(Fault));
        assert_eq!(mem, memory());
        assert_eq!(s.files[&10].position, 0);
        assert_eq!(s.pending_samples, vec![4]);
        assert!(s.needs_more_audio);
    }
}

#[test]
fn text_is_written_as_far_as_it_may() {
    let mut mem = vec![9u8; 16];
    yuri::dispatch::write_cut(&mut mem, 2, "abcdef", 4);
    assert_eq!(mem[..8], [9, 9, b'a', b'b', b'c', b'd', 0, 9]);
    yuri::dispatch::write_cut(&mut mem, 14, "xy", 100);
    assert_eq!(mem[13..], [9, b'x', b'y']);
    yuri::dispatch::write_cut(&mut mem, u32::MAX, "z", 1);
    assert_eq!(mem[13..], [9, b'x', b'y']);
}

#[test]
fn closed_file_is_gone() {
    let mut s = State::new();
    let mut mem = memory();
    let a = s.open_reply(Some(vec![1, 2]), 0).unwrap();
    let b = s.open_reply(Some(vec![3, 4]), 0).unwrap();
    assert_eq!(answer(&mut s, &mut mem, 16, &[b, 1, 1, 500]), 1);
    for _ in 0..2 {
        assert_eq!(answer(&mut s, &mut mem, 15, &[a]), 0);
        assert_eq!(answer(&mut s, &mut mem, 16, &[a, 1, 1, 600]), 0);
        assert_eq!(answer(&mut s, &mut mem, 17, &[a, 0, 0]), SEEK_ERROR);
        assert_eq!(answer(&mut s, &mut mem, 18, &[a]), 0);
        assert_eq!((s.files.len(), s.next_fd), (1, 12));
        assert_eq!((s.files[&b].data.clone(), s.files[&b].position), (vec![3, 4], 1));
    }
}
