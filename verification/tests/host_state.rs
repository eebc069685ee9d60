use yuri::state::{Fault, State};

#[test]
fn fresh_state() {
    let s = State::new();
    assert_eq!(s.next_fd, 10);
    assert!(s.files.is_empty());
    assert!(s.assets.is_empty());
    assert!(s.pending_samples.is_empty());
    assert_eq!(s.temp_ret, 0);
    assert!(!s.init_complete);
    assert!(!s.needs_more_audio);
}

#[test]
fn descriptors_are_new() {
    let mut s = State::new();
    assert_eq!(s.open_reply(Some(vec![1]), -1), Ok(10));
    assert_eq!(s.open_reply(Some(vec![2]), -1), Ok(11));
    s.close(11);
    assert_eq!(s.open_reply(Some(vec![3]), -1), Ok(12));
    assert_eq!(s.open_reply(None, -1), Ok(-1));
    assert_eq!(s.open_reply(None, 0), Ok(0));
    assert_eq!(s.next_fd, 13);
}

#[test]
fn descriptors_run_out() {
    let mut s = State::new();
    s.next_fd = i32::MAX;
    assert_eq!(s.open_reply(Some(vec![]), -1), Err(Fault));
    assert_eq!(s.next_fd, i32::MAX);
    assert!(s.files.is_empty());
}

#[test]
fn reads_add_up() {
    let data: Vec<u8> = (0..20).collect();
    let mut s = State::new();
    let fd = s.open(data.clone(), 0).unwrap();
    let first = s.take_chunk(fd, 7).unwrap().unwrap();
    let second = s.take_chunk(fd, 6).unwrap().unwrap();
    assert_eq!([first, second].concat(), data[..13].to_vec());
    assert_eq!(s.take_chunk(fd, 100).unwrap().unwrap(), data[13..].to_vec());
    assert_eq!(s.take_chunk(fd, 100).unwrap().unwrap(), Vec::<u8>::new());
    assert_eq!(s.take_chunk(99, 1), Ok(None));
}

#[test]
fn read_behind_the_end_is_a_fault() {
    let mut s = State::new();
    let fd = s.open(vec![1, 2], 0).unwrap();
    assert_eq!(s.reposition(fd, 0, 3, false), Ok(Some(3)));
    assert_eq!(s.take_chunk(fd, 1), Err(Fault));
    assert_eq!(s.files[&fd].position, 3);
}

#[test]
fn seeks_count_from_start_position_and_end() {
    let mut s = State::new();
    let fd = s.open(vec![0; 10], 0).unwrap();
    assert_eq!(s.reposition(fd, 0, 4, false), Ok(Some(4)));
    assert_eq!(s.reposition(fd, 1, 3, false), Ok(Some(7)));
    assert_eq!(s.reposition(fd, 1, -2, false), Ok(Some(5)));
    assert_eq!(s.reposition(fd, 2, -1, false), Ok(Some(9)));
    assert_eq!(s.reposition(fd, 2, 0, false), Ok(Some(10)));
    assert_eq!(s.reposition(fd, 3, 0, false), Ok(None));
    assert_eq!(s.reposition(fd, 0, -1, false), Ok(None));
    assert_eq!(s.files[&fd].position, 10);
    assert_eq!(s.reposition(fd, 0, -1, true), Ok(Some(0)));
    assert_eq!(s.reposition(77, 0, 0, false), Ok(None));
}

#[test]
fn seek_out_of_range_is_a_fault() {
    let mut s = State::new();
    let fd = s.open(vec![0; 10], 0).unwrap();
    assert_eq!(s.reposition(fd, 2, i64::MAX, false), Err(Fault));
    assert_eq!(s.files[&fd].position, 0);
}

#[test]
fn files_are_apart() {
    let mut s = State::new();
    let a = s.open(vec![1, 2, 3], 0).unwrap();
    let b = s.open(vec![4, 5, 6], 0).unwrap();
    s.take_chunk(a, 2).unwrap();
    s.close(a);
    assert_eq!(s.extent(a), None);
    assert_eq!(s.extent(b), Some((3, 0)));
    assert_eq!(s.take_chunk(b, 9).unwrap().unwrap(), vec![4, 5, 6]);
}

#[test]
fn assets_are_found_by_name() {
    let mut s = State::new();
    assert_eq!(s.asset("a"), None);
    s.assets.push(yuri::state::Asset { name: "a".to_string(), ptr: 5, len: 6 });
    s.assets.push(yuri::state::Asset { name: "b".to_string(), ptr: 7, len: 8 });
    assert_eq!(s.asset("a"), Some((5, 6)));
    assert_eq!(s.asset("b"), Some((7, 8)));
    assert_eq!(s.asset("c"), None);
}

#[test]
fn samples_are_taken_once() {
    let mut s = State::new();
    s.pending_samples = vec![1, -2];
    assert_eq!(s.take_samples(), vec![1, -2]);
    assert_eq!(s.take_samples(), Vec::<i16>::new());
}

#[test]
fn closed_descriptors_are_not_used_again() {
    let mut s = State::new();
    let mut last = 9;
    for _ in 0..20 {
        let fd = s.open_reply(Some(vec![1, 2, 3]), 0).unwrap();
        assert_eq!(fd, last + 1);
        last = fd;
        s.take_chunk(fd, 2).unwrap();
        s.reposition(fd, 0, 1, false).unwrap();
        s.close(fd);
        assert!(s.files.is_empty());
    }
}
