use yuri::memory::{read_cstring, read_i32, write_cstring, write_i32};
use yuri::state::{Fault, State};
use yuri::syscalls::{stat_reply, sys_stat, sys_writev, OpenRequest, StatRequest};

const ARGS: u32 = 16;

fn memory(args: &[i32]) -> Vec<u8> {
    let mut mem = vec![0u8; 8192];
    for (i, v) in args.iter().enumerate() {
        write_i32(&mut mem, ARGS + 4 * i as u32, *v);
    }
    mem
}

#[test]
fn read_moves_bytes() {
    let mut s = State::new();
    let fd = s.open(vec![5, 6, 7], 0).unwrap();
    let mut mem = memory(&[fd, 100, 2]);
    assert_eq!(s.sys_read(&mut mem, 16), Ok(2));
    assert_eq!(mem[100..103], [5, 6, 0]);
    assert_eq!(s.sys_read(&mut mem, 16), Ok(1));
    assert_eq!(mem[100..103], [7, 6, 0]);
    assert_eq!(s.sys_read(&mut mem, 16), Ok(0));
}

#[test]
fn read_of_no_file_fails() {
    let mut s = State::new();
    let mut mem = memory(&[3, 100, 2]);
    assert_eq!(s.sys_read(&mut mem, 16), Ok(-1));
    assert_eq!(s.sys_read(&mut mem, -4), Err(Fault));
}

#[test]
fn close_forgets() {
    let mut s = State::new();
    let fd = s.open(vec![5], 0).unwrap();
    let mem = memory(&[fd]);
    assert_eq!(s.sys_close(&mem, 16), 0);
    assert!(s.files.is_empty());
    assert_eq!(s.sys_close(&mem, 16), 0);
}

#[test]
fn seek_stores_the_place() {
    let mut s = State::new();
    let fd = s.open(vec![0; 100], 0).unwrap();
    let mut mem = memory(&[fd, 0, 40, 200, 0]);
    write_i32(&mut mem, 204, 77);
    assert_eq!(s.sys_seek(&mut mem, 16), Ok(0));
    assert_eq!(read_i32(&mem, 200), 40);
    assert_eq!(read_i32(&mem, 204), 0);
    let mut mem = memory(&[fd, -1, -50, 200, 1]);
    assert_eq!(s.sys_seek(&mut mem, 16), Ok(0));
    assert_eq!(read_i32(&mem, 200), 0);
    assert_eq!(s.files[&fd].position, 0);
    let mut mem = memory(&[fd, -1, -10, 200, 2]);
    assert_eq!(s.sys_seek(&mut mem, 16), Ok(0));
    assert_eq!(s.files[&fd].position, 90);
    let mut mem = memory(&[fd, 1, 2, 200, 0]);
    assert_eq!(s.sys_seek(&mut mem, 16), Ok(0));
    assert_eq!(s.files[&fd].position, 0x1_0000_0002);
    assert_eq!(read_i32(&mem, 200), 2);
}

#[test]
fn bad_seek_fails() {
    let mut s = State::new();
    let fd = s.open(vec![0; 10], 0).unwrap();
    let mut mem = memory(&[fd, 0, 1, 200, 3]);
    assert_eq!(s.sys_seek(&mut mem, 16), Ok(-1));
    let mut mem = memory(&[99, 0, 1, 200, 0]);
    assert_eq!(s.sys_seek(&mut mem, 16), Ok(-1));
    let mut mem = memory(&[fd, 0, 1, -2, 0]);
    assert_eq!(s.sys_seek(&mut mem, 16), Err(Fault));
    assert_eq!(s.files[&fd].position, 0);
}

#[test]
fn scattered_read_fills_buffers() {
    let mut s = State::new();
    let fd = s.open((1..=9).collect(), 0).unwrap();
    let mut mem = memory(&[fd, 64, 3]);
    for (i, v) in [300, 4, 400, 2, 500, 100].iter().enumerate() {
        write_i32(&mut mem, 64 + 4 * i as u32, *v);
    }
    assert_eq!(s.sys_readv(&mut mem, 16), Ok(9));
    assert_eq!(mem[300..305], [1, 2, 3, 4, 0]);
    assert_eq!(mem[400..403], [5, 6, 0]);
    assert_eq!(mem[500..504], [7, 8, 9, 0]);
    let mut mem = memory(&[77, 64, 3]);
    assert_eq!(s.sys_readv(&mut mem, 16), Ok(0));
}

#[test]
fn scattered_read_from_behind_the_end_is_a_fault() {
    let mut s = State::new();
    let fd = s.open(vec![1], 5).unwrap();
    let mut mem = memory(&[fd, 64, 1]);
    assert_eq!(s.sys_readv(&mut mem, 16), Err(Fault));
    let mut mem = memory(&[fd, 64, 0]);
    assert_eq!(s.sys_readv(&mut mem, 16), Ok(0));
}

#[test]
fn gathered_write_collects_text() {
    let mut mem = memory(&[1, 64, 2]);
    for (i, v) in [300, 3, 400, 2].iter().enumerate() {
        write_i32(&mut mem, 64 + 4 * i as u32, *v);
    }
    mem[300..303].copy_from_slice(b"abc");
    mem[400..402].copy_from_slice(&[0xFF, b'!']);
    let w = sys_writev(&mem, 16);
    assert_eq!(w.text, "abc\u{FFFD}!");
    assert_eq!(w.total, Some(5));
    write_i32(&mut mem, ARGS, 5);
    let w = sys_writev(&mem, 16);
    assert_eq!(w.text, "");
    assert_eq!(w.total, Some(5));
}

#[test]
fn gathered_write_breaks_off_outside_the_memory() {
    let mut mem = memory(&[2, 64, 2]);
    for (i, v) in [300, 3, 8000, 900].iter().enumerate() {
        write_i32(&mut mem, 64 + 4 * i as u32, *v);
    }
    mem[300..303].copy_from_slice(b"abc");
    let w = sys_writev(&mem, 16);
    assert_eq!(w.text, "abc");
    assert_eq!(w.total, None);
}

#[test]
fn open_of_the_directory() {
    let mut s = State::new();
    let mut mem = memory(&[100, 0]);
    for path in ["/cfdir", "/cfdir/", "/cfdir///"] {
        assert!(write_cstring(&mut mem, 100, path));
        let next = s.next_fd;
        match s.sys_open(&mem, 16) {
            Ok(OpenRequest::Opened(fd)) => {
                assert_eq!(fd, next);
                assert_eq!(s.files[&fd].position, 999999);
                assert!(s.files[&fd].data.is_empty());
            }
            other => panic!("unexpected {:?}", other),
        }
    }
}

#[test]
fn open_of_a_file() {
    let mut s = State::new();
    let mut mem = memory(&[100, 0]);
    for (path, name) in [
        ("/cfdir/a.dat", "a.dat"),
        ("/cfdir/sub/a.dat", "a.dat"),
        ("a.dat", "a.dat"),
        ("/cfdira.dat", "a.dat"),
        ("/cfdir/cfdir/a.dat", "a.dat"),
        ("/other/", ""),
        ("", ""),
    ] {
        assert!(write_cstring(&mut mem, 100, path));
        match s.sys_open(&mem, 16) {
            Ok(OpenRequest::Find(found)) => assert_eq!(found, name),
            other => panic!("unexpected {:?}", other),
        }
    }
    let mem = memory(&[9000, 0]);
    assert!(matches!(s.sys_open(&mem, 16), Err(Fault)));
    assert!(s.files.is_empty());
}

#[test]
fn stat_of_the_directory() {
    for path in ["/cfdir", "/cfdir/", "/", ""] {
        let mut mem = memory(&[100, 400]);
        mem[400..500].fill(3);
        assert!(write_cstring(&mut mem, 100, path));
        assert!(matches!(sys_stat(&mut mem, 16), Ok(StatRequest::Answered(0))));
        assert_eq!(read_i32(&mem, 408), 0o40755);
        assert_eq!(mem[400..408], [0; 8]);
        assert_eq!(mem[412..496], [0; 84]);
        assert_eq!(mem[496], 3);
    }
}

#[test]
fn stat_of_a_file() {
    let mut mem = memory(&[100, 400]);
    assert!(write_cstring(&mut mem, 100, "/cfdir/b.hdr"));
    match sys_stat(&mut mem, 16) {
        Ok(StatRequest::Find { name, buf }) => {
            assert_eq!(name, "b.hdr");
            assert_eq!(buf, 400);
        }
        other => panic!("unexpected {:?}", other),
    }
    mem[400..500].fill(3);
    assert_eq!(stat_reply(&mut mem, 400, Some(1234)), Ok(0));
    assert_eq!(read_i32(&mem, 440), 1234);
    assert_eq!(read_i32(&mem, 408), 0o100644);
    assert_eq!(mem[400..408], [0; 8]);
    assert_eq!(mem[496], 3);
    let before = mem.clone();
    assert_eq!(stat_reply(&mut mem, 400, None), Ok(-1));
    assert_eq!(mem, before);
    assert_eq!(stat_reply(&mut mem, u32::MAX - 10, Some(1)), Err(Fault));
}

#[test]
fn stat_of_a_nameless_file() {
    let mut mem = memory(&[100, 400]);
    assert!(write_cstring(&mut mem, 100, "/other/"));
    assert!(matches!(sys_stat(&mut mem, 16), Ok(StatRequest::Answered(-1))));
}

#[test]
fn listing_gives_records() {
    let mut s = State::new();
    let names = vec!["a.dat".to_string(), "b.hdr".to_string()];
    let mut mem = memory(&[55, 1000, 5000]);
    assert_eq!(s.sys_getdents(&mut mem, 16, &names), Ok(4 * 280));
    for (i, name) in [".", "..", "a.dat", "b.hdr"].iter().enumerate() {
        let base = 1000 + 280 * i;
        assert_eq!(mem[base..base + 8], (i as u64 + 1).to_le_bytes());
        assert_eq!(mem[base + 8..base + 16], (i as u64 + 1).to_le_bytes());
        assert_eq!(mem[base + 16..base + 18], 280u16.to_le_bytes());
        assert_eq!(mem[base + 18], if i < 2 { 4 } else { 8 });
        assert_eq!(read_cstring(&mem, base as u32 + 19), *name);
    }
}

#[test]
fn listing_goes_on_where_it_stopped() {
    let mut s = State::new();
    let names: Vec<String> = (0..5).map(|i| format!("f{}", i)).collect();
    let fd = s.open(vec![], 0).unwrap();
    let mut seen = Vec::new();
    loop {
        let mut mem = memory(&[fd, 1000, 600]);
        let n = s.sys_getdents(&mut mem, 16, &names).unwrap();
        if n == 0 {
            break;
        }
        for i in 0..n / 280 {
            seen.push(read_cstring(&mem, 1000 + 280 * i as u32 + 19));
        }
        assert_eq!(mem[1560], 0);
    }
    assert_eq!(seen, vec![".", "..", "f0", "f1", "f2", "f3", "f4"]);
}

#[test]
fn listing_of_the_opened_directory_is_empty() {
    let mut s = State::new();
    let mut mem = memory(&[100, 0]);
    assert!(write_cstring(&mut mem, 100, "/cfdir"));
    let fd = match s.sys_open(&mem, 16) {
        Ok(OpenRequest::Opened(fd)) => fd,
        other => panic!("unexpected {:?}", other),
    };
    let mut mem = memory(&[fd, 1000, 5000]);
    assert_eq!(s.sys_getdents(&mut mem, 16, &vec!["a".to_string()]), Ok(0));
    assert_eq!(s.files[&fd].position, 999999);
}

#[test]
fn long_names_are_cut_in_records() {
    let mut s = State::new();
    let names = vec!["x".repeat(300)];
    let mut mem = memory(&[55, 1000, 5000]);
    assert_eq!(s.sys_getdents(&mut mem, 16, &names), Ok(3 * 280));
    assert_eq!(read_cstring(&mem, 1000 + 560 + 19), "x".repeat(255));
}

#[test]
fn records_hold_nothing_else() {
    let mut s = State::new();
    let mut mem = memory(&[55, 1000, 1000]);
    mem[1000..2000].fill(0xEE);
    assert_eq!(s.sys_getdents(&mut mem, 16, &vec!["a.dat".to_string()]), Ok(3 * 280));
    for (i, name) in [".", "..", "a.dat"].iter().enumerate() {
        let base = 1000 + 280 * i;
        assert_eq!(mem[base + 19..base + 19 + name.len()], *name.as_bytes());
        assert!(mem[base + 19 + name.len()..base + 280].iter().all(|b| *b == 0));
    }
    assert_eq!(mem[1840], 0xEE);
}
