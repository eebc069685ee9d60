use yuri::memory::{read_cstring, read_i32, write_bytes, write_cstring, write_i32};

#[test]
fn word_is_read_back() {
    let mut mem = vec![0u8; 16];
    for v in [0, 1, -1, i32::MIN, i32::MAX, 0x12345678] {
        write_i32(&mut mem, 4, v);
        assert_eq!(read_i32(&mem, 4), v);
    }
}

#[test]
fn word_is_little_endian() {
    let mut mem = vec![0u8; 6];
    write_i32(&mut mem, 1, 0x12345678);
    assert_eq!(mem, vec![0, 0x78, 0x56, 0x34, 0x12, 0]);
    write_i32(&mut mem, 1, -2);
    assert_eq!(mem, vec![0, 0xFE, 0xFF, 0xFF, 0xFF, 0]);
}

#[test]
fn word_outside_reads_zero_and_stores_nothing() {
    let mut mem = vec![7u8; 8];
    assert_eq!(read_i32(&mem, 4), 0x07070707);
    assert_eq!(read_i32(&mem, 5), 0);
    assert_eq!(read_i32(&mem, u32::MAX), 0);
    write_i32(&mut mem, 5, -1);
    write_i32(&mut mem, u32::MAX, -1);
    assert_eq!(mem, vec![7u8; 8]);
    assert_eq!(read_i32(&[], 0), 0);
}

#[test]
fn store_is_all_or_nothing() {
    let mut mem = vec![0u8; 4];
    assert!(write_bytes(&mut mem, 1, &[1, 2, 3]));
    assert_eq!(mem, vec![0, 1, 2, 3]);
    assert!(!write_bytes(&mut mem, 2, &[9, 9, 9]));
    assert!(!write_bytes(&mut mem, u64::MAX, &[9]));
    assert!(write_bytes(&mut mem, 4, &[]));
    assert!(!write_bytes(&mut mem, 5, &[]));
    assert_eq!(mem, vec![0, 1, 2, 3]);
}

#[test]
fn text_is_read_back() {
    let mut mem = vec![0xAAu8; 40];
    for text in ["", "Zoe", "Привет", "a\u{1F600}b"] {
        assert!(write_cstring(&mut mem, 3, text));
        assert_eq!(read_cstring(&mem, 3), text);
    }
}

#[test]
fn text_ends_at_the_end_of_memory() {
    assert_eq!(read_cstring(b"abc", 1), "bc");
    assert_eq!(read_cstring(b"abc", 3), "");
    assert_eq!(read_cstring(b"a\0c", 0), "a");
}

#[test]
fn bad_utf8_is_replaced() {
    assert_eq!(read_cstring(&[b'a', 0xFF, b'b', 0], 0), "a\u{FFFD}b");
    let overlong = read_cstring(&[b'a', 0xC0, 0x80, b'b', 0, b'c'], 0);
    assert!(!overlong.contains('\0'));
    assert_eq!(overlong, "a\u{FFFD}\u{FFFD}b");
}

#[test]
fn text_without_room_for_its_end_is_reported() {
    let mut mem = vec![1u8; 5];
    assert!(!write_cstring(&mut mem, 2, "abc"));
    assert_eq!(mem, vec![1, 1, b'a', b'b', b'c']);
    assert!(!write_cstring(&mut mem, 3, "xyz"));
    assert_eq!(mem, vec![1, 1, b'a', b'b', b'c']);
}
