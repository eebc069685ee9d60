use yuri::num::{narrow, narrow_signed, offset, sample, signed_word, wide, word};
use yuri::text::{
    decode, file_name, has_part, has_suffix, joined, pieces, same, without_end, without_prefixes,
    without_suffixes,
};

#[test]
fn words_are_reinterpreted() {
    for v in [0, 1, -1, i32::MIN, i32::MAX] {
        assert_eq!(word(v), v as u32);
        assert_eq!(wide(v), v as u64);
        assert_eq!(signed_word(v as u32), v);
    }
    for v in [0, 1, u32::MAX as u64, 1 << 32, (1 << 31) + 5, u64::MAX, 0x8000_0000] {
        assert_eq!(narrow(v), v as i32);
        assert_eq!(offset(v), v as i64);
        assert_eq!(narrow_signed(v as i64), v as i32);
    }
    assert_eq!(sample(0x34, 0x12), 0x1234);
    assert_eq!(sample(0xFF, 0xFF), -1);
    assert_eq!(sample(0x00, 0x80), i16::MIN);
}

#[test]
fn texts_are_searched() {
    assert!(same("abc", "abc") && !same("abc", "abd") && !same("ab", "abc"));
    assert!(has_suffix("a.hdr", ".hdr") && has_suffix("x", "") && !has_suffix("hdr", ".hdr"));
    assert!(has_part("xembeddedy", "embedded") && has_part("", "") && !has_part("embe", "embedded"));
    assert_eq!(file_name("/a/b/c.dat"), "c.dat");
    assert_eq!(file_name("c.dat"), "c.dat");
    assert_eq!(file_name("a/"), "");
}

#[test]
fn texts_are_cut() {
    assert_eq!(without_end("/cfdir///", '/'), "/cfdir");
    assert_eq!(without_end("///", '/'), "");
    assert_eq!(without_prefixes("/cfdir/cfdir/x", "/cfdir"), "/x");
    assert_eq!(without_suffixes("a.hdr.hdr", ".hdr"), "a");
    assert_eq!(without_suffixes("a", ""), "a");
}

#[test]
fn texts_are_split_and_joined() {
    let parts = pieces("a__b_", '_');
    assert_eq!(parts, vec!["a", "", "b", ""]);
    assert_eq!(pieces("", '_'), vec![""]);
    assert_eq!(joined(&parts, 0, 4, "-"), "a--b-");
    assert_eq!(joined(&parts, 2, 3, "-"), "b");
    assert_eq!(joined(&parts, 2, 2, "-"), "");
}

#[test]
fn bytes_are_decoded() {
    assert_eq!(decode("Юрий".as_bytes()), "Юрий");
    assert_eq!(decode(&[0xE2, 0x82, b'a']), "\u{FFFD}a");
}
