use yuri::utf16::encode;

#[test]
fn ascii_and_terminator() {
    assert_eq!(encode(""), vec![0, 0]);
    assert_eq!(encode("Hi"), vec![0x48, 0, 0x69, 0, 0, 0]);
}

#[test]
fn cyrillic() {
    assert_eq!(encode("Да"), vec![0x14, 0x04, 0x30, 0x04, 0, 0]);
}

#[test]
fn surrogate_pairs() {
    assert_eq!(encode("\u{1F600}"), vec![0x3D, 0xD8, 0x00, 0xDE, 0, 0]);
    assert_eq!(encode("\u{10000}"), vec![0x00, 0xD8, 0x00, 0xDC, 0, 0]);
    assert_eq!(encode("\u{10FFFF}"), vec![0xFF, 0xDB, 0xFF, 0xDF, 0, 0]);
    assert_eq!(encode("\u{FFFF}"), vec![0xFF, 0xFF, 0, 0]);
}

#[test]
fn text_is_decoded_again() {
    for text in ["", "abc", "Привет, мир!", "x\u{10000}y\u{1F600}z\u{E000}"] {
        let bytes = encode(text);
        let units: Vec<u16> =
            bytes.chunks(2).map(|b| u16::from_le_bytes([b[0], b[1]])).collect();
        assert_eq!(*units.last().unwrap(), 0);
        assert_eq!(String::from_utf16(&units[..units.len() - 1]).unwrap(), text);
    }
}
