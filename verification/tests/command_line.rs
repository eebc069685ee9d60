use yuri::cli::{
    cache_name, choose_cache, choose_engine, choose_voice, spoken_text, trimmed, EngineSource,
    Input, LineEvent, LineReader, VoiceSource,
};

#[test]
fn cache_directory() {
    assert_eq!(choose_cache(false, Some("a"), Some("b")), Some("a"));
    assert_eq!(choose_cache(false, None, Some("b")), Some("b"));
    assert_eq!(choose_cache::<&str>(false, None, None), None);
    assert_eq!(choose_cache(true, Some("a"), Some("b")), None);
}

#[test]
fn engine_source() {
    assert_eq!(choose_engine(true, true), EngineSource::File);
    assert_eq!(choose_engine(true, false), EngineSource::File);
    assert_eq!(choose_engine(false, true), EngineSource::Cached);
    assert_eq!(choose_engine(false, false), EngineSource::Embedded);
}

#[test]
fn voice_source() {
    assert_eq!(choose_voice(true, true, true), VoiceSource::CachedAddon);
    assert_eq!(choose_voice(true, false, true), VoiceSource::Addon);
    assert_eq!(choose_voice(false, true, true), VoiceSource::Directory);
    assert_eq!(choose_voice(false, true, false), VoiceSource::Missing);
}

#[test]
fn name_in_the_cache() {
    assert_eq!(cache_name(Some("yuri".to_string())), "yuri");
    assert_eq!(cache_name(None), "default");
}

#[test]
fn white_space_is_trimmed() {
    for text in [
        "", " ", "a", " a b ", "\t\r\n x \u{b}\u{c}", "\u{a0}x\u{2003}", "\u{3000}\u{85}",
        "\u{1680}x\u{2028}\u{2029}\u{202f}\u{205f}", "\u{200b}x\u{feff}", "\u{2000}x\u{200a}",
    ] {
        assert_eq!(trimmed(text), text.trim());
    }
}

#[test]
fn text_of_bytes() {
    assert_eq!(spoken_text("  Привет \n".as_bytes()), Some("Привет".to_string()));
    assert_eq!(spoken_text(b" \\pause=5\\ "), Some("\x1B\\pause=5\\".to_string()));
    assert_eq!(spoken_text(&[b'a', 0xC3, b' ']), Some("a\u{FFFD}".to_string()));
    assert_eq!(spoken_text(b""), None);
    assert_eq!(spoken_text(b" \r\n\t"), None);
}

#[test]
fn lines_are_read() {
    let mut reader = LineReader::new();
    for b in b"ab" {
        assert!(matches!(reader.feed(Input::Byte(*b)), LineEvent::More));
    }
    match reader.feed(Input::Byte(b'\n')) {
        LineEvent::Line(line) => assert_eq!(line, b"ab"),
        other => panic!("unexpected {:?}", other),
    }
    match reader.feed(Input::Byte(b'\n')) {
        LineEvent::Line(line) => assert!(line.is_empty()),
        other => panic!("unexpected {:?}", other),
    }
}

#[test]
fn end_of_input() {
    let mut reader = LineReader::new();
    assert!(matches!(reader.feed(Input::Byte(b'x')), LineEvent::More));
    match reader.feed(Input::End) {
        LineEvent::Line(line) => assert_eq!(line, b"x"),
        other => panic!("unexpected {:?}", other),
    }
    assert!(matches!(reader.feed(Input::End), LineEvent::Quit));
}

#[test]
fn error_completes_the_line() {
    let mut reader = LineReader::new();
    assert!(matches!(reader.feed(Input::Error), LineEvent::Line(line) if line.is_empty()));
    reader.feed(Input::Byte(b'q'));
    assert!(matches!(reader.feed(Input::Error), LineEvent::Line(line) if line == b"q"));
}
