use yuri::escape::process_escapes;

#[test]
fn pause_becomes_a_command() {
    assert_eq!(process_escapes("\\pause=500\\"), "\x1B\\pause=500\\");
}

#[test]
fn every_sequence_is_marked() {
    for seq in [
        "\\pause=", "\\rate=", "\\pitch=", "\\vol=", "\\voice=", "\\lang=", "\\readmode=",
        "\\mrk=", "\\rst\\",
    ] {
        assert_eq!(process_escapes(seq), format!("\x1B{}", seq));
        assert_eq!(process_escapes(&format!("a{}b", seq)), format!("a\x1B{}b", seq));
    }
}

#[test]
fn plain_text_stays() {
    assert_eq!(process_escapes(""), "");
    assert_eq!(process_escapes("Привет, мир \\ \\n \\paus"), "Привет, мир \\ \\n \\paus");
}

#[test]
fn several_sequences_are_marked() {
    assert_eq!(
        process_escapes("a\\rate=80\\b\\vol=10\\c\\rate=100\\"),
        "a\x1B\\rate=80\\b\x1B\\vol=10\\c\x1B\\rate=100\\"
    );
}

#[test]
fn marked_sequence_is_marked_again() {
    assert_eq!(process_escapes("\x1B\\vol=5"), "\x1B\x1B\\vol=5");
}

#[test]
fn overlapping_resets_share_a_backslash() {
    assert_eq!(process_escapes("\\rst\\rst\\"), "\x1B\\rst\\rst\\");
    assert_eq!(process_escapes("\\rst\\rst\\rst\\"), "\x1B\\rst\\rst\x1B\\rst\\");
}

#[test]
fn sequence_behind_a_reset_takes_its_backslash() {
    assert_eq!(process_escapes("\\rst\\pause=1"), "\\rst\x1B\\pause=1");
}

#[test]
fn only_escapes_are_added() {
    for text in ["x\\rst\\y\\mrk=1\\", "\\lang=ru\\\\voice=Yuri\\", "\x1B\\rst\\rst\\rst\\rst\\"] {
        let bare = |s: &str| s.chars().filter(|c| *c != '\x1B').collect::<String>();
        assert_eq!(bare(&process_escapes(text)), bare(text));
    }
}
