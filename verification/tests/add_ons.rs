use std::io::{Cursor, Write};
use yuri::addon::{common_files, wanted_file, Addon, AddonError};
use zip::write::{SimpleFileOptions, ZipWriter};

fn archive(entries: &[(&str, &[u8])]) -> Vec<u8> {
    let mut writer = ZipWriter::new(Cursor::new(Vec::new()));
    for (i, (name, data)) in entries.iter().enumerate() {
        let method = if i % 2 == 0 {
            zip::CompressionMethod::Deflated
        } else {
            zip::CompressionMethod::Stored
        };
        let options = SimpleFileOptions::default().compression_method(method);
        writer.start_file(name.to_string(), options).unwrap();
        writer.write_all(data).unwrap();
    }
    writer.finish().unwrap().into_inner()
}

fn files(bytes: Vec<u8>) -> Vec<(String, Vec<u8>)> {
    let mut addon = Addon::open(bytes).unwrap();
    let mut list = Vec::new();
    while let Some(file) = addon.next_file().unwrap() {
        list.push((file.name, file.data));
    }
    assert!(matches!(addon.next_file(), Ok(None)));
    list
}

#[test]
fn wanted_files() {
    assert_eq!(wanted_file("rur/yuri/a.dat"), Some("a.dat".to_string()));
    assert_eq!(wanted_file("a.hdr"), Some("a.hdr".to_string()));
    assert_eq!(wanted_file("x/.dat"), Some(".dat".to_string()));
    assert_eq!(wanted_file("manifest.ini"), None);
    assert_eq!(wanted_file("a.dat/"), None);
    assert_eq!(wanted_file("a.DAT"), None);
}

#[test]
fn common_files_are_left_out() {
    let common = common_files();
    assert_eq!(common, vec!["sysdct.dat", "clm.dat", "lid.dat", "synth_med_fxd_bet3f22.dat"]);
    for name in &common {
        assert_eq!(wanted_file(name), None);
        assert_eq!(wanted_file(&format!("common/{}", name)), None);
        assert!(wanted_file(&format!("x{}", name)).is_some());
    }
}

#[test]
fn files_are_taken_out_in_order() {
    let big = vec![7u8; 100_000];
    let bytes = archive(&[
        ("manifest.ini", b"name=x"),
        ("rur/b.dat", &big),
        ("rur/ve_pipeline.hdr", b"header"),
        ("rur/clm.dat", b"common"),
        ("../../a.dat", b""),
    ]);
    assert_eq!(
        files(bytes),
        vec![
            ("b.dat".to_string(), big),
            ("ve_pipeline.hdr".to_string(), b"header".to_vec()),
            ("a.dat".to_string(), vec![]),
        ]
    );
}

#[test]
fn empty_archive_has_no_files() {
    assert!(files(archive(&[])).is_empty());
}

#[test]
fn other_bytes_are_no_archive() {
    assert_eq!(Addon::open(vec![]).err(), Some(AddonError::NotAnArchive));
    assert_eq!(Addon::open(b"not a zip".to_vec()).err(), Some(AddonError::NotAnArchive));
}

#[test]
fn broken_entry_is_reported() {
    let mut bytes = archive(&[("x.txt", b"x"), ("a.dat", b"good data"), ("b.dat", b"0123456789")]);
    let at = bytes.windows(9).position(|w| w == b"good data").unwrap();
    bytes[at] = b'G';
    let mut addon = Addon::open(bytes).unwrap();
    assert_eq!(addon.next_file().err(), Some(AddonError::BrokenEntry(1)));
}

#[test]
fn voice_is_found_again() {
    let bytes = archive(&[("rur/a.dat", b"a"), ("rur/ve_pipeline_rur_yuri.hdr", b"h")]);
    let names: Vec<String> = files(bytes).into_iter().map(|f| f.0).collect();
    assert!(yuri::voices::has_header(&names));
    let bytes = archive(&[("rur/a.dat", b"a"), ("rur/.hdr", b"h")]);
    let names: Vec<String> = files(bytes).into_iter().map(|f| f.0).collect();
    assert_eq!(names, vec!["a.dat", ".hdr"]);
    assert!(!yuri::voices::has_header(&names));
}

#[test]
fn broken_entries_that_are_not_wanted_do_no_harm() {
    let mut bytes = archive(&[("x.txt", b"x"), ("b.txt", b"good data"), ("a.dat", b"0123456789")]);
    let at = bytes.windows(9).position(|w| w == b"good data").unwrap();
    bytes[at] = b'G';
    assert_eq!(files(bytes), vec![("a.dat".to_string(), b"0123456789".to_vec())]);
}
