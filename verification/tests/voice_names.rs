use yuri::state::Fault;
use yuri::voices::{detect_voice, find_header, has_header};

fn detect(name: &str) -> (String, String, String) {
    let v = detect_voice(&Some(name.to_string())).unwrap();
    (v.language, v.name, v.vop)
}

fn parts(a: &str, b: &str, c: &str) -> (String, String, String) {
    (a.to_string(), b.to_string(), c.to_string())
}

#[test]
fn english_voice() {
    assert_eq!(
        detect("ve_pipeline_enu_zoe_22_embedded-compact_2-2-1.hdr"),
        parts("American English", "Zoe", "embedded-compact")
    );
}

#[test]
fn russian_voice() {
    assert_eq!(
        detect("ve_pipeline_rur_yuri_22_embedded_high_2-2-1.hdr"),
        parts("Russian", "Yuri", "embedded-high")
    );
}

#[test]
fn premium_voice_has_no_operating_point() {
    assert_eq!(detect("ve_pipeline_rur_yuri_22_premium-high_2-2-1.hdr"), parts("Russian", "Yuri", ""));
    assert_eq!(detect("ve_pipeline_xxx_milena_22_2-2-1.hdr"), parts("American English", "Milena", ""));
}

#[test]
fn short_names_give_the_default() {
    let default = parts("American English", "Zoe", "embedded-compact");
    assert_eq!(detect("a_b_c_d_e.hdr"), default);
    assert_eq!(detect(".hdr"), default);
    let v = detect_voice(&None).unwrap();
    assert_eq!((v.language, v.name, v.vop), default);
}

#[test]
fn extension_is_taken_off_repeatedly() {
    assert_eq!(
        detect("ve_pipeline_rur_yuri_22_embedded_1.hdr.hdr"),
        parts("Russian", "Yuri", "embedded")
    );
}

#[test]
fn names_that_do_not_start_with_a_letter() {
    assert_eq!(detect("a_b_rur_9x_22_embedded_1.hdr").1, "9x");
    assert_eq!(detect("a_b_rur_Zoe_22_embedded_1.hdr").1, "Zoe");
    assert!(matches!(detect_voice(&Some("a_b_c__e_f_g.hdr".to_string())), Err(Fault)));
    assert!(matches!(detect_voice(&Some("a_b_c_ж_e_f_g.hdr".to_string())), Err(Fault)));
}

#[test]
fn first_header_is_found() {
    let names: Vec<String> =
        ["x.dat", ".hdr", "b.hdr", "a.hdr"].iter().map(|s| s.to_string()).collect();
    assert_eq!(find_header(&names), Some("b.hdr".to_string()));
    assert!(has_header(&names));
    let none = vec!["x.dat".to_string(), ".hdr".to_string()];
    assert_eq!(find_header(&none), None);
    assert!(!has_header(&none));
}
