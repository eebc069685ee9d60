use yuri::memory::{read_cstring, read_i32};
use yuri::runtime::{
    gettimeofday, heap_size, init_memory, is_pipeline_header, memcpy_big, pipeline_headers,
    place_text, resize_heap, sysconf, text_block, Resize,
};
use yuri::state::{Fault, State};

#[test]
fn heap_size_in_bytes() {
    assert_eq!(heap_size(4096), Ok(268435456));
    assert_eq!(heap_size(0), Ok(0));
    assert_eq!(heap_size(32767), Ok(2147418112));
    assert_eq!(heap_size(32768), Err(Fault));
}

#[test]
fn heap_grows_by_whole_pages() {
    assert_eq!(resize_heap(65536, 1), Ok(Resize::Enough));
    assert_eq!(resize_heap(0, 0), Ok(Resize::Enough));
    assert_eq!(resize_heap(65537, 1), Ok(Resize::Grow(1)));
    assert_eq!(resize_heap(300000, 2), Ok(Resize::Grow(3)));
    assert_eq!(resize_heap(i32::MIN, 4096), Ok(Resize::Grow(28672)));
    assert_eq!(resize_heap(-1, 4096), Err(Fault));
    assert_eq!(resize_heap(5, 65536), Err(Fault));
}

#[test]
fn block_is_copied() {
    let mut mem: Vec<u8> = (0..10).collect();
    assert_eq!(memcpy_big(&mut mem, 2, 0, 5), Ok(2));
    assert_eq!(mem, vec![0, 1, 0, 1, 2, 3, 4, 7, 8, 9]);
    assert_eq!(memcpy_big(&mut mem, 8, 0, 5), Ok(8));
    assert_eq!(mem, vec![0, 1, 0, 1, 2, 3, 4, 7, 8, 9]);
    assert_eq!(memcpy_big(&mut mem, 0, 10, 0), Ok(0));
    assert_eq!(memcpy_big(&mut mem, 0, 8, 3), Err(Fault));
    assert_eq!(memcpy_big(&mut mem, 0, -1, 1), Err(Fault));
    assert_eq!(memcpy_big(&mut mem, 0, 5, -1), Err(Fault));
}

#[test]
fn only_the_page_size_is_known() {
    assert_eq!(sysconf(30), 65536);
    assert_eq!(sysconf(29), -1);
}

#[test]
fn time_is_zero() {
    let mut mem = vec![1u8; 12];
    assert_eq!(gettimeofday(&mut mem, 0), Ok(0));
    assert_eq!(mem, vec![1u8; 12]);
    assert_eq!(gettimeofday(&mut mem, 2), Ok(0));
    assert_eq!(mem, vec![1, 1, 0, 0, 0, 0, 0, 0, 0, 0, 1, 1]);
    assert_eq!(gettimeofday(&mut mem, -1), Err(Fault));
}

#[test]
fn heap_top_is_set() {
    let mut mem = vec![0u8; 0x0db8c8];
    init_memory(&mut mem);
    assert_eq!(read_i32(&mem, 0x0db8c0), 0x5db9c0);
}

#[test]
fn text_block_has_room_for_the_end() {
    assert_eq!(text_block(""), Ok(1));
    assert_eq!(text_block("Мир"), Ok(7));
}

#[test]
fn text_is_placed() {
    let mut mem = vec![9u8; 16];
    assert_eq!(place_text(&mut mem, 4, "Мир"), Ok(true));
    assert_eq!(read_cstring(&mem, 4), "Мир");
    assert_eq!(place_text(&mut mem, 14, "ab"), Ok(false));
    assert_eq!(place_text(&mut mem, -1, ""), Ok(false));
    assert_eq!(place_text(&mut mem, -1, "a"), Err(Fault));
}

#[test]
fn headers_by_extension() {
    assert!(is_pipeline_header("a.hdr"));
    assert!(is_pipeline_header("..hdr"));
    assert!(!is_pipeline_header(".hdr"));
    assert!(!is_pipeline_header("a.hdr.dat"));
    assert!(!is_pipeline_header("a.HDR"));
}

#[test]
fn headers_are_joined() {
    match pipeline_headers(&vec!["ab".to_string(), "".to_string(), "Ж".to_string()]) {
        Ok(Some(block)) => {
            assert_eq!(block.text, "abЖ");
            assert_eq!(block.size, 5);
        }
        other => panic!("unexpected {:?}", other),
    }
    assert!(matches!(pipeline_headers(&vec![]), Ok(None)));
    assert!(matches!(pipeline_headers(&vec!["".to_string()]), Ok(None)));
}

#[test]
fn kept_word() {
    let mut s = State::new();
    s.set_temp_ret(7);
    assert_eq!(s.get_temp_ret(), 7);
    s.invoke_reply(false);
    assert_eq!(s.get_temp_ret(), 7);
    s.invoke_reply(true);
    assert_eq!(s.get_temp_ret(), 1);
}
