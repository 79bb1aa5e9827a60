use http::header::{HeaderMap, HeaderName, HeaderValue};
use statiker::headers::{has_room, set_header, set_headers, visible_text, HEADER_ROOM};

fn filled(n: usize) -> HeaderMap {
    let mut h = HeaderMap::new();
    for i in 0..n {
        h.insert(
            HeaderName::from_bytes(format!("x-fill-{}", i).as_bytes()).unwrap(),
            HeaderValue::from_static("v"),
        );
    }
    h
}

#[test]
fn room_is_counted_in_names() {
    assert_eq!(HEADER_ROOM, 6554);
    let mut h = HeaderMap::new();
    assert!(has_room(&h, 0));
    assert!(has_room(&h, 6554));
    assert!(!has_room(&h, 6555));
    assert!(!has_room(&h, usize::MAX));
    h.append("accept", HeaderValue::from_static("a"));
    h.append("accept", HeaderValue::from_static("b"));
    h.insert("host", HeaderValue::from_static("c"));
    assert!(has_room(&h, 6552));
    assert!(!has_room(&h, 6553));
}

#[test]
fn a_map_with_room_takes_every_header() {
    let mut h = filled(6553);
    assert!(has_room(&h, 1));
    assert!(set_headers(&mut h, &vec![("x-last".to_string(), "1".to_string())]));
    assert_eq!(h.keys_len(), 6554);
    assert!(!has_room(&h, 1));
    assert!(set_headers(&mut h, &vec![("x-fill-0".to_string(), "again".to_string())]));
    assert_eq!(h.get("x-fill-0").unwrap(), "again");
    assert!(set_headers(&mut h, &Vec::new()));
}

#[test]
fn a_map_that_takes_no_more_keeps_what_it_holds() {
    let mut h = filled(24576);
    let list = vec![
        ("x-new".to_string(), "1".to_string()),
        ("bad name".to_string(), "skipped".to_string()),
        ("x-fill-0".to_string(), "again".to_string()),
    ];
    assert!(!set_headers(&mut h, &list));
    assert_eq!(h.keys_len(), 24576);
    assert!(!h.contains_key("x-new"));
    assert_eq!(h.get("x-fill-0").unwrap(), "v");
    assert!(set_header(&mut h, "bad name", "x"));
    assert!(!set_header(&mut h, "x-new", "1"));
    h.remove("x-fill-9");
    assert!(set_header(&mut h, "X-New", "1"));
    assert_eq!(h.get("x-new").unwrap(), "1");
}

#[test]
fn headers_are_set_in_order() {
    let mut h = HeaderMap::new();
    h.append("x-a", HeaderValue::from_static("old1"));
    h.append("x-a", HeaderValue::from_static("old2"));
    let list = vec![
        ("X-A".to_string(), "first".to_string()),
        ("".to_string(), "no name".to_string()),
        ("x-b".to_string(), "tab\tis fine".to_string()),
        ("x-a".to_string(), "second".to_string()),
        ("x c".to_string(), "bad name".to_string()),
        ("x-d".to_string(), "bad\u{0}value".to_string()),
        ("x-e".to_string(), "".to_string()),
    ];
    assert!(set_headers(&mut h, &list));
    assert_eq!(h.get_all("x-a").iter().count(), 1);
    assert_eq!(h.get("x-a").unwrap(), "second");
    assert_eq!(h.get("x-b").unwrap(), "tab\tis fine");
    assert_eq!(h.get("x-e").unwrap(), "");
    assert!(!h.contains_key("x-d"));
    assert_eq!(h.keys_len(), 3);
}

#[test]
fn readable_text_is_printable_ascii_with_blanks() {
    assert_eq!(visible_text(b"hello, world\t!"), Some("hello, world\t!".to_string()));
    assert_eq!(visible_text(b""), Some(String::new()));
    assert_eq!(visible_text(b"~ "), Some("~ ".to_string()));
    assert_eq!(visible_text(b"a\x7fb"), None);
    assert_eq!(visible_text(b"a\nb"), None);
    assert_eq!(visible_text(b"caf\xc3\xa9"), None);
    assert_eq!(visible_text(b"\x1f"), None);
    for b in 0u8..=255 {
        let value = HeaderValue::from_bytes(&[b]).ok();
        if let Some(v) = value {
            assert_eq!(visible_text(&[b]), v.to_str().ok().map(|s| s.to_string()), "byte {}", b);
        }
    }
}
