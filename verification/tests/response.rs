use lib::headers::HeaderMap;
use lib::response::{HeadWrite, ResponseHead};

#[test]
fn header_map_keeps_names_sorted_and_replaces_values() {
    let mut map = HeaderMap::new();
    map.insert("b".to_string(), "1".to_string());
    map.insert("a".to_string(), "2".to_string());
    map.insert("c".to_string(), "3".to_string());
    map.insert("b".to_string(), "4".to_string());
    let names: Vec<&str> = map.entries().iter().map(|f| f.name.as_str()).collect();
    assert_eq!(names, vec!["a", "b", "c"]);
    assert_eq!(map.get("b").unwrap(), "4");
    assert_eq!(map.get("a").unwrap(), "2");
    assert!(map.get("d").is_none());
    assert_eq!(map.len(), 3);
}

#[test]
fn header_map_orders_by_bytes() {
    let mut map = HeaderMap::new();
    for name in ["date", "Date", "Content-Length", "\u{e9}", "Z", "ab", "a"] {
        map.insert(name.to_string(), String::new());
    }
    let names: Vec<String> = map.entries().iter().map(|f| f.name.clone()).collect();
    let mut expected: Vec<String> = names.clone();
    expected.sort();
    assert_eq!(names, expected);
}

#[test]
fn head_is_rendered_once() {
    let mut head = ResponseHead::new();
    head.get_response_headers().insert("X-Test".to_string(), "yes".to_string());
    let bytes = head.prepare_head_at(200, 5, "Thu, 01 Jan 2015 00:00:00 UTC".to_string()).unwrap();
    assert_eq!(
        String::from_utf8(bytes).unwrap(),
        "HTTP/1.1 200 OK\r\nContent-Length: 5\r\nDate: Thu, 01 Jan 2015 00:00:00 UTC\r\nX-Test: yes\r\n\r\n"
    );
    assert!(head.sent_headers());
    assert!(head.prepare_head_at(200, 5, "later".to_string()).is_none());
    assert!(matches!(head.prepare_head(200, 5), HeadWrite::AlreadySent));
}

#[test]
fn head_with_unknown_and_negative_codes() {
    let mut head = ResponseHead::new();
    let bytes = head.prepare_head_at(-7, 0, "d".to_string()).unwrap();
    assert_eq!(
        String::from_utf8(bytes).unwrap(),
        "HTTP/1.1 -7 \r\nContent-Length: 0\r\nDate: d\r\n\r\n"
    );
}

#[test]
fn head_with_current_date() {
    let mut head = ResponseHead::new();
    match head.prepare_head(404, 12) {
        HeadWrite::Head(bytes) => {
            let text = String::from_utf8(bytes).unwrap();
            assert!(text.starts_with("HTTP/1.1 404 Not Found\r\nContent-Length: 12\r\nDate: "));
            assert!(text.ends_with(" UTC\r\n\r\n"));
        }
        _ => panic!("no head"),
    }
    assert!(head.sent_headers());
}

#[test]
fn cross_origin_headers() {
    let mut head = ResponseHead::new();
    head.add_cross_origin_resource_sharing_headers();
    let map = head.headers();
    assert_eq!(map.len(), 4);
    assert_eq!(map.get("Access-Control-Allow-Origin").unwrap(), "*");
    assert_eq!(map.get("Access-Control-Allow-Methods").unwrap(), "GET, OPTIONS, HEAD, PUT, POST");
    assert_eq!(map.get("Access-Control-Allow-Credentials").unwrap(), "true");
    assert_eq!(
        map.get("Access-Control-Allow-Headers").unwrap(),
        "Origin, X-Requested-With, Content-Type, Accept, Authorization"
    );
    let names: Vec<&str> = map.entries().iter().map(|f| f.name.as_str()).collect();
    assert_eq!(
        names,
        vec![
            "Access-Control-Allow-Credentials",
            "Access-Control-Allow-Headers",
            "Access-Control-Allow-Methods",
            "Access-Control-Allow-Origin"
        ]
    );
}

#[test]
fn announced_length_reads_back() {
    for length in [0usize, 9, 10, 12345, usize::MAX] {
        let mut head = ResponseHead::new();
        head.prepare_head_at(200, length, "d".to_string()).unwrap();
        let value = head.headers().get("Content-Length").unwrap().clone();
        let chars: Vec<char> = value.chars().collect();
        assert_eq!(lib::decimal::parse_usize_decimal(&chars), Some(length));
    }
}

#[test]
fn header_map_removes_fields() {
    let mut map = HeaderMap::new();
    map.insert("b".to_string(), "1".to_string());
    map.insert("a".to_string(), "2".to_string());
    map.insert("c".to_string(), "3".to_string());
    assert_eq!(map.remove("b"), Some("1".to_string()));
    assert_eq!(map.remove("b"), None);
    assert_eq!(map.remove("zz"), None);
    let names: Vec<&str> = map.entries().iter().map(|f| f.name.as_str()).collect();
    assert_eq!(names, vec!["a", "c"]);
    assert_eq!(map.get("c").unwrap(), "3");
    assert!(map.get("b").is_none());
}

#[test]
fn removed_response_header_is_not_sent() {
    let mut head = ResponseHead::new();
    head.add_cross_origin_resource_sharing_headers();
    head.get_response_headers().remove("Access-Control-Allow-Origin");
    let bytes = head.prepare_head_at(200, 0, "d".to_string()).unwrap();
    let text = String::from_utf8(bytes).unwrap();
    assert!(!text.contains("Access-Control-Allow-Origin"));
    assert!(text.contains("Access-Control-Allow-Methods: GET, OPTIONS, HEAD, PUT, POST\r\n"));
}
