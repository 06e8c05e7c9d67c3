use tiny_http::version::HTTPVersion;

#[test]
fn versions_order_by_major_then_minor() {
    assert!(HTTPVersion(1, 0) < HTTPVersion(1, 1));
    assert!(HTTPVersion(1, 1) < HTTPVersion(2, 0));
    assert!(HTTPVersion(0, 9) < HTTPVersion(1, 0));
    assert!(HTTPVersion(1, 1) == HTTPVersion::from((1, 1)));
}

#[test]
fn versions_compare_with_pairs() {
    assert!(HTTPVersion(1, 1) == (1, 1));
    assert!((1, 0) == HTTPVersion(1, 0));
    assert!(HTTPVersion(1, 1) != (1, 0));
    assert!(HTTPVersion(1, 0) < (1, 1));
    assert!((2, 0) > HTTPVersion(1, 1));
    assert!(HTTPVersion(0, 9) <= (0, 9));
    assert_eq!(HTTPVersion(1, 1).compare(&HTTPVersion(1, 0)), std::cmp::Ordering::Greater);
    assert_eq!(HTTPVersion(1, 1).cmp(&HTTPVersion(2, 0)), std::cmp::Ordering::Less);
}

#[test]
fn versions_as_text() {
    assert_eq!(HTTPVersion(1, 1).to_string(), "1.1");
    assert_eq!(HTTPVersion(0, 9).to_string(), "0.9");
    assert_eq!(HTTPVersion(10, 255).to_string(), "10.255");
    assert_eq!(tiny_http::common::HTTPVersion(2, 0), tiny_http::HTTPVersion(2, 0));
}
