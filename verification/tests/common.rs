use tiny_http::common::{Header, HeaderField};
use tiny_http::date::format_http_date;

#[test]
fn test_parse_header() {
    let header: Header = "Content-Type: text/html".parse().unwrap();

    assert!(header.field.equiv(&"content-type"));
    assert!(header.value.as_str() == "text/html");

    assert!("hello world".parse::<Header>().is_err());
}

#[test]
fn formats_date_correctly() {
    let http_date = format_http_date(420895020).unwrap();

    assert_eq!(String::from_utf8(http_date).unwrap(), "Wed, 04 May 1983 11:17:00 GMT")
}

#[test]
fn test_parse_header_with_doublecolon() {
    let header: Header = "Time: 20: 34".parse().unwrap();

    assert!(header.field.equiv(&"time"));
    assert!(header.value.as_str() == "20: 34");
}

#[test]
fn test_strict_headers() {
    assert!("Transfer-Encoding : chunked".parse::<Header>().is_err());
    assert!(" Transfer-Encoding: chunked".parse::<Header>().is_err());
    assert!("Transfer Encoding: chunked".parse::<Header>().is_err());
    assert!(" Transfer\tEncoding : chunked".parse::<Header>().is_err());
    assert!("Transfer-Encoding: chunked".parse::<Header>().is_ok());
    assert!("Transfer-Encoding: chunked ".parse::<Header>().is_ok());
    assert!("Transfer-Encoding:   chunked ".parse::<Header>().is_ok());
}

#[test]
fn strict_header_values() {
    let accepted = [
        ("Transfer-Encoding: chunked", "chunked"),
        ("Transfer-Encoding: chunked ", "chunked"),
        ("Transfer-Encoding:   chunked ", "chunked"),
        ("Time: 20: 34", "20: 34"),
        ("Content-Type: text/html", "text/html"),
    ];
    for (line, value) in accepted {
        let header = Header::parse(line).unwrap();
        assert_eq!(header.value.as_str(), value, "{}", line);
    }
}

#[test]
fn header_round_trip() {
    let header = Header::parse("X-Thing:\t  some value \u{a0}").unwrap();
    assert_eq!(header.to_string(), "X-Thing: some value");
    let again = Header::parse(&header.to_string()).unwrap();
    assert_eq!(again.field.to_string(), "X-Thing");
    assert_eq!(again.value.as_str(), "some value");
    assert_eq!(again.to_string(), header.to_string());
}

#[test]
fn header_rejects_text_that_is_not_ascii() {
    assert!(Header::parse("Nam\u{e9}: x").is_err());
    assert!(Header::parse("Name: caf\u{e9}").is_err());
    assert!(Header::parse("Na\u{2003}me: x").is_err());
    assert!(Header::parse("no colon here").is_err());
    let empty = Header::parse(":").unwrap();
    assert_eq!(empty.to_string(), ": ");
}

#[test]
fn header_from_bytes() {
    let header = Header::from_bytes(b"Content-Type".to_vec(), b"text/plain".to_vec()).unwrap();
    assert!(header.field.equiv("CONTENT-TYPE"));
    assert!(!header.field.equiv("content-length"));
    assert_eq!(header.value.as_str(), "text/plain");
    assert!(Header::from_bytes(vec![0xc3, 0xa9], b"x".to_vec()).is_err());
    assert!(Header::from_bytes(b"x".to_vec(), vec![0x80]).is_err());
}

#[test]
fn header_fields_compare_without_case() {
    let a = HeaderField::from_bytes(b"Content-Type".to_vec()).unwrap();
    let b: HeaderField = "content-TYPE".parse().unwrap();
    let c: HeaderField = "content-typ".parse().unwrap();
    assert!(a == b);
    assert!(a != c);
    assert_eq!(a.as_str().as_str(), "Content-Type");
    assert!("content type".parse::<HeaderField>().is_err());
    assert!(HeaderField::from_bytes(vec![200]).is_err());
}

#[test]
fn http_date_limits() {
    assert_eq!(
        String::from_utf8(format_http_date(0).unwrap()).unwrap(),
        "Thu, 01 Jan 1970 00:00:00 GMT"
    );
    assert_eq!(
        String::from_utf8(format_http_date(253402300799).unwrap()).unwrap(),
        "Fri, 31 Dec 9999 23:59:59 GMT"
    );
    assert!(format_http_date(253402300800).is_none());
}
