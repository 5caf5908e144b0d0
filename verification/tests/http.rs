use asterisk::error::AsteriskError;
use asterisk::http::{
    build_request_url, digit, format_timing, parse_headers, push_decimal, status_class,
    status_text, RequestTiming, StatusClass,
};

#[test]
fn request_url_has_one_slash_between() {
    assert_eq!(build_request_url("http://h", "users"), "http://h/users");
    assert_eq!(build_request_url("http://h/", "users"), "http://h/users");
    assert_eq!(build_request_url("http://h", "/users"), "http://h/users");
    assert_eq!(build_request_url("http://h/", "///users/1/"), "http://h/users/1/");
    assert_eq!(build_request_url("http://h//", "a"), "http://h//a");
    assert_eq!(build_request_url("", ""), "/");
    assert_eq!(build_request_url("", "//"), "/");
    assert_eq!(build_request_url("é", "/ü"), "é/ü");
}

#[test]
fn timing_line_is_exact() {
    assert_eq!(format_timing(0, None), "Total: 0ms");
    assert_eq!(format_timing(1234, None), "Total: 1234ms");
    assert_eq!(format_timing(120, Some(7)), "Total: 120ms (First byte: 7ms)");
    assert_eq!(
        format_timing(u128::MAX, Some(10)),
        "Total: 340282366920938463463374607431768211455ms (First byte: 10ms)"
    );
}

#[test]
fn decimal_numerals() {
    for n in [0u128, 9, 10, 11, 99, 100, 101, 1000, 65535, 1_000_000_007] {
        let mut text = String::from("n=");
        push_decimal(&mut text, n);
        assert_eq!(text, format!("n={}", n));
    }
    assert_eq!(digit(0), '0');
    assert_eq!(digit(5), '5');
    assert_eq!(digit(9), '9');
}

#[test]
fn timing_reports_what_was_marked() {
    let mut timing = RequestTiming::new();
    let line = timing.format();
    assert!(line.starts_with("Total: ") && line.ends_with("ms"));
    assert!(!line.contains("First byte"));
    timing.set_first_byte();
    timing.set_end();
    let line = timing.format();
    assert!(line.starts_with("Total: ") && line.ends_with("ms)"));
    assert!(line.contains("ms (First byte: "));
    assert_eq!(line, timing.format());
}

#[test]
fn status_classes() {
    assert_eq!(status_class(199), StatusClass::Failure);
    assert_eq!(status_class(200), StatusClass::Success);
    assert_eq!(status_class(299), StatusClass::Success);
    assert_eq!(status_class(300), StatusClass::Redirect);
    assert_eq!(status_class(399), StatusClass::Redirect);
    assert_eq!(status_class(400), StatusClass::Failure);
    assert_eq!(status_class(0), StatusClass::Failure);
}

#[test]
fn status_texts() {
    let expected = [
        (200, "OK"),
        (201, "Created"),
        (204, "No Content"),
        (301, "Moved Permanently"),
        (302, "Found"),
        (304, "Not Modified"),
        (400, "Bad Request"),
        (401, "Unauthorized"),
        (403, "Forbidden"),
        (404, "Not Found"),
        (500, "Internal Server Error"),
        (502, "Bad Gateway"),
        (503, "Service Unavailable"),
        (202, "Unknown Status"),
        (0, "Unknown Status"),
    ];
    for (status, text) in expected {
        assert_eq!(status_text(status), text);
    }
}

#[test]
fn strict_list_refuses_a_second_colon() {
    let headers = parse_headers("A: 1 , b:2", Some("t")).unwrap();
    assert_eq!(headers.len(), 3);
    assert_eq!(headers.name_at(0), "authorization");
    assert_eq!(headers.value_at(0), "Bearer t");
    assert_eq!(headers.name_at(1), "a");
    assert_eq!(headers.value_at(1), "1");
    assert_eq!(headers.name_at(2), "b");
    assert_eq!(headers.value_at(2), "2");
    assert!(parse_headers("", None).unwrap().is_empty());
    assert!(matches!(
        parse_headers("a:1,url:http://x", None),
        Err(AsteriskError::MalformedHeaderEntry(None, entry)) if entry == "url:http://x"
    ));
    assert!(matches!(
        parse_headers("a:1,plain", None),
        Err(AsteriskError::MalformedHeaderEntry(None, entry)) if entry == "plain"
    ));
    assert!(matches!(
        parse_headers("a b:1", None),
        Err(AsteriskError::InvalidHeaderName(name)) if name == "a b"
    ));
}
