use asterisk::error::AsteriskError;
use asterisk::headers::{
    assemble, parse_single_header, split_header_list, token_headers, HeaderCollection,
};

fn strings(items: &[&str]) -> Vec<String> {
    items.iter().map(|s| s.to_string()).collect()
}

fn pairs(headers: &HeaderCollection) -> Vec<(String, String)> {
    (0..headers.len())
        .map(|i| (headers.name_at(i).to_string(), headers.value_at(i).to_string()))
        .collect()
}

fn pair(name: &str, value: &str) -> (String, String) {
    (name.to_string(), value.to_string())
}

#[test]
fn same_name_in_another_case_overwrites() {
    let headers = assemble(None, &strings(&["A:1", "a:2"])).unwrap();
    assert_eq!(pairs(&headers), vec![pair("a", "2")]);
    assert_eq!(headers.get("A"), Some("2".to_string()));
    assert_eq!(headers.get("a"), Some("2".to_string()));
}

#[test]
fn token_comes_first_as_authorization() {
    let headers = assemble(Some("t"), &strings(&["X-One:1"])).unwrap();
    assert_eq!(
        pairs(&headers),
        vec![pair("authorization", "Bearer t"), pair("x-one", "1")]
    );
}

#[test]
fn later_authorization_entry_overwrites_the_token() {
    let headers = assemble(Some("t"), &strings(&["X-One:1", "Authorization: Basic abc"])).unwrap();
    assert_eq!(
        pairs(&headers),
        vec![pair("authorization", "Basic abc"), pair("x-one", "1")]
    );
    let headers = assemble(
        Some("t"),
        &strings(&["authorization:first", "AUTHORIZATION:last"]),
    )
    .unwrap();
    assert_eq!(pairs(&headers), vec![pair("authorization", "last")]);
}

#[test]
fn no_token_no_entries_is_empty() {
    let headers = assemble(None, &Vec::new()).unwrap();
    assert!(headers.is_empty());
    assert_eq!(headers.len(), 0);
    assert_eq!(headers.get("authorization"), None);
}

#[test]
fn entry_is_split_at_the_first_colon_and_trimmed() {
    let headers = assemble(
        None,
        &strings(&["  X-Url :  http://host:3000/a  ", "X-Empty:", "\tX-Tab\t:\ta b\t"]),
    )
    .unwrap();
    assert_eq!(
        pairs(&headers),
        vec![
            pair("x-url", "http://host:3000/a"),
            pair("x-empty", ""),
            pair("x-tab", "a b"),
        ]
    );
}

#[test]
fn overwritten_header_keeps_its_place() {
    let headers = assemble(None, &strings(&["a:1", "b:2", "A:3", "c:4"])).unwrap();
    assert_eq!(pairs(&headers), vec![pair("a", "3"), pair("b", "2"), pair("c", "4")]);
}

#[test]
fn entry_without_colon_is_malformed() {
    let r = assemble(Some("t"), &strings(&["a:1", "justastring", "b:2"]));
    assert!(matches!(
        r,
        Err(AsteriskError::MalformedHeaderEntry(None, entry)) if entry == "justastring"
    ));
    assert!(matches!(
        assemble(None, &strings(&[""])),
        Err(AsteriskError::MalformedHeaderEntry(None, entry)) if entry.is_empty()
    ));
}

#[test]
fn name_that_cannot_be_sent_is_refused() {
    assert!(matches!(
        assemble(None, &strings(&["bad name: 1"])),
        Err(AsteriskError::InvalidHeaderName(name)) if name == "bad name"
    ));
    assert!(matches!(
        assemble(None, &strings(&[": 1"])),
        Err(AsteriskError::InvalidHeaderName(name)) if name.is_empty()
    ));
    assert!(matches!(
        assemble(None, &strings(&["ñ:1"])),
        Err(AsteriskError::InvalidHeaderName(name)) if name == "ñ"
    ));
}

#[test]
fn value_that_cannot_be_sent_is_refused() {
    assert!(matches!(
        assemble(None, &strings(&["a:x\u{7f}y"])),
        Err(AsteriskError::InvalidHeaderValue(value)) if value == "x\u{7f}y"
    ));
    assert!(matches!(
        assemble(None, &strings(&["a:x\u{1}y"])),
        Err(AsteriskError::InvalidHeaderValue(value)) if value == "x\u{1}y"
    ));
    assert!(matches!(
        assemble(Some("to\nken"), &Vec::new()),
        Err(AsteriskError::InvalidHeaderValue(value)) if value == "Bearer to\nken"
    ));
    let headers = assemble(None, &strings(&["a:x\ty", "b:é"])).unwrap();
    assert_eq!(pairs(&headers), vec![pair("a", "x\ty"), pair("b", "é")]);
}

#[test]
fn name_is_refused_before_value() {
    assert!(matches!(
        assemble(None, &strings(&["bad name:x\u{7f}"])),
        Err(AsteriskError::InvalidHeaderName(name)) if name == "bad name"
    ));
}

#[test]
fn token_headers_alone() {
    assert!(token_headers(None).unwrap().is_empty());
    let headers = token_headers(Some("abc")).unwrap();
    assert_eq!(pairs(&headers), vec![pair("authorization", "Bearer abc")]);
}

#[test]
fn single_header_leaves_collection_alone_on_failure() {
    let mut headers = HeaderCollection::new();
    parse_single_header("A: 1", &mut headers).unwrap();
    assert!(parse_single_header("nothing", &mut headers).is_err());
    assert!(parse_single_header("b d: 1", &mut headers).is_err());
    assert_eq!(pairs(&headers), vec![pair("a", "1")]);
}

#[test]
fn insert_sets_by_canonical_name() {
    let mut headers = HeaderCollection::new();
    headers.insert("X-A", "1").unwrap();
    headers.insert("x-b", " 2 ").unwrap();
    headers.insert("x-a", "3").unwrap();
    assert_eq!(pairs(&headers), vec![pair("x-a", "3"), pair("x-b", " 2 ")]);
    assert_eq!(headers.get("X-B"), Some(" 2 ".to_string()));
    assert_eq!(headers.get("x-c"), None);
    assert_eq!(headers.get("not a name"), None);
    assert!(matches!(
        headers.insert("not a name", "v"),
        Err(AsteriskError::InvalidHeaderName(name)) if name == "not a name"
    ));
    assert!(matches!(
        headers.insert(" x-a", "v"),
        Err(AsteriskError::InvalidHeaderName(name)) if name == " x-a"
    ));
    assert!(matches!(
        headers.insert("x-a", "line\nbreak"),
        Err(AsteriskError::InvalidHeaderValue(value)) if value == "line\nbreak"
    ));
    assert_eq!(pairs(&headers), vec![pair("x-a", "3"), pair("x-b", " 2 ")]);
}

#[test]
fn every_token_character_is_accepted_in_a_name() {
    let mut headers = HeaderCollection::new();
    headers.insert("!#$%&'*+-.^_`|~09AZaz", "v").unwrap();
    assert_eq!(headers.name_at(0), "!#$%&'*+-.^_`|~09azaz");
    for bad in ["a b", "a:b", "a(b", "a\"b", "a/b", "a@b", "a[b", "a{b", "a=b", "a\u{7f}", ""] {
        assert!(headers.insert(bad, "v").is_err());
    }
    let longest = "a".repeat(65535);
    assert!(headers.insert(&longest, "v").is_ok());
    let too_long = "a".repeat(65536);
    assert!(headers.insert(&too_long, "v").is_err());
    assert_eq!(headers.len(), 2);
}

#[test]
fn header_list_is_split_at_commas() {
    assert_eq!(split_header_list(""), Vec::<String>::new());
    assert_eq!(split_header_list("a:1"), strings(&["a:1"]));
    assert_eq!(split_header_list("a:1, b:2 ,c:3"), strings(&["a:1", "b:2", "c:3"]));
    assert_eq!(split_header_list("a:1,"), strings(&["a:1", ""]));
    assert_eq!(split_header_list(","), strings(&["", ""]));
    assert_eq!(split_header_list(" , x "), strings(&["", "x"]));
}

#[test]
fn whitespace_beyond_ascii_is_trimmed() {
    let headers = assemble(None, &strings(&["\u{2003}X-A\u{a0}:\u{3000}v w\u{2028}"])).unwrap();
    assert_eq!(pairs(&headers), vec![pair("x-a", "v w")]);
    assert_eq!(split_header_list("\u{a0}a:1\u{2003},\u{3000}"), strings(&["a:1", ""]));
}
