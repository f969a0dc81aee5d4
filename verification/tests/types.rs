use http_request::text::{same_bytes, same_text, to_text};
use http_request::{Headers, Method, ParseError, RequestBuilder, TokenType};
use std::sync::Arc;

#[test]
fn token_type_of_each_byte() {
    for b in 0..=255u8 {
        let tchar = b.is_ascii_alphanumeric() || b"!#$%&'*+-.^_`|~".contains(&b);
        let expected = if tchar { TokenType::TChar(b) } else { TokenType::Invalid(b) };
        assert_eq!(TokenType::from(b), expected);
    }
}

#[test]
fn token_type_of_the_delimiters() {
    for b in b"\"(),/:;<=>?@[\\]{} \t\r\n" {
        assert_eq!(TokenType::from(*b), TokenType::Invalid(*b));
    }
}

#[test]
fn method_from_each_known_name() {
    assert_eq!(Method::from(b"GET".to_vec()), Method::Get);
    assert_eq!(Method::from(b"POST".to_vec()), Method::Post);
    assert_eq!(Method::from(b"PATCH".to_vec()), Method::Patch);
    assert_eq!(Method::from(b"DELETE".to_vec()), Method::Delete);
    assert_eq!(Method::from(b"PUT".to_vec()), Method::Put);
    assert_eq!(Method::from(b"HEAD".to_vec()), Method::Head);
    assert_eq!(Method::from(b"CONNECT".to_vec()), Method::Connect);
    assert_eq!(Method::from(b"OPTIONS".to_vec()), Method::Options);
    assert_eq!(Method::from(b"TRACE".to_vec()), Method::Trace);
}

#[test]
fn method_from_another_name() {
    for name in [&b"get"[..], b"", b"GETT", b"PUTS", b"TRACE ", b"OPTION", b"\xff"] {
        assert_eq!(Method::from(name.to_vec()), Method::Custom(Arc::new(name.to_vec())));
    }
}

#[test]
fn method_clone_is_the_same_method() {
    for method in [Method::Get, Method::Trace, Method::Custom(Arc::new(b"LINK".to_vec()))] {
        assert_eq!(method.clone(), method);
    }
}

#[test]
fn parse_error_response_codes() {
    assert_eq!(ParseError::EOF.http_response_code(), None);
    assert_eq!(ParseError::IllegalCharacter.http_response_code(), Some(400));
    assert_eq!(ParseError::new_generic("too long", 414).http_response_code(), Some(414));
    assert_eq!(ParseError::new_bad_request("bad").http_response_code(), Some(400));
}

#[test]
fn parse_error_generic_keeps_its_cause() {
    assert_eq!(
        ParseError::new_generic("too long", 414),
        ParseError::Generic { err: String::from("too long"), http_response: 414 }
    );
    assert_eq!(
        ParseError::new_bad_request("invalid text"),
        ParseError::Generic { err: String::from("invalid text"), http_response: 400 }
    );
}

#[test]
fn parse_error_descriptions() {
    assert_eq!(ParseError::EOF.description(), "End of file reached while parsing headers");
    assert_eq!(
        ParseError::IllegalCharacter.description(),
        "Illegal character encountered while parsing headers"
    );
    assert_eq!(ParseError::new_generic("too long", 414).description(), "too long");
}

#[test]
fn builder_needs_version_method_and_target() {
    for missing in 0..3 {
        let mut builder = RequestBuilder::new();
        if missing != 0 {
            builder.set_version(1, 1);
        }
        if missing != 1 {
            builder.set_method(Method::Get);
        }
        if missing != 2 {
            builder.set_target(String::from("/"));
        }
        builder.add_header(String::from("A"), String::from("b"));
        builder.set_body(vec![1, 2, 3]);
        assert_eq!(builder.into_request(), None);
    }
    assert_eq!(RequestBuilder::new().into_request(), None);
}

#[test]
fn builder_makes_the_request_of_its_parts() {
    let mut builder = RequestBuilder::new();
    builder.set_version(1, 1);
    builder.set_version(2, 0);
    builder.set_method(Method::Post);
    builder.set_method(Method::Put);
    builder.set_target(String::from("/a"));
    builder.set_target(String::from("/b"));
    builder.add_header(String::from("A"), String::from("1"));
    builder.add_header(String::from("B"), String::from("2"));
    builder.add_header(String::from("A"), String::from("3"));
    builder.set_body(vec![1, 2, 3]);
    builder.set_body(vec![4, 5]);
    let request = builder.into_request().unwrap();
    assert_eq!(request.get_version(), (2, 0));
    assert_eq!(request.get_method(), &Method::Put);
    assert_eq!(request.get_target(), "/b");
    assert_eq!(request.get_headers().len(), 2);
    assert_eq!(request.get_headers().get("A"), Some("3"));
    assert_eq!(request.get_headers().get("B"), Some("2"));
    assert_eq!(request.get_body(), Some(&[4u8, 5][..]));
}

#[test]
fn builder_without_a_body_makes_a_request_without_one() {
    let mut builder = RequestBuilder::new();
    builder.set_version(1, 1);
    builder.set_method(Method::Get);
    builder.set_target(String::from("/"));
    let request = builder.into_request().unwrap();
    assert_eq!(request.get_body(), None);
    assert_eq!(request.get_headers().len(), 0);
}

#[test]
fn headers_hold_one_value_for_a_name() {
    let mut headers = Headers::new();
    assert_eq!(headers.len(), 0);
    assert_eq!(headers.get("A"), None);
    headers.insert(String::from("A"), String::from("1"));
    headers.insert(String::from("B"), String::from("2"));
    assert_eq!(headers.len(), 2);
    headers.insert(String::from("A"), String::from("3"));
    assert_eq!(headers.len(), 2);
    assert_eq!(headers.get("A"), Some("3"));
    assert_eq!(headers.get("B"), Some("2"));
    assert_eq!(headers.get("C"), None);
    assert_eq!(headers.get(""), None);
    headers.insert(String::new(), String::from("e"));
    assert_eq!(headers.get(""), Some("e"));
}

#[test]
fn headers_entries_are_the_fields() {
    let mut headers = Headers::new();
    headers.insert(String::from("A"), String::from("1"));
    headers.insert(String::from("B"), String::from("2"));
    headers.insert(String::from("A"), String::from("3"));
    let mut entries = Vec::new();
    for i in 0..headers.len() {
        entries.push(headers.entry(i));
    }
    entries.sort();
    assert_eq!(entries, vec![("A", "3"), ("B", "2")]);
}

#[test]
fn headers_equality_is_that_of_maps() {
    let mut a = Headers::new();
    a.insert(String::from("A"), String::from("1"));
    a.insert(String::from("B"), String::from("2"));
    let mut b = Headers::new();
    b.insert(String::from("B"), String::from("0"));
    b.insert(String::from("A"), String::from("1"));
    assert_ne!(a, b);
    b.insert(String::from("B"), String::from("2"));
    assert_eq!(a, b);
    b.insert(String::from("C"), String::from("2"));
    assert_ne!(a, b);
    assert_ne!(b, a);
    assert_eq!(Headers::new(), Headers::new());
    assert_ne!(a, Headers::new());
}

#[test]
fn text_of_ascii_bytes() {
    assert_eq!(to_text(b"/test/path?k=v&k2".to_vec()), Ok(String::from("/test/path?k=v&k2")));
    assert_eq!(to_text(Vec::new()), Ok(String::new()));
    let all: Vec<u8> = (0..0x80).collect();
    let text = to_text(all.clone()).unwrap();
    assert_eq!(text.as_bytes(), &all[..]);
    assert_eq!(text.chars().count(), 0x80);
}

#[test]
fn text_of_other_bytes() {
    assert_eq!(to_text(vec![0x63, 0xc3, 0xa9]), Ok(String::from("c\u{e9}")));
    assert_eq!(to_text(vec![0xff]), Err(ParseError::IllegalCharacter));
    assert_eq!(to_text(vec![0x61, 0x80]), Err(ParseError::IllegalCharacter));
    assert_eq!(to_text(vec![0xc3]), Err(ParseError::IllegalCharacter));
}

#[test]
fn same_bytes_and_same_text() {
    assert!(same_bytes(b"", b""));
    assert!(same_bytes(b"abc", b"abc"));
    assert!(!same_bytes(b"abc", b"abd"));
    assert!(!same_bytes(b"abc", b"ab"));
    assert!(!same_bytes(b"ab", b"abc"));
    assert!(same_text("Host", "Host"));
    assert!(!same_text("Host", "host"));
    assert!(!same_text("Host", "Hos"));
    assert!(same_text("caf\u{e9}", "caf\u{e9}"));
    assert!(!same_text("caf\u{e9}", "cafe"));
}

fn shared_between_threads<T: Send + Sync>() {}

#[test]
fn finished_values_can_be_shared_between_threads() {
    shared_between_threads::<http_request::Request>();
    shared_between_threads::<Method>();
    shared_between_threads::<Headers>();
    shared_between_threads::<TokenType>();
    shared_between_threads::<ParseError>();
}
