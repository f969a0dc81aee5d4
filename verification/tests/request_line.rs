use http_request::{
    ByteSource, Method, ParseError, Request, RequestBuilder, StreamReader, BUFFER_SIZE,
};
use std::str::Bytes;
use std::sync::Arc;

struct StrReader<'a> {
    data: Bytes<'a>,
}

impl<'a> StrReader<'a> {
    fn new(data: Bytes) -> StrReader {
        StrReader { data }
    }
}

impl<'a> ByteSource for StrReader<'a> {
    fn read(&mut self, buf: &mut [u8; BUFFER_SIZE]) -> Option<usize> {
        let len = buf.len();
        let mut i = 0;
        while i < len {
            buf[i] = match self.data.next() {
                Some(d) => d,
                None => return Some(i),
            };
            i += 1;
        }
        Some(i)
    }
}

/// A source that gives the bytes of a slice, whatever they are.
struct SliceReader<'a> {
    data: &'a [u8],
}

impl<'a> ByteSource for SliceReader<'a> {
    fn read(&mut self, buf: &mut [u8; BUFFER_SIZE]) -> Option<usize> {
        let n = self.data.len().min(buf.len());
        buf[..n].copy_from_slice(&self.data[..n]);
        self.data = &self.data[n..];
        Some(n)
    }
}

fn request_line(text: &str) -> (Result<(), ParseError>, RequestBuilder) {
    let mut builder = RequestBuilder::new();
    let mut source = StrReader::new(text.bytes());
    let mut it = StreamReader::from(&mut source);
    let r = Request::parse_request_line(&mut builder, &mut it);
    (r, builder)
}

fn builder_of(method: Method, target: &str, major: u8, minor: u8) -> RequestBuilder {
    let mut builder = RequestBuilder::new();
    builder.set_version(major, minor);
    builder.set_method(method);
    builder.set_target(String::from(target));
    builder
}

fn method(text: &[u8]) -> Result<Method, ParseError> {
    let mut source = SliceReader { data: text };
    let mut it = StreamReader::from(&mut source);
    Request::parse_request_method(&mut it)
}

fn target(text: &[u8]) -> Result<String, ParseError> {
    let mut source = SliceReader { data: text };
    let mut it = StreamReader::from(&mut source);
    Request::parse_request_target(&mut it)
}

fn version(text: &[u8]) -> Result<(u8, u8), ParseError> {
    let mut source = SliceReader { data: text };
    let mut it = StreamReader::from(&mut source);
    Request::parse_request_version(&mut it)
}

#[test]
fn test_parse_request_line() {
    let mut builder = RequestBuilder::new();
    let mut byte_iterator = StrReader::new("GET /test/path?k=v&k2 HTTP/1.1\r\n".bytes());
    let mut it = StreamReader::from(&mut byte_iterator);

    Request::parse_request_line(&mut builder, &mut it).unwrap();

    let mut expected = RequestBuilder::new();
    expected.set_version(1, 1);
    expected.set_method(Method::Get);
    expected.set_target(String::from("/test/path?k=v&k2"));
    assert_eq!(builder, expected);
}

#[test]
fn request_line_of_each_known_verb() {
    let verbs = [
        ("GET", Method::Get),
        ("POST", Method::Post),
        ("PATCH", Method::Patch),
        ("DELETE", Method::Delete),
        ("PUT", Method::Put),
        ("HEAD", Method::Head),
        ("CONNECT", Method::Connect),
        ("OPTIONS", Method::Options),
        ("TRACE", Method::Trace),
    ];
    for (name, verb) in verbs {
        for (major, minor) in [(0u8, 9u8), (1, 0), (1, 1), (2, 0), (9, 9)] {
            let text = format!("{} /a/b?c=d HTTP/{}.{}\r\n", name, major, minor);
            let (r, builder) = request_line(&text);
            assert_eq!(r, Ok(()));
            assert_eq!(builder, builder_of(verb.clone(), "/a/b?c=d", major, minor));
        }
    }
}

#[test]
fn request_line_leaves_what_follows() {
    let mut builder = RequestBuilder::new();
    let mut source = StrReader::new("PUT /x HTTP/1.0\r\nHost: a\r\n".bytes());
    let mut it = StreamReader::from(&mut source);
    assert_eq!(Request::parse_request_line(&mut builder, &mut it), Ok(()));
    assert_eq!(builder, builder_of(Method::Put, "/x", 1, 0));
    assert_eq!(it.next(), Some(b'H'));
}

#[test]
fn method_names_are_case_sensitive() {
    assert_eq!(method(b"GET "), Ok(Method::Get));
    assert_eq!(method(b"get "), Ok(Method::Custom(Arc::new(b"get".to_vec()))));
    assert_eq!(method(b"Get "), Ok(Method::Custom(Arc::new(b"Get".to_vec()))));
    assert_eq!(method(b"GETS "), Ok(Method::Custom(Arc::new(b"GETS".to_vec()))));
    assert_eq!(method(b"GE "), Ok(Method::Custom(Arc::new(b"GE".to_vec()))));
}

#[test]
fn method_may_be_any_token() {
    assert_eq!(
        method(b"!#$%&'*+-.^_`|~09azAZ "),
        Ok(Method::Custom(Arc::new(b"!#$%&'*+-.^_`|~09azAZ".to_vec())))
    );
}

#[test]
fn method_may_be_empty() {
    assert_eq!(method(b" /"), Ok(Method::Custom(Arc::new(Vec::new()))));
}

#[test]
fn method_refuses_what_is_no_tchar() {
    assert_eq!(method(b"GE(T "), Err(ParseError::IllegalCharacter));
    assert_eq!(method(b"GET\t"), Err(ParseError::IllegalCharacter));
    assert_eq!(method(b"GET\r\n"), Err(ParseError::IllegalCharacter));
    assert_eq!(method(b"G\x80T "), Err(ParseError::IllegalCharacter));
    assert_eq!(method(b"/ "), Err(ParseError::IllegalCharacter));
}

#[test]
fn method_cut_short_is_eof() {
    assert_eq!(method(b""), Err(ParseError::EOF));
    assert_eq!(method(b"GET"), Err(ParseError::EOF));
}

#[test]
fn target_takes_each_allowed_byte_and_no_other() {
    for b in 0..=255u8 {
        let allowed = matches!(b, 0x21..=0x7e)
            && !matches!(b, b'"' | b'<' | b'>' | b'\\' | b'{' | b'}');
        let text = [b'/', b, b' '];
        let r = target(&text);
        if allowed {
            assert_eq!(r, Ok(String::from_utf8(vec![b'/', b]).unwrap()), "byte {}", b);
        } else if b == b' ' {
            assert_eq!(r, Ok(String::from("/")));
        } else {
            assert_eq!(r, Err(ParseError::IllegalCharacter), "byte {}", b);
        }
    }
}

#[test]
fn target_may_be_empty() {
    assert_eq!(target(b" HTTP/1.1"), Ok(String::new()));
}

#[test]
fn target_cut_short_is_eof() {
    assert_eq!(target(b""), Err(ParseError::EOF));
    assert_eq!(target(b"/x"), Err(ParseError::EOF));
}

#[test]
fn version_gives_the_two_numbers() {
    assert_eq!(version(b"HTTP/1.1\r\n"), Ok((1, 1)));
    assert_eq!(version(b"HTTP/0.9\r\n"), Ok((0, 9)));
    assert_eq!(version(b"HTTP/9.0\r\nrest"), Ok((9, 0)));
}

#[test]
fn version_refuses_another_literal() {
    assert_eq!(version(b"HTTX/1.1\r\n"), Err(ParseError::IllegalCharacter));
    assert_eq!(version(b"http/1.1\r\n"), Err(ParseError::IllegalCharacter));
    assert_eq!(version(b"HTTP 1.1\r\n"), Err(ParseError::IllegalCharacter));
    assert_eq!(version(b" HTTP/1.1\r\n"), Err(ParseError::IllegalCharacter));
}

#[test]
fn version_refuses_what_is_no_digit() {
    assert_eq!(version(b"HTTP/a.1\r\n"), Err(ParseError::IllegalCharacter));
    assert_eq!(version(b"HTTP/1.b\r\n"), Err(ParseError::IllegalCharacter));
    assert_eq!(version(b"HTTP//.1\r\n"), Err(ParseError::IllegalCharacter));
    assert_eq!(version(b"HTTP/1.:\r\n"), Err(ParseError::IllegalCharacter));
    assert_eq!(version(b"HTTP/11.1\r\n"), Err(ParseError::IllegalCharacter));
    assert_eq!(version(b"HTTP/1,1\r\n"), Err(ParseError::IllegalCharacter));
}

#[test]
fn version_refuses_a_missing_line_ending() {
    assert_eq!(version(b"HTTP/1.1 \r\n"), Err(ParseError::IllegalCharacter));
    assert_eq!(version(b"HTTP/1.1\n"), Err(ParseError::IllegalCharacter));
    assert_eq!(version(b"HTTP/1.1\r\r"), Err(ParseError::IllegalCharacter));
    assert_eq!(version(b"HTTP/1.1Host"), Err(ParseError::IllegalCharacter));
}

#[test]
fn version_cut_short_is_eof() {
    let whole = b"HTTP/1.1\r\n";
    for k in 0..whole.len() {
        assert_eq!(version(&whole[..k]), Err(ParseError::EOF), "cut at {}", k);
    }
}

#[test]
fn request_line_cut_short_is_eof() {
    let (r, _) = request_line("GET /x");
    assert_eq!(r, Err(ParseError::EOF));
    let whole = "GET /x HTTP/1.1\r\n";
    for k in 0..whole.len() {
        let (r, _) = request_line(&whole[..k]);
        assert_eq!(r, Err(ParseError::EOF), "cut at {}", k);
    }
}

#[test]
fn request_line_with_a_bad_version_is_illegal() {
    for text in [
        "GET / HTTP/1.1XY",
        "GET / HTTP/1.1\n",
        "GET / HTTX/1.1\r\n",
        "GET / FTP/1.1\r\n",
        "GET / HTTP/x.1\r\n",
        "GET / HTTP/1.y\r\n",
    ] {
        let (r, _) = request_line(text);
        assert_eq!(r, Err(ParseError::IllegalCharacter), "{:?}", text);
    }
}

#[test]
fn request_line_keeps_the_parts_found_before_a_failure() {
    let (r, builder) = request_line("POST /a b");
    assert_eq!(r, Err(ParseError::IllegalCharacter));
    let mut expected = RequestBuilder::new();
    expected.set_method(Method::Post);
    expected.set_target(String::from("/a"));
    assert_eq!(builder, expected);

    let (r, builder) = request_line("POST /\\ ");
    assert_eq!(r, Err(ParseError::IllegalCharacter));
    let mut expected = RequestBuilder::new();
    expected.set_method(Method::Post);
    assert_eq!(builder, expected);

    let (r, builder) = request_line("PO ST");
    assert_eq!(r, Err(ParseError::EOF));
    let mut expected = RequestBuilder::new();
    expected.set_method(Method::Custom(Arc::new(b"PO".to_vec())));
    assert_eq!(builder, expected);

    let (r, builder) = request_line("(");
    assert_eq!(r, Err(ParseError::IllegalCharacter));
    assert_eq!(builder, RequestBuilder::new());
}
