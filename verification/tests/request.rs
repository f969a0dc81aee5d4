use http_request::{ByteSource, Method, ParseError, Request, RequestBuilder, BUFFER_SIZE};
use http_request::{Headers, StreamReader};
use std::sync::Arc;

/// A source that gives its bytes in pieces of at most `piece` bytes.
struct Pieces {
    data: Vec<u8>,
    at: usize,
    piece: usize,
}

impl Pieces {
    fn new(data: &[u8], piece: usize) -> Pieces {
        Pieces { data: data.to_vec(), at: 0, piece }
    }
}

impl ByteSource for Pieces {
    fn read(&mut self, buf: &mut [u8; BUFFER_SIZE]) -> Option<usize> {
        let n = (self.data.len() - self.at).min(self.piece).min(buf.len());
        buf[..n].copy_from_slice(&self.data[self.at..self.at + n]);
        self.at += n;
        Some(n)
    }
}

/// A source of which every read fails.
struct Broken;

impl ByteSource for Broken {
    fn read(&mut self, _buf: &mut [u8; BUFFER_SIZE]) -> Option<usize> {
        None
    }
}

fn request_of(
    method: Method,
    target: &str,
    version: (u8, u8),
    fields: &[(&str, &str)],
) -> Request {
    let mut builder = RequestBuilder::new();
    builder.set_version(version.0, version.1);
    builder.set_method(method);
    builder.set_target(String::from(target));
    for (name, value) in fields {
        builder.add_header(String::from(*name), String::from(*value));
    }
    builder.into_request().unwrap()
}

#[test]
fn request_end_to_end() {
    let mut source = Pieces::new(b"GET /test/path?k=v&k2 HTTP/1.1\r\n\r\n", 1024);
    let request = Request::from(&mut source).unwrap();
    assert_eq!(request.get_version(), (1, 1));
    assert_eq!(request.get_method(), &Method::Get);
    assert_eq!(request.get_target(), "/test/path?k=v&k2");
    assert_eq!(request.get_headers().len(), 0);
    assert_eq!(request.get_headers(), &Headers::new());
    assert_eq!(request.get_body(), None);
    assert_eq!(request, request_of(Method::Get, "/test/path?k=v&k2", (1, 1), &[]));
}

#[test]
fn request_with_headers() {
    let text = b"POST /submit HTTP/1.0\r\nHost: example.org\r\nContent-Length:  3\r\n\r\nabc";
    let mut source = Pieces::new(text, 1024);
    let request = Request::from(&mut source).unwrap();
    assert_eq!(request.get_version(), (1, 0));
    assert_eq!(request.get_method(), &Method::Post);
    assert_eq!(request.get_target(), "/submit");
    assert_eq!(request.get_headers().len(), 2);
    assert_eq!(request.get_headers().get("Host"), Some("example.org"));
    assert_eq!(request.get_headers().get("Content-Length"), Some("3"));
    assert_eq!(request.get_headers().get("host"), None);
    // the body is not read
    assert_eq!(request.get_body(), None);
}

#[test]
fn request_with_another_method() {
    let mut source = Pieces::new(b"PURGE /cache HTTP/1.1\r\n\r\n", 1024);
    let request = Request::from(&mut source).unwrap();
    assert_eq!(request.get_method(), &Method::Custom(Arc::new(b"PURGE".to_vec())));
}

#[test]
fn request_parsed_twice_is_the_same() {
    let text =
        b"GET /a?b=c HTTP/1.1\r\nHost: h\r\nB: 2\r\nA: 1\r\nB: 3\r\nX: caf\xc3\xa9\r\n\r\nrest";
    let mut first_source = Pieces::new(text, 1024);
    let mut second_source = Pieces::new(text, 1);
    let mut third_source = Pieces::new(text, 7);
    let first = Request::from(&mut first_source).unwrap();
    let second = Request::from(&mut second_source).unwrap();
    let third = Request::from(&mut third_source).unwrap();
    assert_eq!(first, second);
    assert_eq!(first, third);
    assert_eq!(
        first,
        request_of(
            Method::Get,
            "/a?b=c",
            (1, 1),
            &[("A", "1"), ("B", "3"), ("Host", "h"), ("X", "caf")]
        )
    );
}

#[test]
fn request_takes_the_head_and_no_more() {
    let text = b"GET / HTTP/1.1\r\nA: b\r\n\r\nGET /next HTTP/1.1\r\n\r\n";
    let mut source = Pieces::new(text, 1024);
    let mut it = StreamReader::from(&mut source);
    let first = Request::parse(&mut it).unwrap();
    assert_eq!(first, request_of(Method::Get, "/", (1, 1), &[("A", "b")]));
    let second = Request::parse(&mut it).unwrap();
    assert_eq!(second, request_of(Method::Get, "/next", (1, 1), &[]));
    assert_eq!(Request::parse(&mut it), Err(ParseError::EOF));
}

#[test]
fn request_cut_short_is_eof() {
    let whole = b"GET /x HTTP/1.1\r\nHost: a\r\n\r\n";
    for k in 0..whole.len() {
        let mut source = Pieces::new(&whole[..k], 3);
        assert_eq!(Request::from(&mut source), Err(ParseError::EOF), "cut at {}", k);
    }
    let mut source = Pieces::new(b"GET /x", 1024);
    assert_eq!(Request::from(&mut source), Err(ParseError::EOF));
}

#[test]
fn request_from_a_broken_source_is_eof() {
    assert_eq!(Request::from(&mut Broken), Err(ParseError::EOF));
}

#[test]
fn request_with_an_illegal_byte_is_refused() {
    for text in [
        &b"G\x00T / HTTP/1.1\r\n\r\n"[..],
        b"GET /a\"b HTTP/1.1\r\n\r\n",
        b"GET / HTTP/1.1\r\r\n",
        b"GET / HTTP/1.1\r\nBad Name: v\r\n\r\n",
        b"GET / HTTP/1.1\r\nName: v\x07\r\n\r\n",
        b"GET / HTTP/1.1\r\nName: v\r\n\rX",
    ] {
        let mut source = Pieces::new(text, 5);
        let r = Request::from(&mut source);
        assert_eq!(r, Err(ParseError::IllegalCharacter), "{:?}", text);
        assert_eq!(r.unwrap_err().http_response_code(), Some(400));
    }
}

#[test]
fn request_equality_does_not_mind_the_order_of_the_headers() {
    let a = request_of(Method::Head, "/", (1, 1), &[("A", "1"), ("B", "2"), ("C", "3")]);
    let b =
        request_of(Method::Head, "/", (1, 1), &[("C", "3"), ("A", "0"), ("B", "2"), ("A", "1")]);
    assert_eq!(a, b);
    let c = request_of(Method::Head, "/", (1, 1), &[("A", "1"), ("B", "2")]);
    assert_ne!(a, c);
    let d = request_of(Method::Head, "/", (1, 1), &[("A", "1"), ("B", "2"), ("C", "4")]);
    assert_ne!(a, d);
    let e = request_of(Method::Head, "/", (1, 1), &[("A", "1"), ("B", "2"), ("D", "3")]);
    assert_ne!(a, e);
    assert_ne!(a, request_of(Method::Get, "/", (1, 1), &[("A", "1"), ("B", "2"), ("C", "3")]));
    assert_ne!(a, request_of(Method::Head, "/x", (1, 1), &[("A", "1"), ("B", "2"), ("C", "3")]));
    assert_ne!(a, request_of(Method::Head, "/", (1, 0), &[("A", "1"), ("B", "2"), ("C", "3")]));
}
