use http_request::{ByteSource, ParseError, Request, RequestBuilder, StreamReader, BUFFER_SIZE};

/// A source that gives the bytes of a slice.
struct SliceReader<'a> {
    data: &'a [u8],
}

impl<'a> ByteSource for SliceReader<'a> {
    fn read(&mut self, buf: &mut [u8; BUFFER_SIZE]) -> Option<usize> {
        let n = self.data.len().min(buf.len());
        buf[..n].copy_from_slice(&self.data[..n]);
        self.data = &self.data[n..];
        Some(n)
    }
}

fn headers(block: &[u8]) -> (Result<(), ParseError>, RequestBuilder) {
    let mut builder = RequestBuilder::new();
    let mut source = SliceReader { data: block };
    let mut it = StreamReader::from(&mut source);
    let r = Request::parse_headers(&mut builder, &mut it);
    (r, builder)
}

fn builder_with(fields: &[(&str, &str)]) -> RequestBuilder {
    let mut builder = RequestBuilder::new();
    for (name, value) in fields {
        builder.add_header(String::from(*name), String::from(*value));
    }
    builder
}

#[test]
fn header_round_trip() {
    let (r, builder) = headers(b"Name: value\r\n\r\n");
    assert_eq!(r, Ok(()));
    assert_eq!(builder, builder_with(&[("Name", "value")]));
}

#[test]
fn header_last_occurrence_wins() {
    let (r, builder) = headers(b"A: 1\r\nA: 2\r\n\r\n");
    assert_eq!(r, Ok(()));
    assert_eq!(builder, builder_with(&[("A", "2")]));
    assert_ne!(builder, builder_with(&[("A", "1")]));
}

#[test]
fn header_names_are_case_sensitive() {
    let (r, builder) = headers(b"a: 1\r\nA: 2\r\n\r\n");
    assert_eq!(r, Ok(()));
    assert_eq!(builder, builder_with(&[("a", "1"), ("A", "2")]));
}

#[test]
fn header_block_may_be_empty() {
    let (r, builder) = headers(b"\r\n");
    assert_eq!(r, Ok(()));
    assert_eq!(builder, RequestBuilder::new());
}

#[test]
fn header_block_ends_with_the_empty_line() {
    let mut builder = RequestBuilder::new();
    let mut source = SliceReader { data: b"Host: example.org\r\n\r\nbody" };
    let mut it = StreamReader::from(&mut source);
    assert_eq!(Request::parse_headers(&mut builder, &mut it), Ok(()));
    assert_eq!(builder, builder_with(&[("Host", "example.org")]));
    assert_eq!(it.next(), Some(b'b'));
}

#[test]
fn header_several_fields() {
    let (r, builder) = headers(
        b"Host: example.org\r\nAccept: */*\r\nX-Empty:\r\nUser-Agent: t/1.0 (x; y)\r\n\r\n",
    );
    assert_eq!(r, Ok(()));
    assert_eq!(
        builder,
        builder_with(&[
            ("User-Agent", "t/1.0 (x; y)"),
            ("X-Empty", ""),
            ("Accept", "*/*"),
            ("Host", "example.org"),
        ])
    );
}

#[test]
fn header_value_loses_the_blanks_before_it_and_no_others() {
    let (r, builder) = headers(b"A: \t  b c \t\r\n\r\n");
    assert_eq!(r, Ok(()));
    assert_eq!(builder, builder_with(&[("A", "b c \t")]));

    let (r, builder) = headers(b"A:b\r\n\r\n");
    assert_eq!(r, Ok(()));
    assert_eq!(builder, builder_with(&[("A", "b")]));

    let (r, builder) = headers(b"A:   \r\n\r\n");
    assert_eq!(r, Ok(()));
    assert_eq!(builder, builder_with(&[("A", "")]));
}

#[test]
fn header_value_drops_bytes_that_are_not_ascii() {
    let (r, builder) = headers(b"N: caf\xc3\xa9 au lait\xff\r\n\r\n");
    assert_eq!(r, Ok(()));
    assert_eq!(builder, builder_with(&[("N", "caf au lait")]));

    let (r, builder) = headers(b"N: \x80\x81\r\n\r\n");
    assert_eq!(r, Ok(()));
    assert_eq!(builder, builder_with(&[("N", "")]));
}

#[test]
fn header_value_keeps_blanks_behind_a_dropped_byte() {
    let (r, builder) = headers(b"N: \x80 x\r\n\r\n");
    assert_eq!(r, Ok(()));
    assert_eq!(builder, builder_with(&[("N", " x")]));
}

#[test]
fn header_value_takes_each_kept_byte_and_refuses_the_control_characters() {
    for b in 0..=255u8 {
        let block = [b'N', b':', b'x', b, b'y', b'\r', b'\n', b'\r', b'\n'];
        let (r, builder) = headers(&block);
        if b == b'\t' || (0x20..=0x7e).contains(&b) {
            let value = String::from_utf8(vec![b'x', b, b'y']).unwrap();
            assert_eq!(r, Ok(()), "byte {}", b);
            assert_eq!(builder, builder_with(&[("N", value.as_str())]), "byte {}", b);
        } else if b >= 0x80 {
            assert_eq!(r, Ok(()), "byte {}", b);
            assert_eq!(builder, builder_with(&[("N", "xy")]), "byte {}", b);
        } else {
            // a carriage return ends the value, and `y` is no line feed
            assert_eq!(r, Err(ParseError::IllegalCharacter), "byte {}", b);
        }
    }
}

#[test]
fn header_name_takes_each_tchar_and_no_other() {
    for b in 0..=255u8 {
        let tchar = b.is_ascii_alphanumeric() || b"!#$%&'*+-.^_`|~".contains(&b);
        let block = [b'N', b, b':', b'v', b'\r', b'\n', b'\r', b'\n'];
        let (r, builder) = headers(&block);
        if tchar {
            let name = String::from_utf8(vec![b'N', b]).unwrap();
            assert_eq!(r, Ok(()), "byte {}", b);
            assert_eq!(builder, builder_with(&[(name.as_str(), "v")]), "byte {}", b);
        } else if b == b':' {
            assert_eq!(r, Ok(()));
            assert_eq!(builder, builder_with(&[("N", ":v")]));
        } else {
            assert_eq!(r, Err(ParseError::IllegalCharacter), "byte {}", b);
            assert_eq!(builder, RequestBuilder::new());
        }
    }
}

#[test]
fn header_name_with_a_space_is_illegal() {
    let (r, builder) = headers(b"Bad Name: v\r\n");
    assert_eq!(r, Err(ParseError::IllegalCharacter));
    assert_eq!(builder, RequestBuilder::new());

    let (r, _) = headers(b"Name : v\r\n\r\n");
    assert_eq!(r, Err(ParseError::IllegalCharacter));

    let (r, _) = headers(b" Name: v\r\n\r\n");
    assert_eq!(r, Err(ParseError::IllegalCharacter));
}

#[test]
fn header_name_may_be_empty() {
    let (r, builder) = headers(b": v\r\n\r\n");
    assert_eq!(r, Ok(()));
    assert_eq!(builder, builder_with(&[("", "v")]));
}

#[test]
fn header_line_must_end_with_cr_and_lf() {
    let (r, _) = headers(b"A: b\n\r\n");
    assert_eq!(r, Err(ParseError::IllegalCharacter));
    let (r, builder) = headers(b"A: b\rX");
    assert_eq!(r, Err(ParseError::IllegalCharacter));
    assert_eq!(builder, builder_with(&[("A", "b")]));
    let (r, _) = headers(b"A: b\r\r\n");
    assert_eq!(r, Err(ParseError::IllegalCharacter));
}

#[test]
fn header_block_must_end_with_cr_and_lf() {
    let (r, _) = headers(b"\rX");
    assert_eq!(r, Err(ParseError::IllegalCharacter));
    let (r, _) = headers(b"\n");
    assert_eq!(r, Err(ParseError::IllegalCharacter));
    let (r, builder) = headers(b"A: b\r\n\r\r");
    assert_eq!(r, Err(ParseError::IllegalCharacter));
    assert_eq!(builder, builder_with(&[("A", "b")]));
}

#[test]
fn header_block_cut_short_is_eof() {
    let whole = b"Host: a\r\nX: \x80y\r\n\r\n";
    for k in 0..whole.len() {
        let (r, _) = headers(&whole[..k]);
        assert_eq!(r, Err(ParseError::EOF), "cut at {}", k);
    }
    let (r, builder) = headers(whole);
    assert_eq!(r, Ok(()));
    assert_eq!(builder, builder_with(&[("Host", "a"), ("X", "y")]));
}

#[test]
fn header_block_keeps_the_fields_found_before_a_failure() {
    let (r, builder) = headers(b"A: 1\r\nB: 2\r\nC");
    assert_eq!(r, Err(ParseError::EOF));
    assert_eq!(builder, builder_with(&[("A", "1"), ("B", "2")]));

    let (r, builder) = headers(b"A: 1\r\nB: \x01\r\n\r\n");
    assert_eq!(r, Err(ParseError::IllegalCharacter));
    assert_eq!(builder, builder_with(&[("A", "1")]));
}

#[test]
fn header_fields_are_added_to_those_that_are_there() {
    let mut builder = builder_with(&[("A", "old"), ("Z", "stays")]);
    let mut source = SliceReader { data: b"A: new\r\nB: 2\r\n\r\n" };
    let mut it = StreamReader::from(&mut source);
    assert_eq!(Request::parse_headers(&mut builder, &mut it), Ok(()));
    assert_eq!(builder, builder_with(&[("A", "new"), ("B", "2"), ("Z", "stays")]));
}

#[test]
fn header_block_longer_than_the_buffer() {
    let mut block = Vec::new();
    let mut expected = RequestBuilder::new();
    for i in 0..200 {
        let name = format!("X-Field-{}", i);
        let value = format!("value number {}", i);
        block.extend_from_slice(format!("{}:  {}\r\n", name, value).as_bytes());
        expected.add_header(name, value);
    }
    block.extend_from_slice(b"\r\n");
    assert!(block.len() > 2 * BUFFER_SIZE);
    let (r, builder) = headers(&block);
    assert_eq!(r, Ok(()));
    assert_eq!(builder, expected);
}
