//! The parsers: from a byte cursor to the parts of a request.

use crate::error::ParseError;
use crate::grammar::{
    answers, enter_request_line, is_version_byte, request_wf, scan_method, scan_request,
    scan_request_line, scan_target, scan_version, target_class, token_class, Scan, CR, DOT, LF,
    SP,
};
use crate::laws::law_accepted_request_wf;
use crate::lemmas::{
    lemma_run_len, lemma_scan_request_line_prefix, lemma_scan_word_prefix, lemma_since_split,
    lemma_version_fit,
};
use crate::method::Method;
use crate::reader::{Cursor, StreamReader};
use crate::request::{Request, RequestBuilder};
use crate::source::ByteSource;
use crate::text::{bytes_of, is_ascii, to_text};
use crate::token::{is_token, TokenType};
use vstd::prelude::*;

verus! {

/// The bytes of a request line, taken in three stretches, that begin with a
/// method: what the stretches hold, as parts of the whole.
proof fn lemma_request_line_parts(c0: Cursor, c1: Cursor, c2: Cursor, c3: Cursor)
    requires
        c1.extends(c0),
        c2.extends(c1),
        c3.extends(c2),
        scan_method(c1.since(c0)) matches Scan::Done { used, .. } && used == c1.since(c0).len(),
        scan_target(c2.since(c1)) matches Scan::Done { used, .. } ==> used == c2.since(c1).len(),
        scan_target(c2.since(c1)) is Short ==> c3 == c2,
        scan_target(c2.since(c1)) is Illegal ==> c3 == c2,
    ensures
        c3.extends(c0),
        scan_method(c3.since(c0)) == scan_method(c1.since(c0)),
        c3.since(c0).skip(c1.since(c0).len() as int) == c3.since(c1),
        scan_target(c3.since(c1)) == scan_target(c2.since(c1)),
        scan_target(c2.since(c1)) is Done ==> c3.since(c0).skip(
            (c1.since(c0).len() + c2.since(c1).len()) as int,
        ) == c3.since(c2),
{
    lemma_since_split(c0, c1, c2);
    lemma_since_split(c0, c1, c3);
    lemma_since_split(c1, c2, c3);
    lemma_since_split(c0, c2, c3);
    lemma_scan_word_prefix(c1.since(c0), c3.since(c0), token_class());
    if scan_target(c2.since(c1)) is Done {
        lemma_scan_word_prefix(c2.since(c1), c3.since(c1), target_class());
        assert(c3.since(c0).skip((c1.since(c0).len() + c2.since(c1).len()) as int) =~= c3.since(
            c2,
        ));
    }
}

/// The five bytes `HTTP/`, with which a version begins.
const HTTP: [u8; 5] = [0x48, 0x54, 0x54, 0x50, 0x2f];

/// The constant above spells `HTTP/`.
proof fn lemma_http()
    ensures
        HTTP@ == bytes_of("HTTP/"@),
{
    reveal_strlit("HTTP/");
    assert(HTTP@ =~= bytes_of("HTTP/"@));
}

impl Request {
    /// Parse a request stream: read the head of a request from `stream`, up
    /// to and with the empty line that ends the headers.
    ///
    /// The bytes are read through a [`StreamReader`] on `stream`, and what is
    /// returned is what the grammar makes of the bytes that this reader hands
    /// out, as [`Request::parse`] says. Which bytes those are lies with
    /// `stream`: the reader hands out what `stream` writes, in its order, as
    /// [`StreamReader::refill`] says of each answer of `stream`, and takes
    /// the first answer without bytes for the end. Of `stream` nothing is
    /// known here, so of the result this much: it is what the grammar makes
    /// of some bytes, and a request that is returned is well-formed.
    pub fn from<T: ByteSource>(stream: &mut T) -> (r: Result<Request, ParseError>)
        ensures
            exists|s: Seq<u8>, stopped: bool| answers(r, scan_request(s), s, stopped),
            r matches Ok(request) ==> request_wf(request@),
    {
        let mut it = StreamReader::from(stream);
        let r = Request::parse(&mut it);
        assert(answers(r, scan_request(it@.taken), it@.taken, it@.stopped)) by {
            assert(it@.taken.skip(0) =~= it@.taken);
        }
        r
    }

    /// Parse the head of a request from `it`: the request line and the
    /// headers, up to and with the empty line that ends them. The request
    /// that is returned has no body.
    pub fn parse<T: ByteSource>(it: &mut StreamReader<T>) -> (r: Result<Request, ParseError>)
        requires
            old(it).wf(),
        ensures
            final(it).wf(),
            final(it)@.extends(old(it)@),
            answers(
                r,
                scan_request(final(it)@.since(old(it)@)),
                final(it)@.since(old(it)@),
                final(it)@.stopped,
            ),
            r matches Ok(request) ==> request_wf(request@),
    {
        let ghost c0 = it@;
        let mut builder = RequestBuilder::new();
        match Request::parse_request_line(&mut builder, it) {
            Ok(()) => {},
            Err(e) => {
                return Err(e);
            },
        }
        let ghost c1 = it@;
        let parsed = Request::parse_headers(&mut builder, it);
        proof {
            lemma_since_split(c0, c1, it@);
            lemma_scan_request_line_prefix(c1.since(c0), it@.since(c0));
        }
        match parsed {
            Ok(()) => {},
            Err(e) => {
                return Err(e);
            },
        }
        proof {
            law_accepted_request_wf(it@.since(c0));
        }
        Ok(builder.into_request().unwrap())
    }

    /// Parse the request line, which is the first line of the request, and
    /// set in `builder` what it says.
    ///
    /// It should have the form `Method Target HTTP/Version`, as defined in
    /// [RFC 7230 §3.1.1](https://tools.ietf.org/html/rfc7230#section-3.1.1).
    /// Where it has not, the parts that were found before the failure are
    /// set all the same.
    pub fn parse_request_line<T: ByteSource>(
        builder: &mut RequestBuilder,
        it: &mut StreamReader<T>,
    ) -> (r: Result<(), ParseError>)
        requires
            old(it).wf(),
        ensures
            final(it).wf(),
            final(it)@.extends(old(it)@),
            answers(
                r,
                scan_request_line(final(it)@.since(old(it)@)).plain(),
                final(it)@.since(old(it)@),
                final(it)@.stopped,
            ),
            final(builder)@ == enter_request_line(old(builder)@, final(it)@.since(old(it)@)),
    {
        let ghost c0 = it@;
        // Request method
        let method = match Request::parse_request_method(it) {
            Ok(method) => method,
            Err(e) => {
                return Err(e);
            },
        };
        builder.set_method(method);
        let ghost c1 = it@;

        // Target
        let target = match Request::parse_request_target(it) {
            Ok(target) => target,
            Err(e) => {
                proof {
                    lemma_request_line_parts(c0, c1, it@, it@);
                }
                return Err(e);
            },
        };
        builder.set_target(target);
        let ghost c2 = it@;

        // Version
        let version = match Request::parse_request_version(it) {
            Ok(version) => version,
            Err(e) => {
                proof {
                    lemma_request_line_parts(c0, c1, c2, it@);
                }
                return Err(e);
            },
        };
        builder.set_version(version.0, version.1);
        proof {
            lemma_request_line_parts(c0, c1, c2, it@);
        }
        Ok(())
    }

    /// Parse the method (GET, POST, etc). It is a token, treated
    /// case-sensitively, and it is followed by a single space (according to
    /// [RFC 7230 §3.1.1](https://tools.ietf.org/html/rfc7230#section-3.1.1)).
    pub fn parse_request_method<T: ByteSource>(it: &mut StreamReader<T>) -> (r: Result<
        Method,
        ParseError,
    >)
        requires
            old(it).wf(),
        ensures
            final(it).wf(),
            final(it)@.extends(old(it)@),
            answers(
                r,
                scan_method(final(it)@.since(old(it)@)),
                final(it)@.since(old(it)@),
                final(it)@.stopped,
            ),
    {
        let mut method: Vec<u8> = Vec::new();
        loop
            invariant
                it.wf(),
                it@.extends(old(it)@),
                it@.since(old(it)@) == method@,
                is_token(method@),
            decreases u64::MAX - it@.taken.len(),
        {
            match it.next() {
                Some(b) => {
                    assert(it@.since(old(it)@) =~= method@.push(b));
                    match TokenType::from(b) {
                        TokenType::TChar(c) => method.push(c),
                        TokenType::Invalid(c) => {
                            proof {
                                let s = it@.since(old(it)@);
                                lemma_run_len(s, token_class(), method@.len());
                                assert(s.take(method@.len() as int) =~= method@);
                            }
                            if c == SP {
                                return Ok(Method::from(method));
                            } else {
                                return Err(ParseError::IllegalCharacter);
                            }
                        },
                    }
                },
                None => {
                    proof {
                        lemma_run_len(method@, token_class(), method@.len());
                    }
                    return Err(ParseError::EOF);
                },
            }
        }
    }

    /// Parse the target (requested resource). The most general form is
    /// visible characters followed by a single space, though more restrictive
    /// parsing would be permitted as defined in
    /// [RFC 7230 §5.3](https://tools.ietf.org/html/rfc7230#section-5.3).
    pub fn parse_request_target<T: ByteSource>(it: &mut StreamReader<T>) -> (r: Result<
        String,
        ParseError,
    >)
        requires
            old(it).wf(),
        ensures
            final(it).wf(),
            final(it)@.extends(old(it)@),
            answers(
                r,
                scan_target(final(it)@.since(old(it)@)),
                final(it)@.since(old(it)@),
                final(it)@.stopped,
            ),
    {
        let mut target: Vec<u8> = Vec::new();
        loop
            invariant
                it.wf(),
                it@.extends(old(it)@),
                it@.since(old(it)@) == target@,
                forall|i: int| 0 <= i < target@.len() ==> target_class()(#[trigger] target@[i]),
            decreases u64::MAX - it@.taken.len(),
        {
            match it.next() {
                Some(b) => {
                    assert(it@.since(old(it)@) =~= target@.push(b));
                    match b {
                        // Allowed characters in URLs per
                        // [RFC 3986](https://tools.ietf.org/html/rfc3986#appendix-A)
                        0x21 | 0x23..=0x3b | 0x3d | 0x3f..=0x5b | 0x5d..=0x7a | 0x7c | 0x7e => {
                            target.push(b)
                        },
                        _ => {
                            proof {
                                let s = it@.since(old(it)@);
                                lemma_run_len(s, target_class(), target@.len());
                                assert(s.take(target@.len() as int) =~= target@);
                                assert(is_ascii(target@)) by {
                                    assert forall|i: int| 0 <= i < target@.len() implies #[trigger]
                                    target@[i] < 0x80 by {
                                        assert(target_class()(target@[i]));
                                    }
                                }
                            }
                            if b == SP {
                                return to_text(target);
                            } else {
                                return Err(ParseError::IllegalCharacter);
                            }
                        },
                    }
                },
                None => {
                    proof {
                        lemma_run_len(target@, target_class(), target@.len());
                    }
                    return Err(ParseError::EOF);
                },
            }
        }
    }

    /// Parse the HTTP version, which should be HTTP/maj.min, where maj and
    /// min are single digits, as defined in
    /// [RFC 7230 §2.6](https://tools.ietf.org/html/rfc7230#section-2.6). The
    /// version ends the request line, so the line ending is parsed with it.
    pub fn parse_request_version<T: ByteSource>(it: &mut StreamReader<T>) -> (r: Result<
        (u8, u8),
        ParseError,
    >)
        requires
            old(it).wf(),
        ensures
            final(it).wf(),
            final(it)@.extends(old(it)@),
            answers(
                r,
                scan_version(final(it)@.since(old(it)@)),
                final(it)@.since(old(it)@),
                final(it)@.stopped,
            ),
    {
        proof {
            lemma_http();
        }
        let mut i: usize = 0;
        while i < 5
            invariant
                it.wf(),
                it@.extends(old(it)@),
                i <= 5,
                it@.since(old(it)@).len() == i,
                forall|j: int| 0 <= j < i ==> is_version_byte(j, #[trigger] it@.since(old(it)@)[j]),
                HTTP@ == bytes_of("HTTP/"@),
            decreases 5 - i,
        {
            let ghost before = it@.since(old(it)@);
            match it.next() {
                Some(b) => {
                    assert(it@.since(old(it)@) =~= before.push(b));
                    if b != HTTP[i] {
                        proof {
                            lemma_version_fit(it@.since(old(it)@), i as nat);
                        }
                        return Err(ParseError::IllegalCharacter);
                    }
                },
                None => {
                    proof {
                        lemma_version_fit(before, i as nat);
                    }
                    return Err(ParseError::EOF);
                },
            }
            i += 1;
        }
        let ghost before = it@.since(old(it)@);
        let major = match it.next() {
            Some(n) => {
                assert(it@.since(old(it)@) =~= before.push(n));
                if n >= 48 && n <= 57 {
                    n - 48
                } else {
                    proof {
                        lemma_version_fit(it@.since(old(it)@), 5);
                    }
                    return Err(ParseError::IllegalCharacter);
                }
            },
            None => {
                proof {
                    lemma_version_fit(before, 5);
                }
                return Err(ParseError::EOF);
            },
        };
        let ghost before = it@.since(old(it)@);
        match it.next() {
            Some(b) => {
                assert(it@.since(old(it)@) =~= before.push(b));
                if b != DOT {
                    proof {
                        lemma_version_fit(it@.since(old(it)@), 6);
                    }
                    return Err(ParseError::IllegalCharacter);
                }
            },
            None => {
                proof {
                    lemma_version_fit(before, 6);
                }
                return Err(ParseError::EOF);
            },
        }
        let ghost before = it@.since(old(it)@);
        let minor = match it.next() {
            Some(n) => {
                assert(it@.since(old(it)@) =~= before.push(n));
                if n >= 48 && n <= 57 {
                    n - 48
                } else {
                    proof {
                        lemma_version_fit(it@.since(old(it)@), 7);
                    }
                    return Err(ParseError::IllegalCharacter);
                }
            },
            None => {
                proof {
                    lemma_version_fit(before, 7);
                }
                return Err(ParseError::EOF);
            },
        };
        // Should now be at the end of the request line
        let ghost before = it@.since(old(it)@);
        match it.next() {
            Some(b) => {
                assert(it@.since(old(it)@) =~= before.push(b));
                if b != CR {
                    proof {
                        lemma_version_fit(it@.since(old(it)@), 8);
                    }
                    return Err(ParseError::IllegalCharacter);
                }
            },
            None => {
                proof {
                    lemma_version_fit(before, 8);
                }
                return Err(ParseError::EOF);
            },
        }
        let ghost before = it@.since(old(it)@);
        match it.next() {
            Some(b) => {
                assert(it@.since(old(it)@) =~= before.push(b));
                if b != LF {
                    proof {
                        lemma_version_fit(it@.since(old(it)@), 9);
                    }
                    return Err(ParseError::IllegalCharacter);
                }
            },
            None => {
                proof {
                    lemma_version_fit(before, 9);
                }
                return Err(ParseError::EOF);
            },
        }
        proof {
            lemma_version_fit(it@.since(old(it)@), 10);
        }
        Ok((major, minor))
    }
}

} // verus!
