//! The parser of the header block: an automaton that takes one byte at a
//! time, as specified in
//! [RFC 7230 §3.2](https://tools.ietf.org/html/rfc7230#section-3.2).

use crate::error::ParseError;
use crate::grammar::{
    answers, enter_headers, header_run, header_step, is_value_byte, scan_headers, FieldView,
    HeaderEnd, HeaderState, HeaderStep, COLON, CR, HTAB, LF, SP,
};
use crate::lemmas::{lemma_enter_all_push, lemma_header_run_push};
use crate::reader::StreamReader;
use crate::request::{Request, RequestBuilder, RequestBuilderView};
use crate::source::ByteSource;
use crate::text::{is_ascii, to_text};
use crate::token::{is_token, TokenType};
use vstd::prelude::*;

verus! {

/// The current state of the parser.
enum ParserState {
    /// After a new line, ready to parse the header name
    Start,
    /// Currently parsing the header name
    Name { partial: Vec<u8> },
    /// Currently parsing the whitespace after the : but before the value
    ValueLeadingWS { name: String },
    /// Currently parsing the value
    Value { name: String, partial: Vec<u8> },
    /// Currently parsing the new line (CR (here) LF)
    NewLine,
    /// Currently parsing the final new line (CR LF CR (here) LF)
    FinalNewLine,
}

impl View for ParserState {
    type V = HeaderState;

    closed spec fn view(&self) -> HeaderState {
        match self {
            ParserState::Start => HeaderState::Start,
            ParserState::Name { partial } => HeaderState::Name { partial: partial@ },
            ParserState::ValueLeadingWS { name } => HeaderState::ValueLeadingWS { name: name@ },
            ParserState::Value { name, partial } => HeaderState::Value {
                name: name@,
                partial: partial@,
            },
            ParserState::NewLine => HeaderState::NewLine,
            ParserState::FinalNewLine => HeaderState::FinalNewLine,
        }
    }
}

/// What a step of the parser leaves in the builder: the field of the step
/// entered, where it has one.
spec fn entered(builder: RequestBuilderView, field: Option<FieldView>) -> RequestBuilderView {
    match field {
        Some(field) => RequestBuilderView {
            headers: builder.headers.insert(field.0, field.1),
            ..builder
        },
        None => builder,
    }
}

/// Whether `r` and `builder` are what the step `step` asks for, `before`
/// being the builder before the step.
spec fn follows(
    r: Result<Option<ParserState>, ParseError>,
    builder: RequestBuilderView,
    step: HeaderStep,
    before: RequestBuilderView,
) -> bool {
    match step {
        HeaderStep::Next { state, field } => {
            &&& r matches Ok(Some(next))
            &&& next@ == state
            &&& next.wf()
            &&& builder == entered(before, field)
        },
        HeaderStep::End => r == Ok::<Option<ParserState>, ParseError>(None) && builder == before,
        HeaderStep::Illegal => r == Err::<Option<ParserState>, ParseError>(
            ParseError::IllegalCharacter,
        ) && builder == before,
    }
}

impl ParserState {
    /// The invariant of the states: what has been read of a name is a token,
    /// and what has been kept of a value is made of the bytes that are kept.
    spec fn wf(&self) -> bool {
        match self {
            ParserState::Name { partial } => is_token(partial@),
            ParserState::Value { partial, .. } => forall|i: int|
                0 <= i < partial@.len() ==> is_value_byte(#[trigger] partial@[i]),
            _ => true,
        }
    }

    /// The step on `b` in the name of a field, of which `partial` has been
    /// read.
    fn in_name(partial: Vec<u8>, b: u8) -> (r: Result<Option<ParserState>, ParseError>)
        requires
            is_token(partial@),
        ensures
            forall|builder: RequestBuilderView|
                follows(
                    r,
                    builder,
                    header_step(HeaderState::Name { partial: partial@ }, b),
                    builder,
                ),
    {
        let mut partial = partial;
        match TokenType::from(b) {
            TokenType::TChar(c) => {
                partial.push(c);
                Ok(Some(ParserState::Name { partial }))
            },
            TokenType::Invalid(c) => {
                if c == COLON {
                    proof {
                        assert(is_ascii(partial@)) by {
                            assert forall|i: int| 0 <= i < partial@.len() implies #[trigger]
                            partial@[i] < 0x80 by {
                                assert(crate::token::is_tchar(partial@[i]));
                            }
                        }
                    }
                    // The name is made of ASCII characters, so it is a text
                    match to_text(partial) {
                        Ok(name) => Ok(Some(ParserState::ValueLeadingWS { name })),
                        Err(e) => Err(e),
                    }
                } else {
                    Err(ParseError::IllegalCharacter)
                }
            },
        }
    }

    /// The step on `b` in the value of the field `name`, of which `partial`
    /// has been kept. A field that the step completes is added to `builder`.
    fn in_value(name: String, partial: Vec<u8>, b: u8, builder: &mut RequestBuilder) -> (r: Result<
        Option<ParserState>,
        ParseError,
    >)
        requires
            forall|i: int| 0 <= i < partial@.len() ==> is_value_byte(#[trigger] partial@[i]),
        ensures
            follows(
                r,
                final(builder)@,
                header_step(HeaderState::Value { name: name@, partial: partial@ }, b),
                old(builder)@,
            ),
    {
        let mut partial = partial;
        if b == HTAB || (b >= 0x20 && b <= 0x7e) {
            partial.push(b);
            Ok(Some(ParserState::Value { name, partial }))
        } else if b >= 0x80 {
            // Header values are kept as text, so bytes that are not ASCII
            // have no place in them: they are silently discarded
            Ok(Some(ParserState::Value { name, partial }))
        } else if b == CR {
            proof {
                assert(is_ascii(partial@)) by {
                    assert forall|i: int| 0 <= i < partial@.len() implies #[trigger] partial@[i]
                        < 0x80 by {
                        assert(is_value_byte(partial@[i]));
                    }
                }
            }
            // What was kept of the value is ASCII, so it is a text
            match to_text(partial) {
                Ok(value) => {
                    // Store the header
                    builder.add_header(name, value);
                    // Transition to expect the LF
                    Ok(Some(ParserState::NewLine))
                },
                Err(e) => Err(e),
            }
        } else {
            Err(ParseError::IllegalCharacter)
        }
    }

    /// The step of the parser on the byte `b`: the state that follows, or
    /// `None` where the byte ends the header block. A field that the step
    /// completes is added to `builder`.
    fn advance(self, b: u8, builder: &mut RequestBuilder) -> (r: Result<
        Option<ParserState>,
        ParseError,
    >)
        requires
            self.wf(),
        ensures
            follows(r, final(builder)@, header_step(self@, b), old(builder)@),
    {
        match self {
            ParserState::Start => {
                if b == CR {
                    Ok(Some(ParserState::FinalNewLine))
                } else {
                    // Move straight into Name without consuming this character
                    ParserState::in_name(Vec::new(), b)
                }
            },
            ParserState::Name { partial } => ParserState::in_name(partial, b),
            ParserState::ValueLeadingWS { name } => {
                if b == SP || b == HTAB {
                    Ok(Some(ParserState::ValueLeadingWS { name }))
                } else {
                    // Move straight into Value without consuming
                    ParserState::in_value(name, Vec::new(), b, builder)
                }
            },
            ParserState::Value { name, partial } => {
                ParserState::in_value(name, partial, b, builder)
            },
            ParserState::NewLine => {
                if b == LF {
                    Ok(Some(ParserState::Start))
                } else {
                    Err(ParseError::IllegalCharacter)
                }
            },
            ParserState::FinalNewLine => {
                if b == LF {
                    Ok(None)
                } else {
                    Err(ParseError::IllegalCharacter)
                }
            },
        }
    }
}

impl Request {
    /// Parse the request headers from `it` into `builder`, up to and with
    /// the empty line that ends them. Where this fails, the headers that were
    /// complete before the failure are in `builder` all the same.
    pub fn parse_headers<T: ByteSource>(
        builder: &mut RequestBuilder,
        it: &mut StreamReader<T>,
    ) -> (r: Result<(), ParseError>)
        requires
            old(it).wf(),
        ensures
            final(it).wf(),
            final(it)@.extends(old(it)@),
            answers(
                r,
                scan_headers(final(it)@.since(old(it)@)).plain(),
                final(it)@.since(old(it)@),
                final(it)@.stopped,
            ),
            final(builder)@ == enter_headers(old(builder)@, final(it)@.since(old(it)@)),
    {
        let mut state = ParserState::Start;
        assert(it@.since(old(it)@) =~= Seq::<u8>::empty());
        loop
            invariant
                it.wf(),
                it@.extends(old(it)@),
                state.wf(),
                header_run(HeaderState::Start, it@.since(old(it)@)).end == HeaderEnd::Short(state@),
                builder@ == enter_headers(old(builder)@, it@.since(old(it)@)),
            decreases u64::MAX - it@.taken.len(),
        {
            let ghost taken = it@.since(old(it)@);
            let b = match it.next() {
                None => {
                    return Err(ParseError::EOF);
                },
                Some(b) => b,
            };
            proof {
                assert(it@.since(old(it)@) =~= taken.push(b));
                lemma_header_run_push(HeaderState::Start, taken, b);
                let run = header_run(HeaderState::Start, taken);
                match header_step(state@, b) {
                    HeaderStep::Next { field, .. } => {
                        lemma_enter_all_push(old(builder)@.headers, run.fields, field);
                    },
                    _ => {},
                }
            }
            state = match state.advance(b, builder) {
                Ok(Some(next)) => next,
                Ok(None) => {
                    return Ok(());
                },
                Err(e) => {
                    return Err(e);
                },
            };
        }
    }
}

} // verus!
