//! The grammar of a request, as functions on byte sequences.
//!
//! Each function takes the bytes of a stream from some point on and says how
//! far the grammar gets on them: where an element ends and what it stands
//! for, where a byte breaks the grammar, or that the bytes end too early.
//! The parsers of [`Request`](crate::Request) are specified by these
//! functions.

use crate::error::ParseError;
use crate::method::MethodView;
use crate::request::{RequestBuilderView, RequestView};
use crate::text::{bytes_of, text_in, text_of};
use crate::token::{is_tchar, is_token, is_visible};
use vstd::prelude::*;

verus! {

/// The space that separates the parts of the request line.
pub const SP: u8 = 0x20;

/// The horizontal tab.
pub const HTAB: u8 = 0x09;

/// The carriage return, the first byte of a line ending.
pub const CR: u8 = 0x0d;

/// The line feed, the second byte of a line ending.
pub const LF: u8 = 0x0a;

/// The colon that ends a header name.
pub const COLON: u8 = 0x3a;

/// The dot between the two digits of a version.
pub const DOT: u8 = 0x2e;

/// How far a part of the grammar gets on a sequence of bytes.
pub enum Scan<T> {
    /// The part is complete: it takes up the first `used` bytes and stands
    /// for `value`.
    Done { value: T, used: nat },
    /// The byte at `used - 1` breaks the grammar.
    Illegal { used: nat },
    /// The bytes end before the part does.
    Short,
}

impl<T> Scan<T> {
    /// This scan without its value.
    pub open spec fn plain(self) -> Scan<()> {
        match self {
            Scan::Done { used, .. } => Scan::Done { value: (), used },
            Scan::Illegal { used } => Scan::Illegal { used },
            Scan::Short => Scan::Short,
        }
    }
}

/// Whether `r` is what a parser owes that has taken exactly the bytes `s`
/// from its cursor, where `scan` is how far its grammar gets on `s`, and
/// `stopped` says whether the cursor had nothing more to give.
pub open spec fn answers<T: View>(
    r: Result<T, ParseError>,
    scan: Scan<T::V>,
    s: Seq<u8>,
    stopped: bool,
) -> bool {
    match r {
        Ok(value) => scan == (Scan::Done { value: value@, used: s.len() }) && !stopped,
        Err(ParseError::IllegalCharacter) => scan == (Scan::<T::V>::Illegal { used: s.len() })
            && !stopped,
        Err(ParseError::EOF) => scan is Short && stopped,
        Err(ParseError::Generic { .. }) => false,
    }
}

/// The number of bytes at the front of `s` that are all in `class`.
pub open spec fn run_len(s: Seq<u8>, class: spec_fn(u8) -> bool) -> nat
    decreases s.len(),
{
    if s.len() > 0 && class(s[0]) {
        1 + run_len(s.skip(1), class)
    } else {
        0
    }
}

/// A word: bytes of `class`, as many as there are, and then a space. The
/// value is the word without the space.
pub open spec fn scan_word(s: Seq<u8>, class: spec_fn(u8) -> bool) -> Scan<Seq<u8>> {
    let n = run_len(s, class);
    if n >= s.len() {
        Scan::Short
    } else if s[n as int] == SP {
        Scan::Done { value: s.take(n as int), used: n + 1 }
    } else {
        Scan::Illegal { used: n + 1 }
    }
}

/// The class of the bytes of a token.
pub open spec fn token_class() -> spec_fn(u8) -> bool {
    |b: u8| is_tchar(b)
}

/// The method: a token, which may be empty, and a space.
pub open spec fn scan_method(s: Seq<u8>) -> Scan<MethodView> {
    match scan_word(s, token_class()) {
        Scan::Done { value, used } => Scan::Done { value: MethodView::named(value), used },
        Scan::Illegal { used } => Scan::Illegal { used },
        Scan::Short => Scan::Short,
    }
}

/// Whether `b` may stand in a request target: a visible character other
/// than `"`, `<`, `>`, `\`, `{` and `}`.
pub open spec fn is_target_byte(b: u8) -> bool {
    &&& is_visible(b)
    &&& b != '"' as u8
    &&& b != '<' as u8
    &&& b != '>' as u8
    &&& b != '\\' as u8
    &&& b != '{' as u8
    &&& b != '}' as u8
}

/// The class of the bytes of a target.
pub open spec fn target_class() -> spec_fn(u8) -> bool {
    |b: u8| is_target_byte(b)
}

/// The target: bytes that may stand in a target, none at all too, and a
/// space.
pub open spec fn scan_target(s: Seq<u8>) -> Scan<Seq<char>> {
    match scan_word(s, target_class()) {
        Scan::Done { value, used } => Scan::Done { value: text_of(value), used },
        Scan::Illegal { used } => Scan::Illegal { used },
        Scan::Short => Scan::Short,
    }
}

/// Whether `b` is a decimal digit.
pub open spec fn is_digit(b: u8) -> bool {
    '0' as u8 <= b <= '9' as u8
}

/// The number that the digit `b` stands for.
pub open spec fn digit_value(b: u8) -> u8
    recommends
        is_digit(b),
{
    (b - '0' as u8) as u8
}

/// The number of bytes that a version takes up, the line ending counted.
pub open spec fn version_len() -> nat {
    10
}

/// Whether `b` may be the byte at place `i` of a version, which reads
/// `HTTP/`, a digit, a dot, a digit, and the line ending.
pub open spec fn is_version_byte(i: int, b: u8) -> bool {
    if 0 <= i < 5 {
        b == bytes_of("HTTP/"@)[i]
    } else if i == 5 || i == 7 {
        is_digit(b)
    } else if i == 6 {
        b == DOT
    } else if i == 8 {
        b == CR
    } else {
        i == 9 && b == LF
    }
}

/// The number of bytes of `s` from place `i` on that fit a version, counted
/// from the start of `s`.
pub open spec fn version_fit(s: Seq<u8>, i: nat) -> nat
    decreases version_len() - i,
{
    if i < version_len() && i < s.len() && is_version_byte(i as int, s[i as int]) {
        version_fit(s, i + 1)
    } else {
        i
    }
}

/// The version, with the line ending behind it. The value is the pair of
/// the major and the minor number.
pub open spec fn scan_version(s: Seq<u8>) -> Scan<(u8, u8)> {
    let n = version_fit(s, 0);
    if n >= version_len() {
        Scan::Done { value: (digit_value(s[5]), digit_value(s[7])), used: version_len() }
    } else if n >= s.len() {
        Scan::Short
    } else {
        Scan::Illegal { used: n + 1 }
    }
}

/// What the request line says.
pub struct RequestLine {
    pub method: MethodView,
    pub target: Seq<char>,
    pub version: (u8, u8),
}

/// The request line: the method, the target and the version, one behind
/// the other.
pub open spec fn scan_request_line(s: Seq<u8>) -> Scan<RequestLine> {
    match scan_method(s) {
        Scan::Done { value: method, used: a } => match scan_target(s.skip(a as int)) {
            Scan::Done { value: target, used: b } => match scan_version(s.skip((a + b) as int)) {
                Scan::Done { value: version, used: c } => Scan::Done {
                    value: RequestLine { method, target, version },
                    used: a + b + c,
                },
                Scan::Illegal { used: c } => Scan::Illegal { used: a + b + c },
                Scan::Short => Scan::Short,
            },
            Scan::Illegal { used: b } => Scan::Illegal { used: a + b },
            Scan::Short => Scan::Short,
        },
        Scan::Illegal { used } => Scan::Illegal { used },
        Scan::Short => Scan::Short,
    }
}

/// The builder `builder` with the parts of the request line set that are
/// found in `s`: the method where there is one, the target where there is
/// one behind it, and the version where there is one behind the two.
pub open spec fn enter_request_line(builder: RequestBuilderView, s: Seq<u8>) -> RequestBuilderView {
    match scan_method(s) {
        Scan::Done { value: method, used: a } => {
            let builder = RequestBuilderView { method: Some(method), ..builder };
            match scan_target(s.skip(a as int)) {
                Scan::Done { value: target, used: b } => {
                    let builder = RequestBuilderView { target: Some(target), ..builder };
                    match scan_version(s.skip((a + b) as int)) {
                        Scan::Done { value: version, .. } => RequestBuilderView {
                            version: Some(version),
                            ..builder
                        },
                        _ => builder,
                    }
                },
                _ => builder,
            }
        },
        _ => builder,
    }
}

/// A header field: its name and its value.
pub type FieldView = (Seq<char>, Seq<char>);

/// Where the automaton that reads the header block stands.
pub enum HeaderState {
    /// At the beginning of a line.
    Start,
    /// In the name of a field, of which `partial` has been read.
    Name { partial: Seq<u8> },
    /// Behind the colon, in the blanks before the value.
    ValueLeadingWS { name: Seq<char> },
    /// In the value of the field `name`, of which `partial` has been kept.
    Value { name: Seq<char>, partial: Seq<u8> },
    /// Behind the carriage return that ends a field.
    NewLine,
    /// Behind the carriage return of the empty line that ends the block.
    FinalNewLine,
}

/// What one byte does to the automaton.
pub enum HeaderStep {
    /// The automaton goes on in `state`. Where the byte completed a field,
    /// `field` is that field.
    Next { state: HeaderState, field: Option<FieldView> },
    /// The byte ends the header block.
    End,
    /// The byte may not stand here.
    Illegal,
}

/// Whether `b` is kept in a header value: a tab, a space or a visible
/// character.
pub open spec fn is_value_byte(b: u8) -> bool {
    b == HTAB || b == SP || is_visible(b)
}

/// The class of the bytes that are kept in a header value.
pub open spec fn value_class() -> spec_fn(u8) -> bool {
    |b: u8| is_value_byte(b)
}

/// Whether `b` is passed over in a header value: a byte that is not ASCII.
pub open spec fn is_dropped_byte(b: u8) -> bool {
    b >= 0x80
}

/// The step on `b` in the name of a field, of which `partial` has been
/// read: a `tchar` is added to the name, and a colon ends it.
pub open spec fn step_in_name(partial: Seq<u8>, b: u8) -> HeaderStep {
    if is_tchar(b) {
        HeaderStep::Next { state: HeaderState::Name { partial: partial.push(b) }, field: None }
    } else if b == COLON {
        HeaderStep::Next {
            state: HeaderState::ValueLeadingWS { name: text_of(partial) },
            field: None,
        }
    } else {
        HeaderStep::Illegal
    }
}

/// The step on `b` in the value of the field `name`, of which `partial` has
/// been kept: a tab, a space or a visible character is added to the value, a
/// byte that is not ASCII is passed over, and a carriage return completes
/// the field.
pub open spec fn step_in_value(name: Seq<char>, partial: Seq<u8>, b: u8) -> HeaderStep {
    if is_value_byte(b) {
        HeaderStep::Next {
            state: HeaderState::Value { name, partial: partial.push(b) },
            field: None,
        }
    } else if is_dropped_byte(b) {
        HeaderStep::Next { state: HeaderState::Value { name, partial }, field: None }
    } else if b == CR {
        HeaderStep::Next { state: HeaderState::NewLine, field: Some((name, text_of(partial))) }
    } else {
        HeaderStep::Illegal
    }
}

/// The step of the automaton in `state` on the byte `b`.
pub open spec fn header_step(state: HeaderState, b: u8) -> HeaderStep {
    match state {
        HeaderState::Start => if b == CR {
            HeaderStep::Next { state: HeaderState::FinalNewLine, field: None }
        } else {
            step_in_name(Seq::empty(), b)
        },
        HeaderState::Name { partial } => step_in_name(partial, b),
        HeaderState::ValueLeadingWS { name } => if b == SP || b == HTAB {
            HeaderStep::Next { state: HeaderState::ValueLeadingWS { name }, field: None }
        } else {
            step_in_value(name, Seq::empty(), b)
        },
        HeaderState::Value { name, partial } => step_in_value(name, partial, b),
        HeaderState::NewLine => if b == LF {
            HeaderStep::Next { state: HeaderState::Start, field: None }
        } else {
            HeaderStep::Illegal
        },
        HeaderState::FinalNewLine => if b == LF {
            HeaderStep::End
        } else {
            HeaderStep::Illegal
        },
    }
}

/// How a run of the automaton ends.
pub enum HeaderEnd {
    /// With the empty line that ends the header block.
    Done,
    /// With a byte that may not stand where it stands.
    Illegal,
    /// With the end of the bytes, the automaton being in this state.
    Short(HeaderState),
}

/// A run of the automaton.
pub struct HeaderRun {
    /// How the run ends.
    pub end: HeaderEnd,
    /// The number of bytes that the run takes.
    pub used: nat,
    /// The fields that the run completes, in their order.
    pub fields: Seq<FieldView>,
}

/// The field of a step, as a sequence of one field or of none.
pub open spec fn fields_of(field: Option<FieldView>) -> Seq<FieldView> {
    match field {
        Some(field) => seq![field],
        None => Seq::empty(),
    }
}

/// The run of the automaton from `state` on the bytes `s`.
pub open spec fn header_run(state: HeaderState, s: Seq<u8>) -> HeaderRun
    decreases s.len(),
{
    if s.len() == 0 {
        HeaderRun { end: HeaderEnd::Short(state), used: 0, fields: Seq::empty() }
    } else {
        match header_step(state, s[0]) {
            HeaderStep::Next { state: next, field } => {
                let rest = header_run(next, s.skip(1));
                HeaderRun {
                    end: rest.end,
                    used: rest.used + 1,
                    fields: fields_of(field) + rest.fields,
                }
            },
            HeaderStep::End => HeaderRun { end: HeaderEnd::Done, used: 1, fields: Seq::empty() },
            HeaderStep::Illegal => HeaderRun {
                end: HeaderEnd::Illegal,
                used: 1,
                fields: Seq::empty(),
            },
        }
    }
}

/// The header block: header lines, and an empty line behind them. The value
/// is the sequence of the fields in their order.
pub open spec fn scan_headers(s: Seq<u8>) -> Scan<Seq<FieldView>> {
    let run = header_run(HeaderState::Start, s);
    match run.end {
        HeaderEnd::Done => Scan::Done { value: run.fields, used: run.used },
        HeaderEnd::Illegal => Scan::Illegal { used: run.used },
        HeaderEnd::Short(_) => Scan::Short,
    }
}

/// The map `headers` with the fields `fields` entered one after the other:
/// a later field takes the place of an earlier one of the same name.
pub open spec fn enter_all(headers: Map<Seq<char>, Seq<char>>, fields: Seq<FieldView>) -> Map<
    Seq<char>,
    Seq<char>,
>
    decreases fields.len(),
{
    if fields.len() == 0 {
        headers
    } else {
        enter_all(headers, fields.drop_last()).insert(fields.last().0, fields.last().1)
    }
}

/// The builder `builder` with the header fields entered that are complete
/// in `s`.
pub open spec fn enter_headers(builder: RequestBuilderView, s: Seq<u8>) -> RequestBuilderView {
    RequestBuilderView {
        headers: enter_all(builder.headers, header_run(HeaderState::Start, s).fields),
        ..builder
    }
}

/// The head of a request: the request line and the header block behind it.
/// The value is the request that they describe, which has no body.
pub open spec fn scan_request(s: Seq<u8>) -> Scan<RequestView> {
    match scan_request_line(s) {
        Scan::Done { value: line, used: a } => match scan_headers(s.skip(a as int)) {
            Scan::Done { value: fields, used: b } => Scan::Done {
                value: RequestView {
                    version: line.version,
                    method: line.method,
                    target: line.target,
                    headers: enter_all(Map::empty(), fields),
                    body: None,
                },
                used: a + b,
            },
            Scan::Illegal { used: b } => Scan::Illegal { used: a + b },
            Scan::Short => Scan::Short,
        },
        Scan::Illegal { used } => Scan::Illegal { used },
        Scan::Short => Scan::Short,
    }
}

/// Whether `field` is a field as the grammar makes them: its name is a
/// token, and its value is made of tabs, spaces and visible characters.
pub open spec fn field_wf(field: FieldView) -> bool {
    text_in(field.0, token_class()) && text_in(field.1, value_class())
}

/// Whether `request` is a request as the grammar makes them: the numbers of
/// its version are below ten, the name of its method is a token, its target
/// is made of target bytes, and its header fields are as the grammar makes
/// them.
pub open spec fn request_wf(request: RequestView) -> bool {
    &&& request.version.0 <= 9
    &&& request.version.1 <= 9
    &&& is_token(request.method.name())
    &&& text_in(request.target, target_class())
    &&& forall|name: Seq<char>| #[trigger]
        request.headers.contains_key(name) ==> field_wf((name, request.headers[name]))
}

} // verus!
