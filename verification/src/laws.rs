//! What holds of the grammar and of the reader: the requests that the
//! grammar accepts, the ones that it refuses, how it deals with the bytes it
//! is given, and in which order a reader hands out what its source gives.

use crate::error::ParseError;
use crate::grammar::{
    answers, enter_all, field_wf, fields_of, header_run, header_step, is_dropped_byte,
    is_target_byte, is_value_byte, is_version_byte, request_wf, run_len, scan_headers,
    scan_method, scan_request, scan_request_line, scan_target, target_class, token_class,
    value_class, version_len, FieldView, HeaderEnd, HeaderRun, HeaderState, HeaderStep,
    RequestLine, Scan, COLON, CR, DOT, HTAB, LF, SP,
};
use crate::lemmas::{
    lemma_header_run_concat, lemma_header_run_prefix, lemma_header_run_push, lemma_run_len,
    lemma_run_len_bounds, lemma_scan_headers_prefix, lemma_scan_headers_used,
    lemma_scan_request_line_prefix, lemma_scan_request_line_used, lemma_scan_request_prefix,
    lemma_scan_request_used,
    lemma_version_fit, lemma_version_fit_bounds,
};
use crate::method::MethodView;
use crate::reader::Cursor;
use crate::request::{Request, RequestView};
use crate::source::BUFFER_SIZE;
use crate::text::{bytes_of, is_ascii, lemma_text_in, text_in, text_of};
use crate::token::{is_tchar, is_token};
use vstd::prelude::*;

verus! {

/// Whether every byte of `s` may stand in a request target.
pub open spec fn is_target(s: Seq<u8>) -> bool {
    forall|i: int| 0 <= i < s.len() ==> is_target_byte(#[trigger] s[i])
}

/// The digit that stands for the number `n`, which is below ten.
pub open spec fn digit_of(n: u8) -> u8
    recommends
        n <= 9,
{
    ('0' as u8 + n) as u8
}

/// The bytes of the version `major.minor` with the line ending behind it:
/// `HTTP/`, the two digits with a dot between them, CR and LF.
pub open spec fn version_bytes(major: u8, minor: u8) -> Seq<u8>
    recommends
        major <= 9,
        minor <= 9,
{
    bytes_of("HTTP/"@) + seq![digit_of(major), DOT, digit_of(minor), CR, LF]
}

/// The front of a request line: the method `method`, a space, the target
/// `target`, and a space.
pub open spec fn line_front(method: Seq<u8>, target: Seq<u8>) -> Seq<u8> {
    method + seq![SP] + target + seq![SP]
}

/// The bytes of the request line that asks for `target` by `method` in the
/// version `major.minor`.
pub open spec fn request_line_bytes(method: Seq<u8>, target: Seq<u8>, major: u8, minor: u8) -> Seq<
    u8,
> {
    line_front(method, target) + version_bytes(major, minor)
}

/// The front of a request line is found as it stands: behind a method that is
/// a token and a target made of target bytes, the grammar is at the version.
proof fn lemma_line_front(method: Seq<u8>, target: Seq<u8>, rest: Seq<u8>)
    requires
        is_token(method),
        is_target(target),
    ensures
        scan_method(line_front(method, target) + rest) == (Scan::Done {
            value: MethodView::named(method),
            used: method.len() + 1,
        }),
        scan_target((line_front(method, target) + rest).skip(method.len() + 1 as int)) == (
        Scan::Done { value: text_of(target), used: target.len() + 1 }),
        (line_front(method, target) + rest).skip(method.len() + target.len() + 2 as int) == rest,
{
    let s = line_front(method, target) + rest;
    assert forall|i: int| 0 <= i < method.len() implies token_class()(#[trigger] s[i]) by {
        assert(s[i] == method[i]);
    }
    assert(s[method.len() as int] == SP);
    lemma_run_len(s, token_class(), method.len());
    assert(s.take(method.len() as int) =~= method);
    let s1 = s.skip(method.len() + 1 as int);
    assert forall|i: int| 0 <= i < target.len() implies target_class()(#[trigger] s1[i]) by {
        assert(s1[i] == target[i]);
    }
    assert(s1[target.len() as int] == SP);
    lemma_run_len(s1, target_class(), target.len());
    assert(s1.take(target.len() as int) =~= target);
    assert(s.skip(method.len() + target.len() + 2 as int) =~= rest);
}

/// A well-formed request line is accepted and gives back what it was made
/// of: for a method that is a token, a target made of target bytes and two
/// numbers below ten, the grammar takes the whole line and nothing of what
/// follows it, and finds that method, that target and those numbers.
pub proof fn law_request_line_accepted(
    method: Seq<u8>,
    target: Seq<u8>,
    major: u8,
    minor: u8,
    rest: Seq<u8>,
)
    requires
        is_token(method),
        is_target(target),
        major <= 9,
        minor <= 9,
    ensures
        scan_request_line(request_line_bytes(method, target, major, minor) + rest) == (Scan::Done {
            value: RequestLine {
                method: MethodView::named(method),
                target: text_of(target),
                version: (major, minor),
            },
            used: request_line_bytes(method, target, major, minor).len(),
        }),
{
    let version = version_bytes(major, minor);
    let line = request_line_bytes(method, target, major, minor);
    let s = line + rest;
    assert(s =~= line_front(method, target) + (version + rest));
    lemma_line_front(method, target, version + rest);
    let s2 = version + rest;
    reveal_strlit("HTTP/");
    assert(version.len() == 10);
    assert forall|i: int| 0 <= i < 10 implies is_version_byte(i, #[trigger] s2[i]) by {
        assert(s2[i] == version[i]);
    }
    lemma_version_fit(s2, 10);
}

/// A request line with a version that is not one is refused: where a byte
/// behind the method and the target does not fit the version, of which it
/// is the first that does not, that byte is illegal. This is so of a
/// version that does not begin with `HTTP/`, of one with something else than
/// a digit for a number, and of one that CR and LF do not follow.
pub proof fn law_request_line_refused(
    method: Seq<u8>,
    target: Seq<u8>,
    version: Seq<u8>,
    k: nat,
)
    requires
        is_token(method),
        is_target(target),
        k < version_len(),
        k < version.len(),
        forall|i: int| 0 <= i < k ==> is_version_byte(i, #[trigger] version[i]),
        !is_version_byte(k as int, version[k as int]),
    ensures
        scan_request_line(line_front(method, target) + version) == (Scan::<RequestLine>::Illegal {
            used: method.len() + target.len() + 2 + k + 1,
        }),
{
    lemma_line_front(method, target, version);
    lemma_version_fit(version, k);
}

/// A request line that ends too early is short: the bytes of a request line
/// that the grammar accepts or refuses after `used` bytes, cut off before
/// that, are neither accepted nor refused.
pub proof fn law_request_line_cut_short(s: Seq<u8>, k: nat)
    requires
        (scan_request_line(s) matches Scan::Done { used, .. } ==> k < used),
        (scan_request_line(s) matches Scan::Illegal { used } ==> k < used),
        k <= s.len(),
    ensures
        scan_request_line(s.take(k as int)) is Short,
{
    let cut = s.take(k as int);
    if !(scan_request_line(cut) is Short) {
        lemma_scan_request_line_prefix(cut, s);
        lemma_scan_request_line_used(cut);
    }
}

/// Whether every byte of `s` is a space or a tab.
pub open spec fn is_blank(s: Seq<u8>) -> bool {
    forall|i: int| 0 <= i < s.len() ==> (#[trigger] s[i] == SP || s[i] == HTAB)
}

/// The bytes of `value` that are kept in a header value: those that are
/// ASCII, in their order.
pub open spec fn kept(value: Seq<u8>) -> Seq<u8> {
    value.filter(|b: u8| b < 0x80)
}

/// A header line, by its parts: the name, the blanks behind the colon, and
/// the bytes of the value.
pub struct FieldLine {
    pub name: Seq<u8>,
    pub blanks: Seq<u8>,
    pub value: Seq<u8>,
}

impl FieldLine {
    /// Whether the parts are what their names say: the name is a token, the
    /// blanks are blanks, and the value is made of bytes that are kept or
    /// passed over, and does not begin with a blank.
    pub open spec fn wf(self) -> bool {
        &&& is_token(self.name)
        &&& is_blank(self.blanks)
        &&& forall|i: int|
            0 <= i < self.value.len() ==> (is_value_byte(#[trigger] self.value[i])
                || is_dropped_byte(self.value[i]))
        &&& self.value.len() > 0 ==> self.value[0] != SP && self.value[0] != HTAB
    }

    /// The bytes of the line: the name, a colon, the blanks, the value, CR
    /// and LF.
    pub open spec fn bytes(self) -> Seq<u8> {
        self.name + seq![COLON] + self.blanks + self.value + seq![CR, LF]
    }

    /// The field that the line gives.
    pub open spec fn field(self) -> FieldView {
        (text_of(self.name), text_of(kept(self.value)))
    }
}

/// The bytes of the lines `lines`, one line behind the other.
pub open spec fn lines_bytes(lines: Seq<FieldLine>) -> Seq<u8>
    decreases lines.len(),
{
    if lines.len() == 0 {
        Seq::empty()
    } else {
        lines[0].bytes() + lines_bytes(lines.skip(1))
    }
}

/// The fields that the lines `lines` give, in their order.
pub open spec fn lines_fields(lines: Seq<FieldLine>) -> Seq<FieldView> {
    Seq::new(lines.len(), |i: int| lines[i].field())
}

/// Whether each of the lines `lines` is well-formed.
pub open spec fn lines_wf(lines: Seq<FieldLine>) -> bool {
    forall|i: int| 0 <= i < lines.len() ==> (#[trigger] lines[i]).wf()
}

/// The state of the automaton behind the bytes `name` of a name, read from
/// the beginning of a line.
spec fn in_name(name: Seq<u8>) -> HeaderState {
    if name.len() == 0 {
        HeaderState::Start
    } else {
        HeaderState::Name { partial: name }
    }
}

/// The state of the automaton behind the bytes `value` of the value of the
/// field `name`, read from behind the colon.
spec fn in_value(name: Seq<char>, value: Seq<u8>) -> HeaderState {
    if value.len() == 0 {
        HeaderState::ValueLeadingWS { name }
    } else {
        HeaderState::Value { name, partial: kept(value) }
    }
}

/// What is kept of a value with one more byte behind it.
proof fn lemma_kept_push(value: Seq<u8>, b: u8)
    ensures
        kept(value.push(b)) == if b < 0x80 {
            kept(value).push(b)
        } else {
            kept(value)
        },
        kept(Seq::<u8>::empty()) == Seq::<u8>::empty(),
{
    reveal(Seq::filter);
    assert(value.push(b).drop_last() =~= value);
}

/// From the beginning of a line, the bytes of a token lead into the name.
proof fn lemma_run_name(name: Seq<u8>)
    requires
        is_token(name),
    ensures
        header_run(HeaderState::Start, name) == (HeaderRun {
            end: HeaderEnd::Short(in_name(name)),
            used: name.len(),
            fields: Seq::empty(),
        }),
    decreases name.len(),
{
    if name.len() > 0 {
        let front = name.drop_last();
        assert(is_token(front)) by {
            assert forall|i: int| 0 <= i < front.len() implies is_tchar(#[trigger] front[i]) by {
                assert(front[i] == name[i]);
            }
        }
        lemma_run_name(front);
        assert(is_tchar(name[name.len() - 1]));
        lemma_header_run_push(HeaderState::Start, front, name.last());
        assert(front.push(name.last()) =~= name);
        if front.len() == 0 {
            assert(Seq::<u8>::empty().push(name.last()) =~= name);
        }
        assert(Seq::<FieldView>::empty() + fields_of(None) =~= Seq::<FieldView>::empty());
    }
}

/// Behind the colon, blanks leave the automaton where it is.
proof fn lemma_run_blanks(name: Seq<char>, blanks: Seq<u8>)
    requires
        is_blank(blanks),
    ensures
        header_run(HeaderState::ValueLeadingWS { name }, blanks) == (HeaderRun {
            end: HeaderEnd::Short(HeaderState::ValueLeadingWS { name }),
            used: blanks.len(),
            fields: Seq::empty(),
        }),
    decreases blanks.len(),
{
    if blanks.len() > 0 {
        let front = blanks.drop_last();
        assert(is_blank(front)) by {
            assert forall|i: int| 0 <= i < front.len() implies (#[trigger] front[i] == SP
                || front[i] == HTAB) by {
                assert(front[i] == blanks[i]);
            }
        }
        lemma_run_blanks(name, front);
        assert(blanks[blanks.len() - 1] == SP || blanks[blanks.len() - 1] == HTAB);
        lemma_header_run_push(HeaderState::ValueLeadingWS { name }, front, blanks.last());
        assert(front.push(blanks.last()) =~= blanks);
        assert(Seq::<FieldView>::empty() + fields_of(None) =~= Seq::<FieldView>::empty());
    }
}

/// Behind the blanks, the bytes of a value lead into the value, of which
/// the ASCII bytes are kept.
proof fn lemma_run_value(name: Seq<char>, value: Seq<u8>)
    requires
        forall|i: int|
            0 <= i < value.len() ==> (is_value_byte(#[trigger] value[i]) || is_dropped_byte(
                value[i],
            )),
        value.len() > 0 ==> value[0] != SP && value[0] != HTAB,
    ensures
        header_run(HeaderState::ValueLeadingWS { name }, value) == (HeaderRun {
            end: HeaderEnd::Short(in_value(name, value)),
            used: value.len(),
            fields: Seq::empty(),
        }),
    decreases value.len(),
{
    if value.len() > 0 {
        let front = value.drop_last();
        let last = value.last();
        assert forall|i: int| 0 <= i < front.len() implies (is_value_byte(#[trigger] front[i])
            || is_dropped_byte(front[i])) by {
            assert(front[i] == value[i]);
        }
        if front.len() > 0 {
            assert(front[0] == value[0]);
        }
        lemma_run_value(name, front);
        assert(is_value_byte(value[value.len() - 1]) || is_dropped_byte(value[value.len() - 1]));
        lemma_header_run_push(HeaderState::ValueLeadingWS { name }, front, last);
        lemma_kept_push(front, last);
        assert(front.push(last) =~= value);
        assert(Seq::<u8>::empty().push(last) =~= seq![last]);
        assert(Seq::<FieldView>::empty() + fields_of(None) =~= Seq::<FieldView>::empty());
        if front.len() == 0 {
            assert(last == value[0]);
            assert(kept(front) =~= Seq::<u8>::empty());
        }
    }
}

/// A well-formed header line gives its field: from the beginning of a line,
/// the automaton takes the whole line, completes the one field of that name
/// and of the value that is kept, and stands at the beginning of the next
/// line. Of the value, the ASCII bytes are kept and the others are passed
/// over.
pub proof fn law_header_line(line: FieldLine)
    requires
        line.wf(),
    ensures
        header_run(HeaderState::Start, line.bytes()) == (HeaderRun {
            end: HeaderEnd::Short(HeaderState::Start),
            used: line.bytes().len(),
            fields: seq![line.field()],
        }),
{
    let name = text_of(line.name);
    let empty = Seq::<FieldView>::empty();
    // the name and the colon
    lemma_run_name(line.name);
    lemma_header_run_push(HeaderState::Start, line.name, COLON);
    let a = line.name.push(COLON);
    assert(empty + fields_of(None) =~= empty);
    if line.name.len() == 0 {
        assert(line.name =~= Seq::<u8>::empty());
    }
    assert(header_run(HeaderState::Start, a).end == HeaderEnd::Short(
        HeaderState::ValueLeadingWS { name },
    ));
    // the blanks
    lemma_run_blanks(name, line.blanks);
    lemma_header_run_concat(HeaderState::Start, a, line.blanks);
    let b = a + line.blanks;
    assert(empty + empty =~= empty);
    // the value
    lemma_run_value(name, line.value);
    lemma_header_run_concat(HeaderState::Start, b, line.value);
    let c = b + line.value;
    assert(header_run(HeaderState::Start, c).end == HeaderEnd::Short(in_value(name, line.value)));
    assert(header_run(HeaderState::Start, c).fields == empty);
    // the line ending
    lemma_kept_push(line.value, CR);
    if line.value.len() == 0 {
        assert(line.value =~= Seq::<u8>::empty());
    }
    lemma_header_run_push(HeaderState::Start, c, CR);
    let d = c.push(CR);
    assert(empty + fields_of(Some(line.field())) =~= seq![line.field()]);
    assert(header_run(HeaderState::Start, d) == HeaderRun {
        end: HeaderEnd::Short(HeaderState::NewLine),
        used: d.len(),
        fields: seq![line.field()],
    });
    lemma_header_run_push(HeaderState::Start, d, LF);
    assert(seq![line.field()] + fields_of(None) =~= seq![line.field()]);
    assert(d.push(LF) =~= line.bytes());
}

/// Well-formed header lines give their fields: from the beginning of a
/// line, the automaton takes all the lines, completes the field of each in
/// the order of the lines, and stands at the beginning of the next line.
pub proof fn law_header_lines(lines: Seq<FieldLine>)
    requires
        lines_wf(lines),
    ensures
        header_run(HeaderState::Start, lines_bytes(lines)) == (HeaderRun {
            end: HeaderEnd::Short(HeaderState::Start),
            used: lines_bytes(lines).len(),
            fields: lines_fields(lines),
        }),
    decreases lines.len(),
{
    if lines.len() == 0 {
        assert(lines_fields(lines) =~= Seq::<FieldView>::empty());
    } else {
        let rest = lines.skip(1);
        assert(lines[0].wf());
        assert(lines_wf(rest)) by {
            assert forall|i: int| 0 <= i < rest.len() implies (#[trigger] rest[i]).wf() by {
                assert(lines[i + 1].wf());
            }
        }
        law_header_line(lines[0]);
        law_header_lines(rest);
        lemma_header_run_concat(HeaderState::Start, lines[0].bytes(), lines_bytes(rest));
        assert(seq![lines[0].field()] + lines_fields(rest) =~= lines_fields(lines));
    }
}

/// A well-formed header block is accepted and gives its fields: the grammar
/// takes the lines and the empty line behind them, and nothing of what
/// follows, and finds the field of each line in the order of the lines.
pub proof fn law_header_block(lines: Seq<FieldLine>, rest: Seq<u8>)
    requires
        lines_wf(lines),
    ensures
        scan_headers(lines_bytes(lines) + seq![CR, LF] + rest) == (Scan::Done {
            value: lines_fields(lines),
            used: lines_bytes(lines).len() + 2,
        }),
{
    let tail = seq![CR, LF] + rest;
    law_header_lines(lines);
    lemma_header_run_concat(HeaderState::Start, lines_bytes(lines), tail);
    assert(lines_bytes(lines) + seq![CR, LF] + rest =~= lines_bytes(lines) + tail);
    let after = tail.skip(1);
    assert(tail[0] == CR);
    assert(after[0] == LF);
    assert(header_run(HeaderState::FinalNewLine, after) == HeaderRun {
        end: HeaderEnd::Done,
        used: 1,
        fields: Seq::empty(),
    });
    assert(header_run(HeaderState::Start, tail) == HeaderRun {
        end: HeaderEnd::Done,
        used: 2,
        fields: Seq::empty(),
    }) by {
        assert(fields_of(None) + Seq::<FieldView>::empty() =~= Seq::<FieldView>::empty());
    }
    assert(lines_fields(lines) + Seq::<FieldView>::empty() =~= lines_fields(lines));
}

/// Of the bytes of a header value, the ones that are not ASCII are left out
/// and the others stay: what is kept is ASCII, and a value that is ASCII is
/// kept as it stands.
pub proof fn law_value_kept(value: Seq<u8>)
    ensures
        is_ascii(kept(value)),
        kept(value).len() <= value.len(),
        is_ascii(value) ==> kept(value) == value,
    decreases value.len(),
{
    reveal(Seq::filter);
    if value.len() > 0 {
        let front = value.drop_last();
        law_value_kept(front);
        lemma_kept_push(front, value.last());
        assert(front.push(value.last()) =~= value);
        if is_ascii(value) {
            assert(is_ascii(front)) by {
                assert forall|i: int| 0 <= i < front.len() implies #[trigger] front[i] < 0x80 by {
                    assert(front[i] == value[i]);
                }
            }
            assert(value[value.len() - 1] < 0x80);
        }
    }
}

/// A byte in a header name that may not stand there is refused: behind
/// well-formed header lines, where a token is followed by a byte that is
/// neither a `tchar` nor the colon, nor the CR of the empty line, that byte
/// is illegal. A space before the colon is such a byte.
pub proof fn law_header_name_refused(lines: Seq<FieldLine>, name: Seq<u8>, b: u8, rest: Seq<u8>)
    requires
        lines_wf(lines),
        is_token(name),
        !is_tchar(b),
        b != COLON,
        name.len() == 0 ==> b != CR,
    ensures
        scan_headers(lines_bytes(lines) + name + seq![b] + rest) == (Scan::<
            Seq<FieldView>,
        >::Illegal { used: lines_bytes(lines).len() + name.len() + 1 }),
{
    let tail = seq![b] + rest;
    law_header_lines(lines);
    lemma_run_name(name);
    lemma_header_run_concat(HeaderState::Start, name, tail);
    lemma_header_run_concat(HeaderState::Start, lines_bytes(lines), name + tail);
    assert(lines_bytes(lines) + name + seq![b] + rest =~= lines_bytes(lines) + (name + tail));
    assert(tail[0] == b);
    assert(header_run(in_name(name), tail) == HeaderRun {
        end: HeaderEnd::Illegal,
        used: 1,
        fields: Seq::empty(),
    });
}

/// The last field of a name is the one that stays: in the map that fields
/// make when they are entered in their order, a name has the value of the
/// last field of that name, and a name of which there is no field has what
/// it had before.
pub proof fn law_last_wins(headers: Map<Seq<char>, Seq<char>>, fields: Seq<FieldView>, i: int)
    requires
        0 <= i < fields.len(),
        forall|j: int| i < j < fields.len() ==> (#[trigger] fields[j]).0 != fields[i].0,
    ensures
        enter_all(headers, fields).contains_key(fields[i].0),
        enter_all(headers, fields)[fields[i].0] == fields[i].1,
    decreases fields.len(),
{
    if i < fields.len() - 1 {
        let front = fields.drop_last();
        assert forall|j: int| i < j < front.len() implies (#[trigger] front[j]).0 != front[i].0 by {
            assert(fields[j].0 != fields[i].0);
        }
        law_last_wins(headers, front, i);
        assert(fields[fields.len() - 1].0 != fields[i].0);
    }
}

/// A header block that ends too early is short: the bytes of a header block
/// that the grammar accepts or refuses after `used` bytes, cut off before
/// that, are neither accepted nor refused.
pub proof fn law_headers_cut_short(s: Seq<u8>, k: nat)
    requires
        (scan_headers(s) matches Scan::Done { used, .. } ==> k < used),
        (scan_headers(s) matches Scan::Illegal { used } ==> k < used),
        k <= s.len(),
    ensures
        scan_headers(s.take(k as int)) is Short,
{
    let cut = s.take(k as int);
    if !(scan_headers(cut) is Short) {
        lemma_scan_headers_prefix(cut, s);
        lemma_scan_headers_used(cut);
    }
}

/// A well-formed request is accepted and gives back what it was made of:
/// for a well-formed request line, well-formed header lines behind it and
/// the empty line behind those, the grammar takes all of them and nothing of
/// what follows, and finds the request of that method, that target and that
/// version, with the fields of the lines for its headers, the last of each
/// name, and with no body.
pub proof fn law_request_accepted(
    method: Seq<u8>,
    target: Seq<u8>,
    major: u8,
    minor: u8,
    lines: Seq<FieldLine>,
    rest: Seq<u8>,
)
    requires
        is_token(method),
        is_target(target),
        major <= 9,
        minor <= 9,
        lines_wf(lines),
    ensures
        scan_request(
            request_line_bytes(method, target, major, minor) + lines_bytes(lines) + seq![CR, LF]
                + rest,
        ) == (Scan::Done {
            value: RequestView {
                version: (major, minor),
                method: MethodView::named(method),
                target: text_of(target),
                headers: enter_all(Map::empty(), lines_fields(lines)),
                body: None,
            },
            used: request_line_bytes(method, target, major, minor).len() + lines_bytes(lines).len()
                + 2,
        }),
{
    let line = request_line_bytes(method, target, major, minor);
    let block = lines_bytes(lines) + seq![CR, LF] + rest;
    let s = line + lines_bytes(lines) + seq![CR, LF] + rest;
    assert(s =~= line + block);
    law_request_line_accepted(method, target, major, minor, block);
    assert(s.skip(line.len() as int) =~= block);
    law_header_block(lines, rest);
}

/// The head of a request that ends too early is short: the bytes of a head
/// that the grammar accepts or refuses after `used` bytes, cut off before
/// that, are neither accepted nor refused.
pub proof fn law_request_cut_short(s: Seq<u8>, k: nat)
    requires
        (scan_request(s) matches Scan::Done { used, .. } ==> k < used),
        (scan_request(s) matches Scan::Illegal { used } ==> k < used),
        k <= s.len(),
    ensures
        scan_request(s.take(k as int)) is Short,
{
    let cut = s.take(k as int);
    if !(scan_request(cut) is Short) {
        lemma_scan_request_prefix(cut, s);
        lemma_scan_request_used(cut);
    }
}

/// Whether the automaton in `state` has read a token for the name, and
/// bytes that are kept for the value.
spec fn state_wf(state: HeaderState) -> bool {
    match state {
        HeaderState::Name { partial } => is_token(partial),
        HeaderState::ValueLeadingWS { name } => text_in(name, token_class()),
        HeaderState::Value { name, partial } => text_in(name, token_class()) && forall|i: int|
            0 <= i < partial.len() ==> is_value_byte(#[trigger] partial[i]),
        _ => true,
    }
}

/// The fields that a run completes are as the grammar makes them.
proof fn lemma_run_fields_wf(state: HeaderState, s: Seq<u8>)
    requires
        state_wf(state),
    ensures
        forall|i: int|
            0 <= i < header_run(state, s).fields.len() ==> field_wf(
                #[trigger] header_run(state, s).fields[i],
            ),
    decreases s.len(),
{
    if s.len() > 0 {
        match header_step(state, s[0]) {
            HeaderStep::Next { state: next, field } => {
                let name = match state {
                    HeaderState::Name { partial } => partial,
                    _ => Seq::empty(),
                };
                let value = match state {
                    HeaderState::Value { partial, .. } => partial,
                    _ => Seq::empty(),
                };
                assert(is_ascii(name) && is_ascii(value)) by {
                    assert forall|i: int| 0 <= i < name.len() implies #[trigger] name[i] < 0x80 by {
                        assert(is_tchar(name[i]));
                    }
                    assert forall|i: int| 0 <= i < value.len() implies #[trigger] value[i]
                        < 0x80 by {
                        assert(is_value_byte(value[i]));
                    }
                }
                lemma_text_in(name, token_class());
                lemma_text_in(value, value_class());
                assert(state_wf(next));
                lemma_run_fields_wf(next, s.skip(1));
                let rest = header_run(next, s.skip(1));
                assert forall|i: int|
                    0 <= i < header_run(state, s).fields.len() implies field_wf(
                    #[trigger] header_run(state, s).fields[i],
                ) by {
                    if field is Some && i == 0 {
                        assert(field_wf(field->0));
                    } else {
                        assert(header_run(state, s).fields[i] == rest.fields[i - fields_of(
                            field,
                        ).len()]);
                    }
                }
            },
            _ => {},
        }
    }
}

/// Where fields as the grammar makes them are entered into a map of such
/// fields, it stays one.
proof fn lemma_enter_all_wf(headers: Map<Seq<char>, Seq<char>>, fields: Seq<FieldView>)
    requires
        forall|name: Seq<char>| #[trigger]
            headers.contains_key(name) ==> field_wf((name, headers[name])),
        forall|i: int| 0 <= i < fields.len() ==> field_wf(#[trigger] fields[i]),
    ensures
        forall|name: Seq<char>| #[trigger]
            enter_all(headers, fields).contains_key(name) ==> field_wf(
                (name, enter_all(headers, fields)[name]),
            ),
    decreases fields.len(),
{
    if fields.len() > 0 {
        let front = fields.drop_last();
        assert forall|i: int| 0 <= i < front.len() implies field_wf(#[trigger] front[i]) by {
            assert(front[i] == fields[i]);
        }
        lemma_enter_all_wf(headers, front);
        let last = fields[fields.len() - 1];
        assert(field_wf(last));
        let before = enter_all(headers, front);
        assert forall|name: Seq<char>| #[trigger]
            enter_all(headers, fields).contains_key(name) implies field_wf(
            (name, enter_all(headers, fields)[name]),
        ) by {
            if name == last.0 {
                assert((name, enter_all(headers, fields)[name]) == last);
            } else {
                assert(before.contains_key(name));
            }
        }
    }
}

/// A request that the grammar accepts is well-formed: the numbers of its
/// version are single digits, the name of its method is a token, its target
/// is made of target bytes, the names of its header fields are tokens, and
/// their values are made of tabs, spaces and visible characters.
pub proof fn law_accepted_request_wf(s: Seq<u8>)
    requires
        scan_request(s) is Done,
    ensures
        request_wf(scan_request(s)->Done_value),
{
    let request = scan_request(s)->Done_value;
    // the method
    let n = run_len(s, token_class());
    lemma_run_len_bounds(s, token_class());
    let method = s.take(n as int);
    MethodView::lemma_named(method);
    assert(is_token(method)) by {
        assert forall|i: int| 0 <= i < method.len() implies is_tchar(#[trigger] method[i]) by {
            assert(token_class()(s[i]));
        }
    }
    // the target
    let s1 = s.skip(n + 1 as int);
    let m = run_len(s1, target_class());
    lemma_run_len_bounds(s1, target_class());
    let target = s1.take(m as int);
    assert(is_ascii(target)) by {
        assert forall|i: int| 0 <= i < target.len() implies #[trigger] target[i] < 0x80 by {
            assert(target_class()(s1[i]));
        }
    }
    assert forall|i: int| 0 <= i < target.len() implies target_class()(#[trigger] target[i]) by {
        assert(target_class()(s1[i]));
    }
    lemma_text_in(target, target_class());
    // the version
    let s2 = s.skip(n + m + 2 as int);
    lemma_version_fit_bounds(s2);
    assert(is_version_byte(5, s2[5]));
    assert(is_version_byte(7, s2[7]));
    // the headers
    let s3 = s.skip(n + m + 2 + version_len() as int);
    lemma_run_fields_wf(HeaderState::Start, s3);
    lemma_enter_all_wf(Map::empty(), header_run(HeaderState::Start, s3).fields);
}

/// A parser of the request line answers for the stream that it reads. Let
/// a parser take bytes from the front of `stream`, finding its cursor stopped
/// only where `stream` ends. Then it returns what the grammar makes of the
/// whole of `stream`, and has taken the bytes of the request line and no
/// more, or all of `stream` where that ends too early.
pub proof fn law_request_line_of_stream(
    stream: Seq<u8>,
    r: Result<(), ParseError>,
    taken: Seq<u8>,
    stopped: bool,
)
    requires
        taken.is_prefix_of(stream),
        stopped ==> taken == stream,
        answers(r, scan_request_line(taken).plain(), taken, stopped),
    ensures
        answers(r, scan_request_line(stream).plain(), taken, stopped),
{
    if !(scan_request_line(taken) is Short) {
        lemma_scan_request_line_prefix(taken, stream);
    }
}

/// A parser of the header block answers for the stream that it reads. Let
/// a parser take bytes from the front of `stream`, finding its cursor stopped
/// only where `stream` ends. Then it returns what the grammar makes of the
/// whole of `stream`, and has taken the bytes of the header block and no
/// more, or all of `stream` where that ends too early.
pub proof fn law_headers_of_stream(
    stream: Seq<u8>,
    r: Result<(), ParseError>,
    taken: Seq<u8>,
    stopped: bool,
)
    requires
        taken.is_prefix_of(stream),
        stopped ==> taken == stream,
        answers(r, scan_headers(taken).plain(), taken, stopped),
    ensures
        answers(r, scan_headers(stream).plain(), taken, stopped),
        header_run(HeaderState::Start, stream).fields == header_run(
            HeaderState::Start,
            taken,
        ).fields,
{
    if !(scan_headers(taken) is Short) {
        lemma_scan_headers_prefix(taken, stream);
        lemma_header_run_prefix(HeaderState::Start, taken, stream);
    }
}

/// A parser of requests answers for the stream that it reads. Let a parser
/// take bytes from the front of `stream`, finding its cursor stopped only
/// where `stream` ends. Then it returns what the grammar makes of the whole
/// of `stream`, and has taken the bytes of the head of the request and no
/// more, or all of `stream` where that ends too early.
pub proof fn law_request_of_stream(
    stream: Seq<u8>,
    r: Result<Request, ParseError>,
    taken: Seq<u8>,
    stopped: bool,
)
    requires
        taken.is_prefix_of(stream),
        stopped ==> taken == stream,
        answers(r, scan_request(taken), taken, stopped),
    ensures
        answers(r, scan_request(stream), taken, stopped),
{
    if !(scan_request(taken) is Short) {
        lemma_scan_request_prefix(taken, stream);
    }
}

/// Parsing the same bytes twice gives the same request. Let `stream` begin
/// with the head of a request that the grammar accepts, and let two parsers
/// each take bytes from the front of `stream`, finding their cursor stopped
/// only where `stream` ends. Then both return a request, the two requests
/// stand for the same, and both parsers have taken the same bytes: the head,
/// and no more.
pub proof fn law_same_bytes_same_request(
    stream: Seq<u8>,
    first: Result<Request, ParseError>,
    first_taken: Seq<u8>,
    first_stopped: bool,
    second: Result<Request, ParseError>,
    second_taken: Seq<u8>,
    second_stopped: bool,
)
    requires
        scan_request(stream) is Done,
        first_taken.is_prefix_of(stream),
        first_stopped ==> first_taken == stream,
        answers(first, scan_request(first_taken), first_taken, first_stopped),
        second_taken.is_prefix_of(stream),
        second_stopped ==> second_taken == stream,
        answers(second, scan_request(second_taken), second_taken, second_stopped),
    ensures
        first is Ok,
        second is Ok,
        first->Ok_0@ == second->Ok_0@,
        first->Ok_0@ == scan_request(stream)->Done_value,
        first_taken == second_taken,
        first_taken.len() == scan_request(stream)->Done_used,
{
    law_request_of_stream(stream, first, first_taken, first_stopped);
    law_request_of_stream(stream, second, second_taken, second_stopped);
    assert(first_taken =~= second_taken);
}

/// The cursor `cursor` after `n` bytes were handed out from it, one after
/// the other, without asking the source.
pub open spec fn handed_times(cursor: Cursor, n: nat) -> Cursor
    decreases n,
{
    if n == 0 {
        cursor
    } else {
        handed_times(cursor, (n - 1) as nat).handed().0
    }
}

/// What a source gives comes out in its order, none of it lost and none
/// repeated. Let a reader with nothing pending take the answer of a source
/// that has given `n` bytes. Then the next `n` bytes that it hands out are
/// those from the front of what the source wrote, one after the other, and
/// it need not ask the source for any of them. Behind the last of them
/// nothing is pending: the source is asked again then, and not before.
pub proof fn law_refill_in_order(cursor: Cursor, chunk: Seq<u8>, answer: Option<usize>, i: nat)
    requires
        cursor.pending.len() == 0,
        chunk.len() == BUFFER_SIZE,
        Cursor::given(answer),
        i <= answer->0,
        cursor.taken.len() + i <= u64::MAX,
    ensures
        handed_times(cursor.refilled(chunk, answer), i).taken == cursor.taken + chunk.take(
            i as int,
        ),
        handed_times(cursor.refilled(chunk, answer), i).pending == chunk.subrange(
            i as int,
            answer->0 as int,
        ),
        handed_times(cursor.refilled(chunk, answer), i).rewind == i,
        i < answer->0 && cursor.taken.len() + i < u64::MAX ==> !handed_times(
            cursor.refilled(chunk, answer),
            i,
        ).asks() && handed_times(cursor.refilled(chunk, answer), i).handed().1 == Some(
            chunk[i as int],
        ),
        i == answer->0 ==> handed_times(cursor.refilled(chunk, answer), i).pending.len() == 0,
    decreases i,
{
    let start = cursor.refilled(chunk, answer);
    let n = answer->0 as int;
    if i == 0 {
        assert(start.taken =~= cursor.taken + chunk.take(0));
        assert(start.pending =~= chunk.subrange(0, n));
    } else {
        let before = handed_times(start, (i - 1) as nat);
        law_refill_in_order(cursor, chunk, answer, (i - 1) as nat);
        let now = handed_times(start, i);
        assert(now == before.handed().0);
        assert(before.pending.len() > 0 && !before.full());
        assert(before.pending[0] == chunk[i - 1]);
        assert(now.taken =~= cursor.taken + chunk.take(i as int));
        assert(now.pending =~= chunk.subrange(i as int, n));
    }
}

} // verus!
