//! What the proofs of the parsers and of the laws rest on: how the functions
//! of the grammar behave when bytes are added behind what they were given.

use crate::grammar::{
    enter_all, fields_of, header_run, header_step, is_version_byte, run_len, scan_headers,
    scan_method, scan_request, scan_request_line, scan_target, scan_version, scan_word,
    target_class, token_class, version_fit, version_len, FieldView, HeaderEnd, HeaderRun,
    HeaderState, HeaderStep, Scan,
};
use crate::reader::Cursor;
use vstd::prelude::*;

verus! {

/// Bytes handed out in two stretches are the bytes of the first stretch and
/// then those of the second.
pub proof fn lemma_since_split(a: Cursor, b: Cursor, c: Cursor)
    requires
        b.extends(a),
        c.extends(b),
    ensures
        c.extends(a),
        c.since(a) == b.since(a) + c.since(b),
        b.since(a).is_prefix_of(c.since(a)),
        c.since(a).skip(b.since(a).len() as int) == c.since(b),
{
    assert(c.since(a) =~= b.since(a) + c.since(b));
    assert(c.since(a).skip(b.since(a).len() as int) =~= c.since(b));
}

/// Where the first `k` bytes of `s` are in `class` and the next one, if
/// there is one, is not, the run at the front of `s` has `k` bytes.
pub proof fn lemma_run_len(s: Seq<u8>, class: spec_fn(u8) -> bool, k: nat)
    requires
        k <= s.len(),
        forall|i: int| 0 <= i < k ==> class(#[trigger] s[i]),
        k < s.len() ==> !class(s[k as int]),
    ensures
        run_len(s, class) == k,
    decreases k,
{
    if k > 0 {
        let rest = s.skip(1);
        assert forall|i: int| 0 <= i < k - 1 implies class(#[trigger] rest[i]) by {
            assert(rest[i] == s[i + 1]);
        }
        lemma_run_len(rest, class, (k - 1) as nat);
    }
}

/// The run at the front of `s` lies within `s`, its bytes are in `class`, and
/// the byte behind it, if there is one, is not.
pub proof fn lemma_run_len_bounds(s: Seq<u8>, class: spec_fn(u8) -> bool)
    ensures
        run_len(s, class) <= s.len(),
        forall|i: int| 0 <= i < run_len(s, class) ==> class(#[trigger] s[i]),
        run_len(s, class) < s.len() ==> !class(s[run_len(s, class) as int]),
    decreases s.len(),
{
    if s.len() > 0 && class(s[0]) {
        let rest = s.skip(1);
        lemma_run_len_bounds(rest, class);
        assert forall|i: int| 0 <= i < run_len(s, class) implies class(#[trigger] s[i]) by {
            if i > 0 {
                assert(rest[i - 1] == s[i]);
            }
        }
    }
}

/// A word that is found in `p` is found in the same way in every sequence that
/// begins with `p`.
pub proof fn lemma_scan_word_prefix(p: Seq<u8>, s: Seq<u8>, class: spec_fn(u8) -> bool)
    requires
        p.is_prefix_of(s),
        !(scan_word(p, class) is Short),
    ensures
        scan_word(s, class) == scan_word(p, class),
{
    let n = run_len(p, class);
    lemma_run_len_bounds(p, class);
    assert forall|i: int| 0 <= i < n implies class(#[trigger] s[i]) by {
        assert(s[i] == p[i]);
    }
    assert(s[n as int] == p[n as int]);
    lemma_run_len(s, class, n);
    assert(s.take(n as int) =~= p.take(n as int));
}

/// Where the first `k` bytes of `s` fit a version and the next one, if the
/// version has one and there is one, does not, `k` bytes of `s` fit.
pub proof fn lemma_version_fit(s: Seq<u8>, k: nat)
    requires
        k <= version_len(),
        k <= s.len(),
        forall|i: int| 0 <= i < k ==> is_version_byte(i, #[trigger] s[i]),
        k < version_len() && k < s.len() ==> !is_version_byte(k as int, s[k as int]),
    ensures
        version_fit(s, 0) == k,
{
    lemma_version_fit_from(s, k, 0);
}

/// The same, counted from the place `i` on.
proof fn lemma_version_fit_from(s: Seq<u8>, k: nat, i: nat)
    requires
        i <= k <= version_len(),
        k <= s.len(),
        forall|i: int| 0 <= i < k ==> is_version_byte(i, #[trigger] s[i]),
        k < version_len() && k < s.len() ==> !is_version_byte(k as int, s[k as int]),
    ensures
        version_fit(s, i) == k,
    decreases k - i,
{
    if i < k {
        assert(is_version_byte(i as int, s[i as int]));
        lemma_version_fit_from(s, k, i + 1);
    }
}

/// The bytes of `s` that fit a version lie within `s` and within the length
/// of a version, and the byte behind them, if the version has one there and
/// there is one, does not fit.
pub proof fn lemma_version_fit_bounds(s: Seq<u8>)
    ensures
        version_fit(s, 0) <= version_len(),
        version_fit(s, 0) <= s.len(),
        forall|i: int| 0 <= i < version_fit(s, 0) ==> is_version_byte(i, #[trigger] s[i]),
        version_fit(s, 0) < version_len() && version_fit(s, 0) < s.len() ==> !is_version_byte(
            version_fit(s, 0) as int,
            s[version_fit(s, 0) as int],
        ),
{
    lemma_version_fit_bounds_from(s, 0);
}

/// The same, counted from the place `i` on, before which all bytes fit.
proof fn lemma_version_fit_bounds_from(s: Seq<u8>, i: nat)
    requires
        i <= version_len(),
        i <= s.len(),
        forall|j: int| 0 <= j < i ==> is_version_byte(j, #[trigger] s[j]),
    ensures
        i <= version_fit(s, i) <= version_len(),
        version_fit(s, i) <= s.len(),
        forall|j: int| 0 <= j < version_fit(s, i) ==> is_version_byte(j, #[trigger] s[j]),
        version_fit(s, i) < version_len() && version_fit(s, i) < s.len() ==> !is_version_byte(
            version_fit(s, i) as int,
            s[version_fit(s, i) as int],
        ),
    decreases version_len() - i,
{
    if i < version_len() && i < s.len() && is_version_byte(i as int, s[i as int]) {
        lemma_version_fit_bounds_from(s, i + 1);
    }
}

/// A version that is found in `p`, or that a byte of `p` breaks, is found or
/// broken in the same way in every sequence that begins with `p`.
pub proof fn lemma_scan_version_prefix(p: Seq<u8>, s: Seq<u8>)
    requires
        p.is_prefix_of(s),
        !(scan_version(p) is Short),
    ensures
        scan_version(s) == scan_version(p),
{
    let n = version_fit(p, 0);
    lemma_version_fit_bounds(p);
    assert forall|i: int| 0 <= i < n implies is_version_byte(i, #[trigger] s[i]) by {
        assert(s[i] == p[i]);
        assert(is_version_byte(i, p[i]));
    }
    if n < version_len() {
        assert(s[n as int] == p[n as int]);
    } else {
        assert(s[5] == p[5]);
        assert(s[7] == p[7]);
    }
    lemma_version_fit(s, n);
}

/// A request line that is found in `p`, or that a byte of `p` breaks, is
/// found or broken in the same way in every sequence that begins with `p`.
pub proof fn lemma_scan_request_line_prefix(p: Seq<u8>, s: Seq<u8>)
    requires
        p.is_prefix_of(s),
        !(scan_request_line(p) is Short),
    ensures
        scan_request_line(s) == scan_request_line(p),
{
    lemma_scan_word_prefix(p, s, token_class());
    if let Scan::Done { used: a, .. } = scan_method(p) {
        lemma_run_len_bounds(p, token_class());
        let p_tail = p.skip(a as int);
        let s_tail = s.skip(a as int);
        assert(p_tail.is_prefix_of(s_tail));
        lemma_scan_word_prefix(p_tail, s_tail, target_class());
        if let Scan::Done { used: b, .. } = scan_target(p_tail) {
            lemma_run_len_bounds(p_tail, target_class());
            let p_end = p.skip((a + b) as int);
            let s_end = s.skip((a + b) as int);
            assert(p_end.is_prefix_of(s_end));
            lemma_scan_version_prefix(p_end, s_end);
        }
    }
}

/// A request line takes no more bytes than there are.
pub proof fn lemma_scan_request_line_used(s: Seq<u8>)
    ensures
        scan_request_line(s) matches Scan::Done { used, .. } ==> 0 < used <= s.len(),
        scan_request_line(s) matches Scan::Illegal { used } ==> 0 < used <= s.len(),
{
    lemma_run_len_bounds(s, token_class());
    if let Scan::Done { used: a, .. } = scan_method(s) {
        let s_tail = s.skip(a as int);
        lemma_run_len_bounds(s_tail, target_class());
        if let Scan::Done { used: b, .. } = scan_target(s_tail) {
            let s_end = s.skip((a + b) as int);
            lemma_version_fit_bounds(s_end);
        }
    }
}

/// A run takes no more bytes than there are, and takes them all where it
/// ends for want of more.
pub proof fn lemma_header_run_used(state: HeaderState, s: Seq<u8>)
    ensures
        header_run(state, s).used <= s.len(),
        header_run(state, s).end is Short ==> header_run(state, s).used == s.len(),
        !(header_run(state, s).end is Short) ==> header_run(state, s).used > 0,
    decreases s.len(),
{
    if s.len() > 0 {
        if let HeaderStep::Next { state: next, .. } = header_step(state, s[0]) {
            lemma_header_run_used(next, s.skip(1));
        }
    }
}

/// A run that ends within `p`, by the empty line or by a byte that may not
/// stand there, is the same run on every sequence that begins with `p`.
pub proof fn lemma_header_run_prefix(state: HeaderState, p: Seq<u8>, s: Seq<u8>)
    requires
        p.is_prefix_of(s),
        !(header_run(state, p).end is Short),
    ensures
        header_run(state, s) == header_run(state, p),
    decreases p.len(),
{
    assert(p.len() > 0);
    assert(s[0] == p[0]);
    if let HeaderStep::Next { state: next, .. } = header_step(state, p[0]) {
        assert(p.skip(1).is_prefix_of(s.skip(1)));
        lemma_header_run_prefix(next, p.skip(1), s.skip(1));
    }
}

/// How a run that ended for want of more bytes goes on when one more byte
/// comes: by the step of the automaton on that byte.
pub proof fn lemma_header_run_push(state: HeaderState, s: Seq<u8>, b: u8)
    requires
        header_run(state, s).end is Short,
    ensures
        header_run(state, s.push(b)) == (match header_step(header_run(state, s).end->Short_0, b) {
            HeaderStep::Next { state: next, field } => HeaderRun {
                end: HeaderEnd::Short(next),
                used: s.len() + 1,
                fields: header_run(state, s).fields + fields_of(field),
            },
            HeaderStep::End => HeaderRun {
                end: HeaderEnd::Done,
                used: s.len() + 1,
                fields: header_run(state, s).fields,
            },
            HeaderStep::Illegal => HeaderRun {
                end: HeaderEnd::Illegal,
                used: s.len() + 1,
                fields: header_run(state, s).fields,
            },
        }),
    decreases s.len(),
{
    let more = s.push(b);
    assert(more[0] == if s.len() == 0 { b } else { s[0] });
    if s.len() == 0 {
        assert(more.skip(1) =~= Seq::<u8>::empty());
        match header_step(state, b) {
            HeaderStep::Next { state: next, field } => {
                let rest = header_run(next, more.skip(1));
                assert(rest == HeaderRun {
                    end: HeaderEnd::Short(next),
                    used: 0,
                    fields: Seq::empty(),
                });
                assert(fields_of(field) + rest.fields =~= header_run(state, s).fields + fields_of(
                    field,
                ));
            },
            _ => {},
        }
    } else {
        assert(more.skip(1) =~= s.skip(1).push(b));
        match header_step(state, s[0]) {
            HeaderStep::Next { state: next, field } => {
                let rest = header_run(next, s.skip(1));
                assert(header_run(state, s) == HeaderRun {
                    end: rest.end,
                    used: rest.used + 1,
                    fields: fields_of(field) + rest.fields,
                });
                lemma_header_run_push(next, s.skip(1), b);
                let grown = header_run(next, more.skip(1));
                assert(header_run(state, more) == HeaderRun {
                    end: grown.end,
                    used: grown.used + 1,
                    fields: fields_of(field) + grown.fields,
                });
                match header_step(rest.end->Short_0, b) {
                    HeaderStep::Next { field: last, .. } => {
                        assert(fields_of(field) + (rest.fields + fields_of(last)) =~= (fields_of(
                            field,
                        ) + rest.fields) + fields_of(last));
                    },
                    _ => {},
                }
            },
            _ => {},
        }
    }
}

/// A run on two stretches of bytes, of which it does not end within the
/// first, goes through the first and then on through the second.
pub proof fn lemma_header_run_concat(state: HeaderState, a: Seq<u8>, b: Seq<u8>)
    requires
        header_run(state, a).end is Short,
    ensures
        header_run(state, a + b) == ({
            let first = header_run(state, a);
            let second = header_run(first.end->Short_0, b);
            HeaderRun {
                end: second.end,
                used: a.len() + second.used,
                fields: first.fields + second.fields,
            }
        }),
    decreases a.len(),
{
    let first = header_run(state, a);
    let second = header_run(first.end->Short_0, b);
    if a.len() == 0 {
        assert(a + b =~= b);
        assert(first.fields + second.fields =~= second.fields);
    } else {
        let whole = a + b;
        assert(whole[0] == a[0]);
        assert(whole.skip(1) =~= a.skip(1) + b);
        match header_step(state, a[0]) {
            HeaderStep::Next { state: next, field } => {
                let rest = header_run(next, a.skip(1));
                assert(first == HeaderRun {
                    end: rest.end,
                    used: rest.used + 1,
                    fields: fields_of(field) + rest.fields,
                });
                lemma_header_run_concat(next, a.skip(1), b);
                let grown = header_run(next, whole.skip(1));
                assert(header_run(state, whole) == HeaderRun {
                    end: grown.end,
                    used: grown.used + 1,
                    fields: fields_of(field) + grown.fields,
                });
                assert(fields_of(field) + (rest.fields + second.fields) =~= (fields_of(field)
                    + rest.fields) + second.fields);
            },
            _ => {},
        }
    }
}

/// A header block that is found in `p`, or that a byte of `p` breaks, is
/// found or broken in the same way in every sequence that begins with `p`.
pub proof fn lemma_scan_headers_prefix(p: Seq<u8>, s: Seq<u8>)
    requires
        p.is_prefix_of(s),
        !(scan_headers(p) is Short),
    ensures
        scan_headers(s) == scan_headers(p),
{
    lemma_header_run_prefix(HeaderState::Start, p, s);
}

/// A header block takes no more bytes than there are.
pub proof fn lemma_scan_headers_used(s: Seq<u8>)
    ensures
        scan_headers(s) matches Scan::Done { used, .. } ==> 0 < used <= s.len(),
        scan_headers(s) matches Scan::Illegal { used } ==> 0 < used <= s.len(),
{
    lemma_header_run_used(HeaderState::Start, s);
}

/// Entering one more field is entering it into what the fields before it
/// made.
pub proof fn lemma_enter_all_push(
    headers: Map<Seq<char>, Seq<char>>,
    fields: Seq<FieldView>,
    field: Option<FieldView>,
)
    ensures
        enter_all(headers, fields + fields_of(field)) == (match field {
            Some(field) => enter_all(headers, fields).insert(field.0, field.1),
            None => enter_all(headers, fields),
        }),
{
    match field {
        Some(one) => {
            let all = fields + fields_of(field);
            assert(all.drop_last() =~= fields);
            assert(all.last() == one);
        },
        None => {
            assert(fields + fields_of(field) =~= fields);
        },
    }
}

/// The head of a request that is found in `p`, or that a byte of `p` breaks,
/// is found or broken in the same way in every sequence that begins with `p`.
pub proof fn lemma_scan_request_prefix(p: Seq<u8>, s: Seq<u8>)
    requires
        p.is_prefix_of(s),
        !(scan_request(p) is Short),
    ensures
        scan_request(s) == scan_request(p),
{
    lemma_scan_request_line_prefix(p, s);
    if let Scan::Done { used: a, .. } = scan_request_line(p) {
        lemma_scan_request_line_used(p);
        let p_tail = p.skip(a as int);
        let s_tail = s.skip(a as int);
        assert(p_tail.is_prefix_of(s_tail));
        lemma_scan_headers_prefix(p_tail, s_tail);
    }
}

/// The head of a request takes no more bytes than there are.
pub proof fn lemma_scan_request_used(s: Seq<u8>)
    ensures
        scan_request(s) matches Scan::Done { used, .. } ==> 0 < used <= s.len(),
        scan_request(s) matches Scan::Illegal { used } ==> 0 < used <= s.len(),
{
    lemma_scan_request_line_used(s);
    if let Scan::Done { used: a, .. } = scan_request_line(s) {
        lemma_header_run_used(HeaderState::Start, s.skip(a as int));
    }
}

} // verus!
