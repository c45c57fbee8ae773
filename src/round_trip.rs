//! The event-stream text of a sequence of events, and the law that decoding
//! it gives the events back.

use vstd::prelude::*;
use vstd::utf8::*;

use crate::decoder::{end_line, end_of_stream, run, step, DecoderView};
use crate::event::{
    apply_line, colon_at, colon_from, field_name, field_value, flush_view, name_data, name_event,
    name_id, name_retry, EventView, Flushed, PendingView, COLON, CR, LF, SPACE,
};
use crate::laws::lemma_run_append;

verus! {

/// The bytes hold no line feed and no carriage return.
pub open spec fn no_break(b: Seq<u8>) -> bool {
    !b.contains(LF) && !b.contains(CR)
}

pub open spec fn all_ascii(b: Seq<u8>) -> bool {
    forall|i: int| 0 <= i < b.len() ==> #[trigger] b[i] < 128
}

proof fn lemma_ascii_valid(b: Seq<u8>)
    requires
        all_ascii(b),
    ensures
        valid_utf8(b),
    decreases b.len(),
{
    if b.len() > 0 {
        assert(pop_first_scalar(b) =~= b.drop_first());
        assert(all_ascii(b.drop_first()));
        lemma_ascii_valid(b.drop_first());
    }
}

/// Well-formed text stays well-formed on both sides of a line feed.
proof fn lemma_valid_around_lf(b: Seq<u8>, i: int)
    requires
        valid_utf8(b),
        0 <= i < b.len(),
        b[i] == LF,
    ensures
        valid_utf8(b.subrange(0, i)),
        valid_utf8(b.subrange(i + 1, b.len() as int)),
{
    is_char_boundary_iff_is_leading_byte(b, i);
    valid_utf8_split(b, i);
    let t = b.subrange(i, b.len() as int);
    assert(pop_first_scalar(t) =~= b.subrange(i + 1, b.len() as int));
}

proof fn lemma_colon_from(line: Seq<u8>, n: int, k: int)
    requires
        0 <= k <= n < line.len(),
        line[n] == COLON,
        forall|j: int| 0 <= j < n ==> line[j] != COLON,
    ensures
        colon_from(line, k) == n,
    decreases n - k,
{
    if k < n {
        lemma_colon_from(line, n, k + 1);
    }
}

proof fn lemma_colon_at(name: Seq<u8>, rest: Seq<u8>)
    requires
        !name.contains(COLON),
    ensures
        colon_at(name + seq![COLON] + rest) == name.len(),
        field_name(name + seq![COLON] + rest) == name,
{
    let line = name + seq![COLON] + rest;
    assert forall|j: int| 0 <= j < name.len() implies line[j] != COLON by {
        assert(line[j] == name[j]);
    }
    lemma_colon_from(line, name.len() as int, 0);
    assert(line.subrange(0, name.len() as int) =~= name);
}

/// A field line without its terminator: the name, a colon, a space, the value.
pub open spec fn field_line(name: Seq<u8>, value: Seq<u8>) -> Seq<u8> {
    name + seq![COLON, SPACE] + value
}

/// The decimal digits of a number, most significant first.
pub open spec fn digits(n: nat) -> Seq<u8>
    decreases n,
{
    if n < 10 {
        seq![(48 + n) as u8]
    } else {
        digits(n / 10).push((48 + n % 10) as u8)
    }
}

/// Index of the first line feed at or after `i`, or the length if none.
pub open spec fn lf_from(b: Seq<u8>, i: int) -> int
    decreases b.len() - i,
{
    if i >= b.len() {
        b.len() as int
    } else if b[i] == LF {
        i
    } else {
        lf_from(b, i + 1)
    }
}

/// One `data` line for each piece of the text between line feeds.
pub open spec fn data_lines(b: Seq<u8>) -> Seq<u8>
    decreases b.len(),
{
    let i = lf_from(b, 0);
    if 0 <= i < b.len() {
        field_line(name_data(), b.subrange(0, i)) + seq![LF] + data_lines(
            b.subrange(i + 1, b.len() as int),
        )
    } else {
        field_line(name_data(), b) + seq![LF]
    }
}

/// The `id` line of an event, when it has an id.
pub open spec fn id_part(e: EventView) -> Seq<u8> {
    match e.id {
        Some(i) => field_line(name_id(), encode_utf8(i)) + seq![LF],
        None => Seq::empty(),
    }
}

/// The `retry` line of an event, when it has a retry value.
pub open spec fn retry_part(e: EventView) -> Seq<u8> {
    match e.retry {
        Some(n) => field_line(name_retry(), digits(n as nat)) + seq![LF],
        None => Seq::empty(),
    }
}

/// The event-stream text of one event: its type, its data, its id and retry
/// when present, and the blank line that ends it.
pub open spec fn encode_event(e: EventView) -> Seq<u8> {
    field_line(name_event(), encode_utf8(e.event_type)) + seq![LF] + data_lines(
        encode_utf8(e.data),
    ) + id_part(e) + retry_part(e) + seq![LF]
}

pub open spec fn encode_events(es: Seq<EventView>) -> Seq<u8>
    decreases es.len(),
{
    if es.len() == 0 {
        Seq::empty()
    } else {
        encode_events(es.drop_last()) + encode_event(es.last())
    }
}

/// An event that the text can carry: no line break in its type or id, no
/// carriage return in its data, no NUL in its id.
pub open spec fn encodable(e: EventView) -> bool {
    &&& no_break(encode_utf8(e.event_type))
    &&& !encode_utf8(e.data).contains(CR)
    &&& (e.id matches Some(i) ==> no_break(encode_utf8(i)) && !encode_utf8(i).contains(0u8))
}

/// The state after a whole line and its line feed.
pub open spec fn take_line(s: DecoderView, l: Seq<u8>) -> (DecoderView, Seq<EventView>) {
    let x = DecoderView { line: l, started: s.started || l.len() > 0, ..s };
    let (t, e) = end_line(x);
    (DecoderView { after_cr: false, started: true, ..t }, e)
}

proof fn lemma_run_plain(s: DecoderView, b: Seq<u8>)
    requires
        s.failed is None,
        !s.after_cr,
        no_break(b),
    ensures
        run(s, b) == (
        DecoderView { line: s.line + b, started: s.started || b.len() > 0, ..s },
        Seq::<EventView>::empty(),
        ),
    decreases b.len(),
{
    if b.len() == 0 {
        assert(s.line + b =~= s.line);
    } else {
        let c = b.drop_last();
        assert(no_break(c)) by {
            if c.contains(LF) {
                let j = choose|j: int| 0 <= j < c.len() && c[j] == LF;
                assert(b[j] == LF);
            }
            if c.contains(CR) {
                let j = choose|j: int| 0 <= j < c.len() && c[j] == CR;
                assert(b[j] == CR);
            }
        }
        assert(b[b.len() - 1] == b.last());
        lemma_run_plain(s, c);
        assert((s.line + c).push(b.last()) =~= s.line + b);
        assert(Seq::<EventView>::empty() + Seq::<EventView>::empty() =~= Seq::<EventView>::empty());
    }
}

proof fn lemma_run_line(s: DecoderView, l: Seq<u8>)
    requires
        s.failed is None,
        !s.after_cr,
        s.line.len() == 0,
        no_break(l),
    ensures
        run(s, l + seq![LF]) == take_line(s, l),
{
    lemma_run_append(s, l, seq![LF]);
    lemma_run_plain(s, l);
    assert(seq![LF].drop_last() =~= Seq::<u8>::empty());
    assert(s.line + l =~= l);
    let t = run(s, l).0;
    let x = DecoderView { line: l, started: s.started || l.len() > 0, ..s };
    assert(t == x);
    let e = step(t, LF).1;
    assert(run(t, Seq::<u8>::empty()) == (t, Seq::<EventView>::empty()));
    assert(seq![LF].last() == LF);
    assert(run(t, seq![LF]).0 == step(t, LF).0);
    assert(run(t, seq![LF]).1 =~= e);
    assert(Seq::<EventView>::empty() + e =~= e);
}

proof fn lemma_names()
    ensures
        !name_event().contains(COLON),
        !name_data().contains(COLON),
        !name_id().contains(COLON),
        !name_retry().contains(COLON),
        valid_utf8(name_data()),
        valid_utf8(name_id()),
        valid_utf8(name_retry()),
        name_data() != name_event(),
        name_id() != name_event(),
        name_id() != name_data(),
        name_retry() != name_event(),
        name_retry() != name_data(),
        name_retry() != name_id(),
{
    assert(name_data()[0] != name_event()[0]);
    assert(name_id()[0] != name_event()[0]);
    assert(name_retry()[0] != name_event()[0]);
    assert(name_id().len() != name_data().len());
    assert(name_retry().len() != name_data().len());
    assert(name_retry().len() != name_id().len());
    lemma_ascii_valid(name_data());
    lemma_ascii_valid(name_id());
    lemma_ascii_valid(name_retry());
}

proof fn lemma_field_line(name: Seq<u8>, v: Seq<u8>)
    requires
        !name.contains(COLON),
        name.len() > 0,
    ensures
        colon_at(field_line(name, v)) == name.len(),
        field_name(field_line(name, v)) == name,
        field_value(field_line(name, v)) == v,
        field_line(name, v).len() > 0,
{
    let line = field_line(name, v);
    assert(line =~= name + seq![COLON] + (seq![SPACE] + v));
    lemma_colon_at(name, seq![SPACE] + v);
    assert(line[name.len() as int + 1] == SPACE);
    assert(line.subrange(name.len() as int + 2, line.len() as int) =~= v);
}

proof fn lemma_apply_event(p: PendingView, v: Seq<u8>)
    ensures
        apply_line(p, field_line(name_event(), v)) == Ok::<PendingView, crate::error::ErrorView>(
            PendingView { event_type: Some(v), ..p },
        ),
{
    lemma_names();
    lemma_field_line(name_event(), v);
}

proof fn lemma_apply_data(p: PendingView, v: Seq<u8>)
    requires
        valid_utf8(v),
    ensures
        apply_line(p, field_line(name_data(), v)) == Ok::<PendingView, crate::error::ErrorView>(
            PendingView {
                data: Some(
                    match p.data {
                        Some(d) => d + seq![LF] + v,
                        None => v,
                    },
                ),
                ..p
            },
        ),
{
    lemma_names();
    lemma_field_line(name_data(), v);
}

proof fn lemma_apply_id(p: PendingView, v: Seq<u8>)
    requires
        valid_utf8(v),
        !v.contains(0u8),
    ensures
        apply_line(p, field_line(name_id(), v)) == Ok::<PendingView, crate::error::ErrorView>(
            PendingView { id: Some(v), ..p },
        ),
{
    lemma_names();
    lemma_field_line(name_id(), v);
}

proof fn lemma_digits(n: nat)
    ensures
        digits(n).len() > 0,
        crate::event::all_digits(digits(n)),
        all_ascii(digits(n)),
        crate::event::decimal_value(digits(n)) == n,
    decreases n,
{
    if n >= 10 {
        lemma_digits(n / 10);
        let d = digits(n / 10);
        assert(digits(n).drop_last() =~= d);
        assert(digits(n).last() == (48 + n % 10) as u8);
        assert(n == (n / 10) * 10 + n % 10);
        assert(crate::event::decimal_value(digits(n)) == crate::event::decimal_value(d) * 10 + (
        n % 10));
        assert(crate::event::all_digits(digits(n))) by {
            assert forall|i: int| 0 <= i < digits(n).len() implies crate::event::is_digit(
                #[trigger] digits(n)[i],
            ) by {
                if i < d.len() {
                    assert(digits(n)[i] == d[i]);
                }
            }
        }
        assert(all_ascii(digits(n))) by {
            assert forall|i: int| 0 <= i < digits(n).len() implies #[trigger] digits(n)[i] < 128 by {
                if i < d.len() {
                    assert(digits(n)[i] == d[i]);
                }
            }
        }
    } else {
        assert(digits(n).drop_last() =~= Seq::<u8>::empty());
        assert(crate::event::decimal_value(Seq::<u8>::empty()) == 0);
        assert(digits(n).last() == (48 + n) as u8);
    }
}

proof fn lemma_apply_retry(p: PendingView, n: u64)
    ensures
        apply_line(p, field_line(name_retry(), digits(n as nat))) == Ok::<
            PendingView,
            crate::error::ErrorView,
        >(PendingView { retry: Some(n), ..p }),
{
    lemma_names();
    lemma_digits(n as nat);
    lemma_ascii_valid(digits(n as nat));
    lemma_field_line(name_retry(), digits(n as nat));
}

proof fn lemma_lf_from(b: Seq<u8>, k: int)
    requires
        0 <= k <= b.len(),
    ensures
        k <= lf_from(b, k) <= b.len(),
        forall|j: int| k <= j < lf_from(b, k) ==> b[j] != LF,
        lf_from(b, k) < b.len() ==> b[lf_from(b, k)] == LF,
    decreases b.len() - k,
{
    if k < b.len() && b[k] != LF {
        lemma_lf_from(b, k + 1);
    }
}

proof fn lemma_line_no_break(name: Seq<u8>, v: Seq<u8>)
    requires
        all_ascii(name),
        !name.contains(LF),
        !name.contains(CR),
        no_break(v),
    ensures
        no_break(field_line(name, v)),
{
    let l = field_line(name, v);
    assert forall|j: int| 0 <= j < l.len() implies l[j] != LF && l[j] != CR by {
        if j < name.len() {
            assert(l[j] == name[j]);
        } else if j >= name.len() + 2 {
            assert(l[j] == v[j - name.len() - 2]);
        }
    }
}

proof fn lemma_names_no_break()
    ensures
        all_ascii(name_event()) && !name_event().contains(LF) && !name_event().contains(CR),
        all_ascii(name_data()) && !name_data().contains(LF) && !name_data().contains(CR),
        all_ascii(name_id()) && !name_id().contains(LF) && !name_id().contains(CR),
        all_ascii(name_retry()) && !name_retry().contains(LF) && !name_retry().contains(CR),
{
}

/// The pending data after a data line with the value `v`.
pub open spec fn with_data(s: DecoderView, v: Seq<u8>) -> DecoderView {
    DecoderView {
        pending: PendingView {
            data: Some(
                match s.pending.data {
                    Some(d) => d + seq![LF] + v,
                    None => v,
                },
            ),
            ..s.pending
        },
        started: true,
        ..s
    }
}

proof fn lemma_run_data_line(s: DecoderView, v: Seq<u8>)
    requires
        s.failed is None,
        !s.after_cr,
        s.line.len() == 0,
        valid_utf8(v),
        no_break(v),
    ensures
        run(s, field_line(name_data(), v) + seq![LF]) == (with_data(s, v), Seq::<EventView>::empty()),
{
    lemma_names_no_break();
    let l = field_line(name_data(), v);
    lemma_line_no_break(name_data(), v);
    lemma_field_line(name_data(), v);
    lemma_apply_data(s.pending, v);
    lemma_run_line(s, l);
    assert(s.line =~= Seq::<u8>::empty());
}

proof fn lemma_run_data(s: DecoderView, b: Seq<u8>)
    requires
        s.failed is None,
        !s.after_cr,
        s.line.len() == 0,
        valid_utf8(b),
        !b.contains(CR),
    ensures
        run(s, data_lines(b)) == (with_data(s, b), Seq::<EventView>::empty()),
    decreases b.len(),
{
    lemma_lf_from(b, 0);
    let i = lf_from(b, 0);
    if i < b.len() {
        let b1 = b.subrange(0, i);
        let b2 = b.subrange(i + 1, b.len() as int);
        lemma_valid_around_lf(b, i);
        assert(no_break(b1)) by {
            assert forall|j: int| 0 <= j < b1.len() implies b1[j] != LF && b1[j] != CR by {
                assert(b1[j] == b[j]);
            }
        }
        assert(!b2.contains(CR)) by {
            assert forall|j: int| 0 <= j < b2.len() implies b2[j] != CR by {
                assert(b2[j] == b[j + i + 1]);
            }
        }
        let first = field_line(name_data(), b1) + seq![LF];
        assert(data_lines(b) == first + data_lines(b2));
        lemma_run_data_line(s, b1);
        lemma_run_append(s, first, data_lines(b2));
        let s1 = with_data(s, b1);
        lemma_run_data(s1, b2);
        assert(b =~= b1 + seq![LF] + b2);
        match s.pending.data {
            Some(d) => {
                assert(d + seq![LF] + b1 + seq![LF] + b2 =~= d + seq![LF] + b);
            },
            None => {},
        }
        assert(with_data(s1, b2) == with_data(s, b));
        assert(Seq::<EventView>::empty() + Seq::<EventView>::empty() =~= Seq::<EventView>::empty());
    } else {
        assert(no_break(b)) by {
            assert forall|j: int| 0 <= j < b.len() implies b[j] != LF && b[j] != CR by {}
        }
        assert(data_lines(b) == field_line(name_data(), b) + seq![LF]);
        lemma_run_data_line(s, b);
    }
}

proof fn lemma_run_empty(x: DecoderView)
    ensures
        run(x, Seq::<u8>::empty()) == (x, Seq::<EventView>::empty()),
{
}

proof fn lemma_run_single(x: DecoderView, b: u8)
    ensures
        run(x, seq![b]).0 == step(x, b).0,
        run(x, seq![b]).1 == step(x, b).1,
{
    assert(seq![b].drop_last() =~= Seq::<u8>::empty());
    lemma_run_empty(x);
    assert(Seq::<EventView>::empty() + step(x, b).1 =~= step(x, b).1);
}

/// The pending fields once every line of the event but the blank one is in.
pub open spec fn pending_of(e: EventView) -> PendingView {
    PendingView {
        event_type: Some(encode_utf8(e.event_type)),
        data: Some(encode_utf8(e.data)),
        id: match e.id {
            Some(i) => Some(encode_utf8(i)),
            None => None,
        },
        retry: e.retry,
    }
}

proof fn lemma_run_head(s: DecoderView, e: EventView)
    requires
        s.failed is None,
        !s.after_cr,
        s.line.len() == 0,
        s.pending.is_empty(),
        encodable(e),
    ensures
        run(
            s,
            field_line(name_event(), encode_utf8(e.event_type)) + seq![LF] + data_lines(
                encode_utf8(e.data),
            ),
        ) == (
        DecoderView {
            pending: PendingView { id: None, retry: None, ..pending_of(e) },
            started: true,
            ..s
        },
        Seq::<EventView>::empty(),
        ),
{
    lemma_names_no_break();
    let t = encode_utf8(e.event_type);
    let d = encode_utf8(e.data);
    let a = field_line(name_event(), t) + seq![LF];
    lemma_line_no_break(name_event(), t);
    lemma_names();
    lemma_field_line(name_event(), t);
    lemma_apply_event(s.pending, t);
    lemma_run_line(s, field_line(name_event(), t));
    assert(s.line =~= Seq::<u8>::empty());
    let s1 = run(s, a).0;
    encode_utf8_valid_utf8(e.data);
    lemma_run_data(s1, d);
    lemma_run_append(s, a, data_lines(d));
    assert(Seq::<EventView>::empty() + Seq::<EventView>::empty() =~= Seq::<EventView>::empty());
}

proof fn lemma_run_id(s: DecoderView, e: EventView)
    requires
        s.failed is None,
        !s.after_cr,
        s.line.len() == 0,
        s.pending.id is None,
        encodable(e),
    ensures
        run(s, id_part(e)) == (
        DecoderView {
            pending: PendingView {
                id: match e.id {
                    Some(i) => Some(encode_utf8(i)),
                    None => None,
                },
                ..s.pending
            },
            started: s.started || e.id is Some,
            ..s
        },
        Seq::<EventView>::empty(),
        ),
{
    match e.id {
        Some(i) => {
            let v = encode_utf8(i);
            lemma_names_no_break();
            lemma_names();
            encode_utf8_valid_utf8(i);
            lemma_line_no_break(name_id(), v);
            lemma_field_line(name_id(), v);
            lemma_apply_id(s.pending, v);
            lemma_run_line(s, field_line(name_id(), v));
            assert(s.line =~= Seq::<u8>::empty());
        },
        None => {
            lemma_run_empty(s);
            assert(s.pending == PendingView { id: None, ..s.pending });
        },
    }
}

proof fn lemma_run_retry(s: DecoderView, e: EventView)
    requires
        s.failed is None,
        !s.after_cr,
        s.line.len() == 0,
        s.pending.retry is None,
    ensures
        run(s, retry_part(e)) == (
        DecoderView {
            pending: PendingView { retry: e.retry, ..s.pending },
            started: s.started || e.retry is Some,
            ..s
        },
        Seq::<EventView>::empty(),
        ),
{
    match e.retry {
        Some(n) => {
            let v = digits(n as nat);
            lemma_names_no_break();
            lemma_names();
            lemma_digits(n as nat);
            assert(no_break(v)) by {
                assert forall|j: int| 0 <= j < v.len() implies v[j] != LF && v[j] != CR by {
                    assert(crate::event::is_digit(v[j]));
                }
            }
            lemma_line_no_break(name_retry(), v);
            lemma_field_line(name_retry(), v);
            lemma_apply_retry(s.pending, n);
            lemma_run_line(s, field_line(name_retry(), v));
            assert(s.line =~= Seq::<u8>::empty());
        },
        None => {
            lemma_run_empty(s);
            assert(s.pending == PendingView { retry: None, ..s.pending });
        },
    }
}

/// The state after a whole event: nothing pending, its id remembered.
pub open spec fn after_event(s: DecoderView, e: EventView) -> DecoderView {
    DecoderView {
        pending: PendingView::empty(),
        line: Seq::empty(),
        last_id: if e.id is Some {
            e.id
        } else {
            s.last_id
        },
        started: true,
        ..s
    }
}

proof fn lemma_run_event(s: DecoderView, e: EventView)
    requires
        s.failed is None,
        !s.after_cr,
        s.line.len() == 0,
        s.pending.is_empty(),
        encodable(e),
    ensures
        run(s, encode_event(e)) == (after_event(s, e), seq![e]),
{
    let a = field_line(name_event(), encode_utf8(e.event_type)) + seq![LF] + data_lines(
        encode_utf8(e.data),
    );
    lemma_run_head(s, e);
    let s1 = run(s, a).0;
    lemma_run_id(s1, e);
    lemma_run_append(s, a, id_part(e));
    let s2 = run(s1, id_part(e)).0;
    lemma_run_retry(s2, e);
    lemma_run_append(s, a + id_part(e), retry_part(e));
    let s3 = run(s2, retry_part(e)).0;
    assert(s3.pending == pending_of(e));
    lemma_run_single(s3, LF);
    lemma_run_append(s, a + id_part(e) + retry_part(e), seq![LF]);
    encode_utf8_valid_utf8(e.event_type);
    encode_utf8_decode_utf8(e.event_type);
    encode_utf8_decode_utf8(e.data);
    match e.id {
        Some(i) => {
            encode_utf8_decode_utf8(i);
        },
        None => {},
    }
    let ev = EventView {
        event_type: decode_utf8(encode_utf8(e.event_type)),
        data: decode_utf8(encode_utf8(e.data)),
        id: match e.id {
            Some(i) => Some(decode_utf8(encode_utf8(i))),
            None => None,
        },
        retry: e.retry,
    };
    assert(ev == e);
    assert(flush_view(s3.pending) == Flushed::Emit(e));
    assert(step(s3, LF).1 == seq![e]);
    assert(step(s3, LF).0 == after_event(s, e));
    let z = Seq::<EventView>::empty();
    assert(z + z + z + seq![e] =~= seq![e]);
}

/// Decoding the event-stream text of a sequence of events gives those events
/// back, field for field, and the stream then ends normally. The events are
/// those that the text can carry: no line break in a type or an id, no
/// carriage return in data, no NUL in an id.
pub proof fn lemma_round_trip(s: DecoderView, events: Seq<EventView>)
    requires
        s.failed is None,
        !s.after_cr,
        s.line.len() == 0,
        s.pending.is_empty(),
        forall|i: int| 0 <= i < events.len() ==> encodable(#[trigger] events[i]),
    ensures
        run(s, encode_events(events)).1 == events,
        end_of_stream(run(s, encode_events(events)).0) is None,
        run(s, encode_events(events)).0.failed is None,
        !run(s, encode_events(events)).0.after_cr,
        run(s, encode_events(events)).0.line.len() == 0,
        run(s, encode_events(events)).0.pending.is_empty(),
    decreases events.len(),
{
    if events.len() == 0 {
        lemma_run_empty(s);
    } else {
        let front = events.drop_last();
        let e = events.last();
        assert(encodable(events[events.len() - 1]));
        assert forall|i: int| 0 <= i < front.len() implies encodable(#[trigger] front[i]) by {
            assert(front[i] == events[i]);
        }
        lemma_round_trip(s, front);
        lemma_run_append(s, encode_events(front), encode_event(e));
        let t = run(s, encode_events(front)).0;
        lemma_run_event(t, e);
        assert(front.push(e) =~= events);
    }
}

} // verus!
