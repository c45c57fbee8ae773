//! What holds of the decoder over whole streams.

use vstd::prelude::*;

use crate::decoder::{end_line, end_of_stream, run, step, DecoderView};
use crate::error::ErrorView;
use crate::event::{
    apply_line, colon_at, default_event_type, field_name, field_value, flush_view, name_data,
    EventView, Flushed, PendingView, CR, LF,
};

verus! {

/// The bytes of a sequence of chunks, in order.
pub open spec fn concat_chunks(chunks: Seq<Seq<u8>>) -> Seq<u8>
    decreases chunks.len(),
{
    if chunks.len() == 0 {
        Seq::empty()
    } else {
        concat_chunks(chunks.drop_last()) + chunks.last()
    }
}

/// What feeding the chunks one after the other does: the final state and
/// every event handed out, in order.
pub open spec fn run_chunks(s: DecoderView, chunks: Seq<Seq<u8>>) -> (DecoderView, Seq<EventView>)
    decreases chunks.len(),
{
    if chunks.len() == 0 {
        (s, seq![])
    } else {
        let (t, e1) = run_chunks(s, chunks.drop_last());
        let (u, e2) = run(t, chunks.last());
        (u, e1 + e2)
    }
}

/// Decoding `a` and then `b` is decoding `a + b`.
pub proof fn lemma_run_append(s: DecoderView, a: Seq<u8>, b: Seq<u8>)
    ensures
        run(s, a + b) == (run(run(s, a).0, b).0, run(s, a).1 + run(run(s, a).0, b).1),
    decreases b.len(),
{
    let (t, e1) = run(s, a);
    if b.len() == 0 {
        assert(a + b =~= a);
        assert(e1 + Seq::<EventView>::empty() =~= e1);
    } else {
        assert((a + b).drop_last() =~= a + b.drop_last());
        assert((a + b).last() == b.last());
        lemma_run_append(s, a, b.drop_last());
        let (u, e2) = run(t, b.drop_last());
        let (v, e3) = step(u, b.last());
        assert(e1 + e2 + e3 =~= e1 + (e2 + e3));
    }
}

/// Feeding a stream in chunks gives the state and the events that the whole
/// stream gives at once.
pub proof fn lemma_chunks_as_whole(s: DecoderView, chunks: Seq<Seq<u8>>)
    ensures
        run_chunks(s, chunks) == run(s, concat_chunks(chunks)),
    decreases chunks.len(),
{
    if chunks.len() > 0 {
        lemma_chunks_as_whole(s, chunks.drop_last());
        lemma_run_append(s, concat_chunks(chunks.drop_last()), chunks.last());
    }
}

/// Chunking is transparent: two ways of cutting the same bytes into chunks
/// hand out the same events and end in the same state, so the end of the
/// stream is reported the same way too.
pub proof fn lemma_chunking_transparent(s: DecoderView, c1: Seq<Seq<u8>>, c2: Seq<Seq<u8>>)
    requires
        concat_chunks(c1) == concat_chunks(c2),
    ensures
        run_chunks(s, c1) == run_chunks(s, c2),
        end_of_stream(run_chunks(s, c1).0) == end_of_stream(run_chunks(s, c2).0),
{
    lemma_chunks_as_whole(s, c1);
    lemma_chunks_as_whole(s, c2);
}

/// A blank line with no field set since the last flush hands out no event
/// and leaves the pending fields empty.
pub proof fn lemma_blank_line_without_fields(s: DecoderView, b: u8)
    requires
        s.line.len() == 0,
        s.pending.is_empty(),
        b == LF || b == CR,
    ensures
        step(s, b).1 == Seq::<EventView>::empty(),
        step(s, b).0.pending.is_empty(),
        step(s, b).0.failed == s.failed,
{
}

/// A data line adds its value to the event's data, after a line feed when
/// there was data before.
pub proof fn lemma_data_lines_join(p: PendingView, line: Seq<u8>)
    requires
        field_name(line) == name_data(),
        vstd::utf8::valid_utf8(field_value(line)),
    ensures
        apply_line(p, line) == Ok::<PendingView, ErrorView>(
            PendingView {
                data: Some(
                    match p.data {
                        Some(d) => d + seq![LF] + field_value(line),
                        None => field_value(line),
                    },
                ),
                ..p
            },
        ),
{
    assert(field_name(line) != crate::event::name_event()) by {
        assert(field_name(line)[0] != crate::event::name_event()[0]);
    }
    let n = name_data();
    assert(vstd::utf8::valid_utf8(n)) by {
        reveal_with_fuel(vstd::utf8::valid_utf8, 5);
        assert(vstd::utf8::pop_first_scalar(n) =~= n.subrange(1, 4));
        assert(vstd::utf8::pop_first_scalar(n.subrange(1, 4)) =~= n.subrange(2, 4));
        assert(vstd::utf8::pop_first_scalar(n.subrange(2, 4)) =~= n.subrange(3, 4));
        assert(vstd::utf8::pop_first_scalar(n.subrange(3, 4)) =~= n.subrange(4, 4));
    }
    assert(colon_at(line) != 0) by {
        assert(field_name(line).len() == 4);
    }
}

/// An event that no `event` field named has the type `"message"`.
pub proof fn lemma_default_event_type(p: PendingView)
    requires
        !p.is_empty(),
        p.event_type is None,
    ensures
        flush_view(p) matches Flushed::Emit(e) && e.event_type == default_event_type(),
{
}

/// A stream that ends with the blank line that completes an event, or with
/// any blank line, ends normally.
pub proof fn lemma_end_after_blank_line(s: DecoderView, b: u8)
    requires
        s.failed is None,
        s.line.len() == 0,
        b == LF || b == CR,
        !(b == LF && s.after_cr),
        step(s, b).0.failed is None,
    ensures
        end_of_stream(step(s, b).0) is None,
{
}

/// A stream that ends inside a line ends with `UnexpectedEof`, unless the
/// decode had failed before.
pub proof fn lemma_end_inside_line(s: DecoderView)
    requires
        s.failed is None,
        s.line.len() > 0,
    ensures
        end_of_stream(s) == Some(ErrorView::UnexpectedEof),
{
}

} // verus!
