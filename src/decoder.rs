//! The stream decoder: bytes in, events out.
//!
//! Its behaviour is stated as a machine that reads one byte at a time
//! (`step`); `run` folds it over a byte sequence. Feeding a chunk advances
//! the decoder exactly as `run` does over that chunk, so how the stream is cut
//! into chunks makes no difference to what comes out.

use vstd::prelude::*;

use crate::error::{Error, ErrorView};
use crate::event::{
    apply_line, events_view, flush_view, Event, EventView, Flushed, Pending, PendingView, CR, LF,
};

verus! {

/// Decodes one event stream.
pub struct Decoder {
    line: Vec<u8>,
    after_cr: bool,
    pending: Pending,
    last_id: Option<String>,
    failed: Option<Error>,
    started: bool,
}

pub struct DecoderView {
    /// The bytes of the line that is not yet terminated.
    pub line: Seq<u8>,
    /// The last byte was a carriage return, so a line feed now ends nothing.
    pub after_cr: bool,
    pub pending: PendingView,
    /// The id of the last event that carried one.
    pub last_id: Option<Seq<char>>,
    /// The error that ended the decode, if one did.
    pub failed: Option<ErrorView>,
    /// Some byte of the body has arrived.
    pub started: bool,
}

pub open spec fn error_opt(o: Option<Error>) -> Option<ErrorView> {
    match o {
        Some(e) => Some(e@),
        None => None,
    }
}

impl View for Decoder {
    type V = DecoderView;

    closed spec fn view(&self) -> DecoderView {
        DecoderView {
            line: self.line@,
            after_cr: self.after_cr,
            pending: self.pending@,
            last_id: crate::event::text_opt(self.last_id),
            failed: error_opt(self.failed),
            started: self.started,
        }
    }
}

/// The state before any byte.
pub open spec fn initial() -> DecoderView {
    DecoderView {
        line: Seq::empty(),
        after_cr: false,
        pending: PendingView::empty(),
        last_id: None,
        failed: None,
        started: false,
    }
}

/// The end of a line: a blank line flushes the pending fields, any other
/// line is taken into them.
pub open spec fn end_line(s: DecoderView) -> (DecoderView, Seq<EventView>) {
    let cleared = DecoderView { line: Seq::empty(), ..s };
    if s.line.len() == 0 {
        match flush_view(s.pending) {
            Flushed::Nothing => (DecoderView { pending: PendingView::empty(), ..cleared }, seq![]),
            Flushed::Emit(e) => (
                DecoderView {
                    pending: PendingView::empty(),
                    last_id: if e.id is Some {
                        e.id
                    } else {
                        s.last_id
                    },
                    ..cleared
                },
                seq![e],
            ),
            Flushed::Fail(err) => (
                DecoderView { pending: PendingView::empty(), failed: Some(err), ..cleared },
                seq![],
            ),
        }
    } else {
        match apply_line(s.pending, s.line) {
            Ok(p) => (DecoderView { pending: p, ..cleared }, seq![]),
            Err(err) => (DecoderView { failed: Some(err), ..cleared }, seq![]),
        }
    }
}

/// One byte of the stream: a line feed, a carriage return, or the pair of
/// them ends a line; after a failure nothing changes.
pub open spec fn step(s: DecoderView, b: u8) -> (DecoderView, Seq<EventView>) {
    if s.failed is Some {
        (s, seq![])
    } else if b == LF && s.after_cr {
        (DecoderView { after_cr: false, started: true, ..s }, seq![])
    } else if b == LF || b == CR {
        let (t, evs) = end_line(s);
        (DecoderView { after_cr: b == CR, started: true, ..t }, evs)
    } else {
        (DecoderView { line: s.line.push(b), after_cr: false, started: true, ..s }, seq![])
    }
}

/// The state after `bytes`, and the events that they complete, in order.
pub open spec fn run(s: DecoderView, bytes: Seq<u8>) -> (DecoderView, Seq<EventView>)
    decreases bytes.len(),
{
    if bytes.len() == 0 {
        (s, seq![])
    } else {
        let (t, e1) = run(s, bytes.drop_last());
        let (u, e2) = step(t, bytes.last());
        (u, e1 + e2)
    }
}

/// How the stream ends once the transport reports its end: normally unless
/// the decode failed or an event or a line is incomplete.
pub open spec fn end_of_stream(s: DecoderView) -> Option<ErrorView> {
    if s.failed is Some {
        s.failed
    } else if s.line.len() > 0 || !s.pending.is_empty() {
        Some(ErrorView::UnexpectedEof)
    } else {
        None
    }
}

impl Decoder {
    pub open spec fn wf(&self) -> bool {
        self@.pending.wf()
    }

    /// A decoder that has seen nothing yet.
    pub fn new() -> (r: Decoder)
        ensures
            r@ == initial(),
            r.wf(),
    {
        Decoder {
            line: Vec::new(),
            after_cr: false,
            pending: Pending::new(),
            last_id: None,
            failed: None,
            started: false,
        }
    }

    fn end_line(&mut self, out: &mut Vec<Event>)
        requires
            old(self).wf(),
            old(self)@.failed is None,
        ensures
            final(self).wf(),
            final(self)@ == end_line(old(self)@).0,
            events_view(final(out)@) == events_view(old(out)@) + end_line(old(self)@).1,
    {
        if self.line.len() == 0 {
            match self.pending.flush() {
                Ok(Some(ev)) => {
                    if let Some(id) = &ev.id {
                        self.last_id = Some(id.clone());
                    }
                    let ghost o = out@;
                    out.push(ev);
                    assert(events_view(out@) =~= events_view(o) + seq![ev@]);
                },
                Ok(None) => {
                    assert(events_view(out@) =~= events_view(out@) + Seq::<EventView>::empty());
                },
                Err(e) => {
                    self.failed = Some(e);
                    assert(events_view(out@) =~= events_view(out@) + Seq::<EventView>::empty());
                },
            }
        } else {
            match self.pending.apply(&self.line) {
                Ok(()) => {},
                Err(e) => {
                    self.failed = Some(e);
                },
            }
            assert(events_view(out@) =~= events_view(out@) + Seq::<EventView>::empty());
        }
        self.line = Vec::new();
    }

    fn push_byte(&mut self, b: u8, out: &mut Vec<Event>)
        requires
            old(self).wf(),
        ensures
            final(self).wf(),
            final(self)@ == step(old(self)@, b).0,
            events_view(final(out)@) == events_view(old(out)@) + step(old(self)@, b).1,
    {
        assert(events_view(out@) =~= events_view(out@) + Seq::<EventView>::empty());
        if self.failed.is_some() {
            return;
        }
        if b == LF && self.after_cr {
            self.after_cr = false;
            self.started = true;
            return;
        }
        self.started = true;
        if b == LF || b == CR {
            self.end_line(out);
            self.after_cr = b == CR;
        } else {
            self.line.push(b);
            self.after_cr = false;
        }
    }

    /// Takes the next chunk of the body and returns the events that it
    /// completes. Once the decode has failed, nothing more comes out.
    pub fn feed(&mut self, chunk: &[u8]) -> (r: Vec<Event>)
        requires
            old(self).wf(),
        ensures
            final(self).wf(),
            final(self)@ == run(old(self)@, chunk@).0,
            events_view(r@) == run(old(self)@, chunk@).1,
    {
        let mut out: Vec<Event> = Vec::new();
        let mut i: usize = 0;
        let ghost start = self@;
        assert(chunk@.take(0) =~= Seq::<u8>::empty());
        assert(events_view(out@) =~= Seq::<EventView>::empty());
        while i < chunk.len()
            invariant
                i <= chunk@.len(),
                self.wf(),
                self@ == run(start, chunk@.take(i as int)).0,
                events_view(out@) == run(start, chunk@.take(i as int)).1,
            decreases chunk.len() - i,
        {
            assert(chunk@.take(i as int + 1).drop_last() =~= chunk@.take(i as int));
            self.push_byte(chunk[i], &mut out);
            i = i + 1;
        }
        assert(chunk@.take(i as int) =~= chunk@);
        out
    }

    /// The error that ended the decode, if one did.
    pub fn error(&self) -> (r: Option<&Error>)
        ensures
            r is None <==> self@.failed is None,
            r matches Some(e) ==> self@.failed == Some(e@),
    {
        match &self.failed {
            Some(e) => Some(e),
            None => None,
        }
    }

    /// The id of the last event that carried one.
    pub fn last_event_id(&self) -> (r: Option<&String>)
        ensures
            r is None <==> self@.last_id is None,
            r matches Some(s) ==> self@.last_id == Some(s@),
    {
        match &self.last_id {
            Some(s) => Some(s),
            None => None,
        }
    }

    /// The error for a transport failure with the given cause: a failed
    /// request before the first byte of the body, a failed stream after it.
    pub fn transport_failure(&self, cause: String) -> (r: Error)
        ensures
            r@ == if self@.started {
                ErrorView::HttpStream(cause@)
            } else {
                ErrorView::HttpRequest(cause@)
            },
    {
        if self.started {
            Error::HttpStream(cause)
        } else {
            Error::HttpRequest(cause)
        }
    }

    /// Ends the decode when the transport reports the end of the body.
    pub fn finish(self) -> (r: Result<(), Error>)
        ensures
            match end_of_stream(self@) {
                None => r is Ok,
                Some(e) => r matches Err(x) && x@ == e,
            },
    {
        if let Some(e) = self.failed {
            return Err(e);
        }
        if self.line.len() > 0 || self.pending.event_type.is_some() || self.pending.data.is_some()
            || self.pending.id.is_some() || self.pending.retry.is_some() {
            return Err(Error::UnexpectedEof);
        }
        Ok(())
    }
}

} // verus!
