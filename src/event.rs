//! Events, the fields that build them, and the grammar of one line.

use vstd::prelude::*;
use vstd::utf8::*;

use crate::error::{Error, ErrorView};
use crate::text::{decode_text, lossy_text, render_lossy};

verus! {

pub const LF: u8 = 10;

pub const CR: u8 = 13;

pub const COLON: u8 = 58;

pub const SPACE: u8 = 32;

/// One complete event of the stream.
#[derive(Debug, Clone)]
pub struct Event {
    /// The event type; `"message"` where the stream named none.
    pub event_type: String,
    /// The data lines of the event, joined by line feeds.
    pub data: String,
    /// The id that the event carried, if any.
    pub id: Option<String>,
    /// The reconnection delay in milliseconds that the event carried, if any.
    pub retry: Option<u64>,
}

pub struct EventView {
    pub event_type: Seq<char>,
    pub data: Seq<char>,
    pub id: Option<Seq<char>>,
    pub retry: Option<u64>,
}

pub open spec fn text_opt(o: Option<String>) -> Option<Seq<char>> {
    match o {
        Some(s) => Some(s@),
        None => None,
    }
}

impl View for Event {
    type V = EventView;

    open spec fn view(&self) -> EventView {
        EventView {
            event_type: self.event_type@,
            data: self.data@,
            id: text_opt(self.id),
            retry: self.retry,
        }
    }
}

pub open spec fn events_view(v: Seq<Event>) -> Seq<EventView> {
    v.map_values(|e: Event| e@)
}

/// The type that an event gets when no `event` field names one.
pub open spec fn default_event_type() -> Seq<char> {
    "message"@
}

/// The fields gathered since the last flush, kept as the bytes that the
/// stream held.
pub struct Pending {
    pub event_type: Option<Vec<u8>>,
    pub data: Option<Vec<u8>>,
    pub id: Option<Vec<u8>>,
    pub retry: Option<u64>,
}

pub struct PendingView {
    pub event_type: Option<Seq<u8>>,
    pub data: Option<Seq<u8>>,
    pub id: Option<Seq<u8>>,
    pub retry: Option<u64>,
}

pub open spec fn bytes_opt(o: Option<Vec<u8>>) -> Option<Seq<u8>> {
    match o {
        Some(v) => Some(v@),
        None => None,
    }
}

impl View for Pending {
    type V = PendingView;

    open spec fn view(&self) -> PendingView {
        PendingView {
            event_type: bytes_opt(self.event_type),
            data: bytes_opt(self.data),
            id: bytes_opt(self.id),
            retry: self.retry,
        }
    }
}

impl PendingView {
    pub open spec fn empty() -> PendingView {
        PendingView { event_type: None, data: None, id: None, retry: None }
    }

    /// No field has been set since the last flush.
    pub open spec fn is_empty(self) -> bool {
        &&& self.event_type is None
        &&& self.data is None
        &&& self.id is None
        &&& self.retry is None
    }

    /// Data and id are stored only once they are known to be text.
    pub open spec fn wf(self) -> bool {
        &&& (self.data matches Some(d) ==> valid_utf8(d))
        &&& (self.id matches Some(i) ==> valid_utf8(i))
    }
}

impl Pending {
    pub fn new() -> (r: Pending)
        ensures
            r@ == PendingView::empty(),
    {
        Pending { event_type: None, data: None, id: None, retry: None }
    }
}

/// Index of the first colon at or after `i`, or the length if there is none.
pub open spec fn colon_from(line: Seq<u8>, i: int) -> int
    decreases line.len() - i,
{
    if i >= line.len() {
        line.len() as int
    } else if line[i] == COLON {
        i
    } else {
        colon_from(line, i + 1)
    }
}

pub open spec fn colon_at(line: Seq<u8>) -> int {
    colon_from(line, 0)
}

/// What stands before the first colon: the whole line when there is none.
pub open spec fn field_name(line: Seq<u8>) -> Seq<u8> {
    line.subrange(0, colon_at(line))
}

/// What follows the first colon, less one leading space; empty without a colon.
pub open spec fn field_value(line: Seq<u8>) -> Seq<u8> {
    let c = colon_at(line);
    if c >= line.len() {
        Seq::empty()
    } else if c + 1 < line.len() && line[c + 1] == SPACE {
        line.subrange(c + 2, line.len() as int)
    } else {
        line.subrange(c + 1, line.len() as int)
    }
}

pub open spec fn name_event() -> Seq<u8> {
    seq![101u8, 118u8, 101u8, 110u8, 116u8]
}

pub open spec fn name_data() -> Seq<u8> {
    seq![100u8, 97u8, 116u8, 97u8]
}

pub open spec fn name_id() -> Seq<u8> {
    seq![105u8, 100u8]
}

pub open spec fn name_retry() -> Seq<u8> {
    seq![114u8, 101u8, 116u8, 114u8, 121u8]
}

pub open spec fn is_digit(b: u8) -> bool {
    48 <= b <= 57
}

pub open spec fn all_digits(s: Seq<u8>) -> bool {
    forall|i: int| 0 <= i < s.len() ==> is_digit(#[trigger] s[i])
}

/// The number that a string of decimal digits denotes.
pub open spec fn decimal_value(s: Seq<u8>) -> nat
    decreases s.len(),
{
    if s.len() == 0 {
        0
    } else {
        decimal_value(s.drop_last()) * 10 + (s.last() - 48) as nat
    }
}

/// A retry value is accepted when it is a non-empty run of decimal digits
/// that fits in 64 bits.
pub open spec fn retry_value(s: Seq<u8>) -> Option<u64> {
    if s.len() > 0 && all_digits(s) && decimal_value(s) <= u64::MAX {
        Some(decimal_value(s) as u64)
    } else {
        None
    }
}

/// The effect of one non-blank line on the pending fields.
pub open spec fn apply_line(p: PendingView, line: Seq<u8>) -> Result<PendingView, ErrorView> {
    let name = field_name(line);
    let value = field_value(line);
    if name == name_event() {
        Ok(PendingView { event_type: Some(value), ..p })
    } else if !(valid_utf8(name) && valid_utf8(value)) {
        Err(ErrorView::InvalidLine(lossy_text(line)))
    } else if colon_at(line) == 0 {
        Ok(p)
    } else if name == name_data() {
        Ok(
            PendingView {
                data: Some(
                    match p.data {
                        Some(d) => d + seq![LF] + value,
                        None => value,
                    },
                ),
                ..p
            },
        )
    } else if name == name_id() {
        if value.contains(0u8) {
            Ok(p)
        } else {
            Ok(PendingView { id: Some(value), ..p })
        }
    } else if name == name_retry() {
        match retry_value(value) {
            Some(n) => Ok(PendingView { retry: Some(n), ..p }),
            None => Ok(p),
        }
    } else if colon_at(line) >= line.len() {
        Err(ErrorView::InvalidLine(lossy_text(line)))
    } else {
        Ok(p)
    }
}

pub enum Flushed {
    Nothing,
    Emit(EventView),
    Fail(ErrorView),
}

/// What a blank line makes of the pending fields.
pub open spec fn flush_view(p: PendingView) -> Flushed {
    if p.is_empty() {
        Flushed::Nothing
    } else if p.event_type matches Some(t) && !valid_utf8(t) {
        Flushed::Fail(ErrorView::InvalidEventType)
    } else {
        Flushed::Emit(
            EventView {
                event_type: match p.event_type {
                    Some(t) => decode_utf8(t),
                    None => default_event_type(),
                },
                data: match p.data {
                    Some(d) => decode_utf8(d),
                    None => Seq::empty(),
                },
                id: match p.id {
                    Some(i) => Some(decode_utf8(i)),
                    None => None,
                },
                retry: p.retry,
            },
        )
    }
}


/// The bytes `line[from..to]`.
fn copy_range(line: &Vec<u8>, from: usize, to: usize) -> (r: Vec<u8>)
    requires
        from <= to <= line.len(),
    ensures
        r@ == line@.subrange(from as int, to as int),
{
    let mut r: Vec<u8> = Vec::new();
    let mut i: usize = from;
    while i < to
        invariant
            from <= i <= to <= line.len(),
            r@ == line@.subrange(from as int, i as int),
        decreases to - i,
    {
        r.push(line[i]);
        i = i + 1;
    }
    r
}

/// Whether the line starts with exactly `name` followed by the end or by
/// position `end`.
fn name_is(line: &Vec<u8>, end: usize, name: &Vec<u8>) -> (r: bool)
    requires
        end <= line.len(),
    ensures
        r == (line@.subrange(0, end as int) == name@),
{
    if end != name.len() {
        return false;
    }
    let mut i: usize = 0;
    while i < end
        invariant
            i <= end <= line.len(),
            end == name.len(),
            forall|j: int| 0 <= j < i ==> line@[j] == name@[j],
        decreases end - i,
    {
        if line[i] != name[i] {
            assert(line@.subrange(0, end as int)[i as int] != name@[i as int]);
            return false;
        }
        i = i + 1;
    }
    assert(line@.subrange(0, end as int) =~= name@);
    true
}

fn find_colon(line: &Vec<u8>) -> (r: usize)
    ensures
        r == colon_at(line@),
        r <= line@.len(),
{
    let mut i: usize = 0;
    while i < line.len()
        invariant
            i <= line.len(),
            colon_from(line@, i as int) == colon_at(line@),
        decreases line.len() - i,
    {
        if line[i] == COLON {
            return i;
        }
        i = i + 1;
    }
    i
}

fn has_nul(v: &Vec<u8>) -> (r: bool)
    ensures
        r == v@.contains(0u8),
{
    let mut i: usize = 0;
    while i < v.len()
        invariant
            i <= v.len(),
            forall|j: int| 0 <= j < i ==> v@[j] != 0u8,
        decreases v.len() - i,
    {
        if v[i] == 0 {
            assert(v@[i as int] == 0u8);
            return true;
        }
        i = i + 1;
    }
    false
}

proof fn lemma_decimal_prefix(s: Seq<u8>, j: int)
    requires
        0 <= j <= s.len(),
    ensures
        decimal_value(s.take(j)) <= decimal_value(s),
    decreases s.len(),
{
    if j < s.len() {
        assert(s.drop_last().take(j) =~= s.take(j));
        lemma_decimal_prefix(s.drop_last(), j);
    } else {
        assert(s.take(j) =~= s);
    }
}

/// Reads a retry value: decimal digits only, and within 64 bits.
pub fn parse_retry(v: &Vec<u8>) -> (r: Option<u64>)
    ensures
        r == retry_value(v@),
{
    if v.len() == 0 {
        return None;
    }
    let mut acc: u64 = 0;
    let mut i: usize = 0;
    while i < v.len()
        invariant
            i <= v.len(),
            all_digits(v@.take(i as int)),
            acc as nat == decimal_value(v@.take(i as int)),
        decreases v.len() - i,
    {
        let b = v[i];
        assert(v@.take(i as int + 1).drop_last() =~= v@.take(i as int));
        if b < 48 || b > 57 {
            assert(!is_digit(v@[i as int]));
            return None;
        }
        let d = (b - 48) as u64;
        if acc > (u64::MAX - d) / 10 {
            proof {
                lemma_decimal_prefix(v@, i + 1);
            }
            return None;
        }
        acc = acc * 10 + d;
        i = i + 1;
        assert(all_digits(v@.take(i as int)));
    }
    assert(v@.take(i as int) =~= v@);
    Some(acc)
}

proof fn lemma_ascii_valid(b: u8)
    requires
        b < 128,
    ensures
        valid_utf8(seq![b]),
{
    reveal_with_fuel(valid_utf8, 2);
    assert(pop_first_scalar(seq![b]) =~= Seq::<u8>::empty());
}

fn event_name() -> (r: Vec<u8>)
    ensures
        r@ == name_event(),
{
    let r: Vec<u8> = vec![101u8, 118u8, 101u8, 110u8, 116u8];
    assert(r@ =~= name_event());
    r
}

fn data_name() -> (r: Vec<u8>)
    ensures
        r@ == name_data(),
{
    let r: Vec<u8> = vec![100u8, 97u8, 116u8, 97u8];
    assert(r@ =~= name_data());
    r
}

fn id_name() -> (r: Vec<u8>)
    ensures
        r@ == name_id(),
{
    let r: Vec<u8> = vec![105u8, 100u8];
    assert(r@ =~= name_id());
    r
}

fn retry_name() -> (r: Vec<u8>)
    ensures
        r@ == name_retry(),
{
    let r: Vec<u8> = vec![114u8, 101u8, 116u8, 114u8, 121u8];
    assert(r@ =~= name_retry());
    r
}

impl Pending {
    /// Takes one non-blank line into the pending fields; fails, leaving them
    /// as they were, on a line that breaks the grammar.
    pub fn apply(&mut self, line: &Vec<u8>) -> (r: Result<(), Error>)
        requires
            line@.len() > 0,
            old(self)@.wf(),
        ensures
            final(self)@.wf(),
            match apply_line(old(self)@, line@) {
                Ok(q) => r is Ok && final(self)@ == q,
                Err(e) => (r matches Err(x) && x@ == e) && final(self)@ == old(self)@,
            },
    {
        let c = find_colon(line);
        let len = line.len();
        let vstart: usize = if c >= len {
            len
        } else if c + 1 < len && line[c + 1] == SPACE {
            c + 2
        } else {
            c + 1
        };
        let name = copy_range(line, 0, c);
        let value = copy_range(line, vstart, len);
        assert(name@ == field_name(line@));
        assert(value@ =~= field_value(line@));
        if name_is(line, c, &event_name()) {
            self.event_type = Some(value);
            return Ok(());
        }
        let name_ok = decode_text(name.as_slice()).is_ok();
        let value_ok = decode_text(value.as_slice()).is_ok();
        if !(name_ok && value_ok) {
            return Err(Error::InvalidLine(render_lossy(line.as_slice())));
        }
        if c == 0 {
            return Ok(());
        }
        if name_is(line, c, &data_name()) {
            let old_data = self.data.take();
            match old_data {
                Some(mut d) => {
                    proof {
                        lemma_ascii_valid(LF);
                        vstd::utf8::valid_utf8_concat(d@, seq![LF]);
                        vstd::utf8::valid_utf8_concat(d@ + seq![LF], value@);
                    }
                    let ghost d0 = d@;
                    d.push(LF);
                    let mut k: usize = 0;
                    while k < value.len()
                        invariant
                            k <= value.len(),
                            d@ == d0 + seq![LF] + value@.take(k as int),
                        decreases value.len() - k,
                    {
                        d.push(value[k]);
                        k = k + 1;
                        assert(d@ =~= d0 + seq![LF] + value@.take(k as int));
                    }
                    assert(value@.take(k as int) =~= value@);
                    self.data = Some(d);
                },
                None => {
                    self.data = Some(value);
                },
            }
            return Ok(());
        }
        if name_is(line, c, &id_name()) {
            if !has_nul(&value) {
                self.id = Some(value);
            }
            return Ok(());
        }
        if name_is(line, c, &retry_name()) {
            if let Some(n) = parse_retry(&value) {
                self.retry = Some(n);
            }
            return Ok(());
        }
        if c >= len {
            return Err(Error::InvalidLine(render_lossy(line.as_slice())));
        }
        Ok(())
    }

    /// Turns the pending fields into an event, if any was set, and empties
    /// them.
    pub fn flush(&mut self) -> (r: Result<Option<Event>, Error>)
        requires
            old(self)@.wf(),
        ensures
            final(self)@ == PendingView::empty(),
            match flush_view(old(self)@) {
                Flushed::Nothing => r matches Ok(None),
                Flushed::Emit(e) => r matches Ok(Some(ev)) && ev@ == e,
                Flushed::Fail(e) => r matches Err(x) && x@ == e,
            },
    {
        let event_type = self.event_type.take();
        let data = self.data.take();
        let id = self.id.take();
        let retry = self.retry.take();
        if event_type.is_none() && data.is_none() && id.is_none() && retry.is_none() {
            return Ok(None);
        }
        let event_type = match event_type {
            Some(t) => match decode_text(t.as_slice()) {
                Ok(s) => s,
                Err(e) => return Err(Error::InvalidEventType(e)),
            },
            None => "message".to_owned(),
        };
        let data = match data {
            Some(d) => match decode_text(d.as_slice()) {
                Ok(s) => s,
                Err(e) => return Err(Error::InvalidEventType(e)),
            },
            None => String::new(),
        };
        let id = match id {
            Some(i) => match decode_text(i.as_slice()) {
                Ok(s) => Some(s),
                Err(e) => return Err(Error::InvalidEventType(e)),
            },
            None => None,
        };
        Ok(Some(Event { event_type, data, id, retry }))
    }
}

} // verus!
