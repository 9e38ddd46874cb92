//! The trace event model: one capture file as a sequence of typed events.
use vstd::prelude::*;

verus! {

/// The value of one member of an event's arguments, as far as aggregation
/// reads it: a string, or anything else.
#[derive(Debug, PartialEq, Eq)]
pub enum ArgValue {
    Str(String),
    Other,
}

/// The members of an event's `args` object, as (key, value) pairs in order.
pub type Args = Vec<(String, ArgValue)>;

/// The phase of a trace event, decoded from its one-character `ph` tag.
#[allow(non_camel_case_types)]
#[derive(Debug, Clone, Copy, PartialEq, Eq, Structural)]
pub enum EventType {
    /// Duration event: begin
    B,
    /// Duration event: end
    E,
    /// Complete event
    X,
    /// Instant event
    i,
    /// Instant event (legacy tag)
    I,
    /// Counter event
    C,
    /// Async event: nestable start
    b,
    /// Async event: nestable instant
    n,
    /// Async event: nestable end
    e,
    /// Async event: start (legacy)
    S,
    /// Async event: step into (legacy)
    T,
    /// Async event: step past (legacy)
    p,
    /// Async event: end (legacy)
    F,
    /// Flow event: start
    s,
    /// Flow event: step
    t,
    /// Flow event: end
    f,
    /// Sample event
    P,
    /// Object event: created
    N,
    /// Object event: snapshot
    O,
    /// Object event: destroyed
    D,
    /// Metadata event
    M,
    /// Memory dump event: global
    V,
    /// Memory dump event: process
    v,
    /// Mark event
    R,
    /// Clock sync event
    c,
    /// Context event: enter
    LParenthesis,
    /// Context event: leave
    RPparenthesis,
}

/// The phase that a single tag character stands for, if any.
pub open spec fn tag_char(ch: char) -> Option<EventType> {
    if ch == 'B' { Some(EventType::B) }
    else if ch == 'E' { Some(EventType::E) }
    else if ch == 'X' { Some(EventType::X) }
    else if ch == 'i' { Some(EventType::i) }
    else if ch == 'I' { Some(EventType::I) }
    else if ch == 'C' { Some(EventType::C) }
    else if ch == 'b' { Some(EventType::b) }
    else if ch == 'n' { Some(EventType::n) }
    else if ch == 'e' { Some(EventType::e) }
    else if ch == 'S' { Some(EventType::S) }
    else if ch == 'T' { Some(EventType::T) }
    else if ch == 'p' { Some(EventType::p) }
    else if ch == 'F' { Some(EventType::F) }
    else if ch == 's' { Some(EventType::s) }
    else if ch == 't' { Some(EventType::t) }
    else if ch == 'f' { Some(EventType::f) }
    else if ch == 'P' { Some(EventType::P) }
    else if ch == 'N' { Some(EventType::N) }
    else if ch == 'O' { Some(EventType::O) }
    else if ch == 'D' { Some(EventType::D) }
    else if ch == 'M' { Some(EventType::M) }
    else if ch == 'V' { Some(EventType::V) }
    else if ch == 'v' { Some(EventType::v) }
    else if ch == 'R' { Some(EventType::R) }
    else if ch == 'c' { Some(EventType::c) }
    else if ch == '(' { Some(EventType::LParenthesis) }
    else if ch == ')' { Some(EventType::RPparenthesis) }
    else { None }
}

/// The phase named by a `ph` tag: every tag is exactly one character.
pub open spec fn decode_tag(tag: Seq<char>) -> Option<EventType> {
    if tag.len() == 1 { tag_char(tag[0]) } else { None }
}

impl EventType {
    /// Decodes a `ph` tag; `None` for a tag outside the closed set.
    pub fn from_tag(tag: &str) -> (r: Option<EventType>)
        ensures
            r == decode_tag(tag@),
    {
        if tag.unicode_len() != 1 {
            return None;
        }
        let ch = tag.get_char(0);
        match ch {
            'B' => Some(EventType::B),
            'E' => Some(EventType::E),
            'X' => Some(EventType::X),
            'i' => Some(EventType::i),
            'I' => Some(EventType::I),
            'C' => Some(EventType::C),
            'b' => Some(EventType::b),
            'n' => Some(EventType::n),
            'e' => Some(EventType::e),
            'S' => Some(EventType::S),
            'T' => Some(EventType::T),
            'p' => Some(EventType::p),
            'F' => Some(EventType::F),
            's' => Some(EventType::s),
            't' => Some(EventType::t),
            'f' => Some(EventType::f),
            'P' => Some(EventType::P),
            'N' => Some(EventType::N),
            'O' => Some(EventType::O),
            'D' => Some(EventType::D),
            'M' => Some(EventType::M),
            'V' => Some(EventType::V),
            'v' => Some(EventType::v),
            'R' => Some(EventType::R),
            'c' => Some(EventType::c),
            '(' => Some(EventType::LParenthesis),
            ')' => Some(EventType::RPparenthesis),
            _ => None,
        }
    }
}

/// One instrumentation record of a capture file.
pub struct TraceEvent {
    pub name: String,
    pub category: Option<String>,
    pub phase: EventType,
    pub timestamp: u64,
    pub pid: u64,
    pub tid: u64,
    pub duration: Option<u64>,
    pub args: Option<Args>,
}

/// A capture file: its events in order, and metadata that aggregation does not read.
pub struct TraceEvents {
    pub trace_events: Vec<TraceEvent>,
    pub display_time_unit: Option<String>,
    pub system_trace_events: Option<String>,
}

/// A trace event as it stands in the file, before its phase tag is decoded.
pub struct RawTraceEvent {
    pub name: String,
    pub category: Option<String>,
    pub phase: String,
    pub timestamp: u64,
    pub pid: u64,
    pub tid: u64,
    pub duration: Option<u64>,
    pub args: Option<Args>,
}

/// Why a capture file could not be decoded.
#[derive(Debug, Clone, Copy, PartialEq, Eq, Structural)]
pub enum TraceError {
    /// An event carries a `ph` tag outside the recognised set.
    UnknownPhase,
}

/// `e` is `r` with its phase tag decoded.
pub open spec fn decoded_as(r: RawTraceEvent, e: TraceEvent) -> bool {
    &&& decode_tag(r.phase@) == Some(e.phase)
    &&& e.name == r.name
    &&& e.category == r.category
    &&& e.timestamp == r.timestamp
    &&& e.pid == r.pid
    &&& e.tid == r.tid
    &&& e.duration == r.duration
    &&& e.args == r.args
}

/// Every event of the file carries a recognised phase tag.
pub open spec fn all_tags_known(raw: Seq<RawTraceEvent>) -> bool {
    forall|i: int| 0 <= i < raw.len() ==> decode_tag(#[trigger] raw[i].phase@).is_some()
}

impl RawTraceEvent {
    /// Decodes the phase tag, keeping every other field.
    pub fn decode(self) -> (r: Result<TraceEvent, TraceError>)
        ensures
            r is Err <==> decode_tag(self.phase@).is_none(),
            r matches Ok(e) ==> decoded_as(self, e),
            r matches Err(err) ==> err == TraceError::UnknownPhase,
    {
        match EventType::from_tag(self.phase.as_str()) {
            None => Err(TraceError::UnknownPhase),
            Some(phase) => Ok(TraceEvent {
                name: self.name,
                category: self.category,
                phase,
                timestamp: self.timestamp,
                pid: self.pid,
                tid: self.tid,
                duration: self.duration,
                args: self.args,
            }),
        }
    }
}

impl TraceEvents {
    /// Decodes every event of a capture file. One unknown phase tag fails the
    /// whole file, since it invalidates trust in the capture.
    pub fn from_raw(
        raw: Vec<RawTraceEvent>,
        display_time_unit: Option<String>,
        system_trace_events: Option<String>,
    ) -> (r: Result<TraceEvents, TraceError>)
        ensures
            r is Ok <==> all_tags_known(raw@),
            r matches Err(err) ==> err == TraceError::UnknownPhase,
            r matches Ok(t) ==> {
                &&& t.trace_events@.len() == raw@.len()
                &&& forall|i: int|
                    0 <= i < raw@.len() ==> decoded_as(raw@[i], #[trigger] t.trace_events@[i])
                &&& t.display_time_unit == display_time_unit
                &&& t.system_trace_events == system_trace_events
            },
    {
        let ghost all = raw@;
        let n = raw.len();
        let mut rest = raw;
        let mut reversed: Vec<TraceEvent> = Vec::new();
        // Decode from the back: `reversed[j]` holds the decoded `all[n - 1 - j]`.
        while rest.len() > 0
            invariant
                n == all.len(),
                all == raw@,
                rest@ == all.subrange(0, rest@.len() as int),
                reversed@.len() + rest@.len() == n,
                forall|j: int|
                    0 <= j < reversed@.len() ==> decoded_as(all[n - 1 - j], #[trigger] reversed@[j]),
            decreases rest@.len(),
        {
            let item = rest.pop().unwrap();
            let ghost k = rest@.len() as int;
            assert(item == all[k]);
            match item.decode() {
                Err(err) => {
                    assert(decode_tag(all[k].phase@).is_none());
                    assert(!all_tags_known(all));
                    return Err(err);
                },
                Ok(e) => {
                    reversed.push(e);
                },
            }
            assert(rest@ =~= all.subrange(0, rest@.len() as int));
        }
        let mut events: Vec<TraceEvent> = Vec::new();
        while reversed.len() > 0
            invariant
                n == all.len(),
                all == raw@,
                reversed@.len() + events@.len() == n,
                forall|j: int|
                    0 <= j < reversed@.len() ==> decoded_as(all[n - 1 - j], #[trigger] reversed@[j]),
                forall|j: int| 0 <= j < events@.len() ==> decoded_as(all[j], #[trigger] events@[j]),
            decreases reversed@.len(),
        {
            let e = reversed.pop().unwrap();
            events.push(e);
        }
        assert(all_tags_known(all)) by {
            assert forall|i: int| 0 <= i < all.len() implies decode_tag(
                #[trigger] all[i].phase@,
            ).is_some() by {
                assert(decoded_as(all[i], events@[i]));
            }
        }
        Ok(TraceEvents { trace_events: events, display_time_unit, system_trace_events })
    }
}

} // verus!
