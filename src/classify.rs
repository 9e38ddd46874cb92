//! The event classifier: maps one trace event to a cost record, a per-object
//! total, or nothing.
use vstd::prelude::*;
use crate::text::str_eq;
use crate::trace_event::{ArgValue, Args, TraceEvent};

verus! {

/// The largest duration, count or sum that the aggregate store represents
/// (the range of a signed 64-bit column).
pub const MAX_DURATION: u64 = 9223372036854775807;

/// A named cost category; each has a table of its own in the store.
#[derive(Debug, Clone, Copy, PartialEq, Eq, Structural)]
pub enum Category {
    Source,
    InstantiateClass,
    InstantiateFunction,
    ParseClass,
    ParseTemplate,
}

/// Which per-object total a pseudo-event contributes to.
#[derive(Debug, Clone, Copy, PartialEq, Eq, Structural)]
pub enum TotalKind {
    Frontend,
    Backend,
}

/// The outcome of classifying one event.
#[derive(Debug)]
pub enum Classified {
    /// One occurrence of a symbol in a cost category, with its duration.
    Metric { category: Category, name: String, duration: u64 },
    /// A contribution to the frontend or backend total of the object.
    ObjectTotal { kind: TotalKind, duration: u64 },
    /// An event that aggregation does not count.
    Ignore,
}

/// The mathematical content of a [`Classified`].
pub enum Outcome {
    Metric(Category, Seq<char>, nat),
    ObjectTotal(TotalKind, nat),
    Ignore,
}

impl View for Classified {
    type V = Outcome;

    open spec fn view(&self) -> Outcome {
        match self {
            Classified::Metric { category, name, duration } => Outcome::Metric(
                *category,
                name@,
                *duration as nat,
            ),
            Classified::ObjectTotal { kind, duration } => Outcome::ObjectTotal(*kind, *duration as nat),
            Classified::Ignore => Outcome::Ignore,
        }
    }
}

/// The cost category that an event name denotes (exact, case-sensitive).
pub open spec fn category_of(name: Seq<char>) -> Option<Category> {
    if name == "Source"@ {
        Some(Category::Source)
    } else if name == "InstantiateClass"@ {
        Some(Category::InstantiateClass)
    } else if name == "InstantiateFunction"@ {
        Some(Category::InstantiateFunction)
    } else if name == "ParseClass"@ {
        Some(Category::ParseClass)
    } else if name == "ParseTemplate"@ {
        Some(Category::ParseTemplate)
    } else {
        None
    }
}

/// The per-object total that a pseudo-event name denotes.
pub open spec fn total_kind_of(name: Seq<char>) -> Option<TotalKind> {
    if name == "Total Frontend"@ {
        Some(TotalKind::Frontend)
    } else if name == "Total Backend"@ {
        Some(TotalKind::Backend)
    } else {
        None
    }
}

/// The classification rule: an event counts only with a duration in the
/// store's range, and a cost record only with a `detail` string.
pub open spec fn classify_spec(name: Seq<char>, detail: Option<Seq<char>>, duration: Option<u64>) -> Outcome {
    match duration {
        None => Outcome::Ignore,
        Some(d) => if d > MAX_DURATION {
            Outcome::Ignore
        } else {
            match category_of(name) {
                Some(c) => match detail {
                    Some(text) => Outcome::Metric(c, text, d as nat),
                    None => Outcome::Ignore,
                },
                None => match total_kind_of(name) {
                    Some(k) => Outcome::ObjectTotal(k, d as nat),
                    None => Outcome::Ignore,
                },
            }
        },
    }
}

/// The `detail` string among the members of an event's arguments: the value
/// of the first member keyed `detail`, where that value is a string.
pub open spec fn detail_in(members: Seq<(String, ArgValue)>) -> Option<Seq<char>>
    decreases members.len(),
{
    if members.len() == 0 {
        None
    } else if members[0].0@ == "detail"@ {
        match members[0].1 {
            ArgValue::Str(text) => Some(text@),
            ArgValue::Other => None,
        }
    } else {
        detail_in(members.drop_first())
    }
}

/// The `detail` string of an event's arguments, if it has one.
pub open spec fn detail_of(args: Option<Args>) -> Option<Seq<char>> {
    match args {
        Some(members) => detail_in(members@),
        None => None,
    }
}

/// The classification of one event.
pub open spec fn event_outcome(e: TraceEvent) -> Outcome {
    classify_spec(e.name@, detail_of(e.args), e.duration)
}

pub open spec fn opt_str_view(o: Option<&str>) -> Option<Seq<char>> {
    match o {
        Some(s) => Some(s@),
        None => None,
    }
}

/// The `detail` member of the event's arguments, where it is a string.
pub fn get_detail(trace_event: &TraceEvent) -> (r: Option<&str>)
    ensures
        opt_str_view(r) == detail_of(trace_event.args),
{
    let members = match &trace_event.args {
        None => {
            return None;
        },
        Some(members) => members,
    };
    let n = members.len();
    let mut i: usize = 0;
    assert(members@.subrange(0, n as int) =~= members@);
    while i < n
        invariant
            detail_of(trace_event.args) == detail_in(members@),
            n == members@.len(),
            i <= n,
            detail_in(members@) == detail_in(members@.subrange(i as int, n as int)),
        decreases n - i,
    {
        let ghost rest = members@.subrange(i as int, n as int);
        assert(rest.drop_first() =~= members@.subrange(i + 1, n as int));
        assert(rest[0] == members@[i as int]);
        let (key, value) = &members[i];
        if str_eq(key.as_str(), "detail") {
            assert(rest[0].0@ == "detail"@);
            return match value {
                ArgValue::Str(text) => Some(text.as_str()),
                ArgValue::Other => None,
            };
        }
        i = i + 1;
    }
    assert(members@.subrange(n as int, n as int).len() == 0);
    None
}

/// The event's duration, where it has one that the store can represent.
pub fn get_duration(trace_event: &TraceEvent) -> (r: Option<u64>)
    ensures
        r == (match trace_event.duration {
            Some(d) => if d <= MAX_DURATION { Some(d) } else { None },
            None => None,
        }),
{
    match trace_event.duration {
        Some(d) => if d <= MAX_DURATION { Some(d) } else { None },
        None => None,
    }
}

/// The category of an event name, decided by exact comparison.
pub fn category_for(name: &str) -> (r: Option<Category>)
    ensures
        r == category_of(name@),
{
    if str_eq(name, "Source") {
        Some(Category::Source)
    } else if str_eq(name, "InstantiateClass") {
        Some(Category::InstantiateClass)
    } else if str_eq(name, "InstantiateFunction") {
        Some(Category::InstantiateFunction)
    } else if str_eq(name, "ParseClass") {
        Some(Category::ParseClass)
    } else if str_eq(name, "ParseTemplate") {
        Some(Category::ParseTemplate)
    } else {
        None
    }
}

/// The per-object total of a pseudo-event name.
pub fn total_kind_for(name: &str) -> (r: Option<TotalKind>)
    ensures
        r == total_kind_of(name@),
{
    if str_eq(name, "Total Frontend") {
        Some(TotalKind::Frontend)
    } else if str_eq(name, "Total Backend") {
        Some(TotalKind::Backend)
    } else {
        None
    }
}

/// Classifies an event from its name, its `detail` string and its duration.
pub fn classify_parts(name: &str, detail: Option<&str>, duration: Option<u64>) -> (r: Classified)
    ensures
        r@ == classify_spec(name@, opt_str_view(detail), duration),
{
    let d = match duration {
        None => {
            return Classified::Ignore;
        },
        Some(d) => d,
    };
    if d > MAX_DURATION {
        return Classified::Ignore;
    }
    match category_for(name) {
        Some(category) => match detail {
            Some(text) => Classified::Metric { category, name: text.to_owned(), duration: d },
            None => Classified::Ignore,
        },
        None => match total_kind_for(name) {
            Some(kind) => Classified::ObjectTotal { kind, duration: d },
            None => Classified::Ignore,
        },
    }
}

/// Classifies one trace event.
pub fn classify(trace_event: &TraceEvent) -> (r: Classified)
    ensures
        r@ == event_outcome(*trace_event),
{
    let detail = get_detail(trace_event);
    let duration = get_duration(trace_event);
    classify_parts(trace_event.name.as_str(), detail, duration)
}

/// Classifies every event of a file, each on its own: what one event holds
/// never changes the outcome of another.
pub fn classify_all(events: &Vec<TraceEvent>) -> (r: Vec<Classified>)
    ensures
        r@.len() == events@.len(),
        forall|i: int| 0 <= i < events@.len() ==> (#[trigger] r@[i])@ == event_outcome(events@[i]),
{
    let mut out: Vec<Classified> = Vec::new();
    let mut i: usize = 0;
    while i < events.len()
        invariant
            i <= events@.len(),
            out@.len() == i,
            forall|j: int| 0 <= j < i ==> (#[trigger] out@[j])@ == event_outcome(events@[j]),
        decreases events@.len() - i,
    {
        let c = classify(&events[i]);
        out.push(c);
        i = i + 1;
    }
    out
}

} // verus!
