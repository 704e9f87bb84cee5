//! Source events and their normalization.
//!
//! A raw event is what the feed parser hands over: every field may still be
//! absent.  The adapter turns it into a normalized source event or rejects
//! it with an error scoped to that one event.

use vstd::prelude::*;

use crate::dates::{date_valid, zoned_valid, Date, ZonedTime};
use crate::errors::PerEventError;

verus! {

/// One bound of a source event's range: a pure date or a zoned date-time.
#[derive(Clone, Copy, PartialEq, Eq, Structural, Debug)]
pub enum EventTime {
    Day(Date),
    Timed(ZonedTime),
}

pub open spec fn event_time_valid(t: EventTime) -> bool {
    match t {
        EventTime::Day(d) => date_valid(d),
        EventTime::Timed(z) => zoned_valid(z),
    }
}

/// A source event as the feed parser delivers it: nothing guaranteed yet.
pub struct RawEvent {
    pub uid: Option<String>,
    pub summary: Option<String>,
    pub start: Option<EventTime>,
    pub end: Option<EventTime>,
    pub location: Option<String>,
}

/// A normalized source event: the adapter's output.
pub struct SourceEvent {
    /// The sync key: non-empty and stable across runs.
    pub id: String,
    /// The event's title; empty when the feed gave none.
    pub title: String,
    pub start: EventTime,
    pub end: EventTime,
    pub location: Option<String>,
}

/// The mathematical shape of a normalized source event.
pub ghost struct EventV {
    pub id: Seq<char>,
    pub title: Seq<char>,
    pub start: EventTime,
    pub end: EventTime,
    pub location: Option<Seq<char>>,
}

impl View for SourceEvent {
    type V = EventV;

    open spec fn view(&self) -> EventV {
        EventV {
            id: self.id@,
            title: self.title@,
            start: self.start,
            end: self.end,
            location: match &self.location {
                Some(l) => Some(l@),
                None => None,
            },
        }
    }
}

impl EventV {
    pub open spec fn valid(self) -> bool {
        event_time_valid(self.start) && event_time_valid(self.end) && self.id.len() > 0
    }
}

/// What normalization yields for a raw event.  An event without an
/// identifier can never be matched, so it is rejected first; an event
/// missing either range bound is rejected next; everything else is kept,
/// with an absent title read as the empty title.
pub open spec fn adapt_spec(e: RawEvent) -> Result<EventV, PerEventError> {
    if e.uid is None || e.uid->0@.len() == 0 {
        Err(PerEventError::MissingIdentifier)
    } else if e.start is None || e.end is None {
        Err(PerEventError::MissingDateRange)
    } else {
        Ok(
            EventV {
                id: e.uid->0@,
                title: match e.summary {
                    Some(t) => t@,
                    None => Seq::empty(),
                },
                start: e.start->0,
                end: e.end->0,
                location: match e.location {
                    Some(l) => Some(l@),
                    None => None,
                },
            },
        )
    }
}

/// Normalize one raw event.
pub fn adapt(e: &RawEvent) -> (r: Result<SourceEvent, PerEventError>)
    ensures
        r is Ok <==> adapt_spec(*e) is Ok,
        r is Ok ==> r->Ok_0@ == adapt_spec(*e)->Ok_0,
        r is Err ==> r->Err_0 == adapt_spec(*e)->Err_0,
{
    let id = match &e.uid {
        Some(u) => {
            if u.as_str().is_empty() {
                return Err(PerEventError::MissingIdentifier);
            }
            u.clone()
        },
        None => {
            return Err(PerEventError::MissingIdentifier);
        },
    };
    let (start, end) = match (&e.start, &e.end) {
        (Some(s), Some(en)) => (*s, *en),
        _ => {
            return Err(PerEventError::MissingDateRange);
        },
    };
    let title = match &e.summary {
        Some(t) => t.clone(),
        None => String::new(),
    };
    let location = match &e.location {
        Some(l) => Some(l.clone()),
        None => None,
    };
    Ok(SourceEvent { id, title, start, end, location })
}

} // verus!
