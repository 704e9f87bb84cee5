//! The field translator and the request builders.
//!
//! The translator maps a normalized source event to the candidate writes
//! for the configured properties: the identifier and the date range are
//! always written, the title only when the event has one (an empty title
//! never clobbers a stored one), the location only when the event has one
//! and a location property is configured.  The date range is converted
//! from the source convention (exclusive end) to the destination's
//! (inclusive end, omitted for a single-day range).

use vstd::prelude::*;

use crate::dates::{date_pred, pred_date, utc_of, zoned_to_utc};
use crate::diff::{compute_patch, diff_ok, patch_spec};
use crate::errors::PerEventError;
use crate::events::{event_time_valid, EventTime, EventV, SourceEvent};
use crate::fields::Fields;
use crate::records::Record;
use crate::values::{date_value, text_value, title_value, DateStamp, DateValue, ValueV};

verus! {

/// The destination range for a source range, or the error that rules one
/// out.
///
/// Two pure dates: the inclusive end is the exclusive end minus one day;
/// if that equals the start the end is omitted (a single-day range), and
/// if it underflows the range is invalid.  Two date-times: both bounds are
/// normalized to UTC instants and the end is always present.  A mixed pair
/// is inconsistent source data.
pub open spec fn range_spec(start: EventTime, end: EventTime) -> Result<DateValue, PerEventError> {
    match (start, end) {
        (EventTime::Day(s), EventTime::Day(e)) => match pred_date(e) {
            Some(p) => Ok(
                DateValue {
                    start: DateStamp::Day(s),
                    end: if p == s {
                        None
                    } else {
                        Some(DateStamp::Day(p))
                    },
                },
            ),
            None => Err(PerEventError::InvalidDateRange),
        },
        (EventTime::Timed(s), EventTime::Timed(e)) => match (utc_of(s), utc_of(e)) {
            (Some(su), Some(eu)) => Ok(
                DateValue { start: DateStamp::At(su), end: Some(DateStamp::At(eu)) },
            ),
            _ => Err(PerEventError::InvalidDateRange),
        },
        _ => Err(PerEventError::InvalidDateRange),
    }
}

/// Convert a source range to the destination convention.
pub fn convert_range(start: EventTime, end: EventTime) -> (r: Result<DateValue, PerEventError>)
    requires
        event_time_valid(start),
        event_time_valid(end),
    ensures
        r == range_spec(start, end),
{
    match (start, end) {
        (EventTime::Day(s), EventTime::Day(e)) => match date_pred(e) {
            Some(p) => Ok(
                DateValue {
                    start: DateStamp::Day(s),
                    end: if p == s {
                        None
                    } else {
                        Some(DateStamp::Day(p))
                    },
                },
            ),
            None => Err(PerEventError::InvalidDateRange),
        },
        (EventTime::Timed(s), EventTime::Timed(e)) => match (zoned_to_utc(s), zoned_to_utc(e)) {
            (Some(su), Some(eu)) => Ok(
                DateValue { start: DateStamp::At(su), end: Some(DateStamp::At(eu)) },
            ),
            _ => Err(PerEventError::InvalidDateRange),
        },
        _ => Err(PerEventError::InvalidDateRange),
    }
}

/// The engine's configuration: which destination property holds what.
pub struct SyncEngine {
    /// The title property of the destination database.
    pub title_property: String,
    /// The property holding the sync identifier.
    pub id_property: String,
    /// The property holding the event's date range.
    pub date_property: String,
    /// The property holding the event's location, if one is configured.
    pub location_property: Option<String>,
}

/// The mathematical shape of the configuration.
pub ghost struct ConfigV {
    pub title: Seq<char>,
    pub id: Seq<char>,
    pub date: Seq<char>,
    pub location: Option<Seq<char>>,
}

impl View for SyncEngine {
    type V = ConfigV;

    open spec fn view(&self) -> ConfigV {
        ConfigV {
            title: self.title_property@,
            id: self.id_property@,
            date: self.date_property@,
            location: match &self.location_property {
                Some(p) => Some(p@),
                None => None,
            },
        }
    }
}

/// The candidate writes for one event: title (only when non-empty), then
/// identifier, then date range, then location (only when present and
/// configured), later writes winning should configured names collide.
pub open spec fn canonical_spec(ev: EventV, cfg: ConfigV) -> Result<
    Map<Seq<char>, ValueV>,
    PerEventError,
> {
    match range_spec(ev.start, ev.end) {
        Err(e) => Err(e),
        Ok(dv) => {
            let m0 = Map::<Seq<char>, ValueV>::empty();
            let m1 = if ev.title.len() > 0 {
                m0.insert(cfg.title, ValueV::Title { runs: seq![ev.title] })
            } else {
                m0
            };
            let m2 = m1.insert(cfg.id, ValueV::Text { runs: seq![ev.id] });
            let m3 = m2.insert(cfg.date, ValueV::Date { range: Some(dv) });
            let m4 = match (ev.location, cfg.location) {
                (Some(l), Some(p)) => if l.len() > 0 {
                    m3.insert(p, ValueV::Text { runs: seq![l] })
                } else {
                    m3
                },
                _ => m3,
            };
            Ok(m4)
        },
    }
}

/// A request to create a destination record with the given properties.
pub struct CreateRequest {
    pub fields: Fields,
}

/// A request to bring the record at `record_id` up to date.
pub struct UpdateRequest {
    pub record_id: String,
    pub patch: Fields,
}

impl SyncEngine {
    /// Build the candidate writes for one event.
    pub fn write_properties(&self, event: &SourceEvent) -> (r: Result<Fields, PerEventError>)
        requires
            event_time_valid(event.start),
            event_time_valid(event.end),
        ensures
            r is Ok <==> canonical_spec(event@, self@) is Ok,
            r is Ok ==> r->Ok_0.wf() && r->Ok_0@ == canonical_spec(event@, self@)->Ok_0,
            r is Err ==> r->Err_0 == canonical_spec(event@, self@)->Err_0,
    {
        let range = match convert_range(event.start, event.end) {
            Ok(d) => d,
            Err(e) => {
                return Err(e);
            },
        };
        let mut f = Fields::new();
        if !event.title.as_str().is_empty() {
            f.insert(self.title_property.clone(), title_value(event.title.clone()));
        }
        f.insert(self.id_property.clone(), text_value(event.id.clone()));
        f.insert(self.date_property.clone(), date_value(range));
        match (&event.location, &self.location_property) {
            (Some(l), Some(p)) => {
                if !l.as_str().is_empty() {
                    f.insert(p.clone(), text_value(l.clone()));
                }
            },
            _ => {},
        }
        Ok(f)
    }

    /// Build the request that creates the destination record for an event
    /// not yet tracked.
    pub fn create_request(&self, event: &SourceEvent) -> (r: Result<CreateRequest, PerEventError>)
        requires
            event_time_valid(event.start),
            event_time_valid(event.end),
        ensures
            r is Ok <==> canonical_spec(event@, self@) is Ok,
            r is Ok ==> r->Ok_0.fields.wf() && r->Ok_0.fields@ == canonical_spec(
                event@,
                self@,
            )->Ok_0,
            r is Err ==> r->Err_0 == canonical_spec(event@, self@)->Err_0,
    {
        match self.write_properties(event) {
            Ok(fields) => Ok(CreateRequest { fields }),
            Err(e) => Err(e),
        }
    }

    /// Build the minimal update for an event matched to a destination
    /// record, or `None` when the record is already up to date.
    pub fn update_request(&self, event: &SourceEvent, record: &Record) -> (r: Result<
        Option<UpdateRequest>,
        PerEventError,
    >)
        requires
            event_time_valid(event.start),
            event_time_valid(event.end),
            record.wf(),
        ensures
            r is Ok <==> canonical_spec(event@, self@) is Ok && diff_ok(
                canonical_spec(event@, self@)->Ok_0,
                record@.fields,
            ),
            r is Ok ==> (r->Ok_0 is Some <==> patch_spec(
                canonical_spec(event@, self@)->Ok_0,
                record@.fields,
            ) != Map::<Seq<char>, ValueV>::empty()),
            r is Ok && r->Ok_0 is Some ==> {
                let u = r->Ok_0->0;
                &&& u.record_id@ == record@.record_id
                &&& u.patch.wf()
                &&& u.patch@ == patch_spec(canonical_spec(event@, self@)->Ok_0, record@.fields)
            },
            r is Err ==> (canonical_spec(event@, self@) is Err && r->Err_0 == canonical_spec(
                event@,
                self@,
            )->Err_0) || (canonical_spec(event@, self@) is Ok && r->Err_0
                == PerEventError::UnsupportedPropertyType),
    {
        let cand = match self.write_properties(event) {
            Ok(f) => f,
            Err(e) => {
                return Err(e);
            },
        };
        let patch = match compute_patch(cand, &record.fields) {
            Ok(p) => p,
            Err(e) => {
                return Err(e);
            },
        };
        if patch.is_empty() {
            Ok(None)
        } else {
            Ok(Some(UpdateRequest { record_id: record.record_id.clone(), patch }))
        }
    }
}

} // verus!
