//! Destination records.
//!
//! A destination record is an opaque remote id — used only to target
//! updates — together with its stored properties.  A record takes part in
//! reconciliation through the identifier stored under the configured
//! identifier property; the store's query is expected to have filtered out
//! records without one.

use vstd::prelude::*;

use crate::fields::Fields;
use crate::values::{flat, flatten, Value, ValueV};

verus! {

/// A record of the destination snapshot.
pub struct Record {
    /// The remote id that update requests are addressed to.
    pub record_id: String,
    /// The record's stored property values.
    pub fields: Fields,
}

/// The mathematical shape of a destination record.
pub ghost struct RecordV {
    pub record_id: Seq<char>,
    pub fields: Map<Seq<char>, ValueV>,
}

impl View for Record {
    type V = RecordV;

    open spec fn view(&self) -> RecordV {
        RecordV { record_id: self.record_id@, fields: self.fields@ }
    }
}

impl Record {
    pub open spec fn wf(&self) -> bool {
        self.fields.wf()
    }
}

/// The identifier a record carries under the identifier property `idp`:
/// the concatenated plain text of a rich-text value, when that text is
/// non-empty.  Everything else leaves the record unidentified.
pub open spec fn record_ident(r: RecordV, idp: Seq<char>) -> Option<Seq<char>> {
    if r.fields.contains_key(idp) {
        match r.fields[idp] {
            ValueV::Text { runs } => {
                if flat(runs).len() > 0 {
                    Some(flat(runs))
                } else {
                    None
                }
            },
            _ => None,
        }
    } else {
        None
    }
}

/// Extract the identifier stored under `idp`.
pub fn record_identifier(r: &Record, idp: &String) -> (res: Option<String>)
    requires
        r.wf(),
    ensures
        res is Some <==> record_ident(r@, idp@) is Some,
        res is Some ==> res->0@ == record_ident(r@, idp@)->0,
{
    match r.fields.get(idp) {
        Some(Value::Text { runs }) => {
            let t = flatten(runs);
            if t.as_str().is_empty() {
                None
            } else {
                Some(t)
            }
        },
        _ => None,
    }
}

} // verus!
