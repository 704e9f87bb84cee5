//! The reconciliation driver.
//!
//! One run walks the union of source and destination identifiers and
//! classifies every identifier into exactly one outcome: create, update,
//! already up to date, orphaned destination record, skipped by the
//! retention window, or failed with an error scoped to that identifier.
//! The driver computes full request payloads and performs no I/O; whether
//! and how the requests are executed is the caller's decision.

use vstd::prelude::*;

use crate::dates::{date_day_number, date_valid, day_number, utc_of, zoned_to_utc, Date};
use crate::diff::{diff_ok, patch_spec};
use crate::errors::{PerEventError, RunError};
use crate::events::{adapt, adapt_spec, event_time_valid, EventTime, EventV, RawEvent, SourceEvent};
use crate::fields::{amap, keys_distinct, lemma_amap_contains, lemma_amap_index};
use crate::records::{record_ident, record_identifier, Record, RecordV};
use crate::translate::{canonical_spec, ConfigV, CreateRequest, SyncEngine, UpdateRequest};
use crate::values::ValueV;

verus! {

/// A retention window around "now": events starting more than `days_past`
/// days ago or more than `days_future` days ahead are not created.
#[derive(Clone, Copy, PartialEq, Eq, Structural, Debug)]
pub struct Window {
    pub days_past: u32,
    pub days_future: u32,
}

/// The date a source event starts on, normalized to UTC for timed events;
/// `None` when normalization steps outside the representable range.
pub open spec fn start_day(ev: EventV) -> Option<Date> {
    match ev.start {
        EventTime::Day(d) => Some(d),
        EventTime::Timed(z) => match utc_of(z) {
            Some(i) => Some(i.date),
            None => None,
        },
    }
}

/// Whether `d` lies within the window around `now`.
pub open spec fn in_window(d: Date, now: Date, w: Window) -> bool {
    day_number(now) - w.days_past <= day_number(d) <= day_number(now) + w.days_future
}

/// Whether the window lets an event through for creation.  No configured
/// window lets everything through, and an event without a determinable
/// start bypasses the filter.
pub open spec fn window_allows(ev: EventV, now: Date, w: Option<Window>) -> bool {
    match w {
        None => true,
        Some(win) => match start_day(ev) {
            None => true,
            Some(d) => in_window(d, now, win),
        },
    }
}

/// Decide the window filter for one event.
pub fn window_check(ev: &SourceEvent, now: Date, w: Option<Window>) -> (r: bool)
    requires
        event_time_valid(ev.start),
        date_valid(now),
    ensures
        r == window_allows(ev@, now, w),
{
    let win = match w {
        None => {
            return true;
        },
        Some(win) => win,
    };
    let day = match ev.start {
        EventTime::Day(d) => d,
        EventTime::Timed(z) => match zoned_to_utc(z) {
            Some(i) => {
                proof {
                    crate::dates::lemma_utc_of_valid(z);
                }
                i.date
            },
            None => {
                return true;
            },
        },
    };
    let dn = date_day_number(day) as i64;
    let nn = date_day_number(now) as i64;
    nn - win.days_past as i64 <= dn && dn <= nn + win.days_future as i64
}

/// The pairs an indexed source snapshot denotes.
pub open spec fn event_pairs(s: Seq<SourceEvent>) -> Seq<(Seq<char>, EventV)> {
    s.map_values(|n: SourceEvent| (n@.id, n@))
}

/// The identifiers of an indexed source snapshot, in order.
pub open spec fn event_ids(s: Seq<SourceEvent>) -> Seq<Seq<char>> {
    s.map_values(|n: SourceEvent| n@.id)
}

/// The source index: events that normalize, keyed by identifier, a later
/// event replacing an earlier one with the same identifier.
pub open spec fn source_map(evs: Seq<RawEvent>) -> Map<Seq<char>, EventV>
    decreases evs.len(),
{
    if evs.len() == 0 {
        Map::empty()
    } else {
        let m = source_map(evs.drop_last());
        match adapt_spec(evs.last()) {
            Ok(n) => m.insert(n.id, n),
            Err(_) => m,
        }
    }
}

/// The source identifiers in first-encounter order (a repeated identifier
/// keeps its first position, though the later event's data wins).
pub open spec fn source_ids(evs: Seq<RawEvent>) -> Seq<Seq<char>>
    decreases evs.len(),
{
    if evs.len() == 0 {
        Seq::empty()
    } else {
        let s = source_ids(evs.drop_last());
        match adapt_spec(evs.last()) {
            Ok(n) => if s.contains(n.id) {
                s
            } else {
                s.push(n.id)
            },
            Err(_) => s,
        }
    }
}

/// The events the adapter rejects, each with its position in the feed.
pub open spec fn rejected_of(evs: Seq<RawEvent>) -> Seq<(int, PerEventError)>
    decreases evs.len(),
{
    if evs.len() == 0 {
        Seq::empty()
    } else {
        let s = rejected_of(evs.drop_last());
        match adapt_spec(evs.last()) {
            Ok(_) => s,
            Err(e) => s.push(((evs.len() - 1) as int, e)),
        }
    }
}

/// Whether every raw event's bounds, where present, are representable.
pub open spec fn raw_events_valid(evs: Seq<RawEvent>) -> bool {
    forall|i: int|
        0 <= i < evs.len() ==> {
            &&& match #[trigger] evs[i].start {
                Some(t) => event_time_valid(t),
                None => true,
            }
            &&& match evs[i].end {
                Some(t) => event_time_valid(t),
                None => true,
            }
        }
}

/// Whether every source event of an index has representable bounds.
pub open spec fn indexed_events_valid(s: Seq<SourceEvent>) -> bool {
    forall|i: int|
        0 <= i < s.len() ==> event_time_valid(#[trigger] s[i].start) && event_time_valid(s[i].end)
}

/// Normalize and index the source snapshot: adapter rejections are
/// collected aside, and of two events with one identifier the later wins
/// while the identifier keeps its first position.
#[verifier::loop_isolation(false)]
pub fn index_source(events: &Vec<RawEvent>) -> (r: (Vec<SourceEvent>, Vec<(usize, PerEventError)>))
    requires
        raw_events_valid(events@),
    ensures
        keys_distinct(event_pairs(r.0@)),
        amap(event_pairs(r.0@)) == source_map(events@),
        event_ids(r.0@) == source_ids(events@),
        indexed_events_valid(r.0@),
        r.1@.map_values(|p: (usize, PerEventError)| (p.0 as int, p.1)) == rejected_of(events@),
{
    let mut indexed: Vec<SourceEvent> = Vec::new();
    let mut rejected: Vec<(usize, PerEventError)> = Vec::new();
    let mut k: usize = 0;
    while k < events.len()
        invariant
            k <= events.len(),
            keys_distinct(event_pairs(indexed@)),
            amap(event_pairs(indexed@)) == source_map(events@.take(k as int)),
            event_ids(indexed@) == source_ids(events@.take(k as int)),
            indexed_events_valid(indexed@),
            rejected@.map_values(|p: (usize, PerEventError)| (p.0 as int, p.1)) == rejected_of(
                events@.take(k as int),
            ),
        decreases events.len() - k,
    {
        proof {
            assert(events@.take(k + 1).drop_last() =~= events@.take(k as int));
            assert(events@.take(k + 1).last() == events@[k as int]);
        }
        match adapt(&events[k]) {
            Err(e) => {
                rejected.push((k, e));
                proof {
                    assert(rejected@.map_values(|p: (usize, PerEventError)| (p.0 as int, p.1))
                        =~= rejected_of(events@.take(k + 1)));
                }
            },
            Ok(n) => {
                let ghost nv = n@;
                let ghost s0 = event_pairs(indexed@);
                let mut i: usize = 0;
                let mut found = false;
                while i < indexed.len() && !found
                    invariant
                        i <= indexed.len(),
                        s0 == event_pairs(indexed@),
                        found ==> i < indexed.len() && s0[i as int].0 == nv.id,
                        !found ==> forall|j: int| 0 <= j < i ==> s0[j].0 != nv.id,
                    decreases indexed.len() - i + if found { 0int } else { 1int },
                {
                    if indexed[i].id == n.id {
                        found = true;
                    } else {
                        i = i + 1;
                    }
                }
                if found {
                    proof {
                        assert(source_ids(events@.take(k + 1)) == source_ids(
                            events@.take(k as int),
                        )) by {
                            assert(event_ids(indexed@)[i as int] == nv.id);
                        }
                    }
                    indexed.remove(i);
                    indexed.insert(i, n);
                    proof {
                        assert(event_pairs(indexed@) =~= s0.update(i as int, (nv.id, nv)));
                        crate::fields::lemma_amap_update(s0, i as int, nv);
                        assert(forall|x: int|
                            0 <= x < s0.len() ==> event_pairs(indexed@)[x].0 == s0[x].0);
                        assert(keys_distinct(event_pairs(indexed@)));
                        assert(event_ids(indexed@) =~= source_ids(events@.take(k + 1)));
                    }
                } else {
                    proof {
                        assert(!source_ids(events@.take(k as int)).contains(nv.id)) by {
                            assert(forall|j: int|
                                0 <= j < event_ids(indexed@).len()
                                    ==> #[trigger] event_ids(indexed@)[j] == s0[j].0);
                        }
                    }
                    indexed.push(n);
                    proof {
                        let s1 = event_pairs(indexed@);
                        assert(s1.drop_last() =~= s0);
                        assert(s1.last() == (nv.id, nv));
                        assert(forall|x: int| 0 <= x < s0.len() ==> s1[x] == s0[x]);
                        assert(keys_distinct(s1));
                        assert(event_ids(indexed@) =~= source_ids(events@.take(k + 1)));
                    }
                }
            },
        }
        k = k + 1;
    }
    proof {
        assert(events@.take(events@.len() as int) =~= events@);
    }
    (indexed, rejected)
}

/// The pairs an identified destination snapshot denotes.
pub open spec fn dest_pairs(rs: Seq<Record>, idp: Seq<char>) -> Seq<(Seq<char>, RecordV)> {
    rs.map_values(|r: Record| (record_ident(r@, idp)->0, r@))
}

/// The extracted destination identifiers, in record order.
pub open spec fn dest_ids(rs: Seq<Record>, idp: Seq<char>) -> Seq<Seq<char>> {
    rs.map_values(|r: Record| record_ident(r@, idp)->0)
}

/// The destination index, keyed by extracted identifier.
pub open spec fn dest_map(rs: Seq<Record>, idp: Seq<char>) -> Map<Seq<char>, RecordV> {
    amap(dest_pairs(rs, idp))
}

/// Whether no two destination records share an identifier.
pub open spec fn dest_unique(rs: Seq<Record>, idp: Seq<char>) -> bool {
    keys_distinct(dest_pairs(rs, idp))
}

/// Whether every destination record is well-formed and carries an
/// identifier: the store's query filter is expected to guarantee this.
pub open spec fn records_identified(rs: Seq<Record>, idp: Seq<char>) -> bool {
    forall|i: int|
        0 <= i < rs.len() ==> (#[trigger] rs[i]).wf() && record_ident(rs[i]@, idp) is Some
}

/// Extract the destination identifiers, failing the run when two records
/// share one: the store must guarantee uniqueness.
#[verifier::loop_isolation(false)]
pub fn index_dest(records: &Vec<Record>, idp: &String) -> (r: Result<Vec<String>, RunError>)
    requires
        records_identified(records@, idp@),
    ensures
        r is Ok <==> dest_unique(records@, idp@),
        r is Err ==> r->Err_0 == RunError::DuplicateIdentifier,
        r is Ok ==> r->Ok_0@.map_values(|s: String| s@) == dest_ids(records@, idp@),
{
    let ghost di = dest_ids(records@, idp@);
    let mut ids: Vec<String> = Vec::new();
    let mut j: usize = 0;
    while j < records.len()
        invariant
            j <= records.len(),
            ids@.len() == j,
            forall|x: int| 0 <= x < j ==> ids@[x]@ == di[x],
            forall|a: int, b: int| 0 <= a < b < j ==> di[a] != di[b],
        decreases records.len() - j,
    {
        let id = match record_identifier(&records[j], idp) {
            Some(id) => id,
            None => {
                proof {
                    assert(record_ident(records@[j as int]@, idp@) is Some);
                    assert(false);
                }
                return Err(RunError::DuplicateIdentifier);
            },
        };
        let mut x: usize = 0;
        while x < ids.len()
            invariant
                x <= ids.len(),
                ids@.len() == j,
                forall|y: int| 0 <= y < j ==> ids@[y]@ == di[y],
                forall|y: int| 0 <= y < x ==> di[y] != id@,
                id@ == di[j as int],
            decreases ids.len() - x,
        {
            if ids[x] == id {
                proof {
                    assert(ids@[x as int]@ == di[x as int]);
                    assert(di[x as int] == di[j as int]);
                    assert(dest_pairs(records@, idp@)[x as int].0 == di[x as int]);
                    assert(dest_pairs(records@, idp@)[j as int].0 == di[j as int]);
                    assert(!dest_unique(records@, idp@));
                }
                return Err(RunError::DuplicateIdentifier);
            }
            x = x + 1;
        }
        ids.push(id);
        j = j + 1;
    }
    proof {
        assert(ids@.map_values(|s: String| s@) =~= di);
        assert forall|a: int, b: int| 0 <= a < b < records@.len() implies dest_pairs(
            records@,
            idp@,
        )[a].0 != dest_pairs(records@, idp@)[b].0 by {
            assert(dest_pairs(records@, idp@)[a].0 == di[a]);
            assert(dest_pairs(records@, idp@)[b].0 == di[b]);
        }
        assert(dest_unique(records@, idp@));
    }
    Ok(ids)
}

/// The members of `b` that are not in `a`, in order.
pub open spec fn rest_ids(b: Seq<Seq<char>>, a: Seq<Seq<char>>) -> Seq<Seq<char>>
    decreases b.len(),
{
    if b.len() == 0 {
        Seq::empty()
    } else {
        rest_ids(b.drop_last(), a) + if a.contains(b.last()) {
            Seq::<Seq<char>>::empty()
        } else {
            seq![b.last()]
        }
    }
}

/// The union of the two snapshots' identifiers: source identifiers first,
/// in encounter order, then the destination-only ones in record order.
pub open spec fn union_ids(a: Seq<Seq<char>>, b: Seq<Seq<char>>) -> Seq<Seq<char>> {
    a + rest_ids(b, a)
}

/// Collect the union of identifiers in encounter order.
#[verifier::loop_isolation(false)]
pub fn build_union(src: &Vec<SourceEvent>, dst_ids: &Vec<String>) -> (u: Vec<String>)
    ensures
        u@.map_values(|s: String| s@) == union_ids(
            event_ids(src@),
            dst_ids@.map_values(|s: String| s@),
        ),
{
    let ghost a = event_ids(src@);
    let ghost b = dst_ids@.map_values(|s: String| s@);
    let mut u: Vec<String> = Vec::new();
    let mut i: usize = 0;
    while i < src.len()
        invariant
            i <= src.len(),
            u@.map_values(|s: String| s@) =~= a.take(i as int),
        decreases src.len() - i,
    {
        u.push(src[i].id.clone());
        proof {
            assert(u@.map_values(|s: String| s@) =~= a.take(i + 1));
        }
        i = i + 1;
    }
    proof {
        assert(a.take(a.len() as int) =~= a);
    }
    let mut t: usize = 0;
    while t < dst_ids.len()
        invariant
            t <= dst_ids.len(),
            u@.map_values(|s: String| s@) =~= union_ids(a, b.take(t as int)),
        decreases dst_ids.len() - t,
    {
        proof {
            assert(b.take(t + 1).drop_last() =~= b.take(t as int));
            assert(b.take(t + 1).last() == b[t as int]);
        }
        let mut x: usize = 0;
        let mut found = false;
        while x < src.len() && !found
            invariant
                x <= src.len(),
                found ==> x < src.len() && a[x as int] == b[t as int],
                !found ==> forall|y: int| 0 <= y < x ==> a[y] != b[t as int],
            decreases src.len() - x + if found { 0int } else { 1int },
        {
            if src[x].id == dst_ids[t] {
                found = true;
            } else {
                x = x + 1;
            }
        }
        if !found {
            let ghost uv0 = u@.map_values(|s: String| s@);
            u.push(dst_ids[t].clone());
            proof {
                assert(!a.contains(b[t as int]));
                assert(u@.map_values(|s: String| s@) =~= uv0.push(b[t as int]));
                assert(rest_ids(b.take(t + 1), a) == rest_ids(b.take(t as int), a) + seq![
                    b[t as int],
                ]);
                assert(u@.map_values(|s: String| s@) =~= union_ids(a, b.take(t + 1)));
            }
        } else {
            proof {
                assert(a.contains(b[t as int]));
                assert(rest_ids(b.take(t + 1), a) == rest_ids(b.take(t as int), a)
                    + Seq::<Seq<char>>::empty());
                assert(rest_ids(b.take(t as int), a) + Seq::<Seq<char>>::empty() =~= rest_ids(
                    b.take(t as int),
                    a,
                ));
                assert(u@.map_values(|s: String| s@) =~= union_ids(a, b.take(t + 1)));
            }
        }
        t = t + 1;
    }
    proof {
        assert(b.take(b.len() as int) =~= b);
    }
    u
}

/// Find the indexed source event carrying `id`.
#[verifier::loop_isolation(false)]
pub fn find_event<'a>(src: &'a Vec<SourceEvent>, id: &String) -> (r: Option<&'a SourceEvent>)
    requires
        keys_distinct(event_pairs(src@)),
    ensures
        r is Some <==> amap(event_pairs(src@)).contains_key(id@),
        r is Some ==> r->0@ == amap(event_pairs(src@))[id@],
{
    let ghost s = event_pairs(src@);
    let mut i: usize = 0;
    while i < src.len()
        invariant
            i <= src.len(),
            forall|j: int| 0 <= j < i ==> s[j].0 != id@,
        decreases src.len() - i,
    {
        if src[i].id == *id {
            proof {
                lemma_amap_index(s, i as int);
            }
            return Some(&src[i]);
        }
        i = i + 1;
    }
    proof {
        lemma_amap_contains(s, id@);
    }
    None
}

/// Find the position of `id` in a list of extracted identifiers.
#[verifier::loop_isolation(false)]
pub fn find_index(ids: &Vec<String>, id: &String) -> (r: Option<usize>)
    ensures
        r is Some ==> r->0 < ids@.len() && ids@[r->0 as int]@ == id@,
        r is None ==> forall|j: int| 0 <= j < ids@.len() ==> ids@[j]@ != id@,
{
    let mut i: usize = 0;
    while i < ids.len()
        invariant
            i <= ids.len(),
            forall|j: int| 0 <= j < i ==> ids@[j]@ != id@,
        decreases ids.len() - i,
    {
        if ids[i] == *id {
            return Some(i);
        }
        i = i + 1;
    }
    None
}


/// The one outcome an identifier of the union gets.
#[derive(Clone, Copy, PartialEq, Eq, Structural, Debug)]
pub enum Outcome {
    /// New in the source: a create request was emitted.
    Created,
    /// Tracked and out of date: an update request was emitted.
    Updated,
    /// Tracked and already in line with the source: no request.
    UpToDate,
    /// Gone from the source: the destination record is left untouched.
    Orphaned,
    /// New in the source but outside the retention window: not created.
    SkippedWindow,
    /// This identifier's request could not be built.
    Failed(PerEventError),
}

/// The outcome for one identifier of the union, per the reconciliation
/// table: present on both sides diffs, source-only creates (subject to the
/// window), destination-only is left alone.  An identifier on neither side
/// cannot come out of the union; the branch is never reached.
pub open spec fn classify(
    id: Seq<char>,
    src: Map<Seq<char>, EventV>,
    dst: Map<Seq<char>, RecordV>,
    cfg: ConfigV,
    now: Date,
    w: Option<Window>,
) -> Outcome {
    if src.contains_key(id) {
        let ev = src[id];
        if dst.contains_key(id) {
            match canonical_spec(ev, cfg) {
                Err(e) => Outcome::Failed(e),
                Ok(c) => if !diff_ok(c, dst[id].fields) {
                    Outcome::Failed(PerEventError::UnsupportedPropertyType)
                } else if patch_spec(c, dst[id].fields) == Map::<Seq<char>, ValueV>::empty() {
                    Outcome::UpToDate
                } else {
                    Outcome::Updated
                },
            }
        } else {
            if !window_allows(ev, now, w) {
                Outcome::SkippedWindow
            } else {
                match canonical_spec(ev, cfg) {
                    Err(e) => Outcome::Failed(e),
                    Ok(_) => Outcome::Created,
                }
            }
        }
    } else if dst.contains_key(id) {
        Outcome::Orphaned
    } else {
        Outcome::Orphaned
    }
}

/// The payloads of the create requests, in union order.
pub open spec fn creates_of(
    ids: Seq<Seq<char>>,
    src: Map<Seq<char>, EventV>,
    dst: Map<Seq<char>, RecordV>,
    cfg: ConfigV,
    now: Date,
    w: Option<Window>,
) -> Seq<Map<Seq<char>, ValueV>>
    decreases ids.len(),
{
    if ids.len() == 0 {
        Seq::empty()
    } else {
        creates_of(ids.drop_last(), src, dst, cfg, now, w) + if classify(
            ids.last(),
            src,
            dst,
            cfg,
            now,
            w,
        ) == Outcome::Created {
            seq![canonical_spec(src[ids.last()], cfg)->Ok_0]
        } else {
            Seq::empty()
        }
    }
}

/// The target and payload of the update requests, in union order.
pub open spec fn updates_of(
    ids: Seq<Seq<char>>,
    src: Map<Seq<char>, EventV>,
    dst: Map<Seq<char>, RecordV>,
    cfg: ConfigV,
    now: Date,
    w: Option<Window>,
) -> Seq<(Seq<char>, Map<Seq<char>, ValueV>)>
    decreases ids.len(),
{
    if ids.len() == 0 {
        Seq::empty()
    } else {
        updates_of(ids.drop_last(), src, dst, cfg, now, w) + if classify(
            ids.last(),
            src,
            dst,
            cfg,
            now,
            w,
        ) == Outcome::Updated {
            seq![
                (
                    dst[ids.last()].record_id,
                    patch_spec(canonical_spec(src[ids.last()], cfg)->Ok_0, dst[ids.last()].fields),
                ),
            ]
        } else {
            Seq::empty()
        }
    }
}

/// Everything one run produces: the requests to execute, one outcome per
/// identifier of the union in encounter order, and the events the adapter
/// rejected, each with its position in the feed.
pub struct RunOutput {
    pub creates: Vec<CreateRequest>,
    pub updates: Vec<UpdateRequest>,
    pub outcomes: Vec<(String, Outcome)>,
    pub rejected: Vec<(usize, PerEventError)>,
}

/// A member of `rest_ids(b, a)` comes from `b` and is missing from `a`.
pub proof fn lemma_rest_ids_in(b: Seq<Seq<char>>, a: Seq<Seq<char>>, i: int)
    requires
        0 <= i < rest_ids(b, a).len(),
    ensures
        b.contains(rest_ids(b, a)[i]),
        !a.contains(rest_ids(b, a)[i]),
    decreases b.len(),
{
    if b.len() > 0 {
        let r0 = rest_ids(b.drop_last(), a);
        if i < r0.len() {
            lemma_rest_ids_in(b.drop_last(), a, i);
            let j = choose|j: int| 0 <= j < b.drop_last().len() && b.drop_last()[j] == r0[i];
            assert(b[j] == rest_ids(b, a)[i]);
        } else {
            assert(rest_ids(b, a)[i] == b.last());
        }
    }
}

/// Every value of a well-formed source index has representable bounds.
proof fn lemma_src_value_valid(indexed: Seq<SourceEvent>, k: Seq<char>)
    requires
        keys_distinct(event_pairs(indexed)),
        indexed_events_valid(indexed),
        amap(event_pairs(indexed)).contains_key(k),
    ensures
        event_time_valid(amap(event_pairs(indexed))[k].start),
        event_time_valid(amap(event_pairs(indexed))[k].end),
{
    lemma_amap_contains(event_pairs(indexed), k);
    let j = choose|j: int|
        0 <= j < event_pairs(indexed).len() && event_pairs(indexed)[j].0 == k;
    lemma_amap_index(event_pairs(indexed), j);
    assert(amap(event_pairs(indexed))[k] == indexed[j]@);
}

/// Reconcile the two snapshots: walk the union of identifiers and emit the
/// create and update requests, one outcome per identifier.  The run aborts
/// before building any request when two destination records share an
/// identifier.
#[verifier::loop_isolation(false)]
pub fn reconcile(
    engine: &SyncEngine,
    events: &Vec<RawEvent>,
    records: &Vec<Record>,
    now: Date,
    window: Option<Window>,
) -> (r: Result<RunOutput, RunError>)
    requires
        raw_events_valid(events@),
        records_identified(records@, engine@.id),
        date_valid(now),
    ensures
        r is Ok <==> dest_unique(records@, engine@.id),
        r is Err ==> r->Err_0 == RunError::DuplicateIdentifier,
        r is Ok ==> ({
            let out = r->Ok_0;
            let src = source_map(events@);
            let dst = dest_map(records@, engine@.id);
            let ids = union_ids(source_ids(events@), dest_ids(records@, engine@.id));
            &&& out.outcomes@.len() == ids.len()
            &&& forall|i: int|
                0 <= i < ids.len() ==> (#[trigger] out.outcomes@[i]).0@ == ids[i]
                    && out.outcomes@[i].1 == classify(ids[i], src, dst, engine@, now, window)
            &&& out.creates@.map_values(|c: CreateRequest| c.fields@) == creates_of(
                ids,
                src,
                dst,
                engine@,
                now,
                window,
            )
            &&& forall|i: int| 0 <= i < out.creates@.len() ==> (#[trigger] out.creates@[i]).fields.wf()
            &&& out.updates@.map_values(|u: UpdateRequest| (u.record_id@, u.patch@)) == updates_of(
                ids,
                src,
                dst,
                engine@,
                now,
                window,
            )
            &&& forall|i: int| 0 <= i < out.updates@.len() ==> (#[trigger] out.updates@[i]).patch.wf()
            &&& out.rejected@.map_values(|p: (usize, PerEventError)| (p.0 as int, p.1))
                == rejected_of(events@)
        }),
{
    let (indexed, rejected) = index_source(events);
    let dst_ids = match index_dest(records, &engine.id_property) {
        Ok(v) => v,
        Err(e) => {
            return Err(e);
        },
    };
    let union = build_union(&indexed, &dst_ids);
    let ghost src = source_map(events@);
    let ghost dstm = dest_map(records@, engine@.id);
    let ghost dpairs = dest_pairs(records@, engine@.id);
    let ghost idsv = union_ids(source_ids(events@), dest_ids(records@, engine@.id));
    let mut outcomes: Vec<(String, Outcome)> = Vec::new();
    let mut creates: Vec<CreateRequest> = Vec::new();
    let mut updates: Vec<UpdateRequest> = Vec::new();
    let mut t: usize = 0;
    while t < union.len()
        invariant
            t <= union.len(),
            outcomes@.len() == t,
            forall|i: int|
                0 <= i < t ==> (#[trigger] outcomes@[i]).0@ == idsv[i] && outcomes@[i].1
                    == classify(idsv[i], src, dstm, engine@, now, window),
            creates@.map_values(|c: CreateRequest| c.fields@) =~= creates_of(
                idsv.take(t as int),
                src,
                dstm,
                engine@,
                now,
                window,
            ),
            forall|i: int| 0 <= i < creates@.len() ==> (#[trigger] creates@[i]).fields.wf(),
            updates@.map_values(|u: UpdateRequest| (u.record_id@, u.patch@)) =~= updates_of(
                idsv.take(t as int),
                src,
                dstm,
                engine@,
                now,
                window,
            ),
            forall|i: int| 0 <= i < updates@.len() ==> (#[trigger] updates@[i]).patch.wf(),
        decreases union.len() - t,
    {
        let id = &union[t];
        proof {
            assert(union@.map_values(|s: String| s@)[t as int] == idsv[t as int]);
            assert(idsv.take(t + 1).drop_last() =~= idsv.take(t as int));
            assert(idsv.take(t + 1).last() == idsv[t as int]);
        }
        let sev = find_event(&indexed, id);
        let dj = find_index(&dst_ids, id);
        proof {
            match dj {
                Some(j) => {
                    assert(dst_ids@[j as int]@ == dest_ids(records@, engine@.id)[j as int]);
                    assert(dpairs[j as int].0 == id@);
                    lemma_amap_index(dpairs, j as int);
                    assert(dstm.contains_key(id@) && dstm[id@] == records@[j as int]@);
                },
                None => {
                    lemma_amap_contains(dpairs, id@);
                    assert forall|j: int| 0 <= j < dpairs.len() implies dpairs[j].0 != id@ by {
                        assert(dst_ids@[j]@ == dest_ids(records@, engine@.id)[j]);
                    }
                    assert(!dstm.contains_key(id@));
                },
            }
        }
        let ghost gcls = classify(idsv[t as int], src, dstm, engine@, now, window);
        match (sev, dj) {
            (Some(ev), Some(j)) => {
                proof {
                    lemma_src_value_valid(indexed@, id@);
                }
                match engine.update_request(ev, &records[j]) {
                    Ok(None) => {
                        outcomes.push((id.clone(), Outcome::UpToDate));
                        proof {
                            assert(gcls == Outcome::UpToDate);
                        }
                    },
                    Ok(Some(u)) => {
                        let ghost uv = (u.record_id@, u.patch@);
                        updates.push(u);
                        outcomes.push((id.clone(), Outcome::Updated));
                        proof {
                            assert(gcls == Outcome::Updated);
                            assert(uv == (
                                dstm[idsv[t as int]].record_id,
                                patch_spec(
                                    canonical_spec(src[idsv[t as int]], engine@)->Ok_0,
                                    dstm[idsv[t as int]].fields,
                                ),
                            ));
                            assert(updates@.map_values(|x: UpdateRequest| (x.record_id@, x.patch@))
                                =~= updates_of(idsv.take(t + 1), src, dstm, engine@, now, window));
                        }
                    },
                    Err(e) => {
                        outcomes.push((id.clone(), Outcome::Failed(e)));
                        proof {
                            assert(gcls == Outcome::Failed(e));
                        }
                    },
                }
            },
            (Some(ev), None) => {
                proof {
                    lemma_src_value_valid(indexed@, id@);
                }
                if !window_check(ev, now, window) {
                    outcomes.push((id.clone(), Outcome::SkippedWindow));
                    proof {
                        assert(gcls == Outcome::SkippedWindow);
                    }
                } else {
                    match engine.create_request(ev) {
                        Ok(cr) => {
                            let ghost cv = cr.fields@;
                            creates.push(cr);
                            outcomes.push((id.clone(), Outcome::Created));
                            proof {
                                assert(gcls == Outcome::Created);
                                assert(cv == canonical_spec(src[idsv[t as int]], engine@)->Ok_0);
                                assert(creates@.map_values(|c: CreateRequest| c.fields@)
                                    =~= creates_of(
                                    idsv.take(t + 1),
                                    src,
                                    dstm,
                                    engine@,
                                    now,
                                    window,
                                ));
                            }
                        },
                        Err(e) => {
                            outcomes.push((id.clone(), Outcome::Failed(e)));
                            proof {
                                assert(gcls == Outcome::Failed(e));
                            }
                        },
                    }
                }
            },
            (None, Some(_)) => {
                outcomes.push((id.clone(), Outcome::Orphaned));
                proof {
                    assert(gcls == Outcome::Orphaned);
                }
            },
            (None, None) => {
                proof {
                    let a = source_ids(events@);
                    let b = dest_ids(records@, engine@.id);
                    if t < a.len() {
                        assert(event_ids(indexed@)[t as int] == idsv[t as int]);
                        assert(event_pairs(indexed@)[t as int].0 == idsv[t as int]);
                        lemma_amap_index(event_pairs(indexed@), t as int);
                        assert(false);
                    } else {
                        lemma_rest_ids_in(b, a, t - a.len());
                        let j = choose|j: int| 0 <= j < b.len() && b[j] == idsv[t as int];
                        assert(dst_ids@[j]@ == b[j]);
                        assert(false);
                    }
                }
                outcomes.push((id.clone(), Outcome::Orphaned));
            },
        }
        proof {
            if gcls != Outcome::Created {
                assert(creates_of(idsv.take(t + 1), src, dstm, engine@, now, window)
                    =~= creates_of(idsv.take(t as int), src, dstm, engine@, now, window));
            }
            if gcls != Outcome::Updated {
                assert(updates_of(idsv.take(t + 1), src, dstm, engine@, now, window)
                    =~= updates_of(idsv.take(t as int), src, dstm, engine@, now, window));
            }
        }
        t = t + 1;
    }
    proof {
        assert(idsv.take(idsv.len() as int) =~= idsv);
        assert(creates@.map_values(|c: CreateRequest| c.fields@) == creates_of(
            idsv,
            src,
            dstm,
            engine@,
            now,
            window,
        ));
        assert(updates@.map_values(|u: UpdateRequest| (u.record_id@, u.patch@)) == updates_of(
            idsv,
            src,
            dstm,
            engine@,
            now,
            window,
        ));
    }
    Ok(RunOutput { creates, updates, outcomes, rejected })
}


} // verus!
