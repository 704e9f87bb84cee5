//! The engine's global guarantees, stated and proved over the same spec
//! functions that the executable functions' contracts use.

use vstd::prelude::*;

use crate::dates::Date;
use crate::diff::{diff_ok, needs_write, patch_spec};
use crate::events::{adapt_spec, EventV, RawEvent};
use crate::fields::lemma_amap_contains;
use crate::records::RecordV;
use crate::reconcile::{
    classify, creates_of, dest_ids, dest_map, dest_pairs, dest_unique, lemma_rest_ids_in,
    rest_ids, source_ids, source_map, union_ids, updates_of, Outcome, Window,
};
use crate::translate::{canonical_spec, ConfigV};
use crate::values::{equiv, lemma_equiv_reflexive, same_kind, ValueV};

verus! {

/// Non-destructiveness: a patch never touches a property that the
/// candidate writes do not carry, whatever the stored record holds.
pub proof fn lemma_patch_nondestructive(
    c: Map<Seq<char>, ValueV>,
    s: Map<Seq<char>, ValueV>,
    k: Seq<char>,
)
    ensures
        patch_spec(c, s).contains_key(k) ==> c.contains_key(k),
{
}

/// The window filter decides creations only: for an identifier tracked on
/// both sides, the outcome is the same with any window as with none.
pub proof fn lemma_window_never_blocks_updates(
    id: Seq<char>,
    src: Map<Seq<char>, EventV>,
    dst: Map<Seq<char>, RecordV>,
    cfg: ConfigV,
    now: Date,
    w: Option<Window>,
)
    requires
        src.contains_key(id),
        dst.contains_key(id),
    ensures
        classify(id, src, dst, cfg, now, w) == classify(id, src, dst, cfg, now, None::<Window>),
{
}

/// A freshly created record is already in line with the candidate it was
/// created from: diffing the two yields an empty patch.
pub proof fn lemma_created_record_up_to_date(c: Map<Seq<char>, ValueV>)
    ensures
        diff_ok(c, c),
        patch_spec(c, c) =~= Map::<Seq<char>, ValueV>::empty(),
{
    assert forall|k: Seq<char>| #[trigger] c.contains_key(k) implies same_kind(c[k], c[k]) && equiv(
        c[k],
        c[k],
    ) by {
        lemma_equiv_reflexive(c[k]);
    }
}

/// A record with a patch applied is in line with the candidate the patch
/// came from: diffing again yields an empty patch.
pub proof fn lemma_patched_record_up_to_date(c: Map<Seq<char>, ValueV>, s: Map<Seq<char>, ValueV>)
    requires
        diff_ok(c, s),
    ensures
        diff_ok(c, s.union_prefer_right(patch_spec(c, s))),
        patch_spec(c, s.union_prefer_right(patch_spec(c, s))) =~= Map::<Seq<char>, ValueV>::empty(),
{
    let p = patch_spec(c, s);
    let s2 = s.union_prefer_right(p);
    assert forall|k: Seq<char>| #[trigger] c.contains_key(k) && s2.contains_key(k) implies
    same_kind(c[k], s2[k]) && equiv(c[k], s2[k]) by {
        lemma_equiv_reflexive(c[k]);
        if needs_write(c, s, k) {
            assert(s2[k] == c[k]);
        } else {
            assert(s2[k] == s[k]);
        }
    }
    assert forall|k: Seq<char>| #[trigger] c.contains_key(k) implies s2.contains_key(k) by {
        if !s.contains_key(k) {
            assert(needs_write(c, s, k));
            assert(p.contains_key(k));
        }
    }
}

/// A run whose every identifier needs nothing emits no requests.
pub proof fn lemma_no_requests(
    ids: Seq<Seq<char>>,
    src: Map<Seq<char>, EventV>,
    dst: Map<Seq<char>, RecordV>,
    cfg: ConfigV,
    now: Date,
    w: Option<Window>,
)
    requires
        forall|i: int|
            0 <= i < ids.len() ==> classify(#[trigger] ids[i], src, dst, cfg, now, w)
                != Outcome::Created && classify(ids[i], src, dst, cfg, now, w) != Outcome::Updated,
    ensures
        creates_of(ids, src, dst, cfg, now, w) =~= Seq::<Map<Seq<char>, ValueV>>::empty(),
        updates_of(ids, src, dst, cfg, now, w) =~= Seq::<
            (Seq<char>, Map<Seq<char>, ValueV>),
        >::empty(),
    decreases ids.len(),
{
    if ids.len() > 0 {
        lemma_no_requests(ids.drop_last(), src, dst, cfg, now, w);
        assert(ids[ids.len() - 1] == ids.last());
    }
}

/// Whether, at identifier `id`, the destination `dst2` reflects what the
/// first run over `dst` asked for: the created record holds the candidate
/// fields, the patched record holds its old fields overwritten by the
/// patch, and everything else is untouched.
pub open spec fn run_applied_at(
    id: Seq<char>,
    src: Map<Seq<char>, EventV>,
    dst: Map<Seq<char>, RecordV>,
    dst2: Map<Seq<char>, RecordV>,
    cfg: ConfigV,
    now: Date,
    w: Option<Window>,
) -> bool {
    let first = classify(id, src, dst, cfg, now, w);
    if first == Outcome::Created {
        dst2.contains_key(id) && dst2[id].fields == canonical_spec(src[id], cfg)->Ok_0
    } else if first == Outcome::Updated {
        dst2.contains_key(id) && dst2[id].fields == dst[id].fields.union_prefer_right(
            patch_spec(canonical_spec(src[id], cfg)->Ok_0, dst[id].fields),
        )
    } else {
        (dst2.contains_key(id) <==> dst.contains_key(id)) && (dst.contains_key(id) ==> dst2[id]
            == dst[id])
    }
}

/// Idempotence, identifier by identifier: once the destination reflects
/// what the first run's outcome for an identifier asked for, a second run
/// over the same source, clock and window asks for nothing there.
pub proof fn lemma_run_idempotent(
    id: Seq<char>,
    src: Map<Seq<char>, EventV>,
    dst: Map<Seq<char>, RecordV>,
    dst2: Map<Seq<char>, RecordV>,
    cfg: ConfigV,
    now: Date,
    w: Option<Window>,
)
    requires
        run_applied_at(id, src, dst, dst2, cfg, now, w),
    ensures
        classify(id, src, dst2, cfg, now, w) != Outcome::Created,
        classify(id, src, dst2, cfg, now, w) != Outcome::Updated,
{
    let first = classify(id, src, dst, cfg, now, w);
    if first == Outcome::Created {
        lemma_created_record_up_to_date(canonical_spec(src[id], cfg)->Ok_0);
    } else if first == Outcome::Updated {
        lemma_patched_record_up_to_date(canonical_spec(src[id], cfg)->Ok_0, dst[id].fields);
    }
}

/// Idempotence of a whole run: when the destination reflects what the
/// first run asked for at every identifier it walks, the second run over
/// an unchanged source emits no create and no update request.
pub proof fn lemma_rerun_emits_nothing(
    ids: Seq<Seq<char>>,
    src: Map<Seq<char>, EventV>,
    dst: Map<Seq<char>, RecordV>,
    dst2: Map<Seq<char>, RecordV>,
    cfg: ConfigV,
    now: Date,
    w: Option<Window>,
)
    requires
        forall|i: int|
            0 <= i < ids.len() ==> run_applied_at(#[trigger] ids[i], src, dst, dst2, cfg, now, w),
    ensures
        creates_of(ids, src, dst2, cfg, now, w) =~= Seq::<Map<Seq<char>, ValueV>>::empty(),
        updates_of(ids, src, dst2, cfg, now, w) =~= Seq::<
            (Seq<char>, Map<Seq<char>, ValueV>),
        >::empty(),
{
    assert forall|i: int| 0 <= i < ids.len() implies classify(
        #[trigger] ids[i],
        src,
        dst2,
        cfg,
        now,
        w,
    ) != Outcome::Created && classify(ids[i], src, dst2, cfg, now, w) != Outcome::Updated by {
        lemma_run_idempotent(ids[i], src, dst, dst2, cfg, now, w);
    }
    lemma_no_requests(ids, src, dst2, cfg, now, w);
}


/// Pairwise distinct identifiers.
pub open spec fn ids_distinct(s: Seq<Seq<char>>) -> bool {
    forall|i: int, j: int| 0 <= i < j < s.len() ==> s[i] != s[j]
}

/// The source identifiers are pairwise distinct: a repeated identifier
/// keeps its first position instead of appearing again.
pub proof fn lemma_source_ids_distinct(evs: Seq<RawEvent>)
    ensures
        ids_distinct(source_ids(evs)),
    decreases evs.len(),
{
    if evs.len() > 0 {
        lemma_source_ids_distinct(evs.drop_last());
        let s = source_ids(evs.drop_last());
        match adapt_spec(evs.last()) {
            Ok(n) => {
                if !s.contains(n.id) {
                    let s1 = s.push(n.id);
                    assert forall|i: int, j: int| 0 <= i < j < s1.len() implies s1[i] != s1[j] by {
                        if j == s1.len() - 1 {
                            assert(s[i] != n.id);
                        }
                    }
                }
            },
            Err(_) => {},
        }
    }
}

/// An identifier is in the source list exactly when the source index has
/// an event under it.
pub proof fn lemma_source_ids_map(evs: Seq<RawEvent>, k: Seq<char>)
    ensures
        source_ids(evs).contains(k) <==> source_map(evs).contains_key(k),
    decreases evs.len(),
{
    if evs.len() > 0 {
        lemma_source_ids_map(evs.drop_last(), k);
        let s = source_ids(evs.drop_last());
        match adapt_spec(evs.last()) {
            Ok(n) => {
                if s.contains(n.id) {
                    if k == n.id {
                        assert(source_ids(evs).contains(k));
                    }
                } else {
                    let s1 = s.push(n.id);
                    if s.contains(k) {
                        let i = choose|i: int| 0 <= i < s.len() && s[i] == k;
                        assert(s1[i] == k);
                    }
                    if k == n.id {
                        assert(s1[s1.len() - 1] == k);
                    }
                    if s1.contains(k) {
                        let i = choose|i: int| 0 <= i < s1.len() && s1[i] == k;
                        if i < s.len() {
                            assert(s[i] == k);
                        }
                    }
                }
            },
            Err(_) => {},
        }
    }
}

/// An identifier is among the extracted destination identifiers exactly
/// when the destination index has a record under it.
pub proof fn lemma_dest_ids_map(rs: Seq<crate::records::Record>, idp: Seq<char>, k: Seq<char>)
    ensures
        dest_ids(rs, idp).contains(k) <==> dest_map(rs, idp).contains_key(k),
{
    lemma_amap_contains(dest_pairs(rs, idp), k);
    assert(forall|i: int|
        0 <= i < rs.len() ==> dest_pairs(rs, idp)[i].0 == dest_ids(rs, idp)[i]);
    if dest_ids(rs, idp).contains(k) {
        let i = choose|i: int| 0 <= i < dest_ids(rs, idp).len() && dest_ids(rs, idp)[i] == k;
        assert(dest_pairs(rs, idp)[i].0 == k);
    }
    if dest_map(rs, idp).contains_key(k) {
        let i = choose|i: int|
            0 <= i < dest_pairs(rs, idp).len() && dest_pairs(rs, idp)[i].0 == k;
        assert(dest_ids(rs, idp)[i] == k);
    }
}

/// What remains of `b` after dropping `a`'s members: exactly `b`'s members
/// that are not in `a`.
pub proof fn lemma_rest_ids_contains(b: Seq<Seq<char>>, a: Seq<Seq<char>>, k: Seq<char>)
    ensures
        rest_ids(b, a).contains(k) <==> b.contains(k) && !a.contains(k),
    decreases b.len(),
{
    if b.len() > 0 {
        lemma_rest_ids_contains(b.drop_last(), a, k);
        let r0 = rest_ids(b.drop_last(), a);
        let r = rest_ids(b, a);
        if r.contains(k) {
            let i = choose|i: int| 0 <= i < r.len() && r[i] == k;
            if i < r0.len() {
                assert(r0[i] == k);
                let j = choose|j: int| 0 <= j < b.drop_last().len() && b.drop_last()[j] == k;
                assert(b[j] == k);
            } else {
                assert(k == b.last());
                assert(b[b.len() - 1] == k);
            }
        }
        if b.contains(k) && !a.contains(k) {
            let j = choose|j: int| 0 <= j < b.len() && b[j] == k;
            if j < b.len() - 1 {
                assert(b.drop_last()[j] == k);
                let i = choose|i: int| 0 <= i < r0.len() && r0[i] == k;
                assert(r[i] == k);
            } else {
                assert(r[r.len() - 1] == k);
            }
        }
    }
}

/// Union completeness: the walked union holds exactly the identifiers
/// known to either snapshot — none is invented, none is dropped — and, the
/// destination identifiers being unique, each exactly once.  Together with
/// the driver's contract this puts exactly one outcome on every identifier
/// of source and destination.
pub proof fn lemma_union_complete(
    evs: Seq<RawEvent>,
    rs: Seq<crate::records::Record>,
    idp: Seq<char>,
    k: Seq<char>,
)
    ensures
        union_ids(source_ids(evs), dest_ids(rs, idp)).contains(k) <==> source_map(
            evs,
        ).contains_key(k) || dest_map(rs, idp).contains_key(k),
{
    let a = source_ids(evs);
    let b = dest_ids(rs, idp);
    lemma_source_ids_map(evs, k);
    lemma_dest_ids_map(rs, idp, k);
    lemma_rest_ids_contains(b, a, k);
    let u = union_ids(a, b);
    if u.contains(k) {
        let i = choose|i: int| 0 <= i < u.len() && u[i] == k;
        if i < a.len() {
            assert(a[i] == k);
        } else {
            assert(rest_ids(b, a)[i - a.len()] == k);
        }
    }
    if a.contains(k) {
        let i = choose|i: int| 0 <= i < a.len() && a[i] == k;
        assert(u[i] == k);
    }
    if b.contains(k) && !a.contains(k) {
        let i = choose|i: int| 0 <= i < rest_ids(b, a).len() && rest_ids(b, a)[i] == k;
        assert(u[a.len() + i] == k);
    }
}

/// Distinct identifiers stay distinct after dropping `a`'s members.
proof fn lemma_rest_ids_distinct(b: Seq<Seq<char>>, a: Seq<Seq<char>>)
    requires
        ids_distinct(b),
    ensures
        ids_distinct(rest_ids(b, a)),
    decreases b.len(),
{
    if b.len() > 0 {
        assert(ids_distinct(b.drop_last())) by {
            assert(forall|i: int|
                0 <= i < b.len() - 1 ==> b.drop_last()[i] == b[i]);
        }
        lemma_rest_ids_distinct(b.drop_last(), a);
        let r0 = rest_ids(b.drop_last(), a);
        let r = rest_ids(b, a);
        if !a.contains(b.last()) {
            assert forall|i: int, j: int| 0 <= i < j < r.len() implies r[i] != r[j] by {
                if j == r.len() - 1 {
                    assert(r[i] == r0[i]);
                    lemma_rest_ids_in(b.drop_last(), a, i);
                    let x = choose|x: int|
                        0 <= x < b.drop_last().len() && b.drop_last()[x] == r0[i];
                    assert(b[x] == r0[i]);
                    assert(b[x] != b.last());
                } else {
                    assert(r[i] == r0[i] && r[j] == r0[j]);
                }
            }
        }
    }
}

/// Each identifier appears in the union at most once: the source
/// identifiers are deduplicated, the destination identifiers are unique,
/// and the destination-only tail excludes everything the source part has.
pub proof fn lemma_union_distinct(evs: Seq<RawEvent>, rs: Seq<crate::records::Record>, idp: Seq<char>)
    requires
        dest_unique(rs, idp),
    ensures
        ids_distinct(union_ids(source_ids(evs), dest_ids(rs, idp))),
{
    let a = source_ids(evs);
    let b = dest_ids(rs, idp);
    let r = rest_ids(b, a);
    let u = union_ids(a, b);
    lemma_source_ids_distinct(evs);
    assert(ids_distinct(b)) by {
        assert(forall|i: int|
            0 <= i < rs.len() ==> dest_pairs(rs, idp)[i].0 == b[i]);
    }
    lemma_rest_ids_distinct(b, a);
    assert forall|i: int, j: int| 0 <= i < j < u.len() implies u[i] != u[j] by {
        if j < a.len() {
            assert(u[i] == a[i] && u[j] == a[j]);
        } else if i >= a.len() {
            assert(u[i] == r[i - a.len()] && u[j] == r[j - a.len()]);
        } else {
            assert(u[i] == a[i] && u[j] == r[j - a.len()]);
            lemma_rest_ids_in(b, a, j - a.len());
            if a[i] == r[j - a.len()] {
                assert(a.contains(r[j - a.len()]));
            }
        }
    }
}


} // verus!
