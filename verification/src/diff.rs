//! The diff engine.
//!
//! Given the candidate writes derived from a source event and the stored
//! values of the matched destination record, the diff keeps exactly the
//! properties whose stored value disagrees with the candidate.  Properties
//! the engine does not manage — stored but not in the candidate — are never
//! touched, so a patch can only overwrite, never clear.

use vstd::prelude::*;

use crate::errors::PerEventError;
use crate::fields::{amap, field_pairs, keys_distinct, lemma_amap_contains, lemma_amap_index, Fields};
use crate::values::{equiv, same_kind, value_equiv, ValueV};

verus! {

/// Whether candidate and stored values agree on the kind of every property
/// they share, so that a field-level comparison is possible at all.
pub open spec fn diff_ok(c: Map<Seq<char>, ValueV>, s: Map<Seq<char>, ValueV>) -> bool {
    forall|k: Seq<char>|
        #[trigger] c.contains_key(k) && s.contains_key(k) ==> same_kind(c[k], s[k])
}

/// Whether property `k` of the candidate must be written: it is either
/// absent from the record or stored with a disagreeing value.
pub open spec fn needs_write(
    c: Map<Seq<char>, ValueV>,
    s: Map<Seq<char>, ValueV>,
    k: Seq<char>,
) -> bool {
    c.contains_key(k) && (!s.contains_key(k) || !equiv(c[k], s[k]))
}

/// The minimal patch: the candidate restricted to the properties that must
/// be written.
pub open spec fn patch_spec(
    c: Map<Seq<char>, ValueV>,
    s: Map<Seq<char>, ValueV>,
) -> Map<Seq<char>, ValueV> {
    Map::new(|k: Seq<char>| needs_write(c, s, k), |k: Seq<char>| c[k])
}

/// Compute the minimal patch that brings a record's stored values in line
/// with the candidate writes, or report that some shared property has a
/// different kind on the two sides.
#[verifier::loop_isolation(false)]
pub fn compute_patch(cand: Fields, stored: &Fields) -> (r: Result<Fields, PerEventError>)
    requires
        cand.wf(),
        stored.wf(),
    ensures
        r is Ok <==> diff_ok(cand@, stored@),
        r is Ok ==> r->Ok_0.wf() && r->Ok_0@ == patch_spec(cand@, stored@),
        r is Err ==> r->Err_0 == PerEventError::UnsupportedPropertyType,
{
    let ghost e0 = cand.entries@;
    let ghost s0 = field_pairs(cand.entries@);
    let ghost c = cand@;
    let ghost sm = stored@;
    let mut rest = cand;
    let mut patch = Fields::new();
    let mut remaining: usize = rest.entries.len();
    while remaining > 0
        invariant
            remaining == rest.entries@.len(),
            remaining <= e0.len(),
            rest.entries@ =~= e0.take(remaining as int),
            patch.wf(),
            forall|j: int|
                remaining <= j < s0.len() && sm.contains_key(#[trigger] s0[j].0) ==> same_kind(
                    s0[j].1,
                    sm[s0[j].0],
                ),
            forall|k: Seq<char>|
                patch@.contains_key(k) <==> exists|j: int|
                    remaining <= j < s0.len() && #[trigger] s0[j].0 == k && needs_write(c, sm, k),
            forall|k: Seq<char>| #[trigger] patch@.contains_key(k) ==> patch@[k] == c[k],
        decreases remaining,
    {
        let entry = rest.entries.pop();
        remaining = remaining - 1;
        let (name, value) = match entry {
            Some(p) => p,
            None => {
                proof {
                    assert(false);
                }
                return Err(PerEventError::UnsupportedPropertyType);
            },
        };
        let ghost i = remaining as int;
        proof {
            assert(e0.take(i + 1).drop_last() =~= e0.take(i));
            assert(e0.take(i + 1).last() == e0[i]);
            assert(s0[i] == (name@, value@));
            lemma_amap_index(s0, i);
        }
        match stored.get(&name) {
            None => {
                proof {
                    lemma_amap_contains(field_pairs(stored.entries@), name@);
                }
                let ghost p0 = patch@;
                patch.insert(name, value);
                proof {
                    assert(needs_write(c, sm, s0[i].0));
                    assert(forall|k: Seq<char>| k != s0[i].0 ==> patch@.contains_key(k)
                        == p0.contains_key(k));
                }
            },
            Some(w) => {
                match value_equiv(&value, w) {
                    None => {
                        proof {
                            assert(c.contains_key(s0[i].0) && sm.contains_key(s0[i].0));
                            assert(!same_kind(c[s0[i].0], sm[s0[i].0]));
                        }
                        return Err(PerEventError::UnsupportedPropertyType);
                    },
                    Some(true) => {
                        proof {
                            assert(!needs_write(c, sm, s0[i].0));
                            assert(forall|j: int|
                                i <= j < s0.len() && s0[j].0 == s0[i].0 ==> j == i || !keys_distinct(
                                    s0,
                                ));
                        }
                    },
                    Some(false) => {
                        let ghost p0 = patch@;
                        patch.insert(name, value);
                        proof {
                            assert(needs_write(c, sm, s0[i].0));
                            assert(forall|k: Seq<char>| k != s0[i].0 ==> patch@.contains_key(k)
                                == p0.contains_key(k));
                        }
                    },
                }
            },
        }
    }
    proof {
        assert forall|k: Seq<char>| #[trigger] c.contains_key(k) && sm.contains_key(k) implies
        same_kind(c[k], sm[k]) by {
            lemma_amap_contains(s0, k);
            let j = choose|j: int| 0 <= j < s0.len() && s0[j].0 == k;
            lemma_amap_index(s0, j);
        }
        assert(patch@ =~= patch_spec(c, sm)) by {
            assert forall|k: Seq<char>| #[trigger] patch_spec(c, sm).contains_key(k) implies
            patch@.contains_key(k) by {
                lemma_amap_contains(s0, k);
            }
        }
    }
    Ok(patch)
}

} // verus!
