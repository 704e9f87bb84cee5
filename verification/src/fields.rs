//! Named property sets.
//!
//! Canonical fields and patches are finite mappings from a property name to
//! a value.  They are kept as short association lists with pairwise
//! distinct names and are specified through the map they denote: inserting
//! twice under one name keeps the later value, mirroring a map update.

use vstd::prelude::*;

use crate::values::{Value, ValueV};

verus! {

/// The map denoted by a list of key–value pairs, later pairs winning.
pub open spec fn amap<T>(s: Seq<(Seq<char>, T)>) -> Map<Seq<char>, T>
    decreases s.len(),
{
    if s.len() == 0 {
        Map::empty()
    } else {
        amap(s.drop_last()).insert(s.last().0, s.last().1)
    }
}

/// Pairwise distinct keys.
pub open spec fn keys_distinct<T>(s: Seq<(Seq<char>, T)>) -> bool {
    forall|i: int, j: int| 0 <= i < j < s.len() ==> s[i].0 != s[j].0
}

/// A key is in the map exactly when some pair carries it.
pub proof fn lemma_amap_contains<T>(s: Seq<(Seq<char>, T)>, k: Seq<char>)
    ensures
        amap(s).contains_key(k) <==> exists|i: int| 0 <= i < s.len() && s[i].0 == k,
    decreases s.len(),
{
    if s.len() > 0 {
        lemma_amap_contains(s.drop_last(), k);
        if s.last().0 == k {
            assert(s[s.len() - 1].0 == k);
        } else if amap(s).contains_key(k) {
            let i = choose|i: int| 0 <= i < s.drop_last().len() && s.drop_last()[i].0 == k;
            assert(s[i].0 == k);
        } else if exists|i: int| 0 <= i < s.len() && s[i].0 == k {
            let i = choose|i: int| 0 <= i < s.len() && s[i].0 == k;
            assert(s.drop_last()[i].0 == k);
        }
    }
}

/// With distinct keys, each pair gives the map's value at its key.
pub proof fn lemma_amap_index<T>(s: Seq<(Seq<char>, T)>, i: int)
    requires
        keys_distinct(s),
        0 <= i < s.len(),
    ensures
        amap(s).contains_key(s[i].0),
        amap(s)[s[i].0] == s[i].1,
    decreases s.len(),
{
    if i < s.len() - 1 {
        assert(keys_distinct(s.drop_last())) by {
            assert(forall|x: int, y: int|
                0 <= x < y < s.drop_last().len() ==> s.drop_last()[x] == s[x] && s.drop_last()[y]
                    == s[y]);
        }
        lemma_amap_index(s.drop_last(), i);
        assert(s.drop_last()[i] == s[i]);
        assert(s[i].0 != s.last().0);
    }
}

/// Replacing the pair at `i` by one with the same key updates the map at
/// that key alone.
pub proof fn lemma_amap_update<T>(s: Seq<(Seq<char>, T)>, i: int, v: T)
    requires
        keys_distinct(s),
        0 <= i < s.len(),
    ensures
        amap(s.update(i, (s[i].0, v))) == amap(s).insert(s[i].0, v),
    decreases s.len(),
{
    let t = s.update(i, (s[i].0, v));
    if i == s.len() - 1 {
        assert(t.drop_last() =~= s.drop_last());
        assert(t.last() == (s[i].0, v));
        assert(amap(t) =~= amap(s).insert(s[i].0, v));
    } else {
        assert(keys_distinct(s.drop_last())) by {
            assert(forall|x: int, y: int|
                0 <= x < y < s.drop_last().len() ==> s.drop_last()[x] == s[x] && s.drop_last()[y]
                    == s[y]);
        }
        assert(s.drop_last()[i] == s[i]);
        lemma_amap_update(s.drop_last(), i, v);
        assert(t.drop_last() =~= s.drop_last().update(i, (s[i].0, v)));
        assert(t.last() == s.last());
        assert(s[i].0 != s.last().0);
        assert(amap(t) =~= amap(s).insert(s[i].0, v));
    }
}

/// A set of named property values: candidate writes for one event, or the
/// patch that brings a record up to date.
pub struct Fields {
    pub entries: Vec<(String, Value)>,
}

/// The pairs a property list denotes, with names and values abstracted.
pub open spec fn field_pairs(s: Seq<(String, Value)>) -> Seq<(Seq<char>, ValueV)> {
    s.map_values(|e: (String, Value)| (e.0@, e.1@))
}

impl View for Fields {
    type V = Map<Seq<char>, ValueV>;

    open spec fn view(&self) -> Map<Seq<char>, ValueV> {
        amap(field_pairs(self.entries@))
    }
}

impl Fields {
    /// The property names are pairwise distinct.
    pub open spec fn wf(&self) -> bool {
        keys_distinct(field_pairs(self.entries@))
    }

    /// An empty property set.
    pub fn new() -> (f: Fields)
        ensures
            f@ == Map::<Seq<char>, ValueV>::empty(),
            f.wf(),
            f.entries@.len() == 0,
    {
        let f = Fields { entries: Vec::new() };
        proof {
            assert(field_pairs(f.entries@) =~= Seq::empty());
        }
        f
    }

    /// Set `name` to `value`, replacing any earlier value under that name.
    #[verifier::loop_isolation(false)]
    pub fn insert(&mut self, name: String, value: Value)
        requires
            old(self).wf(),
        ensures
            final(self)@ == old(self)@.insert(name@, value@),
            final(self).wf(),
    {
        let ghost s0 = field_pairs(self.entries@);
        let mut i: usize = 0;
        while i < self.entries.len()
            invariant
                i <= self.entries.len(),
                field_pairs(self.entries@) == s0,
                keys_distinct(s0),
                forall|j: int| 0 <= j < i ==> s0[j].0 != name@,
            decreases self.entries.len() - i,
        {
            if self.entries[i].0 == name {
                let ghost v = value@;
                proof {
                    assert(s0[i as int].0 == name@);
                }
                self.entries.remove(i);
                self.entries.insert(i, (name, value));
                proof {
                    assert(field_pairs(self.entries@) =~= s0.update(i as int, (name@, v)));
                    lemma_amap_update(s0, i as int, v);
                    assert(forall|x: int|
                        0 <= x < s0.len() ==> field_pairs(self.entries@)[x].0 == s0[x].0);
                    assert(keys_distinct(field_pairs(self.entries@)));
                }
                return ;
            }
            i = i + 1;
        }
        self.entries.push((name, value));
        proof {
            let s1 = field_pairs(self.entries@);
            assert(s1.drop_last() =~= s0);
            assert(s1.last() == (name@, value@));
            assert(forall|x: int| 0 <= x < s0.len() ==> s1[x] == s0[x]);
            assert(s1[s1.len() - 1].0 == name@);
            assert(keys_distinct(s1));
        }
    }

    /// Look up the value stored under `name`.
    #[verifier::loop_isolation(false)]
    pub fn get(&self, name: &String) -> (r: Option<&Value>)
        requires
            self.wf(),
        ensures
            r is Some <==> self@.contains_key(name@),
            r is Some ==> r->Some_0@ == self@[name@],
    {
        let ghost s = field_pairs(self.entries@);
        let mut i: usize = 0;
        while i < self.entries.len()
            invariant
                i <= self.entries.len(),
                s == field_pairs(self.entries@),
                keys_distinct(s),
                forall|j: int| 0 <= j < i ==> s[j].0 != name@,
            decreases self.entries.len() - i,
        {
            if self.entries[i].0 == *name {
                proof {
                    lemma_amap_index(s, i as int);
                }
                return Some(&self.entries[i].1);
            }
            i = i + 1;
        }
        proof {
            lemma_amap_contains(s, name@);
        }
        None
    }

    /// Whether no property is set.
    pub fn is_empty(&self) -> (r: bool)
        ensures
            r <==> self@ == Map::<Seq<char>, ValueV>::empty(),
    {
        let ghost s = field_pairs(self.entries@);
        if self.entries.len() == 0 {
            proof {
                assert(s =~= Seq::empty());
            }
            true
        } else {
            proof {
                assert(amap(s).contains_key(s.last().0));
                assert(amap(s) != Map::<Seq<char>, ValueV>::empty());
            }
            false
        }
    }
}

} // verus!
