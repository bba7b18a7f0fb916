//! A JSON object: an ordered mapping from field names to JSON values.
//!
//! One `JsonObject` serves both as the per-span field store (created when a
//! span opens, grown by later `record` calls) and as the merged record that
//! an event finally produces.  Entries keep their first-insertion order;
//! writing an existing key replaces its value in place (last write wins) and
//! never removes a key.  The mathematical model of an object is the map from
//! key to value induced by its entry sequence.

use vstd::prelude::*;

use crate::pairs::{distinct_firsts, lemma_pairs_map_contains, lemma_pairs_map_index, lemma_pairs_map_push, lemma_pairs_map_remove, lemma_pairs_map_update, pairs_map};
use crate::value::{value_eq, value_wf, JsonValue, ValueView};

verus! {

/// One entry of an object at the level of the model: a key and a value.
pub type EntryView = (Seq<char>, ValueView);

/// The mapping induced by an entry sequence, later entries winning.
pub open spec fn map_of(s: Seq<EntryView>) -> Map<Seq<char>, ValueView> {
    pairs_map(s)
}

/// No key occurs twice.
pub open spec fn distinct_keys(s: Seq<EntryView>) -> bool {
    distinct_firsts(s)
}

/// An ordered JSON object with pairwise-distinct keys.
pub struct JsonObject {
    entries: Vec<(String, JsonValue)>,
}

impl View for JsonObject {
    type V = Seq<EntryView>;

    closed spec fn view(&self) -> Seq<EntryView> {
        self.entries@.map(|i: int, e: (String, JsonValue)| (e.0@, e.1@))
    }
}

impl JsonObject {
    /// Well-formedness: no duplicate keys, every value well formed.
    pub open spec fn wf(&self) -> bool {
        &&& distinct_keys(self@)
        &&& forall|i: int| 0 <= i < self@.len() ==> value_wf((#[trigger] self@[i]).1)
    }

    /// The mapping this object represents.
    pub open spec fn as_map(&self) -> Map<Seq<char>, ValueView> {
        map_of(self@)
    }

    pub fn new() -> (r: JsonObject)
        ensures
            r@ == Seq::<EntryView>::empty(),
            r.as_map() == Map::<Seq<char>, ValueView>::empty(),
            r.wf(),
    {
        JsonObject { entries: Vec::new() }
    }

    pub fn len(&self) -> (n: usize)
        ensures
            n == self@.len(),
    {
        self.entries.len()
    }

    /// The entry at one position, for callers that walk the object in order.
    pub fn entry_at(&self, i: usize) -> (r: (&String, &JsonValue))
        requires
            i < self@.len(),
        ensures
            r.0@ == self@[i as int].0,
            r.1@ == self@[i as int].1,
    {
        let e = &self.entries[i];
        (&e.0, &e.1)
    }

    /// The position holding `key`, if any.
    fn find(&self, key: &str) -> (r: Option<usize>)
        ensures
            match r {
                Some(i) => i < self@.len() && self@[i as int].0 == key@,
                None => forall|i: int| 0 <= i < self@.len() ==> (#[trigger] self@[i]).0 != key@,
            },
    {
        let owned = key.to_owned();
        let n = self.entries.len();
        let mut j: usize = 0;
        while j < n
            invariant
                j <= n,
                n == self@.len(),
                owned@ == key@,
                forall|i: int| 0 <= i < j ==> (#[trigger] self@[i]).0 != key@,
            decreases n - j,
        {
            if self.entries[j].0 == owned {
                return Some(j);
            }
            j = j + 1;
        }
        None
    }

    /// Looks a field up by name.
    pub fn get(&self, key: &str) -> (r: Option<&JsonValue>)
        requires
            self.wf(),
        ensures
            match r {
                Some(v) => self.as_map().contains_key(key@) && v@ == self.as_map()[key@],
                None => !self.as_map().contains_key(key@),
            },
    {
        proof {
            lemma_pairs_map_contains(self@, key@);
        }
        match self.find(key) {
            Some(i) => {
                proof {
                    lemma_pairs_map_index(self@, i as int);
                }
                Some(&self.entries[i].1)
            },
            None => None,
        }
    }

    /// Writes one field: replaces the value of an existing key in place, or
    /// appends a new entry (last write wins, keys are never removed).
    pub fn insert(&mut self, key: String, value: JsonValue)
        requires
            old(self).wf(),
            value_wf(value@),
        ensures
            final(self).wf(),
            final(self).as_map() == old(self).as_map().insert(key@, value@),
            old(self).as_map().contains_key(key@) ==> final(self)@.len() == old(self)@.len()
                && forall|i: int|
                0 <= i < old(self)@.len() ==> (#[trigger] final(self)@[i]).0 == old(
                self,
            )@[i].0,
            !old(self).as_map().contains_key(key@) ==> final(self)@ == old(self)@.push(
                (key@, value@),
            ),
    {
        proof {
            lemma_pairs_map_contains(self@, key@);
        }
        match self.find(key.as_str()) {
            Some(i) => {
                proof {
                    lemma_pairs_map_update(self@, i as int, value@);
                }
                self.entries[i] = (key, value);
                assert(self@ =~= old(self)@.update(i as int, (old(self)@[i as int].0, value@)));
            },
            None => {
                proof {
                    lemma_pairs_map_push(self@, (key@, value@));
                }
                self.entries.push((key, value));
                assert(self@ =~= old(self)@.push((key@, value@)));
            },
        }
    }

    /// Removes a field by name, handing its value back.
    pub fn remove(&mut self, key: &str) -> (r: Option<JsonValue>)
        requires
            old(self).wf(),
        ensures
            final(self).wf(),
            final(self).as_map() == old(self).as_map().remove(key@),
            match r {
                Some(v) => old(self).as_map().contains_key(key@) && v@ == old(self).as_map()[key@],
                None => !old(self).as_map().contains_key(key@) && final(self)@ == old(self)@,
            },
    {
        proof {
            lemma_pairs_map_contains(self@, key@);
        }
        match self.find(key) {
            Some(i) => {
                proof {
                    lemma_pairs_map_index(self@, i as int);
                    lemma_pairs_map_remove(self@, i as int);
                }
                let e = self.entries.remove(i);
                assert(self@ =~= old(self)@.remove(i as int));
                Some(e.1)
            },
            None => {
                proof {
                    assert(self.as_map() =~= self.as_map().remove(key@));
                }
                None
            },
        }
    }

    /// Overlays every field of `other` onto `self`, in `other`'s order,
    /// later values winning over existing ones.
    pub fn merge_from(&mut self, other: &JsonObject)
        requires
            old(self).wf(),
            other.wf(),
        ensures
            final(self).wf(),
            final(self).as_map() == old(self).as_map().union_prefer_right(other.as_map()),
    {
        let n = other.entries.len();
        let mut j: usize = 0;
        while j < n
            invariant
                j <= n,
                n == other@.len(),
                other.wf(),
                self.wf(),
                self.as_map() == old(self).as_map().union_prefer_right(
                    map_of(other@.subrange(0, j as int)),
                ),
            decreases n - j,
        {
            let e = &other.entries[j];
            let k = e.0.clone();
            let v = e.1.clone();
            assert(other@[j as int] == (k@, v@));
            assert(value_wf(v@));
            self.insert(k, v);
            proof {
                let prefix = other@.subrange(0, j as int);
                lemma_pairs_map_push(prefix, other@[j as int]);
                assert(prefix.push(other@[j as int]) =~= other@.subrange(0, j as int + 1));
                assert(self.as_map() =~= old(self).as_map().union_prefer_right(
                    map_of(other@.subrange(0, j as int + 1)),
                ));
            }
            j = j + 1;
        }
        proof {
            assert(other@.subrange(0, n as int) =~= other@);
            assert(map_of(Seq::<EntryView>::empty()) =~= Map::<Seq<char>, ValueView>::empty());
        }
    }

    /// Decides whether two objects represent the same mapping.
    pub fn same_map(a: &JsonObject, b: &JsonObject) -> (r: bool)
        requires
            a.wf(),
            b.wf(),
        ensures
            r == (a.as_map() == b.as_map()),
    {
        let fwd = Self::submap_of(a, b);
        let bwd = Self::submap_of(b, a);
        proof {
            a.as_map().lemma_submap_eq_iff(b.as_map());
        }
        fwd && bwd
    }

    /// Decides whether every field of `a` occurs with the same value in `b`.
    fn submap_of(a: &JsonObject, b: &JsonObject) -> (r: bool)
        requires
            a.wf(),
            b.wf(),
        ensures
            r == a.as_map().submap_of(b.as_map()),
    {
        let n = a.entries.len();
        let mut j: usize = 0;
        while j < n
            invariant
                j <= n,
                n == a@.len(),
                a.wf(),
                b.wf(),
                forall|i: int|
                    0 <= i < j ==> b.as_map().contains_key((#[trigger] a@[i]).0) && b.as_map()[a@[
                    i].0] == a@[i].1,
            decreases n - j,
        {
            let e = a.entry_at(j);
            let found = b.get(e.0.as_str());
            match found {
                Some(v) => {
                    if !value_eq(e.1, v) {
                        proof {
                            lemma_pairs_map_index(a@, j as int);
                        }
                        return false;
                    }
                },
                None => {
                    proof {
                        lemma_pairs_map_index(a@, j as int);
                    }
                    return false;
                },
            }
            j = j + 1;
        }
        proof {
            assert forall|k: Seq<char>| #[trigger] a.as_map().dom().contains(k) implies b.as_map().dom().contains(
                k,
            ) && a.as_map()[k] == b.as_map()[k] by {
                lemma_pairs_map_contains(a@, k);
                let i = choose|i: int| 0 <= i < a@.len() && (#[trigger] a@[i]).0 == k;
                lemma_pairs_map_index(a@, i);
            }
        }
        true
    }
}

} // verus!
