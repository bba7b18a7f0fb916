//! The span table: an identifier-keyed side-table of span field stores.
//!
//! The host runtime assigns each live span an identifier, unique among the
//! spans that are currently open (an identifier may be reused after its span
//! closes).  The table owns one field store per open span: the store is
//! created when the span opens, grown by later `record` calls, and dropped
//! when the span closes.  The scope merge engine reads a root-first chain of
//! identifiers out of the table and folds the stores into one mapping,
//! innermost values winning.

use vstd::prelude::*;

use crate::object::{EntryView, JsonObject};
use crate::pairs::{
    distinct_firsts, lemma_pairs_map_contains, lemma_pairs_map_index, lemma_pairs_map_push,
    lemma_pairs_map_remove, pairs_map,
};
use crate::value::ValueView;

verus! {

/// Breach of the host runtime's lifecycle contract: a callback named a span
/// whose field store does not exist.  The core cannot recover from this;
/// the caller is expected to treat it as fatal.
#[derive(Clone, Copy, Debug, PartialEq, Eq, Structural)]
pub enum HostError {
    UnknownSpan(u64),
}

/// The merged mapping an event sees: the stores of its span chain, walked
/// root first, each overlaid onto the accumulator so that the innermost
/// span's value wins any key collision.
pub open spec fn merged_of(
    t: Map<u64, Map<Seq<char>, ValueView>>,
    chain: Seq<u64>,
) -> Map<Seq<char>, ValueView>
    decreases chain.len(),
{
    if chain.len() == 0 {
        Map::empty()
    } else {
        merged_of(t, chain.drop_last()).union_prefer_right(t[chain.last()])
    }
}

/// Mapping from the identifiers of open spans to their field stores.
pub struct SpanTable {
    spans: Vec<(u64, JsonObject)>,
}

impl View for SpanTable {
    type V = Map<u64, Map<Seq<char>, ValueView>>;

    closed spec fn view(&self) -> Map<u64, Map<Seq<char>, ValueView>> {
        pairs_map(self.id_pairs())
    }
}

impl SpanTable {
    spec fn id_pairs(&self) -> Seq<(u64, Map<Seq<char>, ValueView>)> {
        self.spans@.map(|i: int, e: (u64, JsonObject)| (e.0, e.1.as_map()))
    }

    /// Well-formedness: identifiers are pairwise distinct and every store
    /// is a well-formed object.
    pub closed spec fn wf(&self) -> bool {
        &&& distinct_firsts(self.id_pairs())
        &&& forall|i: int| 0 <= i < self.spans@.len() ==> (#[trigger] self.spans@[i]).1.wf()
    }

    pub fn new() -> (r: SpanTable)
        ensures
            r@ == Map::<u64, Map<Seq<char>, ValueView>>::empty(),
            r.wf(),
    {
        let r = SpanTable { spans: Vec::new() };
        proof {
            assert(r.id_pairs() =~= Seq::<(u64, Map<Seq<char>, ValueView>)>::empty());
        }
        r
    }

    /// The position holding `id`, if any.
    fn find(&self, id: u64) -> (r: Option<usize>)
        ensures
            match r {
                Some(i) => i < self.spans@.len() && self.spans@[i as int].0 == id,
                None => forall|i: int|
                    0 <= i < self.spans@.len() ==> (#[trigger] self.spans@[i]).0 != id,
            },
    {
        let n = self.spans.len();
        let mut j: usize = 0;
        while j < n
            invariant
                j <= n,
                n == self.spans@.len(),
                forall|i: int| 0 <= i < j ==> (#[trigger] self.spans@[i]).0 != id,
            decreases n - j,
        {
            if self.spans[j].0 == id {
                return Some(j);
            }
            j = j + 1;
        }
        None
    }

    /// Allocates the field store of a newly opened span, pre-populated with
    /// the span's construction-time fields.  An identifier that is somehow
    /// still present is given a fresh store, as if its old span had closed.
    pub fn span_opened(&mut self, id: u64, fields: JsonObject)
        requires
            old(self).wf(),
            fields.wf(),
        ensures
            final(self).wf(),
            final(self)@ == old(self)@.insert(id, fields.as_map()),
    {
        proof {
            lemma_pairs_map_contains(self.id_pairs(), id);
        }
        match self.find(id) {
            Some(i) => {
                proof {
                    lemma_pairs_map_remove(self.id_pairs(), i as int);
                    lemma_distinct_remove(self.id_pairs(), i as int);
                }
                let _ = self.spans.remove(i);
                proof {
                    assert(self.id_pairs() =~= old(self).id_pairs().remove(i as int));
                    lemma_pairs_map_push(self.id_pairs(), (id, fields.as_map()));
                    lemma_pairs_map_contains(self.id_pairs(), id);
                }
                self.spans.push((id, fields));
                proof {
                    assert(self.id_pairs() =~= old(self).id_pairs().remove(i as int).push(
                        (id, fields.as_map()),
                    ));
                    assert(self@ =~= old(self)@.insert(id, fields.as_map()));
                }
            },
            None => {
                proof {
                    lemma_pairs_map_push(self.id_pairs(), (id, fields.as_map()));
                }
                self.spans.push((id, fields));
                proof {
                    assert(self.id_pairs() =~= old(self).id_pairs().push((id, fields.as_map())));
                }
            },
        }
    }

    /// Merges a later `record` call into the store of an open span, last
    /// write winning per key.  Fails if the store was never created: that
    /// breaks the host's callback-ordering contract and is not recoverable.
    pub fn fields_recorded(&mut self, id: u64, fields: &JsonObject) -> (r: Result<(), HostError>)
        requires
            old(self).wf(),
            fields.wf(),
        ensures
            final(self).wf(),
            match r {
                Ok(()) => old(self)@.contains_key(id) && final(self)@ == old(self)@.insert(
                    id,
                    old(self)@[id].union_prefer_right(fields.as_map()),
                ),
                Err(e) => e == HostError::UnknownSpan(id) && !old(self)@.contains_key(id)
                    && final(self)@ == old(self)@,
            },
    {
        proof {
            lemma_pairs_map_contains(self.id_pairs(), id);
        }
        match self.find(id) {
            Some(i) => {
                proof {
                    lemma_pairs_map_index(self.id_pairs(), i as int);
                    lemma_pairs_map_remove(self.id_pairs(), i as int);
                    lemma_distinct_remove(self.id_pairs(), i as int);
                }
                let (eid, mut store) = self.spans.remove(i);
                proof {
                    assert(self.id_pairs() =~= old(self).id_pairs().remove(i as int));
                    lemma_pairs_map_contains(self.id_pairs(), id);
                }
                store.merge_from(fields);
                let merged = Ghost(store.as_map());
                proof {
                    lemma_pairs_map_push(self.id_pairs(), (id, merged@));
                }
                self.spans.push((eid, store));
                proof {
                    assert(self.id_pairs() =~= old(self).id_pairs().remove(i as int).push(
                        (id, merged@),
                    ));
                    assert(self@ =~= old(self)@.insert(
                        id,
                        old(self)@[id].union_prefer_right(fields.as_map()),
                    ));
                }
                Ok(())
            },
            None => Err(HostError::UnknownSpan(id)),
        }
    }

    /// Drops the store of a span that the host runtime has discarded.
    pub fn span_closed(&mut self, id: u64)
        requires
            old(self).wf(),
        ensures
            final(self).wf(),
            final(self)@ == old(self)@.remove(id),
    {
        proof {
            lemma_pairs_map_contains(self.id_pairs(), id);
        }
        match self.find(id) {
            Some(i) => {
                proof {
                    lemma_pairs_map_remove(self.id_pairs(), i as int);
                    lemma_distinct_remove(self.id_pairs(), i as int);
                }
                let _ = self.spans.remove(i);
                proof {
                    assert(self.id_pairs() =~= old(self).id_pairs().remove(i as int));
                }
            },
            None => {
                proof {
                    assert(self@ =~= self@.remove(id));
                }
            },
        }
    }

    /// A read-only view of one span's store, for the duration of a merge.
    pub fn snapshot(&self, id: u64) -> (r: Option<&JsonObject>)
        requires
            self.wf(),
        ensures
            match r {
                Some(o) => self@.contains_key(id) && o.wf() && o.as_map() == self@[id],
                None => !self@.contains_key(id),
            },
    {
        proof {
            lemma_pairs_map_contains(self.id_pairs(), id);
        }
        match self.find(id) {
            Some(i) => {
                proof {
                    lemma_pairs_map_index(self.id_pairs(), i as int);
                }
                Some(&self.spans[i].1)
            },
            None => None,
        }
    }

    /// Folds the stores of an event's span chain, root first, into one
    /// mapping: the innermost span's value wins any key collision.  A chain
    /// naming a span without a store breaks the host's contract and fails.
    /// An empty chain is not an error and yields the empty mapping.
    pub fn merge_scope(&self, chain: &Vec<u64>) -> (r: Result<JsonObject, HostError>)
        requires
            self.wf(),
        ensures
            r is Ok <==> (forall|i: int|
                0 <= i < chain@.len() ==> self@.contains_key(#[trigger] chain@[i])),
            match r {
                Ok(obj) => obj.wf() && obj.as_map() == merged_of(self@, chain@),
                Err(e) => e matches HostError::UnknownSpan(id) && !self@.contains_key(id)
                    && exists|i: int|
                    {
                        &&& 0 <= i < chain@.len()
                        &&& chain@[i] == id
                        &&& forall|j: int| 0 <= j < i ==> self@.contains_key(#[trigger] chain@[j])
                    },
            },
    {
        let mut acc = JsonObject::new();
        let n = chain.len();
        let mut j: usize = 0;
        while j < n
            invariant
                j <= n,
                n == chain@.len(),
                self.wf(),
                acc.wf(),
                forall|i: int| 0 <= i < j ==> self@.contains_key(#[trigger] chain@[i]),
                acc.as_map() == merged_of(self@, chain@.subrange(0, j as int)),
            decreases n - j,
        {
            let id = chain[j];
            match self.snapshot(id) {
                Some(store) => {
                    acc.merge_from(store);
                    proof {
                        let prefix = chain@.subrange(0, j as int);
                        assert(prefix.push(id) =~= chain@.subrange(0, j as int + 1));
                        assert(chain@.subrange(0, j as int + 1).drop_last() =~= prefix);
                    }
                },
                None => {
                    proof {
                        let w = j as int;
                        assert(0 <= w < chain@.len() && chain@[w] == id && forall|m: int|
                            0 <= m < w ==> self@.contains_key(#[trigger] chain@[m]));
                    }
                    return Err(HostError::UnknownSpan(id));
                },
            }
            j = j + 1;
        }
        proof {
            assert(chain@.subrange(0, n as int) =~= chain@);
        }
        Ok(acc)
    }
}

proof fn lemma_distinct_remove<K, V>(s: Seq<(K, V)>, i: int)
    requires
        distinct_firsts(s),
        0 <= i < s.len(),
    ensures
        distinct_firsts(s.remove(i)),
{
    let u = s.remove(i);
    assert forall|a: int, b: int| 0 <= a < b < u.len() implies (#[trigger] u[a]).0 != (
    #[trigger] u[b]).0 by {
        let a0 = if a < i {
            a
        } else {
            a + 1
        };
        let b0 = if b < i {
            b
        } else {
            b + 1
        };
        assert(u[a] == s[a0]);
        assert(u[b] == s[b0]);
    }
}

} // verus!
