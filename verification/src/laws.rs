//! The library's behavioural laws, stated and proved over its models.
//!
//! The functions' own contracts pin each operation; the lemmas here state
//! the properties that follow for whole histories: what a span store holds
//! after any sequence of `record` calls, what a merged scope holds for any
//! chain, and how the assembled record resolves collisions.

use vstd::prelude::*;

use crate::layer::assembled;
use crate::level::{level_label, Level};
use crate::table::merged_of;
use crate::value::ValueView;

verus! {

/// A store after a history of writes: the initial mapping overlaid by each
/// write in turn, later writes winning.  This is exactly how the span
/// store evolves: opening a span gives the initial mapping, and each
/// `record` call overlays one more mapping onto it.
pub open spec fn overlay_all(
    base: Map<Seq<char>, ValueView>,
    writes: Seq<Map<Seq<char>, ValueView>>,
) -> Map<Seq<char>, ValueView>
    decreases writes.len(),
{
    if writes.len() == 0 {
        base
    } else {
        overlay_all(base, writes.drop_last()).union_prefer_right(writes.last())
    }
}

/// The position of the last write that mentions `k`, or a negative number
/// if none does.
pub open spec fn last_write_with(writes: Seq<Map<Seq<char>, ValueView>>, k: Seq<char>) -> int
    decreases writes.len(),
{
    if writes.len() == 0 {
        -1
    } else if writes.last().contains_key(k) {
        writes.len() - 1
    } else {
        last_write_with(writes.drop_last(), k)
    }
}

/// Law: last write wins.  For any sequence of `record` calls on one span,
/// whatever keys they carry and however often a key repeats, the stored
/// value of a key is the one from the last call that wrote it; a key never
/// written keeps its value from the span's opening, and no key is ever
/// removed.  Calls on sibling spans cannot change this: a record call on
/// another span leaves this span's store untouched (see
/// [`lemma_sibling_spans_independent`]).
pub proof fn lemma_last_record_wins(
    base: Map<Seq<char>, ValueView>,
    writes: Seq<Map<Seq<char>, ValueView>>,
    k: Seq<char>,
)
    ensures
        last_write_with(writes, k) >= 0 ==> {
            &&& last_write_with(writes, k) < writes.len()
            &&& writes[last_write_with(writes, k)].contains_key(k)
            &&& overlay_all(base, writes).contains_key(k)
            &&& overlay_all(base, writes)[k] == writes[last_write_with(writes, k)][k]
        },
        last_write_with(writes, k) < 0 ==> {
            &&& (forall|j: int|
                0 <= j < writes.len() ==> !(#[trigger] writes[j]).contains_key(k))
            &&& (overlay_all(base, writes).contains_key(k) <==> base.contains_key(k))
            &&& (base.contains_key(k) ==> overlay_all(base, writes)[k] == base[k])
        },
    decreases writes.len(),
{
    if writes.len() == 0 {
    } else {
        let pre = writes.drop_last();
        lemma_last_record_wins(base, pre, k);
        if writes.last().contains_key(k) {
        } else {
            assert forall|j: int| 0 <= j < writes.len() - 1 implies writes[j] == pre[j] by {
                assert(pre[j] == writes[j]);
            }
        }
    }
}

/// Law: span stores are independent.  Writing one span's store (opening,
/// recording, or closing it) leaves every other span's store exactly as it
/// was.
pub proof fn lemma_sibling_spans_independent(
    table: Map<u64, Map<Seq<char>, ValueView>>,
    id: u64,
    store: Map<Seq<char>, ValueView>,
    other: u64,
)
    requires
        other != id,
    ensures
        table.insert(id, store).contains_key(other) <==> table.contains_key(other),
        table.contains_key(other) ==> table.insert(id, store)[other] == table[other],
        table.remove(id).contains_key(other) <==> table.contains_key(other),
        table.contains_key(other) ==> table.remove(id)[other] == table[other],
{
}

/// The position of the innermost span in the chain whose store mentions
/// `k`, or a negative number if none does.
pub open spec fn innermost_with(
    t: Map<u64, Map<Seq<char>, ValueView>>,
    chain: Seq<u64>,
    k: Seq<char>,
) -> int
    decreases chain.len(),
{
    if chain.len() == 0 {
        -1
    } else if t[chain.last()].contains_key(k) {
        chain.len() - 1
    } else {
        innermost_with(t, chain.drop_last(), k)
    }
}

/// Law: the merged scope is the union of the chain's stores, and a key
/// collision resolves to the chain's innermost (closest-to-event)
/// contributor.  A key no store mentions is absent; for an empty chain the
/// merged mapping is empty.
pub proof fn lemma_merge_innermost_wins(
    t: Map<u64, Map<Seq<char>, ValueView>>,
    chain: Seq<u64>,
    k: Seq<char>,
)
    ensures
        innermost_with(t, chain, k) >= 0 ==> {
            &&& innermost_with(t, chain, k) < chain.len()
            &&& t[chain[innermost_with(t, chain, k)]].contains_key(k)
            &&& (forall|j: int|
                innermost_with(t, chain, k) < j < chain.len() ==> !t[#[trigger] chain[j]].contains_key(k))
            &&& merged_of(t, chain).contains_key(k)
            &&& merged_of(t, chain)[k] == t[chain[innermost_with(t, chain, k)]][k]
        },
        innermost_with(t, chain, k) < 0 ==> {
            &&& (forall|j: int|
                0 <= j < chain.len() ==> !t[#[trigger] chain[j]].contains_key(k))
            &&& !merged_of(t, chain).contains_key(k)
        },
    decreases chain.len(),
{
    if chain.len() == 0 {
    } else {
        let pre = chain.drop_last();
        lemma_merge_innermost_wins(t, pre, k);
        assert forall|j: int| 0 <= j < chain.len() - 1 implies chain[j] == pre[j] by {
            assert(pre[j] == chain[j]);
        }
    }
}

/// Law: precedence in the assembled record.  The four reserved metadata
/// keys hold the metadata values, whatever the user fields said; for every
/// other key, an event-own field always overrides a same-named span field,
/// and a key neither mentions is absent.
pub proof fn lemma_assembled_precedence(
    merged: Map<Seq<char>, ValueView>,
    own: Map<Seq<char>, ValueView>,
    target: Seq<char>,
    name: Seq<char>,
    level: Level,
    timestamp: Seq<char>,
)
    ensures
        assembled(merged, own, target, name, level, timestamp)["target"@] == ValueView::Str(target),
        assembled(merged, own, target, name, level, timestamp)["name"@] == ValueView::Str(name),
        assembled(merged, own, target, name, level, timestamp)["log_level"@] == ValueView::Str(
            level_label(level),
        ),
        assembled(merged, own, target, name, level, timestamp)["timestamp"@] == ValueView::Str(
            timestamp,
        ),
        forall|k: Seq<char>|
            #![trigger assembled(merged, own, target, name, level, timestamp).contains_key(k)]
            (k != "target"@ && k != "name"@ && k != "log_level"@ && k != "timestamp"@) ==> {
                &&& (assembled(merged, own, target, name, level, timestamp).contains_key(k) <==> (
                own.contains_key(k) || merged.contains_key(k)))
                &&& (own.contains_key(k) ==> assembled(merged, own, target, name, level, timestamp)[k]
                    == own[k])
                &&& (!own.contains_key(k) && merged.contains_key(k) ==> assembled(
                    merged,
                    own,
                    target,
                    name,
                    level,
                    timestamp,
                )[k] == merged[k])
            },
{
    reveal_strlit("target");
    reveal_strlit("name");
    reveal_strlit("log_level");
    reveal_strlit("timestamp");
    assert("target"@.len() == 6);
    assert("name"@.len() == 4);
    assert("log_level"@[0] == 'l');
    assert("timestamp"@[0] == 't');
}

/// Law: an event with no enclosing span produces a record holding exactly
/// its own fields plus the metadata keys: the merged context of the empty
/// chain is empty, and overlaying the event's fields onto it changes
/// nothing of them.
pub proof fn lemma_event_without_spans(
    t: Map<u64, Map<Seq<char>, ValueView>>,
    own: Map<Seq<char>, ValueView>,
    target: Seq<char>,
    name: Seq<char>,
    level: Level,
    timestamp: Seq<char>,
)
    ensures
        merged_of(t, Seq::<u64>::empty()) == Map::<Seq<char>, ValueView>::empty(),
        forall|k: Seq<char>|
            #![trigger assembled(merged_of(t, Seq::<u64>::empty()), own, target, name, level, timestamp).contains_key(k)]
            (k != "target"@ && k != "name"@ && k != "log_level"@ && k != "timestamp"@) ==> {
                &&& (assembled(
                    merged_of(t, Seq::<u64>::empty()),
                    own,
                    target,
                    name,
                    level,
                    timestamp,
                ).contains_key(k) <==> own.contains_key(k))
                &&& (own.contains_key(k) ==> assembled(
                    merged_of(t, Seq::<u64>::empty()),
                    own,
                    target,
                    name,
                    level,
                    timestamp,
                )[k] == own[k])
            },
{
    lemma_assembled_precedence(
        merged_of(t, Seq::<u64>::empty()),
        own,
        target,
        name,
        level,
        timestamp,
    );
}

} // verus!
