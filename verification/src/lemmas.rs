//! What holds of every pass, proved from the model.

use vstd::prelude::*;

use crate::events::{Event, EventKind, EventMetadata, MirLoc, RefKind};
use crate::graph::{has_node, representable, Local, Node, Slot};
use crate::model::{
    appended, classifiable, destination_key, extends, node_count, node_for, node_kind, placed,
    placements, predecessor, refers_into, rooted, run, source_key, step, State,
};
use crate::provenance::found;

verus! {

/// An event that writes no key leaves the index as it was: no key comes or goes, no answer
/// changes, and the index is as large as before.
pub proof fn lemma_index_kept(resolver: Seq<MirLoc>, state: State, event: Event)
    requires
        destination_key(event.kind, resolver[event.mir_loc as int].metadata) is None,
    ensures
        step(resolver, state, event).index == state.index,
        step(resolver, state, event).index.dom().len() == state.index.dom().len(),
{
}

/// A key that is bound twice answers with the second node alone: the index is as if the
/// first binding had never been made.
pub proof fn lemma_rebind_replaces(index: Map<RefKind, Slot>, key: RefKind, first: Slot, second: Slot)
    ensures
        found(index.insert(key, first).insert(key, second), key) == Some(second),
        index.insert(key, first).insert(key, second) == index.insert(key, second),
{
    assert(index.insert(key, first).insert(key, second) =~= index.insert(key, second));
}

/// Binding a key changes the answer for that key only.  A raw address and a place are
/// never the same key, so neither space can answer for the other.
pub proof fn lemma_bind_touches_one_key(
    index: Map<RefKind, Slot>,
    key: RefKind,
    slot: Slot,
    other: RefKind,
)
    requires
        other != key,
    ensures
        found(index.insert(key, slot), other) == found(index, other),
        forall|address: usize, place: Local| RefKind::Raw(address) != RefKind::Symbolic(place),
{
}

/// Only a copy of a reference takes the key of its source from the metadata.  Every other
/// event has the same key at every location, and where it has one it is a raw address.
pub proof fn lemma_source_key_is_raw(kind: EventKind, first: EventMetadata, second: EventMetadata)
    requires
        !(kind is CopyRef),
    ensures
        source_key(kind, first) == source_key(kind, second),
        source_key(kind, first) matches Some(key) ==> key is Raw,
{
}

/// A pass may stop after any event and go on later from the graphs and the index it had:
/// the end is that of the pass that never stopped.
pub proof fn lemma_run_resumes(
    resolver: Seq<MirLoc>,
    state: State,
    prefix: Seq<Event>,
    suffix: Seq<Event>,
)
    ensures
        run(resolver, state, prefix + suffix) == run(
            resolver,
            run(resolver, state, prefix),
            suffix,
        ),
    decreases suffix.len(),
{
    if suffix.len() == 0 {
        assert(prefix + suffix =~= prefix);
    } else {
        assert((prefix + suffix).drop_last() =~= prefix + suffix.drop_last());
        assert((prefix + suffix).last() == suffix.last());
        lemma_run_resumes(resolver, state, prefix, suffix.drop_last());
    }
}

/// Appending one node to one graph makes the count of all nodes one larger.
proof fn lemma_count_appended(graphs: Seq<Seq<Node>>, g: int, node: Node)
    requires
        0 <= g < graphs.len(),
    ensures
        node_count(appended(graphs, g, node)) == node_count(graphs) + 1,
    decreases graphs.len(),
{
    let after = appended(graphs, g, node);
    if g == graphs.len() - 1 {
        assert(after.drop_last() =~= graphs.drop_last());
    } else {
        assert(after.drop_last() =~= appended(graphs.drop_last(), g, node));
        lemma_count_appended(graphs.drop_last(), g, node);
    }
}

/// One event keeps every node in its place, whatever the index holds.  So graphs whose
/// positions can be written after the event could be written before it.
pub proof fn lemma_step_extends(resolver: Seq<MirLoc>, state: State, event: Event)
    ensures
        extends(step(resolver, state, event).graphs, state.graphs),
        representable(step(resolver, state, event).graphs) ==> representable(state.graphs),
{
    let after = step(resolver, state, event).graphs;
    if representable(after) {
        assert forall|g: int| 0 <= g < state.graphs.len() implies (#[trigger] state.graphs[g]).len()
            <= usize::MAX by {
            assert(after[g].len() <= usize::MAX);
        }
    }
}

/// One event adds one node exactly where it leaves one, at a place that held no node, keeps
/// the index pointing at nodes, and keeps every graph a tree that hangs from its first node.
pub proof fn lemma_step_appends(resolver: Seq<MirLoc>, state: State, event: Event)
    requires
        refers_into(state.index, state.graphs),
        representable(state.graphs),
    ensures
        refers_into(step(resolver, state, event).index, step(resolver, state, event).graphs),
        node_count(step(resolver, state, event).graphs) == node_count(state.graphs) + if node_kind(
            event.kind,
        ) is Some {
            1nat
        } else {
            0nat
        },
        placed(resolver, state, event) matches Some(slot) ==> {
            &&& !has_node(state.graphs, slot)
            &&& has_node(step(resolver, state, event).graphs, slot)
        },
        forall|slot: Slot| #[trigger]
            has_node(step(resolver, state, event).graphs, slot) ==> has_node(state.graphs, slot)
                || placed(resolver, state, event) == Some(slot),
        rooted(state.graphs) ==> rooted(
            step(resolver, state, event).graphs,
        ),
{
    let after = step(resolver, state, event);
    if node_kind(event.kind) is Some {
        let node = node_for(resolver, state, event, node_kind(event.kind).unwrap());
        let slot = placed(resolver, state, event).unwrap();
        match predecessor(resolver, state, event) {
            Some(hit) => {
                assert(has_node(state.graphs, hit));
                lemma_count_appended(state.graphs, hit.0.0 as int, node);
            },
            None => {
                assert(after.graphs.drop_last() =~= state.graphs);
            },
        }
        assert(has_node(after.graphs, slot));
        assert forall|key: RefKind| #[trigger] after.index.contains_key(key) implies has_node(
            after.graphs,
            after.index[key],
        ) by {
            if state.index.contains_key(key) {
                assert(has_node(state.graphs, state.index[key]));
            }
        }
    }
}

/// What holds of a pass of any length, by induction over its events.
proof fn lemma_run_appends(resolver: Seq<MirLoc>, state: State, events: Seq<Event>)
    requires
        refers_into(state.index, state.graphs),
        representable(run(resolver, state, events).graphs),
    ensures
        representable(state.graphs),
        extends(run(resolver, state, events).graphs, state.graphs),
        refers_into(run(resolver, state, events).index, run(resolver, state, events).graphs),
        node_count(run(resolver, state, events).graphs) == node_count(state.graphs) + classifiable(
            events,
        ),
        placements(resolver, state, events).len() == classifiable(events),
        placements(resolver, state, events).no_duplicates(),
        forall|i: int|
            0 <= i < placements(resolver, state, events).len() ==> {
                let slot = #[trigger] placements(resolver, state, events)[i];
                &&& !has_node(state.graphs, slot)
                &&& has_node(run(resolver, state, events).graphs, slot)
            },
        forall|slot: Slot| #[trigger]
            has_node(run(resolver, state, events).graphs, slot) ==> has_node(state.graphs, slot)
                || placements(resolver, state, events).contains(slot),
        rooted(state.graphs) ==> rooted(
            run(resolver, state, events).graphs,
        ),
    decreases events.len(),
{
    if events.len() > 0 {
        let middle = run(resolver, state, events.drop_last());
        let end = run(resolver, state, events);
        let earlier = placements(resolver, state, events.drop_last());
        let all = placements(resolver, state, events);
        lemma_step_extends(resolver, middle, events.last());
        lemma_run_appends(resolver, state, events.drop_last());
        lemma_step_appends(resolver, middle, events.last());
        assert forall|i: int| 0 <= i < earlier.len() implies has_node(end.graphs, earlier[i]) by {
            let slot = earlier[i];
            assert(has_node(middle.graphs, slot));
            assert(middle.graphs[slot.0.0 as int].is_prefix_of(end.graphs[slot.0.0 as int]));
        }
        assert forall|g: int| 0 <= g < state.graphs.len() implies (#[trigger] state.graphs[g]).is_prefix_of(
            end.graphs[g],
        ) by {
            assert(state.graphs[g].is_prefix_of(middle.graphs[g]));
            assert(middle.graphs[g].is_prefix_of(end.graphs[g]));
        }
        match placed(resolver, middle, events.last()) {
            Some(slot) => {
                assert(all == earlier.push(slot));
                assert(!has_node(state.graphs, slot)) by {
                    if has_node(state.graphs, slot) {
                        assert(state.graphs[slot.0.0 as int].is_prefix_of(
                            middle.graphs[slot.0.0 as int],
                        ));
                    }
                }
                assert forall|i: int, j: int| 0 <= i < all.len() && 0 <= j < all.len() && i
                    != j implies all[i] != all[j] by {
                    if i < earlier.len() {
                        assert(has_node(middle.graphs, earlier[i]));
                    }
                    if j < earlier.len() {
                        assert(has_node(middle.graphs, earlier[j]));
                    }
                }
                assert forall|other: Slot| #[trigger]
                    has_node(end.graphs, other) implies has_node(state.graphs, other)
                    || all.contains(other) by {
                    if placed(resolver, middle, events.last()) == Some(other) {
                        assert(all[all.len() - 1] == other);
                    } else if !has_node(state.graphs, other) {
                        assert(has_node(middle.graphs, other));
                        let i = choose|i: int| 0 <= i < earlier.len() && earlier[i] == other;
                        assert(all[i] == other);
                    }
                }
            },
            None => {
                assert(all == earlier);
            },
        }
    }
}

/// A pass leaves one node for each event that leaves a node, and none else: the graphs
/// grow by as many nodes as there are such events.
pub proof fn lemma_one_node_per_event(resolver: Seq<MirLoc>, state: State, events: Seq<Event>)
    requires
        refers_into(state.index, state.graphs),
        representable(run(resolver, state, events).graphs),
    ensures
        node_count(run(resolver, state, events).graphs) == node_count(state.graphs) + classifiable(
            events,
        ),
{
    lemma_run_appends(resolver, state, events);
}

/// No two nodes share a place.  The places that a pass hands out, one for each event that
/// leaves a node, are all different; each held no node before the pass and holds one after
/// it; and every node that the pass added is at one of them.
pub proof fn lemma_places_are_distinct(resolver: Seq<MirLoc>, state: State, events: Seq<Event>)
    requires
        refers_into(state.index, state.graphs),
        representable(run(resolver, state, events).graphs),
    ensures
        placements(resolver, state, events).len() == classifiable(events),
        placements(resolver, state, events).no_duplicates(),
        forall|i: int|
            0 <= i < placements(resolver, state, events).len() ==> {
                let slot = #[trigger] placements(resolver, state, events)[i];
                &&& !has_node(state.graphs, slot)
                &&& has_node(run(resolver, state, events).graphs, slot)
            },
        forall|slot: Slot| #[trigger]
            has_node(run(resolver, state, events).graphs, slot) ==> has_node(state.graphs, slot)
                || placements(resolver, state, events).contains(slot),
{
    lemma_run_appends(resolver, state, events);
}

/// A pass keeps what it was given: every node stays at its place, the index goes on naming
/// nodes only, and graphs that were trees hanging from their first nodes still are.
pub proof fn lemma_run_keeps_order(resolver: Seq<MirLoc>, state: State, events: Seq<Event>)
    requires
        refers_into(state.index, state.graphs),
        representable(run(resolver, state, events).graphs),
    ensures
        extends(run(resolver, state, events).graphs, state.graphs),
        refers_into(run(resolver, state, events).index, run(resolver, state, events).graphs),
        rooted(state.graphs) ==> rooted(
            run(resolver, state, events).graphs,
        ),
{
    lemma_run_appends(resolver, state, events);
}

} // verus!
