//! The pass itself: one event at a time into the graphs and the index.

use vstd::prelude::*;

use crate::events::{Event, EventKind, EventMetadata, Metadata, RefKind};
use crate::graph::{has_node, Graphs, Node, NodeId, NodeKind, Slot};
use crate::lemmas::{lemma_one_node_per_event, lemma_run_keeps_order};
use crate::model::{
    all_processable, appended, bound, classifiable, destination_key, initial, names_destination,
    node_count, node_kind, placed, predecessor, processable, refers_into, rooted, run,
    source_key, step, State,
};
use crate::provenance::ProvenanceIndex;

verus! {

/// The key under which the pointer that an event works on was written, if it has one.
pub fn get_src_ref(kind: &EventKind, metadata: &EventMetadata) -> (key: Option<RefKind>)
    ensures
        key == source_key(*kind, *metadata),
{
    match kind {
        EventKind::Alloc { .. } => None,
        EventKind::Realloc { old_ptr, .. } => Some(RefKind::Raw(*old_ptr)),
        EventKind::Free { ptr } => Some(RefKind::Raw(*ptr)),
        EventKind::CopyPtr(from, _) => Some(RefKind::Raw(*from)),
        EventKind::CopyRef => metadata.source(),
        EventKind::Field(ptr, _) => Some(RefKind::Raw(*ptr)),
        EventKind::LoadAddr(ptr) => Some(RefKind::Raw(*ptr)),
        EventKind::StoreAddr(ptr) => Some(RefKind::Raw(*ptr)),
        EventKind::Arg(ptr) => Some(RefKind::Raw(*ptr)),
        EventKind::Ret(_) => None,
        EventKind::Done => None,
    }
}

/// The kind of node that `event` leaves; `None` where it leaves no node.
pub fn event_to_node_kind(event: &Event) -> (kind: Option<NodeKind>)
    ensures
        kind == node_kind(event.kind),
{
    match event.kind {
        EventKind::Alloc { .. } => Some(NodeKind::Malloc(1)),
        EventKind::Realloc { .. } => Some(NodeKind::Malloc(1)),
        EventKind::Free { .. } => Some(NodeKind::Free),
        EventKind::CopyPtr(..) | EventKind::CopyRef => Some(NodeKind::Copy),
        EventKind::Field(_, field) => Some(NodeKind::Field(field)),
        EventKind::LoadAddr(..) => Some(NodeKind::LoadAddr),
        EventKind::StoreAddr(..) => Some(NodeKind::StoreAddr),
        EventKind::Arg(_) => Some(NodeKind::Arg),
        _ => None,
    }
}

/// Makes `mapping` the answer for the key that an event of kind `event_kind` writes.  The
/// index is left as it was where the event writes no key.
pub fn handle_provenance(
    provenances: &mut ProvenanceIndex,
    event_kind: &EventKind,
    metadata: &EventMetadata,
    mapping: Slot,
)
    requires
        names_destination(*event_kind, *metadata),
    ensures
        final(provenances)@ == bound(
            old(provenances)@,
            destination_key(*event_kind, *metadata),
            mapping,
        ),
{
    match event_kind {
        EventKind::Alloc { ptr, .. } => {
            provenances.bind(RefKind::Raw(*ptr), mapping);
        },
        EventKind::Realloc { new_ptr, .. } => {
            provenances.bind(RefKind::Raw(*new_ptr), mapping);
        },
        EventKind::CopyPtr(_, to) => {
            provenances.bind(RefKind::Raw(*to), mapping);
        },
        EventKind::CopyRef => {
            provenances.bind(metadata.dest().unwrap(), mapping);
        },
        EventKind::StoreAddr(ptr) => {
            provenances.bind(RefKind::Raw(*ptr), mapping);
        },
        _ => (),
    }
}

/// Takes `event` into the graphs.  An event that leaves a node gets one node: behind the
/// last node of the graph of its predecessor, or at the head of a new graph.  The position
/// of the node in its graph is returned.
pub fn add_node(
    graphs: &mut Graphs,
    provenances: &mut ProvenanceIndex,
    resolver: &Metadata,
    event: &Event,
) -> (id: Option<NodeId>)
    requires
        refers_into(old(provenances)@, old(graphs)@),
        processable(resolver@, *event),
    ensures
        (State { graphs: final(graphs)@, index: final(provenances)@ }) == step(
            resolver@,
            State { graphs: old(graphs)@, index: old(provenances)@ },
            *event,
        ),
        id == match placed(
            resolver@,
            State { graphs: old(graphs)@, index: old(provenances)@ },
            *event,
        ) {
            Some(slot) => Some(slot.1),
            None => None,
        },
        refers_into(final(provenances)@, final(graphs)@),
{
    let node_kind = match event_to_node_kind(event) {
        Some(kind) => kind,
        None => return None,
    };
    let loc = resolver.resolve(event.mir_loc);
    let source = match get_src_ref(&event.kind, &loc.metadata) {
        Some(key) => provenances.lookup(&key),
        None => None,
    };
    let node = Node {
        function: loc.body_def,
        block: loc.basic_block_idx,
        index: loc.statement_idx,
        kind: node_kind,
        source: match source {
            Some((_, node_id)) => Some(node_id),
            None => None,
        },
        dest: loc.metadata.destination,
    };
    let ghost before = State { graphs: graphs@, index: provenances@ };
    proof {
        assert(source == predecessor(resolver@, before, *event));
        assert(source matches Some(slot) ==> has_node(graphs@, slot));
    }
    let graph_id = match source {
        Some((graph_id, _)) => graph_id,
        None => graphs.new_graph(),
    };
    let ghost opened = graphs@;
    assert(graph_id.0 < opened.len());
    let node_id = graphs.graphs[graph_id.0].push(node);
    proof {
        assert(node_id.0 == opened[graph_id.0 as int].len());
        assert(graphs@ =~= appended(opened, graph_id.0 as int, node));
        assert(graphs@ =~= step(resolver@, before, *event).graphs);
    }
    handle_provenance(provenances, &event.kind, &loc.metadata, (graph_id, node_id));
    Some(node_id)
}

/// Whether a pass can take `event`.
pub fn can_process(resolver: &Metadata, event: &Event) -> (yes: bool)
    ensures
        yes == processable(resolver@, *event),
{
    match event_to_node_kind(event) {
        None => true,
        Some(_) => match resolver.get(event.mir_loc) {
            None => false,
            Some(loc) => match event.kind {
                EventKind::CopyRef => loc.metadata.destination.is_some(),
                _ => true,
            },
        },
    }
}

/// Goes on with a pass: takes every event of `events` in turn into `graphs` and
/// `provenances`, which hold what the pass has built of the events before them.
pub fn extend_pdg(
    graphs: &mut Graphs,
    provenances: &mut ProvenanceIndex,
    resolver: &Metadata,
    events: &Vec<Event>,
)
    requires
        refers_into(old(provenances)@, old(graphs)@),
        all_processable(resolver@, events@),
    ensures
        (State { graphs: final(graphs)@, index: final(provenances)@ }) == run(
            resolver@,
            State { graphs: old(graphs)@, index: old(provenances)@ },
            events@,
        ),
        refers_into(final(provenances)@, final(graphs)@),
{
    let ghost start = State { graphs: graphs@, index: provenances@ };
    let mut i: usize = 0;
    while i < events.len()
        invariant
            i <= events@.len(),
            all_processable(resolver@, events@),
            refers_into(provenances@, graphs@),
            (State { graphs: graphs@, index: provenances@ }) == run(
                resolver@,
                start,
                events@.take(i as int),
            ),
        decreases events@.len() - i,
    {
        proof {
            assert(events@.take(i + 1).drop_last() == events@.take(i as int));
        }
        add_node(graphs, provenances, resolver, &events[i]);
        i += 1;
    }
    proof {
        assert(events@.take(i as int) == events@);
    }
}

/// Builds the graphs of a whole trace: every event of `events` in turn, from nothing.
pub fn construct_pdg(resolver: &Metadata, events: &Vec<Event>) -> (graphs: Graphs)
    requires
        all_processable(resolver@, events@),
    ensures
        graphs@ == run(resolver@, initial(), events@).graphs,
        node_count(graphs@) == classifiable(events@),
        rooted(graphs@),
{
    let mut graphs = Graphs::new();
    let mut provenances = ProvenanceIndex::new();
    extend_pdg(&mut graphs, &mut provenances, resolver, events);
    proof {
        graphs.lemma_representable();
        lemma_one_node_per_event(resolver@, initial(), events@);
        lemma_run_keeps_order(resolver@, initial(), events@);
    }
    graphs
}

} // verus!
