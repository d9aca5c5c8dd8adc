//! What a pass builds, stated as functions on sequences and maps: which node an event
//! leaves, where the node goes, and which key then answers with it.

use vstd::prelude::*;

use crate::events::{knows, Event, EventKind, EventMetadata, MirLoc, RefKind};
use crate::graph::{has_node, GraphId, Node, NodeId, NodeKind, Slot};
use crate::provenance::found;

verus! {

/// What a pass has built so far: the graphs, and the node that wrote each live pointer last.
pub struct State {
    pub graphs: Seq<Seq<Node>>,
    pub index: Map<RefKind, Slot>,
}

/// The state before the first event.
pub open spec fn initial() -> State {
    State { graphs: Seq::empty(), index: Map::empty() }
}

/// The kind of node that an event of kind `kind` leaves; `None` where it leaves no node.
pub open spec fn node_kind(kind: EventKind) -> Option<NodeKind> {
    match kind {
        EventKind::Alloc { .. } => Some(NodeKind::Malloc(1)),
        EventKind::Realloc { .. } => Some(NodeKind::Malloc(1)),
        EventKind::Free { .. } => Some(NodeKind::Free),
        EventKind::CopyPtr(..) => Some(NodeKind::Copy),
        EventKind::CopyRef => Some(NodeKind::Copy),
        EventKind::Field(_, field) => Some(NodeKind::Field(field)),
        EventKind::LoadAddr(_) => Some(NodeKind::LoadAddr),
        EventKind::StoreAddr(_) => Some(NodeKind::StoreAddr),
        EventKind::Arg(_) => Some(NodeKind::Arg),
        EventKind::Ret(_) => None,
        EventKind::Done => None,
    }
}

/// The key under which the pointer that an event works on was written, if it has one.
///
/// An allocation makes its pointer, so it has none; nor has an event that leaves no node.
/// A copy of a reference is known by its places only, so its key is the source place that
/// the metadata names.  Every other event goes by the raw address it carries, whatever
/// the metadata holds.
pub open spec fn source_key(kind: EventKind, metadata: EventMetadata) -> Option<RefKind> {
    match kind {
        EventKind::Alloc { .. } => None,
        EventKind::Realloc { old_ptr, .. } => Some(RefKind::Raw(old_ptr)),
        EventKind::Free { ptr } => Some(RefKind::Raw(ptr)),
        EventKind::CopyPtr(from, _) => Some(RefKind::Raw(from)),
        EventKind::CopyRef => metadata.source(),
        EventKind::Field(ptr, _) => Some(RefKind::Raw(ptr)),
        EventKind::LoadAddr(ptr) => Some(RefKind::Raw(ptr)),
        EventKind::StoreAddr(ptr) => Some(RefKind::Raw(ptr)),
        EventKind::Arg(ptr) => Some(RefKind::Raw(ptr)),
        EventKind::Ret(_) => None,
        EventKind::Done => None,
    }
}

/// The key that an event writes, if it writes one: the identity of the pointer it leaves.
pub open spec fn destination_key(kind: EventKind, metadata: EventMetadata) -> Option<RefKind> {
    match kind {
        EventKind::Alloc { ptr, .. } => Some(RefKind::Raw(ptr)),
        EventKind::Realloc { new_ptr, .. } => Some(RefKind::Raw(new_ptr)),
        EventKind::CopyPtr(_, to) => Some(RefKind::Raw(to)),
        EventKind::CopyRef => metadata.dest(),
        EventKind::StoreAddr(ptr) => Some(RefKind::Raw(ptr)),
        _ => None,
    }
}

/// `index` with `slot` as the answer for `key`, where there is a key.
pub open spec fn bound(index: Map<RefKind, Slot>, key: Option<RefKind>, slot: Slot) -> Map<
    RefKind,
    Slot,
> {
    match key {
        Some(key) => index.insert(key, slot),
        None => index,
    }
}

/// Whether a copy of a reference finds the place it copies to in `metadata`.
pub open spec fn names_destination(kind: EventKind, metadata: EventMetadata) -> bool {
    kind is CopyRef ==> metadata.destination is Some
}

/// Whether a pass can take `event`: an event that leaves a node has its location in
/// `resolver`, and the metadata there fits its kind.
pub open spec fn processable(resolver: Seq<MirLoc>, event: Event) -> bool {
    node_kind(event.kind) is Some ==> {
        &&& knows(resolver, event.mir_loc)
        &&& names_destination(event.kind, resolver[event.mir_loc as int].metadata)
    }
}

/// The node that produced the pointer that `event` works on, as far as `state` knows.
pub open spec fn predecessor(resolver: Seq<MirLoc>, state: State, event: Event) -> Option<Slot> {
    match source_key(event.kind, resolver[event.mir_loc as int].metadata) {
        Some(key) => found(state.index, key),
        None => None,
    }
}

/// The node that `event` leaves, of kind `kind`, in `state`.
pub open spec fn node_for(resolver: Seq<MirLoc>, state: State, event: Event, kind: NodeKind) -> Node {
    let loc = resolver[event.mir_loc as int];
    Node {
        function: loc.body_def,
        block: loc.basic_block_idx,
        index: loc.statement_idx,
        kind,
        source: match predecessor(resolver, state, event) {
            Some(slot) => Some(slot.1),
            None => None,
        },
        dest: loc.metadata.destination,
    }
}

/// Where the node of `event` goes: behind the last node of its predecessor's graph, or to
/// the head of a new graph where it has no predecessor.  `None` where it leaves no node.
pub open spec fn placed(resolver: Seq<MirLoc>, state: State, event: Event) -> Option<Slot> {
    match node_kind(event.kind) {
        None => None,
        Some(_) => match predecessor(resolver, state, event) {
            Some(slot) => Some((slot.0, NodeId(state.graphs[slot.0.0 as int].len() as usize))),
            None => Some((GraphId(state.graphs.len() as usize), NodeId(0))),
        },
    }
}

/// `graphs` with `node` behind the last node of the graph at `g`.
pub open spec fn appended(graphs: Seq<Seq<Node>>, g: int, node: Node) -> Seq<Seq<Node>> {
    Seq::new(
        graphs.len(),
        |i: int|
            if i == g {
                graphs[i].push(node)
            } else {
                graphs[i]
            },
    )
}

/// The state after `event`.
pub open spec fn step(resolver: Seq<MirLoc>, state: State, event: Event) -> State {
    match node_kind(event.kind) {
        None => state,
        Some(kind) => {
            let node = node_for(resolver, state, event, kind);
            let graphs = match predecessor(resolver, state, event) {
                Some(slot) => appended(state.graphs, slot.0.0 as int, node),
                None => state.graphs.push(seq![node]),
            };
            let key = destination_key(event.kind, resolver[event.mir_loc as int].metadata);
            State {
                graphs,
                index: bound(state.index, key, placed(resolver, state, event).unwrap()),
            }
        },
    }
}

/// The state after each of `events` in turn.
pub open spec fn run(resolver: Seq<MirLoc>, state: State, events: Seq<Event>) -> State
    decreases events.len(),
{
    if events.len() == 0 {
        state
    } else {
        step(resolver, run(resolver, state, events.drop_last()), events.last())
    }
}

/// Whether every answer of `index` names a node of `graphs`.
pub open spec fn refers_into(index: Map<RefKind, Slot>, graphs: Seq<Seq<Node>>) -> bool {
    forall|key: RefKind| #[trigger] index.contains_key(key) ==> has_node(graphs, index[key])
}

/// Whether a pass can take every event of `events`.
pub open spec fn all_processable(resolver: Seq<MirLoc>, events: Seq<Event>) -> bool {
    forall|i: int| 0 <= i < events.len() ==> processable(resolver, #[trigger] events[i])
}

/// The number of nodes in all of `graphs`.
pub open spec fn node_count(graphs: Seq<Seq<Node>>) -> nat
    decreases graphs.len(),
{
    if graphs.len() == 0 {
        0
    } else {
        node_count(graphs.drop_last()) + graphs.last().len()
    }
}

/// The number of events among `events` that leave a node.
pub open spec fn classifiable(events: Seq<Event>) -> nat
    decreases events.len(),
{
    if events.len() == 0 {
        0
    } else {
        classifiable(events.drop_last()) + if node_kind(events.last().kind) is Some {
            1nat
        } else {
            0nat
        }
    }
}

/// Where the nodes of `events` go, in the order of the events that leave one.
pub open spec fn placements(resolver: Seq<MirLoc>, state: State, events: Seq<Event>) -> Seq<Slot>
    decreases events.len(),
{
    if events.len() == 0 {
        Seq::empty()
    } else {
        let earlier = placements(resolver, state, events.drop_last());
        match placed(resolver, run(resolver, state, events.drop_last()), events.last()) {
            Some(slot) => earlier.push(slot),
            None => earlier,
        }
    }
}

/// Whether `later` holds every node of `earlier`, each at the place it had.
pub open spec fn extends(later: Seq<Seq<Node>>, earlier: Seq<Seq<Node>>) -> bool {
    &&& earlier.len() <= later.len()
    &&& forall|g: int|
        0 <= g < earlier.len() ==> (#[trigger] earlier[g]).is_prefix_of(later[g])
}

/// Whether every graph of `graphs` is a tree that hangs from its first node: no graph is
/// empty, the first node of a graph has no predecessor, and every other node has one, in
/// front of it in the same graph.
pub open spec fn rooted(graphs: Seq<Seq<Node>>) -> bool {
    &&& forall|g: int| 0 <= g < graphs.len() ==> (#[trigger] graphs[g]).len() > 0
    &&& forall|g: int, n: int|
        0 <= g < graphs.len() && 0 <= n < graphs[g].len() ==> match (#[trigger] graphs[g][n]).source {
            Some(p) => p.0 < n,
            None => n == 0,
        }
}

} // verus!
