use pdg::builder::{add_node, can_process, construct_pdg, extend_pdg};
use pdg::events::{Event, EventKind, EventMetadata, Metadata, MirLoc, RefKind};
use pdg::graph::{DefPathHash, GraphId, Graphs, Local, Node, NodeId, NodeKind};
use pdg::provenance::ProvenanceIndex;

fn plain() -> EventMetadata {
    EventMetadata { source: None, destination: None }
}

fn loc(block: usize, statement: usize, metadata: EventMetadata) -> MirLoc {
    MirLoc {
        body_def: DefPathHash(0xfeed, 0xbeef),
        basic_block_idx: block,
        statement_idx: statement,
        metadata,
    }
}

/// A table with one plain location for each of the first `n` identifiers.
fn plain_table(n: usize) -> Metadata {
    Metadata { locs: (0..n).map(|i| loc(i, i + 10, plain())).collect() }
}

fn event(mir_loc: u32, kind: EventKind) -> Event {
    Event { mir_loc, kind }
}

fn allocate(mir_loc: u32, ptr: usize) -> Event {
    event(mir_loc, EventKind::Alloc { size: 8, ptr })
}

fn release(mir_loc: u32, ptr: usize) -> Event {
    event(mir_loc, EventKind::Free { ptr })
}

fn total_nodes(graphs: &Graphs) -> usize {
    graphs.graphs.iter().map(|g| g.nodes.len()).sum()
}

#[test]
fn allocation_starts_a_graph() {
    let resolver = plain_table(1);
    let mut graphs = Graphs::new();
    let mut index = ProvenanceIndex::new();
    let id = add_node(&mut graphs, &mut index, &resolver, &allocate(0, 0x100));
    assert_eq!(id, Some(NodeId(0)));
    assert_eq!(graphs.graphs.len(), 1);
    assert_eq!(
        graphs.graphs[0].nodes,
        vec![Node {
            function: DefPathHash(0xfeed, 0xbeef),
            block: 0,
            index: 10,
            kind: NodeKind::Malloc(1),
            source: None,
            dest: None,
        }]
    );
    assert_eq!(index.len(), 1);
    assert_eq!(index.lookup(&RefKind::Raw(0x100)), Some((GraphId(0), NodeId(0))));
}

#[test]
fn copy_joins_the_graph_of_its_source() {
    let resolver = plain_table(2);
    let mut graphs = Graphs::new();
    let mut index = ProvenanceIndex::new();
    add_node(&mut graphs, &mut index, &resolver, &allocate(0, 0x100));
    let id = add_node(
        &mut graphs,
        &mut index,
        &resolver,
        &event(1, EventKind::CopyPtr(0x100, 0x200)),
    );
    assert_eq!(id, Some(NodeId(1)));
    assert_eq!(graphs.graphs.len(), 1);
    assert_eq!(graphs.graphs[0].nodes.len(), 2);
    let copy = graphs.graphs[0].nodes[1];
    assert_eq!(copy.kind, NodeKind::Copy);
    assert_eq!(copy.source, Some(NodeId(0)));
    assert_eq!(copy.block, 1);
    assert_eq!(copy.index, 11);
    assert_eq!(index.lookup(&RefKind::Raw(0x200)), Some((GraphId(0), NodeId(1))));
    assert_eq!(index.lookup(&RefKind::Raw(0x100)), Some((GraphId(0), NodeId(0))));
    assert_eq!(index.len(), 2);
}

#[test]
fn free_joins_the_graph_and_binds_nothing() {
    let resolver = plain_table(2);
    let mut graphs = Graphs::new();
    let mut index = ProvenanceIndex::new();
    add_node(&mut graphs, &mut index, &resolver, &allocate(0, 0x100));
    let id = add_node(&mut graphs, &mut index, &resolver, &release(1, 0x100));
    assert_eq!(id, Some(NodeId(1)));
    assert_eq!(graphs.graphs.len(), 1);
    let freed = graphs.graphs[0].nodes[1];
    assert_eq!(freed.kind, NodeKind::Free);
    assert_eq!(freed.source, Some(NodeId(0)));
    assert_eq!(index.len(), 1);
    assert_eq!(index.lookup(&RefKind::Raw(0x100)), Some((GraphId(0), NodeId(0))));
}

#[test]
fn reused_address_starts_a_new_graph() {
    let resolver = plain_table(3);
    let mut graphs = Graphs::new();
    let mut index = ProvenanceIndex::new();
    add_node(&mut graphs, &mut index, &resolver, &allocate(0, 0x100));
    add_node(&mut graphs, &mut index, &resolver, &release(1, 0x100));
    let id = add_node(&mut graphs, &mut index, &resolver, &allocate(2, 0x100));
    assert_eq!(id, Some(NodeId(0)));
    assert_eq!(graphs.graphs.len(), 2);
    assert_eq!(graphs.graphs[0].nodes.len(), 2);
    assert_eq!(graphs.graphs[1].nodes.len(), 1);
    assert_eq!(graphs.graphs[1].nodes[0].kind, NodeKind::Malloc(1));
    assert_eq!(graphs.graphs[1].nodes[0].source, None);
    assert_eq!(index.lookup(&RefKind::Raw(0x100)), Some((GraphId(1), NodeId(0))));
    assert_eq!(index.len(), 1);
}

#[test]
fn events_without_a_destination_keep_the_index_size() {
    let resolver = plain_table(8);
    let mut graphs = Graphs::new();
    let mut index = ProvenanceIndex::new();
    add_node(&mut graphs, &mut index, &resolver, &allocate(0, 0x100));
    add_node(&mut graphs, &mut index, &resolver, &allocate(1, 0x300));
    let kinds = [
        EventKind::Free { ptr: 0x100 },
        EventKind::Field(0x100, 3),
        EventKind::LoadAddr(0x300),
        EventKind::Arg(0x100),
        EventKind::Arg(0x999),
        EventKind::Ret(0x100),
        EventKind::Done,
    ];
    for kind in kinds {
        add_node(&mut graphs, &mut index, &resolver, &event(2, kind));
        assert_eq!(index.len(), 2);
        assert_eq!(index.lookup(&RefKind::Raw(0x100)), Some((GraphId(0), NodeId(0))));
        assert_eq!(index.lookup(&RefKind::Raw(0x300)), Some((GraphId(1), NodeId(0))));
        assert_eq!(index.lookup(&RefKind::Raw(0x999)), None);
    }
}

#[test]
fn one_node_for_each_event_that_leaves_one() {
    let resolver = plain_table(4);
    let events = vec![
        allocate(0, 0x100),
        event(1, EventKind::Ret(0x100)),
        event(1, EventKind::CopyPtr(0x100, 0x200)),
        event(2, EventKind::Field(0x200, 1)),
        event(3, EventKind::Arg(0x555)),
        event(3, EventKind::StoreAddr(0x200)),
        release(2, 0x100),
        event(0, EventKind::Done),
    ];
    let graphs = construct_pdg(&resolver, &events);
    assert_eq!(total_nodes(&graphs), 6);
    assert_eq!(graphs.graphs.len(), 2);
    assert_eq!(graphs.graphs[0].nodes.len(), 5);
    assert_eq!(graphs.graphs[1].nodes.len(), 1);
    assert_eq!(graphs.graphs[1].nodes[0].kind, NodeKind::Arg);
}

#[test]
fn discarded_events_leave_no_trace() {
    let resolver = plain_table(0);
    let events = vec![event(7, EventKind::Ret(0x100)), event(9, EventKind::Done)];
    assert!(can_process(&resolver, &events[0]));
    assert!(can_process(&resolver, &events[1]));
    let graphs = construct_pdg(&resolver, &events);
    assert_eq!(graphs.graphs.len(), 0);
    let mut graphs = Graphs::new();
    let mut index = ProvenanceIndex::new();
    assert_eq!(add_node(&mut graphs, &mut index, &resolver, &events[0]), None);
    assert_eq!(add_node(&mut graphs, &mut index, &resolver, &events[1]), None);
    assert_eq!(graphs.graphs.len(), 0);
    assert_eq!(index.len(), 0);
}

#[test]
fn empty_trace_gives_no_graph() {
    let graphs = construct_pdg(&plain_table(0), &vec![]);
    assert_eq!(graphs.graphs.len(), 0);
}

#[test]
fn places_are_handed_out_once() {
    let resolver = plain_table(3);
    let events = vec![
        allocate(0, 0x100),
        allocate(0, 0x200),
        event(1, EventKind::CopyPtr(0x100, 0x110)),
        event(1, EventKind::CopyPtr(0x200, 0x210)),
        event(2, EventKind::CopyPtr(0x110, 0x120)),
        release(2, 0x200),
        allocate(0, 0x200),
    ];
    let mut graphs = Graphs::new();
    let mut index = ProvenanceIndex::new();
    let mut places = Vec::new();
    for e in &events {
        let before: Vec<usize> = graphs.graphs.iter().map(|g| g.nodes.len()).collect();
        let node = add_node(&mut graphs, &mut index, &resolver, e).unwrap();
        // The graph that grew is the one the node went to.
        let grown: Vec<usize> = (0..graphs.graphs.len())
            .filter(|g| before.get(*g).copied().unwrap_or(0) < graphs.graphs[*g].nodes.len())
            .collect();
        assert_eq!(grown.len(), 1);
        let place = (GraphId(grown[0]), node);
        assert_eq!(graphs.graphs[grown[0]].nodes.len(), node.0 + 1);
        assert!(!places.contains(&place));
        places.push(place);
    }
    assert_eq!(
        places,
        vec![
            (GraphId(0), NodeId(0)),
            (GraphId(1), NodeId(0)),
            (GraphId(0), NodeId(1)),
            (GraphId(1), NodeId(1)),
            (GraphId(0), NodeId(2)),
            (GraphId(1), NodeId(2)),
            (GraphId(2), NodeId(0)),
        ]
    );
    assert_eq!(total_nodes(&graphs), places.len());
}

#[test]
fn predecessors_come_first_in_their_graph() {
    let resolver = plain_table(3);
    let events = vec![
        allocate(0, 0x100),
        event(1, EventKind::CopyPtr(0x100, 0x110)),
        event(1, EventKind::CopyPtr(0x100, 0x120)),
        event(2, EventKind::Field(0x120, 4)),
        allocate(0, 0x200),
        event(2, EventKind::LoadAddr(0x200)),
    ];
    let graphs = construct_pdg(&resolver, &events);
    for graph in &graphs.graphs {
        for (at, node) in graph.nodes.iter().enumerate() {
            if let Some(source) = node.source {
                assert!(source.0 < at);
            } else {
                assert_eq!(at, 0);
            }
        }
    }
    let sources: Vec<Option<NodeId>> = graphs.graphs[0].nodes.iter().map(|n| n.source).collect();
    assert_eq!(sources, vec![None, Some(NodeId(0)), Some(NodeId(0)), Some(NodeId(2))]);
}

#[test]
fn a_pass_resumes_where_it_stopped() {
    let resolver = Metadata {
        locs: vec![
            loc(0, 0, plain()),
            loc(0, 1, EventMetadata { source: None, destination: Some(Local(4)) }),
            loc(0, 2, EventMetadata { source: Some(Local(4)), destination: Some(Local(5)) }),
            loc(1, 0, plain()),
        ],
    };
    let events = vec![
        allocate(0, 0x100),
        event(1, EventKind::CopyRef),
        event(3, EventKind::CopyPtr(0x100, 0x200)),
        event(2, EventKind::CopyRef),
        release(3, 0x200),
        allocate(0, 0x100),
        event(3, EventKind::StoreAddr(0x100)),
    ];
    let whole = construct_pdg(&resolver, &events);
    for cut in 0..=events.len() {
        let prefix = events[..cut].to_vec();
        let suffix = events[cut..].to_vec();
        let mut graphs = Graphs::new();
        let mut index = ProvenanceIndex::new();
        extend_pdg(&mut graphs, &mut index, &resolver, &prefix);
        // What a store that had been written out and read back would hold.
        let mut restored = Graphs::new();
        for graph in &graphs.graphs {
            let id = restored.new_graph();
            for node in &graph.nodes {
                restored.graphs[id.0].push(*node);
            }
        }
        extend_pdg(&mut restored, &mut index, &resolver, &suffix);
        assert_eq!(restored.graphs.len(), whole.graphs.len());
        for (a, b) in restored.graphs.iter().zip(whole.graphs.iter()) {
            assert_eq!(a.nodes, b.nodes);
        }
    }
}

#[test]
fn reference_copies_go_by_their_places() {
    let resolver = Metadata {
        locs: vec![
            loc(0, 0, EventMetadata { source: None, destination: Some(Local(1)) }),
            loc(0, 1, EventMetadata { source: Some(Local(1)), destination: Some(Local(2)) }),
            loc(0, 2, EventMetadata { source: Some(Local(9)), destination: Some(Local(3)) }),
        ],
    };
    let mut graphs = Graphs::new();
    let mut index = ProvenanceIndex::new();
    assert_eq!(
        add_node(&mut graphs, &mut index, &resolver, &event(0, EventKind::CopyRef)),
        Some(NodeId(0))
    );
    assert_eq!(index.lookup(&RefKind::Symbolic(Local(1))), Some((GraphId(0), NodeId(0))));
    assert_eq!(graphs.graphs[0].nodes[0].dest, Some(Local(1)));
    assert_eq!(graphs.graphs[0].nodes[0].source, None);
    assert_eq!(
        add_node(&mut graphs, &mut index, &resolver, &event(1, EventKind::CopyRef)),
        Some(NodeId(1))
    );
    assert_eq!(graphs.graphs[0].nodes[1].source, Some(NodeId(0)));
    assert_eq!(graphs.graphs[0].nodes[1].dest, Some(Local(2)));
    assert_eq!(index.lookup(&RefKind::Symbolic(Local(2))), Some((GraphId(0), NodeId(1))));
    // The source place of the third copy was never written: it starts a graph.
    assert_eq!(
        add_node(&mut graphs, &mut index, &resolver, &event(2, EventKind::CopyRef)),
        Some(NodeId(0))
    );
    assert_eq!(graphs.graphs.len(), 2);
    assert_eq!(index.lookup(&RefKind::Symbolic(Local(3))), Some((GraphId(1), NodeId(0))));
    assert_eq!(index.len(), 3);
}

#[test]
fn raw_and_symbolic_keys_never_meet() {
    let resolver = Metadata {
        locs: vec![
            loc(0, 0, plain()),
            loc(0, 1, EventMetadata { source: Some(Local(5)), destination: Some(Local(6)) }),
            loc(0, 2, plain()),
        ],
    };
    let mut graphs = Graphs::new();
    let mut index = ProvenanceIndex::new();
    // The address 5 is written, the place 5 is not.
    add_node(&mut graphs, &mut index, &resolver, &allocate(0, 5));
    add_node(&mut graphs, &mut index, &resolver, &event(1, EventKind::CopyRef));
    assert_eq!(graphs.graphs.len(), 2);
    assert_eq!(graphs.graphs[1].nodes[0].source, None);
    // The place 6 is written, the address 6 is not.
    add_node(&mut graphs, &mut index, &resolver, &release(2, 6));
    assert_eq!(graphs.graphs.len(), 3);
    assert_eq!(index.lookup(&RefKind::Raw(6)), None);
    assert_eq!(index.lookup(&RefKind::Symbolic(Local(5))), None);
}

#[test]
fn projection_and_load_go_by_the_raw_address() {
    let resolver = Metadata {
        locs: vec![
            loc(0, 0, plain()),
            loc(0, 1, EventMetadata { source: None, destination: Some(Local(1)) }),
            loc(0, 2, EventMetadata { source: Some(Local(1)), destination: None }),
            loc(0, 3, EventMetadata { source: Some(Local(9)), destination: None }),
            loc(0, 4, plain()),
        ],
    };
    let mut graphs = Graphs::new();
    let mut index = ProvenanceIndex::new();
    add_node(&mut graphs, &mut index, &resolver, &allocate(0, 0x100));
    add_node(&mut graphs, &mut index, &resolver, &event(1, EventKind::CopyRef));
    assert_eq!(index.lookup(&RefKind::Symbolic(Local(1))), Some((GraphId(1), NodeId(0))));
    // The address is bound and the place that the metadata names is bound to another
    // graph: the node joins the graph of the address.
    assert_eq!(
        add_node(&mut graphs, &mut index, &resolver, &event(2, EventKind::Field(0x100, 7))),
        Some(NodeId(1))
    );
    assert_eq!(graphs.graphs[0].nodes[1].kind, NodeKind::Field(7));
    assert_eq!(graphs.graphs[0].nodes[1].source, Some(NodeId(0)));
    assert_eq!(
        add_node(&mut graphs, &mut index, &resolver, &event(2, EventKind::LoadAddr(0x100))),
        Some(NodeId(2))
    );
    assert_eq!(graphs.graphs[0].nodes[2].kind, NodeKind::LoadAddr);
    assert_eq!(graphs.graphs[0].nodes[2].source, Some(NodeId(0)));
    assert_eq!(graphs.graphs[1].nodes.len(), 1);
    // The address is bound and the place that the metadata names is not: the same.
    assert_eq!(
        add_node(&mut graphs, &mut index, &resolver, &event(3, EventKind::Field(0x100, 2))),
        Some(NodeId(3))
    );
    assert_eq!(graphs.graphs[0].nodes[3].source, Some(NodeId(0)));
    assert_eq!(
        add_node(&mut graphs, &mut index, &resolver, &event(3, EventKind::LoadAddr(0x100))),
        Some(NodeId(4))
    );
    assert_eq!(graphs.graphs[0].nodes[4].source, Some(NodeId(0)));
    assert_eq!(graphs.graphs.len(), 2);
    // The address is not bound and the place is: the node starts a graph.
    assert_eq!(
        add_node(&mut graphs, &mut index, &resolver, &event(2, EventKind::Field(0x700, 7))),
        Some(NodeId(0))
    );
    assert_eq!(graphs.graphs.len(), 3);
    assert_eq!(graphs.graphs[2].nodes[0].source, None);
    assert_eq!(
        add_node(&mut graphs, &mut index, &resolver, &event(2, EventKind::LoadAddr(0x700))),
        Some(NodeId(0))
    );
    assert_eq!(graphs.graphs.len(), 4);
    assert_eq!(graphs.graphs[3].nodes[0].source, None);
    assert_eq!(graphs.graphs[1].nodes.len(), 1);
    // Without metadata the address decides as well.
    assert_eq!(
        add_node(&mut graphs, &mut index, &resolver, &event(4, EventKind::Field(0x100, 7))),
        Some(NodeId(5))
    );
    assert_eq!(graphs.graphs[0].nodes[5].source, Some(NodeId(0)));
    assert_eq!(index.len(), 2);
}

#[test]
fn store_rebinds_its_address() {
    let resolver = plain_table(3);
    let mut graphs = Graphs::new();
    let mut index = ProvenanceIndex::new();
    add_node(&mut graphs, &mut index, &resolver, &allocate(0, 0x100));
    assert_eq!(
        add_node(&mut graphs, &mut index, &resolver, &event(1, EventKind::StoreAddr(0x100))),
        Some(NodeId(1))
    );
    assert_eq!(graphs.graphs[0].nodes[1].kind, NodeKind::StoreAddr);
    assert_eq!(graphs.graphs[0].nodes[1].source, Some(NodeId(0)));
    assert_eq!(index.lookup(&RefKind::Raw(0x100)), Some((GraphId(0), NodeId(1))));
    assert_eq!(index.len(), 1);
    // A store through an address that nothing wrote starts a graph and binds the address.
    assert_eq!(
        add_node(&mut graphs, &mut index, &resolver, &event(2, EventKind::StoreAddr(0x500))),
        Some(NodeId(0))
    );
    assert_eq!(index.lookup(&RefKind::Raw(0x500)), Some((GraphId(1), NodeId(0))));
}

#[test]
fn realloc_moves_the_lineage_to_the_new_address() {
    let resolver = plain_table(3);
    let mut graphs = Graphs::new();
    let mut index = ProvenanceIndex::new();
    add_node(&mut graphs, &mut index, &resolver, &allocate(0, 0x100));
    let moved = event(1, EventKind::Realloc { old_ptr: 0x100, size: 32, new_ptr: 0x400 });
    assert_eq!(add_node(&mut graphs, &mut index, &resolver, &moved), Some(NodeId(1)));
    assert_eq!(graphs.graphs.len(), 1);
    assert_eq!(graphs.graphs[0].nodes[1].kind, NodeKind::Malloc(1));
    assert_eq!(graphs.graphs[0].nodes[1].source, Some(NodeId(0)));
    assert_eq!(index.lookup(&RefKind::Raw(0x400)), Some((GraphId(0), NodeId(1))));
    assert_eq!(index.lookup(&RefKind::Raw(0x100)), Some((GraphId(0), NodeId(0))));
    assert_eq!(add_node(&mut graphs, &mut index, &resolver, &release(2, 0x400)), Some(NodeId(2)));
    assert_eq!(graphs.graphs[0].nodes[2].source, Some(NodeId(1)));
}

#[test]
fn destination_local_comes_from_the_metadata() {
    let resolver = Metadata {
        locs: vec![loc(3, 4, EventMetadata { source: None, destination: Some(Local(12)) })],
    };
    let graphs = construct_pdg(&resolver, &vec![allocate(0, 0x100)]);
    assert_eq!(
        graphs.graphs[0].nodes[0],
        Node {
            function: DefPathHash(0xfeed, 0xbeef),
            block: 3,
            index: 4,
            kind: NodeKind::Malloc(1),
            source: None,
            dest: Some(Local(12)),
        }
    );
}

#[test]
fn unknown_location_cannot_be_processed() {
    let resolver = plain_table(2);
    assert!(can_process(&resolver, &allocate(1, 0x100)));
    assert!(!can_process(&resolver, &allocate(2, 0x100)));
    assert!(!can_process(&resolver, &release(u32::MAX, 0x100)));
    assert!(can_process(&resolver, &event(2, EventKind::Done)));
    assert!(can_process(&resolver, &event(2, EventKind::Ret(0x100))));
}

#[test]
fn reference_copy_needs_a_destination_place() {
    let resolver = Metadata {
        locs: vec![
            loc(0, 0, plain()),
            loc(0, 1, EventMetadata { source: Some(Local(1)), destination: None }),
            loc(0, 2, EventMetadata { source: None, destination: Some(Local(1)) }),
        ],
    };
    assert!(!can_process(&resolver, &event(0, EventKind::CopyRef)));
    assert!(!can_process(&resolver, &event(1, EventKind::CopyRef)));
    assert!(can_process(&resolver, &event(2, EventKind::CopyRef)));
    assert!(can_process(&resolver, &event(0, EventKind::CopyPtr(1, 2))));
}
