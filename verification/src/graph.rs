//! The arenas: nodes in graphs, graphs in a store.  Nothing is ever removed or moved, so a
//! position names the same node for good.

use vstd::prelude::*;

verus! {

/// Position of a node inside the graph that owns it.
#[derive(Clone, Copy, PartialEq, Eq, Structural, Debug, Hash)]
pub struct NodeId(pub usize);

/// Position of a graph inside the store.
#[derive(Clone, Copy, PartialEq, Eq, Structural, Debug, Hash)]
pub struct GraphId(pub usize);

/// Content hash that names a function independently of any compiler session.
#[derive(Clone, Copy, PartialEq, Eq, Structural, Debug, Hash)]
pub struct DefPathHash(pub u64, pub u64);

/// A local variable of the function a node was recorded in.
#[derive(Clone, Copy, PartialEq, Eq, Structural, Debug, Hash)]
pub struct Local(pub u32);

/// The memory operation a node stands for.
#[derive(Clone, Copy, PartialEq, Eq, Structural, Debug, Hash)]
pub enum NodeKind {
    /// Heap allocation of the given number of objects.
    Malloc(usize),
    /// Heap deallocation.
    Free,
    /// Copy of a pointer, by value or by reference.
    Copy,
    /// Projection to the field with the given number.
    Field(u32),
    /// Read through the pointer.
    LoadAddr,
    /// Write through the pointer.
    StoreAddr,
    /// The pointer is passed to a function as an argument.
    Arg,
}

/// One vertex of a provenance graph.
#[derive(Clone, Copy, PartialEq, Eq, Debug, Hash)]
pub struct Node {
    /// The function the operation was recorded in.
    pub function: DefPathHash,
    /// Basic block of the operation.
    pub block: usize,
    /// Statement of the operation within its block.
    pub index: usize,
    /// What the operation did.
    pub kind: NodeKind,
    /// The node of the same graph that produced the pointer operated on.
    pub source: Option<NodeId>,
    /// The local that holds the resulting pointer.
    pub dest: Option<Local>,
}

/// One allocation lineage: an append-only arena of nodes.
#[derive(PartialEq, Eq, Debug)]
pub struct Graph {
    pub nodes: Vec<Node>,
}

/// Append-only arena of graphs.
#[derive(PartialEq, Eq, Debug)]
pub struct Graphs {
    pub graphs: Vec<Graph>,
}

/// Where a node lives: its graph, and its position in that graph.
pub type Slot = (GraphId, NodeId);

impl View for Graph {
    type V = Seq<Node>;

    open spec fn view(&self) -> Seq<Node> {
        self.nodes@
    }
}

impl View for Graphs {
    type V = Seq<Seq<Node>>;

    open spec fn view(&self) -> Seq<Seq<Node>> {
        Seq::new(self.graphs@.len(), |g: int| self.graphs@[g]@)
    }
}

/// Whether `slot` names a node of `graphs`.
pub open spec fn has_node(graphs: Seq<Seq<Node>>, slot: Slot) -> bool {
    slot.0.0 < graphs.len() && slot.1.0 < graphs[slot.0.0 as int].len()
}

/// Whether every position in `graphs` can be written as an identifier.
pub open spec fn representable(graphs: Seq<Seq<Node>>) -> bool {
    &&& graphs.len() <= usize::MAX
    &&& forall|g: int| 0 <= g < graphs.len() ==> (#[trigger] graphs[g]).len() <= usize::MAX
}

impl Graph {
    /// A graph without nodes.
    pub fn new() -> (graph: Graph)
        ensures
            graph@ == Seq::<Node>::empty(),
    {
        Graph { nodes: Vec::new() }
    }

    /// Appends `node` and returns its position, which no earlier node has.
    pub fn push(&mut self, node: Node) -> (id: NodeId)
        ensures
            final(self)@ == old(self)@.push(node),
            id.0 == old(self)@.len(),
    {
        let id = NodeId(self.nodes.len());
        self.nodes.push(node);
        id
    }
}

impl Graphs {
    /// Every position in a store is small enough to be written as an identifier.
    pub proof fn lemma_representable(&self)
        ensures
            representable(self@),
    {
        assert(self.graphs@.len() == self.graphs.len());
        assert forall|g: int| 0 <= g < self@.len() implies (#[trigger] self@[g]).len()
            <= usize::MAX by {
            assert(self@[g].len() == self.graphs@[g].nodes.len());
        }
    }

    /// A store without graphs.
    pub fn new() -> (graphs: Graphs)
        ensures
            graphs@ == Seq::<Seq<Node>>::empty(),
    {
        Graphs { graphs: Vec::new() }
    }

    /// Appends an empty graph and returns its identifier, which no earlier graph has.
    pub fn new_graph(&mut self) -> (id: GraphId)
        ensures
            final(self)@ == old(self)@.push(Seq::<Node>::empty()),
            id.0 == old(self)@.len(),
    {
        let id = GraphId(self.graphs.len());
        self.graphs.push(Graph::new());
        id
    }

    /// The node at `slot`, if the store has one there.
    pub fn node(&self, slot: Slot) -> (node: Option<&Node>)
        ensures
            node == if has_node(self@, slot) {
                Some(&self@[slot.0.0 as int][slot.1.0 as int])
            } else {
                None
            },
    {
        if slot.0.0 < self.graphs.len() {
            let graph = &self.graphs[slot.0.0];
            if slot.1.0 < graph.nodes.len() {
                return Some(&graph.nodes[slot.1.0]);
            }
        }
        None
    }
}

} // verus!
