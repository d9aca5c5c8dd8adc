//! Provenance graphs of pointers, built from the trace of a program's memory operations.
//!
//! A trace is a sequence of events: allocations, frees, copies, projections, loads and
//! stores.  One pass over it gives every event that matters a node, and puts the node
//! into the graph of the node that produced the pointer the event worked on.  Each graph
//! is one lineage: all that came of one allocation.
//!
//! * `graph` holds the arenas: nodes in graphs, graphs in a store.
//! * `events` holds the events, and the table of the locations they happened at.
//! * `log` says which events of a trace count when a record of it cannot be read.
//! * `provenance` holds the index from pointer identities to the nodes that wrote them.
//! * `model` states what a pass builds, as functions on sequences and maps.
//! * `builder` runs the pass.
//! * `lemmas` proves what holds of every pass.

pub mod builder;
pub mod events;
pub mod graph;
pub mod lemmas;
pub mod log;
pub mod model;
pub mod provenance;
