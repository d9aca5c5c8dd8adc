//! The events of a trace, and the table of the locations they happened at.

use vstd::prelude::*;

use crate::graph::{DefPathHash, Local};

verus! {

/// Names an entry of the location table.
pub type MirLocId = u32;

/// Identity of a pointer, in one of two key spaces that never meet.
#[derive(Clone, Copy, PartialEq, Eq, Structural, Debug, Hash)]
pub enum RefKind {
    /// The numeric address the pointer held at run time.  Addresses are reused after a free.
    Raw(usize),
    /// A place of the traced program.  Places are never reused.
    Symbolic(Local),
}

/// One observed memory operation, with the addresses it worked on.
#[derive(Clone, Copy, PartialEq, Eq, Structural, Debug, Hash)]
pub enum EventKind {
    /// `size` bytes were allocated at `ptr`.
    Alloc { size: usize, ptr: usize },
    /// The allocation at `old_ptr` was resized to `size` bytes and now lives at `new_ptr`.
    Realloc { old_ptr: usize, size: usize, new_ptr: usize },
    /// The allocation at `ptr` was released.
    Free { ptr: usize },
    /// The pointer at the first address was copied by value to the second.
    CopyPtr(usize, usize),
    /// A reference was copied; both ends are named by the metadata of the location.
    CopyRef,
    /// The pointer was projected to the field with the given number.
    Field(usize, u32),
    /// A value was read through the pointer.
    LoadAddr(usize),
    /// A value was written through the pointer.
    StoreAddr(usize),
    /// The pointer was passed to a function.
    Arg(usize),
    /// The pointer was returned from a function.
    Ret(usize),
    /// The trace ends here.
    Done,
}

/// One record of the trace.
#[derive(Clone, Copy, PartialEq, Eq, Structural, Debug, Hash)]
pub struct Event {
    /// Where in the traced program the operation happened.
    pub mir_loc: MirLocId,
    /// What happened.
    pub kind: EventKind,
}

/// The places a location copies between, as far as they are known statically.
#[derive(Clone, Copy, PartialEq, Eq, Debug, Hash)]
pub struct EventMetadata {
    /// The place the pointer is taken from.
    pub source: Option<Local>,
    /// The place that holds the pointer afterwards.
    pub destination: Option<Local>,
}

/// What the location table knows of one location.
#[derive(Clone, Copy, PartialEq, Eq, Debug, Hash)]
pub struct MirLoc {
    /// The function that contains the location.
    pub body_def: DefPathHash,
    /// Basic block within the function.
    pub basic_block_idx: usize,
    /// Statement within the basic block.
    pub statement_idx: usize,
    /// The places the statement copies between.
    pub metadata: EventMetadata,
}

/// The location table: every location of the traced program, by identifier.
#[derive(PartialEq, Eq, Debug)]
pub struct Metadata {
    pub locs: Vec<MirLoc>,
}

impl View for Metadata {
    type V = Seq<MirLoc>;

    open spec fn view(&self) -> Seq<MirLoc> {
        self.locs@
    }
}

impl EventMetadata {
    /// The key of the source place in the symbolic key space.
    pub open spec fn spec_source(&self) -> Option<RefKind> {
        match self.source {
            Some(place) => Some(RefKind::Symbolic(place)),
            None => None,
        }
    }

    /// The key of the destination place in the symbolic key space.
    pub open spec fn spec_dest(&self) -> Option<RefKind> {
        match self.destination {
            Some(place) => Some(RefKind::Symbolic(place)),
            None => None,
        }
    }

    /// The symbolic key of the place the pointer is taken from, where it is known.
    #[verifier::when_used_as_spec(spec_source)]
    pub fn source(&self) -> (key: Option<RefKind>)
        ensures
            key == self.spec_source(),
    {
        match self.source {
            Some(place) => Some(RefKind::Symbolic(place)),
            None => None,
        }
    }

    /// The symbolic key of the place that holds the pointer afterwards, where it is known.
    #[verifier::when_used_as_spec(spec_dest)]
    pub fn dest(&self) -> (key: Option<RefKind>)
        ensures
            key == self.spec_dest(),
    {
        match self.destination {
            Some(place) => Some(RefKind::Symbolic(place)),
            None => None,
        }
    }
}

/// Whether the table `locs` has an entry for `id`.
pub open spec fn knows(locs: Seq<MirLoc>, id: MirLocId) -> bool {
    (id as int) < locs.len()
}

impl Metadata {
    /// The entry for `id`, if the table has one.
    pub fn get(&self, id: MirLocId) -> (loc: Option<&MirLoc>)
        ensures
            loc == if knows(self@, id) {
                Some(&self@[id as int])
            } else {
                None
            },
    {
        let at: usize = id as usize;
        if at < self.locs.len() {
            Some(&self.locs[at])
        } else {
            None
        }
    }

    /// The entry for `id`, which the table must have.
    pub fn resolve(&self, id: MirLocId) -> (loc: &MirLoc)
        requires
            knows(self@, id),
        ensures
            *loc == self@[id as int],
    {
        &self.locs[id as usize]
    }
}

} // verus!
