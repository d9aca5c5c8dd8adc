//! The index from pointer identities to the nodes that wrote them last.

use std::collections::HashMap;
use vstd::prelude::*;
use vstd::relations::injective_on;
use vstd::set_lib::{lemma_map_size, lemma_set_disjoint_lens};

use crate::events::RefKind;
use crate::graph::{Local, Slot};

verus! {

broadcast use vstd::std_specs::hash::group_hash_axioms;

/// For every pointer identity that is live, the node that wrote it last.
///
/// Raw addresses and symbolic places are kept in tables of their own, so that a key of one
/// space can never answer for a key of the other.
pub struct ProvenanceIndex {
    raw: HashMap<usize, Slot>,
    symbolic: HashMap<u32, Slot>,
}

/// What `index` answers for `key`.
pub open spec fn found(index: Map<RefKind, Slot>, key: RefKind) -> Option<Slot> {
    if index.contains_key(key) {
        Some(index[key])
    } else {
        None
    }
}

impl View for ProvenanceIndex {
    type V = Map<RefKind, Slot>;

    closed spec fn view(&self) -> Map<RefKind, Slot> {
        Map::new(
            |key: RefKind|
                match key {
                    RefKind::Raw(address) => self.raw@.contains_key(address),
                    RefKind::Symbolic(place) => self.symbolic@.contains_key(place.0),
                },
            |key: RefKind|
                match key {
                    RefKind::Raw(address) => self.raw@[address],
                    RefKind::Symbolic(place) => self.symbolic@[place.0],
                },
        )
    }
}

impl ProvenanceIndex {
    /// An index that knows no pointer.
    pub fn new() -> (index: ProvenanceIndex)
        ensures
            index@ == Map::<RefKind, Slot>::empty(),
    {
        let index = ProvenanceIndex { raw: HashMap::new(), symbolic: HashMap::new() };
        assert(index@ =~= Map::<RefKind, Slot>::empty());
        index
    }

    /// The node that wrote `key` last, if any did.
    pub fn lookup(&self, key: &RefKind) -> (slot: Option<Slot>)
        ensures
            slot == found(self@, *key),
    {
        match key {
            RefKind::Raw(address) => match self.raw.get(address) {
                Some(slot) => Some(*slot),
                None => None,
            },
            RefKind::Symbolic(place) => match self.symbolic.get(&place.0) {
                Some(slot) => Some(*slot),
                None => None,
            },
        }
    }

    /// Makes `slot` the answer for `key`, whatever the answer was before.  No other key is
    /// touched.
    pub fn bind(&mut self, key: RefKind, slot: Slot)
        ensures
            final(self)@ == old(self)@.insert(key, slot),
    {
        match key {
            RefKind::Raw(address) => {
                self.raw.insert(address, slot);
            },
            RefKind::Symbolic(place) => {
                self.symbolic.insert(place.0, slot);
            },
        }
        assert(self@ =~= old(self)@.insert(key, slot));
    }

    /// The number of keys that have an answer.
    pub fn len(&self) -> (n: u128)
        ensures
            n == self@.dom().len(),
            self@.dom().finite(),
    {
        proof {
            self.lemma_len();
        }
        self.raw.len() as u128 + self.symbolic.len() as u128
    }

    proof fn lemma_len(&self)
        ensures
            self@.dom().finite(),
            self@.dom().len() == self.raw@.dom().len() + self.symbolic@.dom().len(),
    {
        let raw_key = |address: usize| RefKind::Raw(address);
        let symbolic_key = |place: u32| RefKind::Symbolic(Local(place));
        let raw_keys = self.raw@.dom().map(raw_key);
        let symbolic_keys = self.symbolic@.dom().map(symbolic_key);
        assert(injective_on(raw_key, self.raw@.dom()));
        assert(injective_on(symbolic_key, self.symbolic@.dom()));
        self.raw@.dom().lemma_map_finite(raw_key);
        self.symbolic@.dom().lemma_map_finite(symbolic_key);
        lemma_map_size(self.raw@.dom(), raw_keys, raw_key);
        lemma_map_size(self.symbolic@.dom(), symbolic_keys, symbolic_key);
        assert(raw_keys.disjoint(symbolic_keys));
        lemma_set_disjoint_lens(raw_keys, symbolic_keys);
        assert forall|key: RefKind| self@.dom().contains(key) <==> (raw_keys + symbolic_keys).contains(key) by {
            match key {
                RefKind::Raw(address) => {
                    if self.raw@.dom().contains(address) {
                        assert(raw_key(address) == key);
                    }
                },
                RefKind::Symbolic(place) => {
                    if self.symbolic@.dom().contains(place.0) {
                        assert(symbolic_key(place.0) == key);
                    }
                },
            }
        }
        assert(self@.dom() =~= raw_keys + symbolic_keys);
    }
}

} // verus!
