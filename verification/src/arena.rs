//! The slot map that stores the nodes of a tiling tree, with the contracts that the tree
//! relies on. Nothing in this file is proved: each function states what the slot map does.

use vstd::prelude::*;
use slotmap::{DefaultKey, Key, KeyData, SlotMap};
use crate::node::{NodeData, NodeId};

verus! {

/// Arena of tree nodes. A node keeps its handle from insertion until removal, and a handle
/// is the 64-bit form of the slot map's key.
#[verifier::external_body]
pub struct Arena {
    slots: SlotMap<DefaultKey, NodeData>,
}

/// The nodes that an arena holds, by handle.
pub uninterp spec fn arena_nodes(arena: Arena) -> Map<NodeId, NodeData>;

/// Most nodes that a slot map holds before `insert` gives up.
pub const ARENA_LIMIT: usize = 0xffff_fffe;

impl Arena {
    /// `SlotMap::new`: a slot map without elements.
    #[verifier::external_body]
    pub(crate) fn new() -> (arena: Arena)
        ensures
            arena_nodes(arena).dom() == Set::<NodeId>::empty(),
    {
        Arena { slots: SlotMap::new() }
    }

    /// `SlotMap::len`: the number of elements.
    #[verifier::external_body]
    pub(crate) fn len(&self) -> (n: usize)
        ensures
            n == arena_nodes(*self).dom().len(),
    {
        self.slots.len()
    }

    /// `SlotMap::insert`: stores the value under a key that no element has at that moment and
    /// leaves the other elements alone. The slot map panics once all of its 2^32 - 2 slots are
    /// taken, which the precondition rules out.
    #[verifier::external_body]
    pub(crate) fn insert(&mut self, value: NodeData) -> (id: NodeId)
        requires
            arena_nodes(*old(self)).dom().finite(),
            arena_nodes(*old(self)).dom().len() < ARENA_LIMIT,
        ensures
            !arena_nodes(*old(self)).dom().contains(id),
            arena_nodes(*final(self)) == arena_nodes(*old(self)).insert(id, value),
    {
        NodeId(self.slots.insert(value).data().as_ffi())
    }

    /// Indexing a `SlotMap` by a key that it holds: a copy of the element.
    #[verifier::external_body]
    pub(crate) fn get(&self, id: NodeId) -> (value: NodeData)
        requires
            arena_nodes(*self).dom().contains(id),
        ensures
            value == arena_nodes(*self)[id],
    {
        self.slots[KeyData::from_ffi(id.0).into()]
    }

    /// Assignment through `IndexMut` of a `SlotMap`, by a key that it holds: the element is
    /// replaced, every other element stays.
    #[verifier::external_body]
    pub(crate) fn set(&mut self, id: NodeId, value: NodeData)
        requires
            arena_nodes(*old(self)).dom().contains(id),
        ensures
            arena_nodes(*final(self)) == arena_nodes(*old(self)).insert(id, value),
    {
        self.slots[KeyData::from_ffi(id.0).into()] = value;
    }

    /// `SlotMap::remove` with a key that the slot map holds: takes the element out and hands
    /// it back, and leaves the other elements alone.
    #[verifier::external_body]
    pub(crate) fn remove(&mut self, id: NodeId) -> (value: Option<NodeData>)
        requires
            arena_nodes(*old(self)).dom().contains(id),
        ensures
            value == Some(arena_nodes(*old(self))[id]),
            arena_nodes(*final(self)) == arena_nodes(*old(self)).remove(id),
    {
        self.slots.remove(KeyData::from_ffi(id.0).into())
    }

    /// `SlotMap::keys`: the key of every element, each once, in the slot map's own order.
    #[verifier::external_body]
    pub(crate) fn keys(&self) -> (ids: Vec<NodeId>)
        ensures
            ids@.no_duplicates(),
            ids@.to_set() == arena_nodes(*self).dom(),
    {
        self.slots.keys().map(|k| NodeId(k.data().as_ffi())).collect()
    }
}

} // verus!
