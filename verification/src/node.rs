//! Nodes of the tiling tree as they are stored in the arena.

use vstd::prelude::*;
use crate::geometry::{Direction, Rect};
use crate::window::WindowId;

verus! {

/// Handle of a node in the arena of a tiling tree.
#[derive(Clone, Copy, Debug, PartialEq, Eq, Hash, Structural)]
pub struct NodeId(pub u64);

/// What the arena stores for one node.
#[derive(Clone, Copy, Debug, PartialEq, Eq, Structural)]
pub enum NodeData {
    /// A tile: one window and the rectangle it fills.
    Leaf { window: WindowId, rec: Rect },
    /// Two subtrees sharing `rec` along `direction`. The direction is fixed when the split
    /// is made and never derived from `rec` again.
    Split { direction: Direction, rec: Rect, left: NodeId, right: NodeId },
}

impl NodeData {
    /// Rectangle that the node covers.
    pub open spec fn rect(self) -> Rect {
        match self {
            NodeData::Leaf { rec, .. } => rec,
            NodeData::Split { rec, .. } => rec,
        }
    }

    /// Rectangle that the node covers.
    pub fn rec(&self) -> (r: Rect)
        ensures
            r == self.rect(),
    {
        match self {
            NodeData::Leaf { rec, .. } => *rec,
            NodeData::Split { rec, .. } => *rec,
        }
    }
}

} // verus!
