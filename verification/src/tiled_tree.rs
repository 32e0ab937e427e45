//! The tiling tree: a binary space partition of one rectangle among the tiled windows,
//! stored as nodes in an arena and addressed by handles.

use vstd::prelude::*;
use crate::arena::{arena_nodes, Arena, ARENA_LIMIT};
use crate::geometry::{
    comes_first, first_half, get_new_rec, lemma_halves_partition, recover_new_rec, second_half,
    shift_boundary, split_direction, split_fits, Direction, Rect, GAP,
};
use crate::laws::{
    lemma_insert_then_remove, lemma_modify_idempotent, lemma_with_split, lemma_without_windows,
};
use crate::node::{NodeData, NodeId};
use crate::tree::Tree;
use crate::tree_lemmas::{
    lemma_boundary_moved, lemma_counts, lemma_laid_out, lemma_laid_out_partitioned, lemma_leaf_entry,
    lemma_leaf_of, lemma_nodes_dom, lemma_parent_entry, lemma_parent_exists, lemma_replace,
    lemma_split_children, lemma_subtree,
};
use crate::window::{Window, WindowId};

verus! {

/// How a workspace arranges its windows.
#[derive(Clone, Copy, Debug, PartialEq, Eq, Structural)]
pub enum LayoutScheme {
    /// A new window splits the tile of the focused window.
    Default,
    /// A new window splits the shallowest tile.
    BinaryTree,
}

/// Arena of nodes with the handle of the topmost one. An empty tree has no node at all.
pub struct TiledTree {
    nodes: Arena,
    root: Option<NodeId>,
    model: Ghost<Option<Tree>>,
}

impl View for TiledTree {
    type V = Option<Tree>;

    /// The tree that the arena represents; `None` for the empty tree.
    closed spec fn view(&self) -> Option<Tree> {
        self.model@
    }
}

impl TiledTree {
    /// The arena holds exactly the nodes of a tree in which no handle and no window occurs
    /// twice and every split is tiled by its children, or nothing at all.
    pub closed spec fn wf(&self) -> bool {
        match self.model@ {
            None => self.root is None && arena_nodes(self.nodes).dom() == Set::<NodeId>::empty(),
            Some(t) => {
                &&& self.root == Some(t.id())
                &&& t.well_formed()
                &&& t.partitioned()
                &&& arena_nodes(self.nodes) == t.nodes()
            },
        }
    }

    /// The window has a leaf in the tree.
    pub open spec fn has_window(&self, w: WindowId) -> bool {
        self@ matches Some(t) && t.windows().contains(w)
    }

    /// The handle names a node of the tree.
    pub open spec fn has_node(&self, k: NodeId) -> bool {
        self@ matches Some(t) && t.ids().contains(k)
    }

    /// Number of leaves; zero for the empty tree.
    pub open spec fn leaf_count(&self) -> nat {
        match self@ {
            None => 0,
            Some(t) => t.leaf_count(),
        }
    }

    /// What splitting the tile of `target` for `new_window` has made of the tree `post`: one
    /// more leaf, the new window in the second half of the tile and `target` in the first,
    /// and every other window where it was; removing the new window at once would give the
    /// old tree back.
    pub open spec fn split_for(
        &self,
        post: &TiledTree,
        target: WindowId,
        new_window: WindowId,
    ) -> bool {
        let t = self@->0;
        let rec = t.rect_of(target);
        &&& post@ is Some
        &&& post.leaf_count() == self.leaf_count() + 1
        &&& post@->0.windows() == t.windows().insert(new_window)
        &&& post@->0.rect_of(target) == first_half(rec, split_direction(rec))
        &&& post@->0.rect_of(new_window) == second_half(rec, split_direction(rec))
        &&& post@->0.without_fits(new_window)
        &&& post@->0.without(new_window) == self@
        &&& forall|w: WindowId| #[trigger] t.windows().contains(w) && w != target ==> post@->0.rect_of(w) == t.rect_of(w)
    }

    /// The tree is as a layout of `node_id` in `rec` leaves it: the node is there and covers
    /// `rec`, and laying it out in `rec` once more fits and changes nothing.
    pub open spec fn modified_again(&self, node_id: NodeId, rec: Rect) -> bool {
        &&& self.has_node(node_id)
        &&& self@->0.subtree(node_id).rect() == rec
        &&& self@->0.subtree(node_id).fits(rec)
        &&& self@->0.replace(node_id, self@->0.subtree(node_id).laid_out(rec)) == self@->0
    }

    /// In every state of the tree no handle and no window occurs twice, every split is tiled
    /// by the rectangles of its two children, and there are as many leaves as windows.
    pub proof fn lemma_invariant(&self)
        requires
            self.wf(),
        ensures
            self@ matches Some(t) ==> {
                &&& t.well_formed()
                &&& t.partitioned()
                &&& t.windows().finite()
                &&& t.windows().len() == t.leaf_count()
            },
    {
        if let Some(t) = self@ {
            lemma_counts(t);
        }
    }

    /// A tree of one leaf, which holds `window` in the rectangle that the window has.
    pub fn new(window: Window) -> (tree: TiledTree)
        ensures
            tree.wf(),
            tree@ is Some,
            tree@->0 is Leaf,
            tree@->0->window == window.id,
            tree@->0->Leaf_rec == window.rec,
    {
        let mut nodes = Arena::new();
        let data = NodeData::Leaf { window: window.id, rec: window.rec };
        let id = nodes.insert(data);
        let ghost t = Tree::Leaf { id, window: window.id, rec: window.rec };
        proof {
            assert(arena_nodes(nodes) =~= t.nodes());
        }
        TiledTree { nodes, root: Some(id), model: Ghost(Some(t)) }
    }

    /// Whether the tree has no node.
    pub fn is_empty(&self) -> (r: bool)
        requires
            self.wf(),
        ensures
            r == (self@ is None),
    {
        self.root.is_none()
    }

    /// Handle of the topmost node.
    pub fn get_root(&self) -> (r: Option<NodeId>)
        requires
            self.wf(),
        ensures
            r == match self@ {
                None => None,
                Some(t) => Some(t.id()),
            },
    {
        self.root
    }

    /// Looks for the leaf that holds `window`.
    pub fn find_node(&self, window: &Window) -> (r: Option<NodeId>)
        requires
            self.wf(),
        ensures
            r is Some == self.has_window(window.id),
            r matches Some(id) ==> id == self@->0.leaf_of(window.id),
    {
        let keys = self.nodes.keys();
        let mut i: usize = 0;
        while i < keys.len()
            invariant
                0 <= i <= keys.len(),
                self.wf(),
                keys@.to_set() == arena_nodes(self.nodes).dom(),
                forall|j: int|
                    0 <= j < i ==> !(#[trigger] arena_nodes(self.nodes)[keys@[j]] matches NodeData::Leaf {
                        window: w,
                        ..
                    } && w == window.id),
            decreases keys.len() - i,
        {
            let id = keys[i];
            assert(keys@.to_set().contains(keys@[i as int]));
            match self.nodes.get(id) {
                NodeData::Leaf { window: w, .. } => {
                    if w == window.id {
                        proof {
                            lemma_nodes_dom(self@->0);
                            lemma_leaf_entry(self@->0, id);
                        }
                        return Some(id);
                    }
                },
                _ => {},
            }
            i += 1;
        }
        proof {
            if self.has_window(window.id) {
                let t = self@->0;
                lemma_nodes_dom(t);
                lemma_leaf_of(t, window.id);
                let k = t.leaf_of(window.id);
                assert(keys@.to_set().contains(k));
                let j = choose|j: int| 0 <= j < keys@.len() && keys@[j] == k;
                assert(arena_nodes(self.nodes)[keys@[j]] is Leaf);
            }
        }
        None
    }

    /// Splits the tile of `target` in two: `target` keeps the first half, `new_window` gets
    /// the second. The leaf of `target` becomes the split, so nothing else in the tree moves.
    /// Answers `false`, and changes nothing, when `target` has no leaf. The new window must
    /// not have a leaf yet, the arena must have room for two more nodes, and the halves of the
    /// tile must be within the coordinate range.
    pub fn insert(&mut self, target: &Window, new_window: Window) -> (r: bool)
        requires
            old(self).wf(),
            !old(self).has_window(new_window.id),
            2 * old(self).leaf_count() < ARENA_LIMIT,
            old(self).has_window(target.id) ==> split_fits(
                old(self)@->0.rect_of(target.id),
                split_direction(old(self)@->0.rect_of(target.id)),
            ),
        ensures
            final(self).wf(),
            r == old(self).has_window(target.id),
            !r ==> final(self)@ == old(self)@,
            r ==> final(self)@ is Some && old(self)@->0.splits_into(
                final(self)@->0,
                target.id,
                new_window.id,
            ),
            r ==> old(self).split_for(final(self), target.id, new_window.id),
    {
        if let Some(target_id) = self.find_node(target) {
            let ghost t = self@->0;
            proof {
                lemma_nodes_dom(t);
                lemma_counts(t);
                lemma_leaf_of(t, target.id);
            }
            match self.nodes.get(target_id) {
                NodeData::Leaf { window, rec } => {
                    let (direction, l_rec, r_rec) = get_new_rec(&rec);
                    let new_leaf = self.nodes.insert(NodeData::Leaf { window: new_window.id, rec: r_rec });
                    let old_leaf = self.nodes.insert(NodeData::Leaf { window, rec: l_rec });
                    self.nodes.set(
                        target_id,
                        NodeData::Split { direction, rec, left: old_leaf, right: new_leaf },
                    );
                    proof {
                        let sub = Tree::Split {
                            id: target_id,
                            direction,
                            rec,
                            left: Box::new(Tree::Leaf { id: old_leaf, window: target.id, rec: l_rec }),
                            right: Box::new(Tree::Leaf { id: new_leaf, window: new_window.id, rec: r_rec }),
                        };
                        let l = Tree::Leaf { id: old_leaf, window: target.id, rec: l_rec };
                        let r = Tree::Leaf { id: new_leaf, window: new_window.id, rec: r_rec };
                        assert(l.well_formed() && r.well_formed());
                        assert(l.ids() =~= set![old_leaf] && r.ids() =~= set![new_leaf]);
                        assert(l.windows() =~= set![target.id] && r.windows() =~= set![new_window.id]);
                        assert(sub.well_formed());
                        assert(l.partitioned() && r.partitioned());
                        assert(l.nodes() =~= Map::empty().insert(old_leaf, l.entry()));
                        assert(r.nodes() =~= Map::empty().insert(new_leaf, r.entry()));
                        assert(sub.nodes() =~= Map::empty().insert(old_leaf, l.entry()).insert(
                            new_leaf,
                            r.entry(),
                        ).insert(target_id, sub.entry()));
                        lemma_nodes_dom(sub);
                        lemma_halves_partition(rec, direction);
                        assert(sub.partitioned());
                        lemma_subtree(t, target_id);
                        lemma_replace(t, target_id, sub);
                        let t2 = t.replace(target_id, sub);
                        assert(t2 == t.with_split(target.id, new_window.id, old_leaf, new_leaf));
                        assert(arena_nodes(self.nodes) =~= t2.nodes());
                        assert forall|w: WindowId| #[trigger] t.windows().contains(w) && w != target.id implies t2.rect_of(
                            w,
                        ) == t.rect_of(w) by {
                            lemma_with_split(t, target.id, new_window.id, old_leaf, new_leaf, w);
                        }
                        lemma_with_split(t, target.id, new_window.id, old_leaf, new_leaf, target.id);
                        lemma_insert_then_remove(t, target.id, new_window.id, old_leaf, new_leaf);
                        self.model = Ghost(Some(t2));
                    }
                    true
                },
                NodeData::Split { .. } => false,
            }
        } else {
            false
        }
    }

    /// Takes the leaf of `target` out. Its sibling moves up into the slot of their parent
    /// and is laid out in the parent's rectangle; a tree of one leaf becomes empty. The answer
    /// is `true`: the parent that was found is always a split. The window must have a leaf,
    /// and the layout of the sibling must be within the coordinate range.
    pub fn remove(&mut self, target: &Window) -> (r: bool)
        requires
            old(self).wf(),
            old(self).has_window(target.id),
            old(self)@->0.without_fits(target.id),
        ensures
            final(self).wf(),
            r,
            final(self)@ == old(self)@->0.without(target.id),
            final(self).leaf_count() + 1 == old(self).leaf_count(),
            forall|w: WindowId| final(self).has_window(w) == (old(self).has_window(w) && w != target.id),
    {
        proof {
            lemma_without_windows(old(self)@->0, target.id);
        }
        let ghost t = self@->0;
        proof {
            lemma_nodes_dom(t);
            lemma_leaf_of(t, target.id);
        }
        let target_id = self.find_node(target).unwrap();
        if let Some(root_id) = self.root {
            if target_id == root_id {
                if let NodeData::Leaf { .. } = self.nodes.get(target_id) {
                    self.nodes.remove(target_id);
                    self.root = None;
                    proof {
                        assert(arena_nodes(self.nodes).dom() =~= Set::<NodeId>::empty());
                        self.model = Ghost(None);
                    }
                    return true;
                }
            }
        }
        let (parent_id, sibling_id) = self.find_parent_and_sibling(target_id).unwrap();
        let ghost parent = t.subtree(parent_id);
        let ghost sibling = parent.sibling_of(target_id);
        proof {
            lemma_parent_exists(t, target_id);
            lemma_parent_entry(t, parent_id, target_id);
            lemma_subtree(t, parent_id);
            lemma_nodes_dom(parent);
            lemma_nodes_dom(*parent->left);
            lemma_nodes_dom(*parent->right);
            lemma_nodes_dom(sibling);
            lemma_subtree(t, sibling_id);
            assert(parent.ids().contains(sibling_id));
        }
        match self.nodes.get(parent_id) {
            NodeData::Split { rec, .. } => {
                let sibling_data = self.nodes.remove(sibling_id).unwrap();
                let ghost sub = sibling.promoted(parent_id, rec);
                match sibling_data {
                    NodeData::Leaf { window, .. } => {
                        self.nodes.set(parent_id, NodeData::Leaf { window, rec });
                        proof {
                            assert(sibling is Leaf);
                            assert(sub.well_formed() && sub.partitioned());
                            assert(sub.ids() =~= set![parent_id]);
                            assert(sibling.ids() =~= set![sibling_id]);
                        }
                    },
                    NodeData::Split { direction, left, right, .. } => {
                        self.nodes.set(parent_id, NodeData::Split { direction, rec, left, right });
                        let ghost moved = Tree::Split {
                            id: parent_id,
                            direction,
                            rec,
                            left: sibling->left,
                            right: sibling->right,
                        };
                        proof {
                            assert(sibling is Split);
                            lemma_nodes_dom(*sibling->left);
                            lemma_nodes_dom(*sibling->right);
                            lemma_nodes_dom(moved);
                            assert(moved.ids() =~= sibling->left.ids().union(sibling->right.ids()).insert(
                                parent_id,
                            ));
                            assert(sibling.ids() =~= sibling->left.ids().union(sibling->right.ids()).insert(
                                sibling_id,
                            ));
                            assert(moved.well_formed());
                            assert(moved.fits(rec) == sibling.fits(rec));
                            assert(moved.windows() =~= sibling.windows());
                            assert forall|k: NodeId| #[trigger]
                                moved.nodes().dom().contains(k) implies arena_nodes(
                                self.nodes,
                            ).dom().contains(k) && arena_nodes(self.nodes)[k] == moved.nodes()[k] by {
                                if k != parent_id {
                                    assert(sibling.nodes().dom().contains(k));
                                    assert(parent.nodes().dom().contains(k));
                                }
                            }
                        }
                        relayout(&mut self.nodes, parent_id, &rec, Ghost(moved));
                        proof {
                            lemma_laid_out(moved, rec);
                            lemma_laid_out_partitioned(moved, rec);
                            assert(sub == moved.laid_out(rec));
                        }
                    },
                }
                self.nodes.remove(target_id);
                proof {
                    lemma_nodes_dom(sub);
                    assert(parent.windows() =~= parent->left.windows().union(parent->right.windows()));
                    assert(parent.ids() =~= parent->left.ids().union(parent->right.ids()).insert(
                        parent_id,
                    ));
                    assert(t.subtree(target_id).ids() =~= set![target_id]);
                    lemma_replace(t, parent_id, sub);
                    let t2 = t.replace(parent_id, sub);
                    assert(arena_nodes(self.nodes) =~= t2.nodes());
                    self.model = Ghost(Some(t2));
                }
                true
            },
            NodeData::Leaf { .. } => false,
        }
    }

    /// Number of nodes.
    pub fn len(&self) -> (n: usize)
        requires
            self.wf(),
        ensures
            n == match self@ {
                Some(t) => 2 * t.leaf_count() - 1,
                None => 0,
            },
    {
        proof {
            if let Some(t) = self@ {
                lemma_counts(t);
                lemma_nodes_dom(t);
            } else {
                assert(Set::<NodeId>::empty().len() == 0);
            }
        }
        self.nodes.len()
    }

    /// What the arena stores under a handle; `None` for a handle that names no node.
    pub fn get(&self, id: NodeId) -> (r: Option<NodeData>)
        requires
            self.wf(),
        ensures
            r is Some == self.has_node(id),
            r matches Some(data) ==> data == self@->0.subtree(id).entry(),
    {
        let keys = self.nodes.keys();
        let mut i: usize = 0;
        while i < keys.len()
            invariant
                0 <= i <= keys.len(),
                self.wf(),
                keys@.to_set() == arena_nodes(self.nodes).dom(),
                forall|j: int| 0 <= j < i ==> keys@[j] != id,
            decreases keys.len() - i,
        {
            if keys[i] == id {
                assert(keys@.to_set().contains(keys@[i as int]));
                proof {
                    lemma_nodes_dom(self@->0);
                    lemma_subtree(self@->0, id);
                }
                return Some(self.nodes.get(id));
            }
            i += 1;
        }
        proof {
            if self.has_node(id) {
                lemma_nodes_dom(self@->0);
                assert(keys@.to_set().contains(id));
            }
        }
        None
    }

    /// The nodes in the order in which a walk from the top meets them, each with the number
    /// of splits above it: the tree as an indented listing would show it.
    pub fn print_tree(&self) -> (lines: Vec<(usize, NodeData)>)
        requires
            self.wf(),
            self@ is Some,
        ensures
            lines@ == self@->0.outline(0),
    {
        let ghost t = self@->0;
        proof {
            lemma_counts(t);
            lemma_nodes_dom(t);
        }
        // The number of nodes bounds the depth of the walk.
        let _nodes = self.len();
        let mut lines: Vec<(usize, NodeData)> = Vec::new();
        outline_into(&self.nodes, self.root.unwrap(), 0, &mut lines, Ghost(t));
        lines
    }

    /// The tiled windows with their rectangles, from the leftmost leaf to the rightmost.
    pub fn tiles(&self) -> (out: Vec<(WindowId, Rect)>)
        requires
            self.wf(),
        ensures
            out@ == match self@ {
                Some(t) => t.tiles(),
                None => Seq::<(WindowId, Rect)>::empty(),
            },
    {
        let mut out: Vec<(WindowId, Rect)> = Vec::new();
        if let Some(root) = self.root {
            proof {
                lemma_nodes_dom(self@->0);
            }
            tiles_into(&self.nodes, root, &mut out, Ghost(self@->0));
        }
        out
    }

    /// Rectangle of the tile that holds `window`, if the window is tiled.
    pub fn rect_of(&self, window: &Window) -> (r: Option<Rect>)
        requires
            self.wf(),
        ensures
            r is Some == self.has_window(window.id),
            r matches Some(rec) ==> rec == self@->0.rect_of(window.id),
    {
        match self.find_node(window) {
            Some(id) => {
                proof {
                    lemma_nodes_dom(self@->0);
                    lemma_leaf_of(self@->0, window.id);
                }
                Some(self.nodes.get(id).rec())
            },
            None => None,
        }
    }

    /// Swaps the two children of the split above the leaf of `target`, so that the other one
    /// counts as the first; no rectangle changes. Answers `false`, and changes nothing, when
    /// `target` has no leaf or its leaf is the whole tree.
    pub fn invert_window(&mut self, target: &Window) -> (r: bool)
        requires
            old(self).wf(),
        ensures
            final(self).wf(),
            r == (old(self).has_window(target.id) && old(self)@->0 is Split),
            r ==> final(self)@ == Some(old(self)@->0.inverted(target.id)),
            !r ==> final(self)@ == old(self)@,
    {
        let target_id = match self.find_node(target) {
            Some(id) => id,
            None => { return false; },
        };
        let ghost t = self@->0;
        proof {
            lemma_nodes_dom(t);
            lemma_leaf_of(t, target.id);
        }
        let parent_id = match self.find_parent_and_sibling(target_id) {
            Some((parent_id, _)) => parent_id,
            None => { return false; },
        };
        let ghost parent = t.subtree(parent_id);
        proof {
            lemma_parent_exists(t, target_id);
            lemma_parent_entry(t, parent_id, target_id);
            lemma_subtree(t, parent_id);
            lemma_nodes_dom(parent);
            lemma_nodes_dom(*parent->left);
            lemma_nodes_dom(*parent->right);
        }
        match self.nodes.get(parent_id) {
            NodeData::Split { direction, rec, left, right } => {
                self.nodes.set(parent_id, NodeData::Split { direction, rec, left: right, right: left });
                proof {
                    let sub = parent.swapped();
                    assert(sub.ids() =~= parent.ids());
                    assert(sub.windows() =~= parent.windows());
                    assert(sub.well_formed());
                    assert(sub.partitioned());
                    lemma_nodes_dom(sub);
                    lemma_replace(t, parent_id, sub);
                    let t2 = t.replace(parent_id, sub);
                    assert(arena_nodes(self.nodes) =~= t2.nodes());
                    self.model = Ghost(Some(t2));
                }
                true
            },
            NodeData::Leaf { .. } => false,
        }
    }

    /// Moves the boundary between the tile of `target` and its sibling by the component of
    /// `offset` that lies along their split, as far as both keep at least one pixel, and lays
    /// both sides out anew. Answers `false`, and changes nothing, when `target` has no leaf or
    /// its leaf is the whole tree.
    pub fn resize(&mut self, target: &Window, offset: (i32, i32)) -> (r: bool)
        requires
            old(self).wf(),
            old(self).has_window(target.id) && old(self)@->0 is Split ==> old(self)@->0.resize_fits(
                target.id,
                offset,
            ),
        ensures
            final(self).wf(),
            r == (old(self).has_window(target.id) && old(self)@->0 is Split),
            r ==> final(self)@ == Some(old(self)@->0.resized(target.id, offset)),
            !r ==> final(self)@ == old(self)@,
    {
        let target_id = match self.find_node(target) {
            Some(id) => id,
            None => { return false; },
        };
        let ghost t = self@->0;
        proof {
            lemma_nodes_dom(t);
            lemma_leaf_of(t, target.id);
        }
        let parent_id = match self.find_parent_and_sibling(target_id) {
            Some((parent_id, _)) => parent_id,
            None => { return false; },
        };
        let ghost parent = t.subtree(parent_id);
        let ghost l = *parent->left;
        let ghost r = *parent->right;
        proof {
            lemma_parent_exists(t, target_id);
            lemma_parent_entry(t, parent_id, target_id);
            lemma_split_children(t, parent_id);
        }
        match self.nodes.get(parent_id) {
            NodeData::Split { direction, rec, left, right } => {
                let l_rec = self.nodes.get(left).rec();
                let r_rec = self.nodes.get(right).rec();
                let delta = match direction {
                    Direction::Horizontal => offset.0,
                    Direction::Vertical => offset.1,
                };
                assert(l_rec == l.rect() && r_rec == r.rect());
                assert(delta as int == parent.acting_offset(offset));
                let (l_new, r_new) = if starts_after(&l_rec, &r_rec, &direction) {
                    shift_boundary(&l_rec, &r_rec, &direction, delta)
                } else {
                    let (first, second) = shift_boundary(&r_rec, &l_rec, &direction, delta);
                    (second, first)
                };
                assert(l_new == parent.left_after_shift(delta as int));
                assert(r_new == parent.right_after_shift(delta as int));
                relayout(&mut self.nodes, left, &l_new, Ghost(l));
                proof {
                    lemma_nodes_dom(l);
                    lemma_nodes_dom(r);
                    lemma_laid_out(l, l_new);
                    lemma_nodes_dom(l.laid_out(l_new));
                    assert forall|k: NodeId| #[trigger] r.nodes().dom().contains(k) implies arena_nodes(
                        self.nodes,
                    ).dom().contains(k) && arena_nodes(self.nodes)[k] == r.nodes()[k] by {
                        assert(t.nodes().dom().contains(k));
                    }
                }
                relayout(&mut self.nodes, right, &r_new, Ghost(r));
                proof {
                    lemma_boundary_moved(t, parent_id, delta as int);
                    self.model = Ghost(Some(t.resized(target.id, offset)));
                }
                true
            },
            NodeData::Leaf { .. } => false,
        }
    }

    /// Looks for the split that has `target` as a child, and for the other child of that
    /// split. There is none for the topmost node and for a handle that names no node.
    pub fn find_parent_and_sibling(&self, target: NodeId) -> (r: Option<(NodeId, NodeId)>)
        requires
            self.wf(),
        ensures
            r is Some == (self.has_node(target) && self@->0.id() != target),
            r matches Some((parent, sibling)) ==> {
                &&& parent == self@->0.parent_id(target)
                &&& sibling == self@->0.subtree(parent).sibling_of(target).id()
            },
    {
        let keys = self.nodes.keys();
        let mut i: usize = 0;
        while i < keys.len()
            invariant
                0 <= i <= keys.len(),
                self.wf(),
                keys@.to_set() == arena_nodes(self.nodes).dom(),
                forall|j: int|
                    0 <= j < i ==> !(#[trigger] arena_nodes(self.nodes)[keys@[j]] matches NodeData::Split {
                        left,
                        right,
                        ..
                    } && (left == target || right == target)),
            decreases keys.len() - i,
        {
            let id = keys[i];
            assert(keys@.to_set().contains(keys@[i as int]));
            match self.nodes.get(id) {
                NodeData::Split { left, right, .. } => {
                    if left == target {
                        proof {
                            lemma_nodes_dom(self@->0);
                            lemma_parent_entry(self@->0, id, target);
                        }
                        return Some((id, right));
                    } else if right == target {
                        proof {
                            lemma_nodes_dom(self@->0);
                            lemma_parent_entry(self@->0, id, target);
                        }
                        return Some((id, left));
                    }
                },
                _ => {},
            }
            i += 1;
        }
        proof {
            if self.has_node(target) && self@->0.id() != target {
                let t = self@->0;
                lemma_nodes_dom(t);
                lemma_parent_exists(t, target);
                let p = t.parent_id(target);
                assert(keys@.to_set().contains(p));
                let j = choose|j: int| 0 <= j < keys@.len() && keys@[j] == p;
                assert(arena_nodes(self.nodes)[keys@[j]] is Split);
            }
        }
        None
    }

    /// Derives every rectangle below `node_id` anew from `rec`: a leaf fills it, a split
    /// keeps its direction and hands one half to each child. The node must be the topmost
    /// one, or `rec` the rectangle that it covers already, as its parent's tiling rests on
    /// that rectangle.
    pub fn modify(&mut self, node_id: NodeId, rec: &Rect)
        requires
            old(self).wf(),
            old(self).has_node(node_id),
            old(self)@->0.subtree(node_id).fits(*rec),
            old(self)@->0.id() == node_id || old(self)@->0.subtree(node_id).rect() == *rec,
        ensures
            final(self).wf(),
            final(self)@ == Some(
                old(self)@->0.replace(node_id, old(self)@->0.subtree(node_id).laid_out(*rec)),
            ),
            final(self).modified_again(node_id, *rec),
    {
        let ghost t = self@->0;
        let ghost sub = t.subtree(node_id);
        proof {
            lemma_subtree(t, node_id);
            lemma_modify_idempotent(t, node_id, *rec);
        }
        relayout(&mut self.nodes, node_id, rec, Ghost(sub));
        proof {
            let sub2 = sub.laid_out(*rec);
            lemma_laid_out(sub, *rec);
            lemma_laid_out_partitioned(sub, *rec);
            lemma_replace(t, node_id, sub2);
            lemma_nodes_dom(t);
            lemma_nodes_dom(sub);
            lemma_nodes_dom(sub2);
            let t2 = t.replace(node_id, sub2);
            assert(arena_nodes(self.nodes) =~= t2.nodes());
            if t.id() == node_id {
                assert(t2 == sub2);
            }
            self.model = Ghost(Some(t2));
        }
    }
}

/// Appends the outline of `sub`, which the arena holds, to `lines`.
fn outline_into(
    nodes: &Arena,
    id: NodeId,
    depth: usize,
    lines: &mut Vec<(usize, NodeData)>,
    Ghost(sub): Ghost<Tree>,
)
    requires
        sub.id() == id,
        sub.well_formed(),
        sub.stored_in(arena_nodes(*nodes)),
        depth + sub.height() <= usize::MAX,
    ensures
        final(lines)@ == old(lines)@ + sub.outline(depth as nat),
    decreases sub,
{
    proof {
        lemma_nodes_dom(sub);
    }
    assert(sub.nodes().dom().contains(id));
    let data = nodes.get(id);
    lines.push((depth, data));
    match data {
        NodeData::Leaf { .. } => {
            assert(lines@ =~= old(lines)@ + sub.outline(depth as nat));
        },
        NodeData::Split { left, right, .. } => {
            let ghost l = *sub->left;
            let ghost r = *sub->right;
            proof {
                lemma_nodes_dom(l);
                lemma_nodes_dom(r);
                assert forall|k: NodeId| #[trigger] l.nodes().dom().contains(k) implies arena_nodes(
                    *nodes,
                ).dom().contains(k) && arena_nodes(*nodes)[k] == l.nodes()[k] by {
                    assert(sub.nodes().dom().contains(k));
                }
                assert forall|k: NodeId| #[trigger] r.nodes().dom().contains(k) implies arena_nodes(
                    *nodes,
                ).dom().contains(k) && arena_nodes(*nodes)[k] == r.nodes()[k] by {
                    assert(sub.nodes().dom().contains(k));
                }
            }
            outline_into(nodes, left, depth + 1, lines, Ghost(l));
            outline_into(nodes, right, depth + 1, lines, Ghost(r));
            assert(lines@ =~= old(lines)@ + sub.outline(depth as nat));
        },
    }
}

/// Appends the tiles of `sub`, which the arena holds, to `out`.
fn tiles_into(nodes: &Arena, id: NodeId, out: &mut Vec<(WindowId, Rect)>, Ghost(sub): Ghost<Tree>)
    requires
        sub.id() == id,
        sub.well_formed(),
        sub.stored_in(arena_nodes(*nodes)),
    ensures
        final(out)@ == old(out)@ + sub.tiles(),
    decreases sub,
{
    proof {
        lemma_nodes_dom(sub);
    }
    assert(sub.nodes().dom().contains(id));
    match nodes.get(id) {
        NodeData::Leaf { window, rec } => {
            out.push((window, rec));
            assert(out@ =~= old(out)@ + sub.tiles());
        },
        NodeData::Split { left, right, .. } => {
            let ghost l = *sub->left;
            let ghost r = *sub->right;
            proof {
                lemma_nodes_dom(l);
                lemma_nodes_dom(r);
                assert forall|k: NodeId| #[trigger] l.nodes().dom().contains(k) implies arena_nodes(
                    *nodes,
                ).dom().contains(k) && arena_nodes(*nodes)[k] == l.nodes()[k] by {
                    assert(sub.nodes().dom().contains(k));
                }
                assert forall|k: NodeId| #[trigger] r.nodes().dom().contains(k) implies arena_nodes(
                    *nodes,
                ).dom().contains(k) && arena_nodes(*nodes)[k] == r.nodes()[k] by {
                    assert(sub.nodes().dom().contains(k));
                }
            }
            tiles_into(nodes, left, out, Ghost(l));
            tiles_into(nodes, right, out, Ghost(r));
            assert(out@ =~= old(out)@ + sub.tiles());
        },
    }
}

/// Tests whether `second` starts one gap after `first` ends, along `direction`.
fn starts_after(first: &Rect, second: &Rect, direction: &Direction) -> (r: bool)
    ensures
        r == comes_first(*first, *second, *direction),
{
    match direction {
        Direction::Horizontal => second.x as i64 == first.x as i64 + first.w as i64 + GAP as i64,
        Direction::Vertical => second.y as i64 == first.y as i64 + first.h as i64 + GAP as i64,
    }
}

/// Rewrites the rectangles of the nodes of `sub`, which the arena holds, to the layout of
/// `sub` in `rect`.
fn relayout(nodes: &mut Arena, id: NodeId, rect: &Rect, Ghost(sub): Ghost<Tree>)
    requires
        sub.id() == id,
        sub.well_formed(),
        sub.fits(*rect),
        sub.stored_in(arena_nodes(*old(nodes))),
    ensures
        arena_nodes(*final(nodes)) == arena_nodes(*old(nodes)).union_prefer_right(
            sub.laid_out(*rect).nodes(),
        ),
    decreases sub,
{
    proof {
        lemma_nodes_dom(sub);
        lemma_laid_out(sub, *rect);
        lemma_nodes_dom(sub.laid_out(*rect));
    }
    assert(sub.nodes().dom().contains(id));
    assert(arena_nodes(*nodes)[id] == sub.entry());
    match nodes.get(id) {
        NodeData::Leaf { window, .. } => {
            nodes.set(id, NodeData::Leaf { window, rec: *rect });
            assert(arena_nodes(*nodes) =~= arena_nodes(*old(nodes)).union_prefer_right(
                sub.laid_out(*rect).nodes(),
            ));
        },
        NodeData::Split { direction, left, right, .. } => {
            let (l_rec, r_rec) = recover_new_rec(rect, &direction);
            nodes.set(id, NodeData::Split { direction, rec: *rect, left, right });
            let ghost l = *sub->left;
            let ghost r = *sub->right;
            proof {
                lemma_nodes_dom(l);
                lemma_nodes_dom(r);
                lemma_laid_out(l, l_rec);
                lemma_laid_out(r, r_rec);
                lemma_nodes_dom(l.laid_out(l_rec));
                lemma_nodes_dom(r.laid_out(r_rec));
                assert forall|k: NodeId| #[trigger] l.nodes().dom().contains(k) implies arena_nodes(
                    *nodes,
                ).dom().contains(k) && arena_nodes(*nodes)[k] == l.nodes()[k] by {
                    assert(sub.nodes().dom().contains(k));
                }
            }
            let ghost mid = arena_nodes(*nodes);
            relayout(nodes, left, &l_rec, Ghost(l));
            proof {
                assert forall|k: NodeId| #[trigger] r.nodes().dom().contains(k) implies arena_nodes(
                    *nodes,
                ).dom().contains(k) && arena_nodes(*nodes)[k] == r.nodes()[k] by {
                    assert(sub.nodes().dom().contains(k));
                    assert(mid.dom().contains(k));
                }
            }
            relayout(nodes, right, &r_rec, Ghost(r));
            assert(arena_nodes(*nodes) =~= arena_nodes(*old(nodes)).union_prefer_right(
                sub.laid_out(*rect).nodes(),
            ));
        },
    }
}

} // verus!
