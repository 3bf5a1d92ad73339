//! A genetic individual: one owned tree plus cached structural metadata.

use vstd::prelude::*;

use crate::clamped;
use crate::gen::{generate_tree, leaves_between, TreeGen};
use crate::tree::{tree_size, wf_view, Node, Tree};

verus! {

/// A genetic individual to mate and mutate in a genetic program: wraps
/// one tree and caches the number of its nodes.
#[derive(Debug)]
pub struct Individual<T: Tree> {
    /// The contained tree, starting at the root.
    pub tree: Node<T>,
    /// The cached number of nodes of `tree`. Kept right by the engine's
    /// operators; a caller that edits `tree` directly must refresh it
    /// with [`Individual::recalculate_metadata`].
    pub nodes_count: usize,
}

impl<T: Tree> Individual<T> {
    /// The cache is right: the cached count equals the number of nodes
    /// that a full traversal of the tree finds. Constructors establish
    /// it and every structural operator of the engine re-establishes it.
    pub open spec fn wf(&self) -> bool {
        self.nodes_count as nat == clamped(tree_size(self.tree@))
    }

    /// Generate a new tree within the bounds of `tg` and wrap it as an
    /// individual. The tree is well formed and every one of its leaves
    /// lies within the policy's leaf band.
    pub fn new(tg: &TreeGen, rng: &mut rand::rngs::StdRng) -> (r: Individual<T>)
        requires
            tg.wf(),
        ensures
            r.wf(),
            wf_view(r.tree@),
            leaves_between(r.tree@, 0, tg.leaf_min_depth() as nat, tg.target_depth() as nat),
    {
        Self::new_from_tree(generate_tree(tg, rng))
    }

    /// Wrap an existing tree, computing its metadata.
    pub fn new_from_tree(tree: Node<T>) -> (r: Individual<T>)
        ensures
            r.wf(),
            r.tree == tree,
    {
        let mut indv = Individual { tree, nodes_count: 0 };
        indv.recalculate_metadata();
        indv
    }

    /// The cached number of nodes in the tree — no traversal.
    pub fn nodes_count(&self) -> (r: usize)
        ensures
            r == self.nodes_count,
    {
        self.nodes_count
    }

    /// Refresh the cached metadata by a full traversal of the tree.
    ///
    /// The engine's operators call this after every structural edit; a
    /// caller that edits `tree` directly must call it too, or the cache
    /// goes stale.
    pub fn recalculate_metadata(&mut self)
        ensures
            final (self).tree == old(self).tree,
            final (self).wf(),
    {
        self.nodes_count = self.tree.count_nodes();
    }
}

} // verus!
