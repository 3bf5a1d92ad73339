//! The crossover (mating) operator: exchanges a randomly chosen subtree
//! between two individuals.

use vstd::prelude::*;

use crate::individual::Individual;
use crate::rng::rand_inclusive;
use crate::tree::{
    lemma_replace_size, lemma_size_pos, replace_at, subtree_at, swap_subtrees, tree_size, Node,
    Tree, TreeView,
};
use crate::GpError;

verus! {

/// The crossover mode in use. See [`Crossover`].
#[derive(PartialEq, Eq, Clone, Copy, Debug)]
enum CrossoverMode {
    /// Corresponds to [`Crossover::one_point`].
    OnePoint,
    /// Corresponds to [`Crossover::one_point_leaf_biased`].
    OnePointLeafBiased,
}

/// Configures crossover (mating) between genetic individuals.
#[derive(PartialEq, Eq, Clone, Copy, Debug)]
pub struct Crossover {
    mode: CrossoverMode,
}

/// One-point crossover happened between two trees: for some pair of
/// in-range preorder positions, picked one per tree, each tree now
/// carries the other's subtree at its position.
pub open spec fn one_point_exchange<P>(
    a0: TreeView<P>,
    b0: TreeView<P>,
    a1: TreeView<P>,
    b1: TreeView<P>,
) -> bool {
    exists|ia: nat, ib: nat|
        ia < tree_size(a0) && ib < tree_size(b0) && a1 == #[trigger] replace_at(
            a0,
            ia,
            subtree_at(b0, ib),
        ) && b1 == replace_at(b0, ib, subtree_at(a0, ia))
}

/// Crossover conservation law: an exchange moves nodes between the two
/// trees, it never creates or destroys any — their total node count is
/// unchanged.
pub proof fn lemma_crossover_preserves_total<P>(a: TreeView<P>, b: TreeView<P>, ia: nat, ib: nat)
    requires
        ia < tree_size(a),
        ib < tree_size(b),
    ensures
        tree_size(replace_at(a, ia, subtree_at(b, ib))) + tree_size(
            replace_at(b, ib, subtree_at(a, ia)),
        ) == tree_size(a) + tree_size(b),
{
    lemma_replace_size(a, ia, subtree_at(b, ib));
    lemma_replace_size(b, ib, subtree_at(a, ia));
}

impl Crossover {
    /// Whether this operator performs plain one-point crossover — the
    /// one implemented mode.
    pub closed spec fn is_one_point(&self) -> bool {
        self.mode is OnePoint
    }

    /// An operator that performs one-point crossover between two
    /// individuals: the subtree at a random position in one individual
    /// is exchanged with the subtree at a random position in the other.
    pub fn one_point() -> (r: Crossover)
        ensures
            r.is_one_point(),
    {
        Crossover { mode: CrossoverMode::OnePoint }
    }

    /// An operator for one-point crossover with swap points biased
    /// towards terminals. Declared as part of the operator's
    /// configuration space but intentionally without a working body:
    /// [`Crossover::mate`] reports it unsupported rather than silently
    /// doing nothing.
    pub fn one_point_leaf_biased() -> (r: Crossover)
        ensures
            !r.is_one_point(),
    {
        Crossover { mode: CrossoverMode::OnePointLeafBiased }
    }

    /// Crossover (mate) two individuals according to the configured
    /// mode: pick one preorder position in each tree, uniformly and
    /// independently, exchange the subtrees rooted there — ownership
    /// moves, nothing inside the subtrees is copied — and refresh both
    /// cached node counts. No compatibility constraint is placed on the
    /// swap points: exchanging subtrees of different shape is the very
    /// mechanism that introduces structural diversity.
    pub fn mate<T: Tree>(
        &self,
        indv1: &mut Individual<T>,
        indv2: &mut Individual<T>,
        rng: &mut rand::rngs::StdRng,
    ) -> (r: Result<(), GpError>)
        requires
            old(indv1).wf(),
            old(indv2).wf(),
        ensures
            self.is_one_point() ==> r is Ok && final (indv1).wf() && final (indv2).wf()
                && one_point_exchange(
                old(indv1).tree@,
                old(indv2).tree@,
                final (indv1).tree@,
                final (indv2).tree@,
            ),
            !self.is_one_point() ==> r == Err::<(), GpError>(GpError::Unsupported) && *final (
            indv1) == *old(indv1) && *final (indv2) == *old(indv2),
    {
        match self.mode {
            CrossoverMode::OnePoint => {
                self.mate_one_point(indv1, indv2, rng);
                Ok(())
            },
            CrossoverMode::OnePointLeafBiased => Err(GpError::Unsupported),
        }
    }

    /// One-point crossover proper. The two positions are drawn
    /// uniformly from each tree's preorder index range; the exchange
    /// itself is [`swap_subtrees`].
    fn mate_one_point<T: Tree>(
        &self,
        indv1: &mut Individual<T>,
        indv2: &mut Individual<T>,
        rng: &mut rand::rngs::StdRng,
    )
        requires
            old(indv1).wf(),
            old(indv2).wf(),
        ensures
            final (indv1).wf(),
            final (indv2).wf(),
            one_point_exchange(
                old(indv1).tree@,
                old(indv2).tree@,
                final (indv1).tree@,
                final (indv2).tree@,
            ),
    {
        proof {
            lemma_size_pos(old(indv1).tree@);
            lemma_size_pos(old(indv2).tree@);
        }
        let count1 = indv1.nodes_count();
        let count2 = indv2.nodes_count();
        let target_index1 = rand_inclusive(rng, 0, count1 - 1);
        let target_index2 = rand_inclusive(rng, 0, count2 - 1);
        // A throwaway leaf stands in for each tree while it is out of
        // its individual: the borrow must never see a hole.
        let mut tree1 = Node::Leaf(T::leaf(rng, 0));
        core::mem::swap(&mut indv1.tree, &mut tree1);
        let mut tree2 = Node::Leaf(T::leaf(rng, 0));
        core::mem::swap(&mut indv2.tree, &mut tree2);
        let (swapped1, swapped2) = swap_subtrees(tree1, target_index1, tree2, target_index2);
        let mut swapped1 = swapped1;
        core::mem::swap(&mut indv1.tree, &mut swapped1);
        let mut swapped2 = swapped2;
        core::mem::swap(&mut indv2.tree, &mut swapped2);
        indv1.recalculate_metadata();
        indv2.recalculate_metadata();
        proof {
            let ia = target_index1 as nat;
            let ib = target_index2 as nat;
            assert(indv1.tree@ == replace_at(
                old(indv1).tree@,
                ia,
                subtree_at(old(indv2).tree@, ib),
            ));
        }
    }
}

} // verus!
