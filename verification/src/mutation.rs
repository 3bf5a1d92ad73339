//! The mutation operator: replaces a randomly chosen subtree of one
//! individual with a freshly generated one. Further mutation strategies
//! are declared but intentionally left without working bodies; they fail
//! explicitly instead of silently doing nothing.

use vstd::prelude::*;

use crate::gen::{generate_tree, leaves_between, TreeGen};
use crate::individual::Individual;
use crate::rng::rand_inclusive;
use crate::tree::{
    lemma_size_pos, replace_at, replace_subtree, tree_size, wf_view, Node, Tree, TreeView,
};
use crate::GpError;

verus! {

/// The mutation mode in use. See [`Mutation`].
#[derive(PartialEq, Eq, Clone, Copy, Debug)]
enum MutationMode {
    /// Corresponds to [`Mutation::shrink`].
    Shrink,
    /// Corresponds to [`Mutation::uniform`].
    Uniform,
    /// Corresponds to [`Mutation::node_replacement`].
    NodeReplacement,
    /// Corresponds to [`Mutation::ephemeral_one`] and
    /// [`Mutation::ephemeral_all`].
    Ephemeral(EphemeralMode),
    /// Corresponds to [`Mutation::insert`].
    Insert,
}

/// Modes of ephemeral mutation. See [`MutationMode::Ephemeral`].
#[derive(PartialEq, Eq, Clone, Copy, Debug)]
enum EphemeralMode {
    One,
    All,
}

/// Performs mutation on an individual.
#[derive(PartialEq, Eq, Clone, Copy, Debug)]
pub struct Mutation {
    mode: MutationMode,
}

/// Uniform subtree replacement happened: for some in-range preorder
/// position, the tree now carries a freshly generated, well-formed
/// subtree whose own leaves all lie within the generator's leaf band.
pub open spec fn uniform_replacement<P>(t0: TreeView<P>, t1: TreeView<P>, lo: nat, hi: nat) -> bool {
    exists|i: nat, s: TreeView<P>|
        i < tree_size(t0) && wf_view(s) && leaves_between(s, 0, lo, hi) && t1
            == #[trigger] replace_at(t0, i, s)
}

impl Mutation {
    /// Whether this operator performs uniform subtree replacement — the
    /// one implemented mode.
    pub closed spec fn is_uniform(&self) -> bool {
        self.mode is Uniform
    }

    /// Mutation by replacing a random node with one of its children.
    /// Declared, not implemented: [`Mutation::mutate`] reports it
    /// unsupported.
    pub fn shrink() -> (r: Mutation)
        ensures
            !r.is_uniform(),
    {
        Mutation { mode: MutationMode::Shrink }
    }

    /// Mutation by replacing a randomly chosen node with a freshly
    /// generated subtree.
    pub fn uniform() -> (r: Mutation)
        ensures
            r.is_uniform(),
    {
        Mutation { mode: MutationMode::Uniform }
    }

    /// Mutation by replacing a random node while preserving its number
    /// of children. Declared, not implemented: [`Mutation::mutate`]
    /// reports it unsupported.
    pub fn node_replacement() -> (r: Mutation)
        ensures
            !r.is_uniform(),
    {
        Mutation { mode: MutationMode::NodeReplacement }
    }

    /// Mutation by resampling one constant value of the tree. Declared,
    /// not implemented: [`Mutation::mutate`] reports it unsupported.
    pub fn ephemeral_one() -> (r: Mutation)
        ensures
            !r.is_uniform(),
    {
        Mutation { mode: MutationMode::Ephemeral(EphemeralMode::One) }
    }

    /// Mutation by resampling all constant values of the tree.
    /// Declared, not implemented: [`Mutation::mutate`] reports it
    /// unsupported.
    pub fn ephemeral_all() -> (r: Mutation)
        ensures
            !r.is_uniform(),
    {
        Mutation { mode: MutationMode::Ephemeral(EphemeralMode::All) }
    }

    /// Mutation by inserting a new intermediate node at a random
    /// position. Declared, not implemented: [`Mutation::mutate`]
    /// reports it unsupported.
    pub fn insert() -> (r: Mutation)
        ensures
            !r.is_uniform(),
    {
        Mutation { mode: MutationMode::Insert }
    }

    /// Mutate an individual according to the configured mode. Under
    /// uniform replacement: pick a target position uniformly from the
    /// tree's preorder index range, generate a brand-new tree within the
    /// bounds of `tg`, put it in place of the subtree at the target —
    /// one pass, stopping at the replacement — and refresh the cached
    /// node count. Every other mode fails with a distinct signal.
    pub fn mutate<T: Tree>(
        &self,
        indv: &mut Individual<T>,
        tg: &TreeGen,
        rng: &mut rand::rngs::StdRng,
    ) -> (r: Result<(), GpError>)
        requires
            old(indv).wf(),
            tg.wf(),
        ensures
            self.is_uniform() ==> r is Ok && final (indv).wf() && uniform_replacement(
                old(indv).tree@,
                final (indv).tree@,
                tg.leaf_min_depth() as nat,
                tg.target_depth() as nat,
            ),
            !self.is_uniform() ==> r == Err::<(), GpError>(GpError::Unsupported) && *final (indv)
                == *old(indv),
    {
        match self.mode {
            MutationMode::Uniform => {
                self.mutate_uniform(indv, tg, rng);
                Ok(())
            },
            MutationMode::Shrink => Err(GpError::Unsupported),
            MutationMode::NodeReplacement => Err(GpError::Unsupported),
            MutationMode::Ephemeral(_) => Err(GpError::Unsupported),
            MutationMode::Insert => Err(GpError::Unsupported),
        }
    }

    /// Uniform subtree replacement proper. The target position is drawn
    /// uniformly from the preorder index range; the edit itself is
    /// [`replace_subtree`].
    fn mutate_uniform<T: Tree>(
        &self,
        indv: &mut Individual<T>,
        tg: &TreeGen,
        rng: &mut rand::rngs::StdRng,
    )
        requires
            old(indv).wf(),
            tg.wf(),
        ensures
            final (indv).wf(),
            uniform_replacement(
                old(indv).tree@,
                final (indv).tree@,
                tg.leaf_min_depth() as nat,
                tg.target_depth() as nat,
            ),
    {
        proof {
            lemma_size_pos(old(indv).tree@);
        }
        let count = indv.nodes_count();
        let target_index = rand_inclusive(rng, 0, count - 1);
        let replacement = generate_tree::<T>(tg, rng);
        let ghost replacement_view = replacement@;
        // A throwaway leaf stands in for the tree while it is out of
        // its individual: the borrow must never see a hole.
        let mut tree = Node::Leaf(T::leaf(rng, 0));
        core::mem::swap(&mut indv.tree, &mut tree);
        let (mutated, _replaced) = replace_subtree(tree, target_index, replacement);
        let mut mutated = mutated;
        core::mem::swap(&mut indv.tree, &mut mutated);
        indv.recalculate_metadata();
        proof {
            let i = target_index as nat;
            assert(indv.tree@ == replace_at(old(indv).tree@, i, replacement_view));
        }
    }
}

} // verus!
