//! Depth-bounded random tree generation: a [`TreeGen`] decides, at each
//! recursion depth, whether the node being generated becomes a terminal
//! (leaf) or a non-terminal, under one of three depth policies.
//!
//! Whatever the random source returns, every generated tree is well
//! formed and every leaf lands inside the policy's depth band; under the
//! `Perfect` policy all leaves land at one chosen depth. Those bounds
//! are the contracts of [`generate_tree`] and [`generate_node`].

use vstd::prelude::*;

use crate::GpError;
use crate::rng::rand_inclusive;
use crate::tree::{
    lemma_views_of, view_node, views_of, wf_seq, wf_view, Node, Tree, TreeView,
};

verus! {

/// The tree depth policy in use. See [`TreeGen`].
#[derive(PartialEq, Eq, Clone, Copy, Debug)]
pub enum TreeGenMode {
    /// All leaves at the one chosen depth. See [`TreeGen::perfect`].
    Perfect(usize),
    /// Leaves spread between the minimum and the maximum depth. See
    /// [`TreeGen::full`].
    Full,
    /// As `Full`, computed against a chosen depth in place of the
    /// maximum. See [`TreeGen::full_ranged`].
    FullRanged(usize),
}

/// Configures generation of trees: manages tree depth by deciding when
/// to generate a terminal (leaf) node.
///
/// A `TreeGen` is made for one generation call: the chosen depth of the
/// `Perfect` and `FullRanged` policies is fixed once, at construction.
#[derive(PartialEq, Eq, Clone, Copy, Debug)]
pub struct TreeGen {
    /// Which tree depth logic to use.
    pub mode: TreeGenMode,
    /// The minimum depth of trees to generate.
    pub min_depth: usize,
    /// The maximum depth of trees to generate.
    pub max_depth: usize,
}

impl TreeGen {
    /// A usable configuration: orderly bounds, and any chosen depth
    /// within them. The constructors only hand out such configurations.
    pub open spec fn wf(&self) -> bool {
        &&& self.min_depth <= self.max_depth
        &&& match self.mode {
            TreeGenMode::Perfect(d) => self.min_depth <= d <= self.max_depth,
            TreeGenMode::Full => true,
            TreeGenMode::FullRanged(d) => self.min_depth <= d <= self.max_depth,
        }
    }

    /// The depth at which generation always stops branching: the chosen
    /// depth under `Perfect` and `FullRanged`, the maximum depth under
    /// `Full`. No node is ever generated below it.
    pub open spec fn target_depth(&self) -> usize {
        match self.mode {
            TreeGenMode::Perfect(d) => d,
            TreeGenMode::Full => self.max_depth,
            TreeGenMode::FullRanged(d) => d,
        }
    }

    /// The shallowest depth at which a leaf can be placed: the chosen
    /// depth under `Perfect`, the minimum depth otherwise.
    pub open spec fn leaf_min_depth(&self) -> usize {
        match self.mode {
            TreeGenMode::Perfect(d) => d,
            TreeGenMode::Full => self.min_depth,
            TreeGenMode::FullRanged(_) => self.min_depth,
        }
    }

    /// Configure generation of perfect trees: all leaves at the same
    /// depth, chosen uniformly from `[min_depth, max_depth]` once, now.
    pub fn perfect(rng: &mut rand::rngs::StdRng, min_depth: usize, max_depth: usize) -> (r:
        Result<TreeGen, GpError>)
        ensures
            min_depth > max_depth <==> r is Err,
            r is Err ==> r->Err_0 == GpError::InvalidDepthBounds,
            r is Ok ==> (r->Ok_0).wf() && (r->Ok_0).min_depth == min_depth
                && (r->Ok_0).max_depth == max_depth && (r->Ok_0).mode is Perfect,
    {
        if min_depth > max_depth {
            Err(GpError::InvalidDepthBounds)
        } else {
            let chosen_depth = rand_inclusive(rng, min_depth, max_depth);
            Ok(
                TreeGen {
                    mode: TreeGenMode::Perfect(chosen_depth),
                    min_depth,
                    max_depth,
                },
            )
        }
    }

    /// Configure generation of full trees, with leaves at varying
    /// depths spread linearly between the minimum and maximum depth.
    pub fn full(min_depth: usize, max_depth: usize) -> (r: Result<TreeGen, GpError>)
        ensures
            min_depth > max_depth <==> r is Err,
            r is Err ==> r->Err_0 == GpError::InvalidDepthBounds,
            r is Ok ==> (r->Ok_0).wf() && (r->Ok_0).min_depth == min_depth
                && (r->Ok_0).max_depth == max_depth && (r->Ok_0).mode is Full,
    {
        if min_depth > max_depth {
            Err(GpError::InvalidDepthBounds)
        } else {
            Ok(TreeGen { mode: TreeGenMode::Full, min_depth, max_depth })
        }
    }

    /// Configure generation of full trees against a depth chosen
    /// uniformly from `[min_depth, max_depth]` once, now, in place of
    /// the maximum.
    pub fn full_ranged(rng: &mut rand::rngs::StdRng, min_depth: usize, max_depth: usize) -> (r:
        Result<TreeGen, GpError>)
        ensures
            min_depth > max_depth <==> r is Err,
            r is Err ==> r->Err_0 == GpError::InvalidDepthBounds,
            r is Ok ==> (r->Ok_0).wf() && (r->Ok_0).min_depth == min_depth
                && (r->Ok_0).max_depth == max_depth && (r->Ok_0).mode is FullRanged,
    {
        if min_depth > max_depth {
            Err(GpError::InvalidDepthBounds)
        } else {
            let chosen_depth = rand_inclusive(rng, min_depth, max_depth);
            Ok(
                TreeGen {
                    mode: TreeGenMode::FullRanged(chosen_depth),
                    min_depth,
                    max_depth,
                },
            )
        }
    }

    /// A fair coin picks between [`TreeGen::perfect`] and
    /// [`TreeGen::full_ranged`]; the choice is fixed for the lifetime of
    /// the configuration.
    pub fn half_and_half(rng: &mut rand::rngs::StdRng, min_depth: usize, max_depth: usize) -> (r:
        Result<TreeGen, GpError>)
        ensures
            min_depth > max_depth <==> r is Err,
            r is Err ==> r->Err_0 == GpError::InvalidDepthBounds,
            r is Ok ==> (r->Ok_0).wf() && (r->Ok_0).min_depth == min_depth
                && (r->Ok_0).max_depth == max_depth && ((r->Ok_0).mode is Perfect
                || (r->Ok_0).mode is FullRanged),
    {
        if rand_inclusive(rng, 0, 1) == 1 {
            Self::perfect(rng, min_depth, max_depth)
        } else {
            Self::full_ranged(rng, min_depth, max_depth)
        }
    }

    /// Decides whether the node being generated at `current_depth`
    /// becomes a leaf. Used by [`generate_node`].
    ///
    /// Under `Perfect` the answer is exact: a leaf if and only if the
    /// chosen depth is reached. Under `Full` and `FullRanged` the target
    /// depth forces a leaf, and from the minimum depth on a weighted
    /// coin — one chance in the width of the depth interval, a
    /// zero-width interval counting as certainty — may place one early.
    pub fn have_reached_a_leaf(&self, rng: &mut rand::rngs::StdRng, current_depth: usize) -> (r:
        bool)
        requires
            self.wf(),
            current_depth <= self.target_depth(),
        ensures
            current_depth == self.target_depth() ==> r,
            r ==> self.leaf_min_depth() <= current_depth <= self.target_depth(),
            self.mode is Perfect ==> (r <==> current_depth == self.target_depth()),
    {
        match self.mode {
            TreeGenMode::Perfect(chosen_depth) => current_depth == chosen_depth,
            TreeGenMode::Full => {
                let depth_interval = self.max_depth - self.min_depth;
                current_depth == self.max_depth || (current_depth >= self.min_depth && one_in(
                    rng,
                    depth_interval,
                ))
            },
            TreeGenMode::FullRanged(chosen_depth) => {
                let depth_interval = chosen_depth - self.min_depth;
                current_depth == chosen_depth || (current_depth >= self.min_depth && one_in(
                    rng,
                    depth_interval,
                ))
            },
        }
    }
}

/// A weighted coin: lands true with one chance in `n`. For `n <= 1` it
/// always lands true — a zero-width depth interval means "always a leaf
/// once the minimum depth is reached".
fn one_in(rng: &mut rand::rngs::StdRng, n: usize) -> bool {
    if n <= 1 {
        true
    } else {
        rand_inclusive(rng, 0, n - 1) == 0
    }
}

/// Every leaf of `t`, whose root stands at absolute depth `base`, lies
/// at an absolute depth within `[lo, hi]`.
pub open spec fn leaves_between<P>(t: TreeView<P>, base: nat, lo: nat, hi: nat) -> bool
    decreases t,
{
    match t {
        TreeView::Leaf(_) => lo <= base <= hi,
        TreeView::Branch(_, cs) => leaves_between_seq(cs, base + 1, lo, hi),
    }
}

/// Forest form of [`leaves_between`]: every tree's roots stand at the
/// same absolute depth `base`.
pub open spec fn leaves_between_seq<P>(s: Seq<TreeView<P>>, base: nat, lo: nat, hi: nat) -> bool
    decreases s,
{
    s.len() == 0 || (leaves_between(s[0], base, lo, hi) && leaves_between_seq(
        s.drop_first(),
        base,
        lo,
        hi,
    ))
}

/// Pointwise leaf bounds on the trees of a forest give the bound on the
/// whole forest.
proof fn lemma_leaves_seq<P>(s: Seq<TreeView<P>>, base: nat, lo: nat, hi: nat)
    requires
        forall|i: int| 0 <= i < s.len() ==> leaves_between(#[trigger] s[i], base, lo, hi),
    ensures
        leaves_between_seq(s, base, lo, hi),
    decreases s,
{
    if s.len() == 0 {
    } else {
        assert forall|i: int|
            0 <= i < s.drop_first().len() implies leaves_between(
            #[trigger] s.drop_first()[i],
            base,
            lo,
            hi,
        ) by {
            assert(s.drop_first()[i] == s[i + 1]);
        }
        lemma_leaves_seq(s.drop_first(), base, lo, hi);
    }
}

/// Pointwise well-formedness of the trees of a forest gives the
/// well-formedness of the whole forest.
proof fn lemma_wf_seq<P>(s: Seq<TreeView<P>>)
    requires
        forall|i: int| 0 <= i < s.len() ==> wf_view(#[trigger] s[i]),
    ensures
        wf_seq(s),
    decreases s,
{
    if s.len() == 0 {
    } else {
        assert forall|i: int| 0 <= i < s.drop_first().len() implies wf_view(
            #[trigger] s.drop_first()[i],
        ) by {
            assert(s.drop_first()[i] == s[i + 1]);
        }
        lemma_wf_seq(s.drop_first());
    }
}

/// Generate one random node to go into a tree at `current_depth`: the
/// policy decides leaf or branch; a leaf takes the domain's terminal
/// payload, a branch takes the domain's non-terminal payload and
/// recursively generated children at `current_depth + 1`.
///
/// Whatever the random source returns: the result is well formed, and
/// every leaf lands at an absolute depth within the policy's leaf band —
/// under `Perfect`, at exactly the chosen depth.
#[verifier::loop_isolation(false)]
pub fn generate_node<T: Tree>(tg: &TreeGen, rng: &mut rand::rngs::StdRng, current_depth: usize) -> (
    r: Node<T>)
    requires
        tg.wf(),
        current_depth <= tg.target_depth(),
    ensures
        wf_view(r@),
        leaves_between(
            r@,
            current_depth as nat,
            tg.leaf_min_depth() as nat,
            tg.target_depth() as nat,
        ),
    decreases tg.target_depth() - current_depth,
{
    if tg.have_reached_a_leaf(rng, current_depth) {
        Node::Leaf(T::leaf(rng, current_depth))
    } else {
        let (payload, arity) = T::branch(rng, current_depth);
        let mut children: Vec<Node<T>> = Vec::new();
        let mut k: usize = 0;
        while k < arity
            invariant
                k <= arity,
                children@.len() == k,
                forall|i: int| 0 <= i < k ==> wf_view(view_node(#[trigger] children@[i])),
                forall|i: int|
                    0 <= i < k ==> leaves_between(
                        view_node(#[trigger] children@[i]),
                        (current_depth + 1) as nat,
                        tg.leaf_min_depth() as nat,
                        tg.target_depth() as nat,
                    ),
            decreases arity - k,
        {
            let child = generate_node(tg, rng, current_depth + 1);
            children.push(child);
            k += 1;
        }
        proof {
            lemma_views_of(children@);
            lemma_wf_seq(views_of(children@));
            lemma_leaves_seq(
                views_of(children@),
                (current_depth + 1) as nat,
                tg.leaf_min_depth() as nat,
                tg.target_depth() as nat,
            );
        }
        Node::Branch(payload, children)
    }
}

/// Generate a whole new tree within the bounds of the configuration:
/// the same as generating the root node at depth 0. Every leaf of the
/// result lies within the policy's leaf band — under `Perfect`, all at
/// the one chosen depth.
pub fn generate_tree<T: Tree>(tg: &TreeGen, rng: &mut rand::rngs::StdRng) -> (r: Node<T>)
    requires
        tg.wf(),
    ensures
        wf_view(r@),
        leaves_between(r@, 0, tg.leaf_min_depth() as nat, tg.target_depth() as nat),
{
    generate_node(tg, rng, 0)
}

} // verus!
