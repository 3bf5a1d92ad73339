//! The tree type shared by every genetic program, its mathematical model,
//! and the preorder traversal primitives that the evolutionary operators
//! are built on.
//!
//! A tree is a [`Node`]: a domain payload together with the node's children.
//! The engine owns the shape of the tree, so the child list reported to the
//! traversal engine is by construction the child list that is stored; domain
//! code only supplies payloads and an evaluator (see [`Tree`]), and
//! [`Evaluable`] offers a tree to the engine's users as something to run.
//!
//! Every node of a tree has a zero-based *preorder index*: a node is visited
//! before its children, children are visited left to right, and the index
//! increments once per visited node, starting at 0 for the root. The spec
//! functions [`subtree_at`] and [`replace_at`] address subtrees by that
//! index, and every traversal operation is specified against them.

use vstd::prelude::*;
use crate::clamped;

verus! {

/// One node of a genetic-program tree: a payload of the domain type `P`
/// plus the node's children, in left-to-right order.
///
/// A `Leaf` is a terminal (no children); a `Branch` is a non-terminal and
/// is well formed only with at least one child (see [`wf_view`]).
#[derive(Debug, PartialEq, Eq)]
pub enum Node<P> {
    /// A terminal node.
    Leaf(P),
    /// A non-terminal node with its ordered children.
    Branch(P, Vec<Node<P>>),
}

/// The mathematical model of a [`Node`]: the same shape with the child
/// vector abstracted to a sequence.
#[verifier::ext_equal]
pub enum TreeView<P> {
    /// A terminal node.
    Leaf(P),
    /// A non-terminal node with its ordered children.
    Branch(P, Seq<TreeView<P>>),
}

/// The model of a node: payload kept as is, children modelled recursively.
pub open spec fn view_node<P>(t: Node<P>) -> TreeView<P>
    decreases t,
{
    match t {
        Node::Leaf(p) => TreeView::Leaf(p),
        Node::Branch(p, cs) => TreeView::Branch(p, views_of(cs@)),
    }
}

/// The models of a sequence of nodes, in order.
pub open spec fn views_of<P>(s: Seq<Node<P>>) -> Seq<TreeView<P>>
    decreases s,
{
    if s.len() == 0 {
        Seq::empty()
    } else {
        seq![view_node(s[0])] + views_of(s.drop_first())
    }
}

impl<P> View for Node<P> {
    type V = TreeView<P>;

    open spec fn view(&self) -> TreeView<P> {
        view_node(*self)
    }
}

/// The number of nodes in a tree: a terminal counts 1, a non-terminal
/// counts 1 plus the sizes of its children.
pub open spec fn tree_size<P>(t: TreeView<P>) -> nat
    decreases t,
{
    match t {
        TreeView::Leaf(_) => 1,
        TreeView::Branch(_, cs) => 1 + seq_size(cs),
    }
}

/// The total number of nodes in a sequence of trees.
pub open spec fn seq_size<P>(s: Seq<TreeView<P>>) -> nat
    decreases s,
{
    if s.len() == 0 {
        0
    } else {
        tree_size(s[0]) + seq_size(s.drop_first())
    }
}

/// A well-formed tree: every non-terminal has at least one child.
pub open spec fn wf_view<P>(t: TreeView<P>) -> bool
    decreases t,
{
    match t {
        TreeView::Leaf(_) => true,
        TreeView::Branch(_, cs) => cs.len() >= 1 && wf_seq(cs),
    }
}

/// Well-formedness of a sequence of trees.
pub open spec fn wf_seq<P>(s: Seq<TreeView<P>>) -> bool
    decreases s,
{
    s.len() == 0 || (wf_view(s[0]) && wf_seq(s.drop_first()))
}

/// Every tree holds at least its root.
pub proof fn lemma_size_pos<P>(t: TreeView<P>)
    ensures
        tree_size(t) >= 1,
{
}

/// The subtree rooted at preorder index `i` of `t`.
///
/// Index 0 is the tree itself; the remaining indices are distributed over
/// the children left to right, each child owning a block of consecutive
/// indices as long as its size. For `i >= tree_size(t)` the result is
/// meaningless.
pub open spec fn subtree_at<P>(t: TreeView<P>, i: nat) -> TreeView<P>
    decreases t,
{
    if i == 0 {
        t
    } else {
        match t {
            TreeView::Leaf(_) => t,
            TreeView::Branch(_, cs) => subtree_in_seq(cs, (i - 1) as nat),
        }
    }
}

/// The subtree at preorder index `i` of a forest, counting across the
/// trees from left to right.
pub open spec fn subtree_in_seq<P>(s: Seq<TreeView<P>>, i: nat) -> TreeView<P>
    decreases s,
{
    if s.len() == 0 {
        arbitrary()
    } else if i < tree_size(s[0]) {
        subtree_at(s[0], i)
    } else {
        subtree_in_seq(s.drop_first(), (i - tree_size(s[0])) as nat)
    }
}

/// `t` with the subtree at preorder index `i` replaced by `s`.
/// For `i >= tree_size(t)` the tree is unchanged.
pub open spec fn replace_at<P>(t: TreeView<P>, i: nat, s: TreeView<P>) -> TreeView<P>
    decreases t,
{
    if i == 0 {
        s
    } else {
        match t {
            TreeView::Leaf(_) => t,
            TreeView::Branch(p, cs) => TreeView::Branch(p, replace_in_seq(cs, (i - 1) as nat, s)),
        }
    }
}

/// A forest with the subtree at preorder index `i` replaced by `s`.
pub open spec fn replace_in_seq<P>(cs: Seq<TreeView<P>>, i: nat, s: TreeView<P>) -> Seq<
    TreeView<P>,
>
    decreases cs,
{
    if cs.len() == 0 {
        cs
    } else if i < tree_size(cs[0]) {
        seq![replace_at(cs[0], i, s)] + cs.drop_first()
    } else {
        seq![cs[0]] + replace_in_seq(cs.drop_first(), (i - tree_size(cs[0])) as nat, s)
    }
}

/// A subtree never reaches past the end of its tree: the `i` nodes that
/// precede preorder index `i` and the subtree rooted there all fit in `t`.
pub proof fn lemma_subtree_size<P>(t: TreeView<P>, i: nat)
    requires
        i < tree_size(t),
    ensures
        i + tree_size(subtree_at(t, i)) <= tree_size(t),
    decreases t,
{
    if i == 0 {
    } else {
        match t {
            TreeView::Leaf(_) => {},
            TreeView::Branch(_, cs) => {
                lemma_subtree_size_seq(cs, (i - 1) as nat);
            },
        }
    }
}

/// Forest form of [`lemma_subtree_size`].
pub proof fn lemma_subtree_size_seq<P>(s: Seq<TreeView<P>>, i: nat)
    requires
        i < seq_size(s),
    ensures
        i + tree_size(subtree_in_seq(s, i)) <= seq_size(s),
    decreases s,
{
    if s.len() == 0 {
    } else if i < tree_size(s[0]) {
        lemma_subtree_size(s[0], i);
    } else {
        lemma_subtree_size_seq(s.drop_first(), (i - tree_size(s[0])) as nat);
    }
}

/// Replacing the subtree at index `i` exchanges exactly that subtree's
/// size: the rest of the tree keeps its nodes.
pub proof fn lemma_replace_size<P>(t: TreeView<P>, i: nat, s: TreeView<P>)
    requires
        i < tree_size(t),
    ensures
        tree_size(replace_at(t, i, s)) + tree_size(subtree_at(t, i)) == tree_size(t)
            + tree_size(s),
    decreases t,
{
    if i == 0 {
    } else {
        match t {
            TreeView::Leaf(_) => {},
            TreeView::Branch(_, cs) => {
                lemma_replace_size_seq(cs, (i - 1) as nat, s);
            },
        }
    }
}

/// Forest form of [`lemma_replace_size`].
pub proof fn lemma_replace_size_seq<P>(cs: Seq<TreeView<P>>, i: nat, s: TreeView<P>)
    requires
        i < seq_size(cs),
    ensures
        seq_size(replace_in_seq(cs, i, s)) + tree_size(subtree_in_seq(cs, i)) == seq_size(cs)
            + tree_size(s),
    decreases cs,
{
    if cs.len() == 0 {
    } else if i < tree_size(cs[0]) {
        lemma_replace_size(cs[0], i, s);
        let r = seq![replace_at(cs[0], i, s)] + cs.drop_first();
        assert(r.drop_first() =~= cs.drop_first());
    } else {
        lemma_replace_size_seq(cs.drop_first(), (i - tree_size(cs[0])) as nat, s);
        let r = seq![cs[0]] + replace_in_seq(cs.drop_first(), (i - tree_size(cs[0])) as nat, s);
        assert(r.drop_first() =~= replace_in_seq(
            cs.drop_first(),
            (i - tree_size(cs[0])) as nat,
            s,
        ));
    }
}

/// After replacing the subtree at index `i` with `s`, the subtree at
/// index `i` of the result is exactly `s`: the nodes before `i` in
/// preorder are untouched, so the replacement lands at the same index.
pub proof fn lemma_replace_lands<P>(t: TreeView<P>, i: nat, s: TreeView<P>)
    requires
        i < tree_size(t),
    ensures
        subtree_at(replace_at(t, i, s), i) == s,
    decreases t,
{
    if i == 0 {
    } else {
        match t {
            TreeView::Leaf(_) => {},
            TreeView::Branch(_, cs) => {
                lemma_replace_lands_seq(cs, (i - 1) as nat, s);
            },
        }
    }
}

/// Forest form of [`lemma_replace_lands`].
pub proof fn lemma_replace_lands_seq<P>(cs: Seq<TreeView<P>>, i: nat, s: TreeView<P>)
    requires
        i < seq_size(cs),
    ensures
        subtree_in_seq(replace_in_seq(cs, i, s), i) == s,
    decreases cs,
{
    if cs.len() == 0 {
    } else if i < tree_size(cs[0]) {
        lemma_replace_size(cs[0], i, s);
        lemma_subtree_size(cs[0], i);
        lemma_size_pos(s);
        // i stays inside the replaced first tree, whose size is still > i.
        lemma_replace_lands(cs[0], i, s);
        let r = seq![replace_at(cs[0], i, s)] + cs.drop_first();
        assert(r[0] == replace_at(cs[0], i, s));
    } else {
        let i2 = (i - tree_size(cs[0])) as nat;
        lemma_replace_lands_seq(cs.drop_first(), i2, s);
        let r = seq![cs[0]] + replace_in_seq(cs.drop_first(), i2, s);
        assert(r.drop_first() =~= replace_in_seq(cs.drop_first(), i2, s));
    }
}

/// Undoing a replacement: putting the original subtree back at the same
/// preorder index restores the original tree.
pub proof fn lemma_replace_restore<P>(t: TreeView<P>, i: nat, s: TreeView<P>)
    requires
        i < tree_size(t),
    ensures
        replace_at(replace_at(t, i, s), i, subtree_at(t, i)) == t,
    decreases t,
{
    if i == 0 {
    } else {
        match t {
            TreeView::Leaf(_) => {},
            TreeView::Branch(p, cs) => {
                lemma_replace_restore_seq(cs, (i - 1) as nat, s);
            },
        }
    }
}

/// Forest form of [`lemma_replace_restore`].
pub proof fn lemma_replace_restore_seq<P>(cs: Seq<TreeView<P>>, i: nat, s: TreeView<P>)
    requires
        i < seq_size(cs),
    ensures
        replace_in_seq(replace_in_seq(cs, i, s), i, subtree_in_seq(cs, i)) == cs,
    decreases cs,
{
    if cs.len() == 0 {
    } else if i < tree_size(cs[0]) {
        lemma_replace_size(cs[0], i, s);
        lemma_subtree_size(cs[0], i);
        lemma_size_pos(s);
        lemma_replace_restore(cs[0], i, s);
        let r = seq![replace_at(cs[0], i, s)] + cs.drop_first();
        assert(r[0] == replace_at(cs[0], i, s));
        assert(r.drop_first() =~= cs.drop_first());
        let rr = replace_in_seq(r, i, subtree_in_seq(cs, i));
        assert(rr =~= cs);
    } else {
        let i2 = (i - tree_size(cs[0])) as nat;
        lemma_replace_restore_seq(cs.drop_first(), i2, s);
        let r = seq![cs[0]] + replace_in_seq(cs.drop_first(), i2, s);
        assert(r.drop_first() =~= replace_in_seq(cs.drop_first(), i2, s));
        let rr = replace_in_seq(r, i, subtree_in_seq(cs, i));
        assert(rr =~= cs);
    }
}

/// The model of a node sequence is the sequence of the models, pointwise.
pub proof fn lemma_views_of<P>(s: Seq<Node<P>>)
    ensures
        views_of(s).len() == s.len(),
        forall|i: int| 0 <= i < s.len() ==> #[trigger] views_of(s)[i] == view_node(s[i]),
    decreases s,
{
    if s.len() == 0 {
    } else {
        lemma_views_of(s.drop_first());
        assert forall|i: int| 0 <= i < s.len() implies #[trigger] views_of(s)[i] == view_node(
            s[i],
        ) by {
            if i > 0 {
                assert(views_of(s)[i] == views_of(s.drop_first())[i - 1]);
            }
        }
    }
}

/// Appending one tree to a forest adds exactly its size.
pub proof fn lemma_seq_size_push<P>(s: Seq<TreeView<P>>, x: TreeView<P>)
    ensures
        seq_size(s.push(x)) == seq_size(s) + tree_size(x),
    decreases s,
{
    if s.len() == 0 {
        assert(s.push(x)[0] == x);
        assert(s.push(x).drop_first() =~= Seq::<TreeView<P>>::empty());
        assert(seq_size(s.push(x)) == tree_size(s.push(x)[0]) + seq_size(s.push(x).drop_first()));
        assert(seq_size(Seq::<TreeView<P>>::empty()) == 0);
    } else {
        assert(s.push(x)[0] == s[0]);
        assert(s.push(x).drop_first() =~= s.drop_first().push(x));
        lemma_seq_size_push(s.drop_first(), x);
        assert(seq_size(s.push(x)) == tree_size(s.push(x)[0]) + seq_size(s.push(x).drop_first()));
        assert(seq_size(s) == tree_size(s[0]) + seq_size(s.drop_first()));
    }
}

/// Locating a preorder index inside a forest: when the target index `i`
/// lies past the first `k` trees and inside tree `k`, indexing and
/// replacement both land in tree `k`, at the local index that remains
/// after discounting the trees already passed.
pub proof fn lemma_walk_step<P>(s: Seq<TreeView<P>>, k: int, i: nat, x: TreeView<P>)
    requires
        0 <= k < s.len(),
        seq_size(s.take(k)) <= i,
        i - seq_size(s.take(k)) < tree_size(s[k]),
    ensures
        subtree_in_seq(s, i) == subtree_at(s[k], (i - seq_size(s.take(k))) as nat),
        replace_in_seq(s, i, x) =~= s.update(
            k,
            replace_at(s[k], (i - seq_size(s.take(k))) as nat, x),
        ),
    decreases k,
{
    if k == 0 {
        assert(s.take(0) =~= Seq::<TreeView<P>>::empty());
        assert(seq_size(s.take(0)) == 0);
        assert(replace_in_seq(s, i, x) == seq![replace_at(s[0], i, x)] + s.drop_first());
        assert(seq![replace_at(s[0], i, x)] + s.drop_first() =~= s.update(
            0,
            replace_at(s[0], i, x),
        ));
    } else {
        assert(s.take(k)[0] == s[0]);
        assert(s.take(k).drop_first() =~= s.drop_first().take(k - 1));
        assert(seq_size(s.take(k)) == tree_size(s[0]) + seq_size(s.drop_first().take(k - 1)));
        let i2 = (i - tree_size(s[0])) as nat;
        assert(s.drop_first()[k - 1] == s[k]);
        lemma_walk_step(s.drop_first(), k - 1, i2, x);
        let local = (i - seq_size(s.take(k))) as nat;
        assert(subtree_in_seq(s, i) == subtree_in_seq(s.drop_first(), i2));
        assert(replace_in_seq(s, i, x) == seq![s[0]] + replace_in_seq(s.drop_first(), i2, x));
        assert(seq![s[0]] + s.drop_first().update(k - 1, replace_at(s[k], local, x)) =~= s.update(
            k,
            replace_at(s[k], local, x),
        ));
    }
}

/// Outcome of a countdown walk over one tree of a forest.
enum WalkOutcome<P> {
    /// The countdown reached zero inside this tree; holds the subtree
    /// that stood at the target position.
    Found(Node<P>),
    /// The whole tree was passed without reaching zero: the countdown
    /// that remains for the trees to the right, and the replacement
    /// handed back unused.
    Missing(usize, Node<P>),
}

/// A prefix of a forest never holds more nodes than the whole forest.
pub proof fn lemma_seq_size_take_bound<P>(s: Seq<TreeView<P>>, m: int)
    requires
        0 <= m <= s.len(),
    ensures
        seq_size(s.take(m)) <= seq_size(s),
    decreases s,
{
    if m == 0 {
        assert(s.take(0) =~= Seq::<TreeView<P>>::empty());
    } else {
        assert(s.take(m)[0] == s[0]);
        assert(s.take(m).drop_first() =~= s.drop_first().take(m - 1));
        lemma_seq_size_take_bound(s.drop_first(), m - 1);
    }
}

/// One preorder pass with a countdown, replacing in place: visits `t`'s
/// nodes in preorder (a node before its children, children left to
/// right), decrementing `c` once per node. If the countdown reaches zero
/// the subtree rooted there is cut out and `s` put in its place.
#[verifier::loop_isolation(false)]
fn replace_walk<P>(t: Node<P>, c: usize, s: Node<P>) -> (r: (Node<P>, WalkOutcome<P>))
    ensures
        c < tree_size(t@) ==> r.1 is Found && r.0@ == replace_at(t@, c as nat, s@)
            && r.1->Found_0@ == subtree_at(t@, c as nat),
        c >= tree_size(t@) ==> r.1 is Missing && r.0@ == t@ && r.1->Missing_0 as nat == c
            - tree_size(t@) && r.1->Missing_1 == s,
    decreases t,
{
    let ghost t0 = t;
    match t {
        Node::Leaf(p) => {
            if c == 0 {
                (s, WalkOutcome::Found(Node::Leaf(p)))
            } else {
                (Node::Leaf(p), WalkOutcome::Missing(c - 1, s))
            }
        },
        Node::Branch(p, mut cs) => {
            if c == 0 {
                (s, WalkOutcome::Found(Node::Branch(p, cs)))
            } else {
                let ghost csv0 = cs;
                let ghost cs0 = cs@;
                let ghost cvs = views_of(cs@);
                proof {
                    lemma_views_of(cs0);
                    assert(cvs.take(0) =~= Seq::<TreeView<P>>::empty());
                }
                let mut rem: usize = c - 1;
                let mut carry = s;
                let mut k: usize = 0;
                while k < cs.len()
                    invariant
                        1 <= c,
                        t0 == Node::Branch(p, csv0),
                        csv0@ == cs0,
                        cvs == views_of(cs0),
                        cvs.len() == cs0.len(),
                        forall|i: int| 0 <= i < cs0.len() ==> #[trigger] cvs[i] == view_node(
                            cs0[i],
                        ),
                        k <= cs@.len(),
                        cs@.len() == cs0.len(),
                        forall|i: int| k <= i < cs0.len() ==> cs@[i] == cs0[i],
                        forall|i: int|
                            0 <= i < k ==> view_node(#[trigger] cs@[i]) == view_node(cs0[i]),
                        seq_size(cvs.take(k as int)) <= c - 1,
                        rem as nat == c - 1 - seq_size(cvs.take(k as int)),
                        carry == s,
                    decreases cs@.len() - k,
                {
                    proof {
                        assert(decreases_to!(t0 => t0->Branch_1));
                        assert(decreases_to!(csv0 => csv0@));
                        assert(decreases_to!(cs0 => cs0[k as int]));
                        assert(decreases_to!(t0 => cs0[k as int]));
                    }
                    let ghost cs_pre = cs@;
                    let child = cs.remove(k);
                    let (child2, out) = replace_walk(child, rem, carry);
                    cs.insert(k, child2);
                    proof {
                        assert(cs@ =~= cs_pre.update(k as int, child2));
                        assert(cvs.take(k + 1) =~= cvs.take(k as int).push(cvs[k as int]));
                        lemma_seq_size_push(cvs.take(k as int), cvs[k as int]);
                    }
                    match out {
                        WalkOutcome::Found(old_sub) => {
                            proof {
                                lemma_walk_step(cvs, k as int, (c - 1) as nat, s@);
                                lemma_views_of(cs@);
                                assert(views_of(cs@) =~= cvs.update(k as int, child2@));
                                lemma_seq_size_take_bound(cvs, k + 1);
                            }
                            return (Node::Branch(p, cs), WalkOutcome::Found(old_sub));
                        },
                        WalkOutcome::Missing(r2, s2) => {
                            rem = r2;
                            carry = s2;
                            k += 1;
                        },
                    }
                }
                proof {
                    assert(cvs.take(cs0.len() as int) =~= cvs);
                    lemma_views_of(cs@);
                    assert(views_of(cs@) =~= cvs);
                }
                (Node::Branch(p, cs), WalkOutcome::Missing(rem, carry))
            }
        },
    }
}
fn sat_add(a: usize, b: usize) -> (r: usize)
    ensures
        r as nat == clamped(a as nat + b as nat),
{
    if a > usize::MAX - b {
        usize::MAX
    } else {
        a + b
    }
}

/// Outcome of a two-tree swap walk.
enum SwapOutcome {
    /// The target index was found and the exchange performed.
    Done,
    /// The target index lies past this tree: the countdown that remains.
    NotFound(usize),
}

/// Preorder countdown walk over `t` that, on reaching index `c`,
/// exchanges the subtree rooted there with the subtree of `other` at
/// preorder index `oc`. If `oc` is out of range for `other`, both trees
/// come back unchanged.
#[verifier::loop_isolation(false)]
fn swap_walk<P>(t: Node<P>, c: usize, other: Node<P>, oc: usize) -> (r: (
    Node<P>,
    Node<P>,
    SwapOutcome,
))
    ensures
        c < tree_size(t@) && oc < tree_size(other@) ==> r.2 is Done && r.0@ == replace_at(
            t@,
            c as nat,
            subtree_at(other@, oc as nat),
        ) && r.1@ == replace_at(other@, oc as nat, subtree_at(t@, c as nat)),
        c < tree_size(t@) && oc >= tree_size(other@) ==> r.2 is Done && r.0@ == t@ && r.1@
            == other@,
        c >= tree_size(t@) ==> r.2 is NotFound && r.0@ == t@ && r.1@ == other@
            && r.2->NotFound_0 as nat == c - tree_size(t@),
    decreases t,
{
    let ghost t0 = t;
    if c == 0 {
        proof {
            lemma_size_pos(t0@);
        }
        let (o2, out) = replace_walk(other, oc, t);
        match out {
            WalkOutcome::Found(old_sub) => (old_sub, o2, SwapOutcome::Done),
            WalkOutcome::Missing(_, t_back) => (t_back, o2, SwapOutcome::Done),
        }
    } else {
        match t {
            Node::Leaf(p) => (Node::Leaf(p), other, SwapOutcome::NotFound(c - 1)),
            Node::Branch(p, mut cs) => {
                let ghost csv0 = cs;
                let ghost cs0 = cs@;
                let ghost cvs = views_of(cs@);
                proof {
                    lemma_views_of(cs0);
                    assert(cvs.take(0) =~= Seq::<TreeView<P>>::empty());
                }
                let mut rem: usize = c - 1;
                let mut oth = other;
                let mut k: usize = 0;
                while k < cs.len()
                    invariant
                        cvs.len() == cs0.len(),
                        forall|i: int| 0 <= i < cs0.len() ==> #[trigger] cvs[i] == view_node(
                            cs0[i],
                        ),
                        k <= cs@.len(),
                        cs@.len() == cs0.len(),
                        forall|i: int| k <= i < cs0.len() ==> cs@[i] == cs0[i],
                        forall|i: int|
                            0 <= i < k ==> view_node(#[trigger] cs@[i]) == view_node(cs0[i]),
                        seq_size(cvs.take(k as int)) <= c - 1,
                        rem as nat == c - 1 - seq_size(cvs.take(k as int)),
                        oth@ == other@,
                    decreases cs@.len() - k,
                {
                    proof {
                        assert(decreases_to!(t0 => t0->Branch_1));
                        assert(decreases_to!(csv0 => csv0@));
                        assert(decreases_to!(cs0 => cs0[k as int]));
                        assert(decreases_to!(t0 => cs0[k as int]));
                    }
                    let ghost cs_pre = cs@;
                    let child = cs.remove(k);
                    let (child2, oth2, out) = swap_walk(child, rem, oth, oc);
                    oth = oth2;
                    cs.insert(k, child2);
                    proof {
                        assert(cs@ =~= cs_pre.update(k as int, child2));
                        assert(cvs.take(k + 1) =~= cvs.take(k as int).push(cvs[k as int]));
                        lemma_seq_size_push(cvs.take(k as int), cvs[k as int]);
                    }
                    match out {
                        SwapOutcome::Done => {
                            proof {
                                lemma_walk_step(
                                    cvs,
                                    k as int,
                                    (c - 1) as nat,
                                    subtree_at(other@, oc as nat),
                                );
                                lemma_views_of(cs@);
                                assert(views_of(cs@) =~= cvs.update(k as int, child2@));
                                lemma_seq_size_take_bound(cvs, k + 1);
                                assert(oc >= tree_size(other@) ==> (views_of(cs@) =~= cvs));
                            }
                            return (Node::Branch(p, cs), oth, SwapOutcome::Done);
                        },
                        SwapOutcome::NotFound(r2) => {
                            rem = r2;
                            k += 1;
                        },
                    }
                }
                proof {
                    assert(cvs.take(cs0.len() as int) =~= cvs);
                    lemma_views_of(cs@);
                    assert(views_of(cs@) =~= cvs);
                }
                (Node::Branch(p, cs), oth, SwapOutcome::NotFound(rem))
            },
        }
    }
}

/// Put `replacement` at preorder index `index` of `t`; the result is the
/// edited tree together with the subtree that stood there.
pub fn replace_subtree<P>(t: Node<P>, index: usize, replacement: Node<P>) -> (r: (
    Node<P>,
    Node<P>,
))
    requires
        index < tree_size(t@),
    ensures
        r.0@ == replace_at(t@, index as nat, replacement@),
        r.1@ == subtree_at(t@, index as nat),
{
    let (nt, out) = replace_walk(t, index, replacement);
    match out {
        WalkOutcome::Found(old_sub) => (nt, old_sub),
        WalkOutcome::Missing(_, _) => unreached(),
    }
}

/// Exchange the subtree of `a` at preorder index `ia` with the subtree
/// of `b` at preorder index `ib`. Nothing is copied: the two subtrees
/// change owners.
pub fn swap_subtrees<P>(a: Node<P>, ia: usize, b: Node<P>, ib: usize) -> (r: (Node<P>, Node<P>))
    requires
        ia < tree_size(a@),
        ib < tree_size(b@),
    ensures
        r.0@ == replace_at(a@, ia as nat, subtree_at(b@, ib as nat)),
        r.1@ == replace_at(b@, ib as nat, subtree_at(a@, ia as nat)),
{
    let (a2, b2, _out) = swap_walk(a, ia, b, ib);
    (a2, b2)
}

impl<P> Node<P> {
    /// The number of nodes in this tree, the root included: a terminal
    /// counts 1, a non-terminal 1 plus the counts of its children.
    ///
    /// The count saturates at `usize::MAX`; a tree with more nodes than a
    /// `usize` can count cannot be built in an address space this size.
    pub fn count_nodes(&self) -> (r: usize)
        ensures
            r as nat == clamped(tree_size(self@)),
        decreases *self,
    {
        match self {
            Node::Leaf(_) => 1,
            Node::Branch(_, cs) => {
                let ghost vs = views_of(cs@);
                let mut acc: usize = 1;
                let mut k: usize = 0;
                proof {
                    lemma_views_of(cs@);
                    assert(vs.take(0) =~= Seq::<TreeView<P>>::empty());
                }
                while k < cs.len()
                    invariant
                        *self is Branch,
                        *cs == self->Branch_1,
                        k <= cs.len(),
                        vs == views_of(cs@),
                        vs.len() == cs@.len(),
                        forall|i: int| 0 <= i < cs@.len() ==> #[trigger] vs[i] == view_node(
                            cs@[i],
                        ),
                        acc as nat == clamped(1 + seq_size(vs.take(k as int))),
                    decreases cs@.len() - k,
                {
                    proof {
                        assert(decreases_to!(*self => self->Branch_1));
                        assert(decreases_to!(*self => cs@[k as int]));
                    }
                    let c = cs[k].count_nodes();
                    proof {
                        assert(vs.take(k + 1) =~= vs.take(k as int).push(vs[k as int]));
                        lemma_seq_size_push(vs.take(k as int), vs[k as int]);
                    }
                    acc = sat_add(acc, c);
                    k += 1;
                }
                proof {
                    assert(vs.take(cs@.len() as int) =~= vs);
                }
                acc
            },
        }
    }
}

/// The capability contract every domain tree type implements so that
/// the engine can build, copy and evaluate trees of it.
///
/// The engine owns the shape — it asks the domain only for payloads and
/// for each non-terminal's number of children, and generates the
/// children itself — so the children the traversal engine walks are by
/// construction the children that were generated. The engine never
/// evaluates trees itself; the evaluator is passed through to the
/// engine's users (see [`Evaluable`]).
pub trait Tree: Sized {
    /// Input consumed by evaluation.
    type Environment;

    /// Result of evaluation.
    type Action;

    /// The meaning of a tree of this domain: what [`Self::evaluate`]
    /// returns.
    spec fn eval_spec(node: TreeView<Self>, env: Self::Environment) -> Self::Action;

    /// The domain's evaluator for a tree of this domain.
    fn evaluate(node: &Node<Self>, env: &Self::Environment) -> (r: Self::Action)
        ensures
            r == Self::eval_spec(node@, *env),
    ;

    /// The payload of a new non-terminal node for depth `depth`,
    /// together with how many children it takes: at least one.
    fn branch(rng: &mut rand::rngs::StdRng, depth: usize) -> (r: (Self, usize))
        ensures
            r.1 >= 1,
    ;

    /// The payload of a new terminal node for depth `depth`.
    fn leaf(rng: &mut rand::rngs::StdRng, depth: usize) -> Self;

    /// An exact copy of this payload.
    fn duplicate(&self) -> (r: Self)
        ensures
            r == *self,
    ;
}

/// A genotype taken as something to run: a tree of an evaluable domain.
/// This is what a fitness function sees of an individual — it can run
/// the tree and nothing else.
pub struct Evaluable<T: Tree>(pub Node<T>);

impl<T: Tree> Evaluable<T> {
    /// Evaluate the genotype on an environment.
    pub fn eval(&self, env: &T::Environment) -> (r: T::Action)
        ensures
            r == T::eval_spec(self.0@, *env),
    {
        T::evaluate(&self.0, env)
    }
}

/// A deep copy of a tree, payload by payload.
#[verifier::loop_isolation(false)]
fn clone_tree<P: Tree>(t: &Node<P>) -> (r: Node<P>)
    ensures
        r@ == t@,
    decreases *t,
{
    match t {
        Node::Leaf(p) => Node::Leaf(p.duplicate()),
        Node::Branch(p, cs) => {
            let p2 = p.duplicate();
            let mut v: Vec<Node<P>> = Vec::new();
            let mut k: usize = 0;
            while k < cs.len()
                invariant
                    k <= cs@.len(),
                    v@.len() == k,
                    forall|i: int|
                        0 <= i < k ==> view_node(#[trigger] v@[i]) == view_node(cs@[i]),
                decreases cs@.len() - k,
            {
                proof {
                    assert(decreases_to!(*t => t->Branch_1));
                    assert(decreases_to!(*t => cs@[k as int]));
                }
                let c2 = clone_tree(&cs[k]);
                v.push(c2);
                k += 1;
            }
            proof {
                lemma_views_of(cs@);
                lemma_views_of(v@);
                assert(views_of(v@) =~= views_of(cs@));
            }
            Node::Branch(p2, v)
        },
    }
}

impl<P: Tree> Node<P> {
    /// A copy of the subtree rooted at preorder index `target_index`, or
    /// `None` when the tree has no such index (fewer nodes than that).
    pub fn get(&self, target_index: usize) -> (r: Option<Node<P>>)
        ensures
            target_index < tree_size(self@) ==> r is Some && r->0@ == subtree_at(
                self@,
                target_index as nat,
            ),
            target_index >= tree_size(self@) ==> r is None,
    {
        match self.get_walk(target_index) {
            Ok(found) => Some(found),
            Err(_) => None,
        }
    }

    /// Preorder countdown search: a copy of the subtree where the
    /// countdown reaches zero, or the countdown left after passing the
    /// whole tree.
    #[verifier::loop_isolation(false)]
    fn get_walk(&self, c: usize) -> (r: Result<Node<P>, usize>)
        ensures
            c < tree_size(self@) ==> r is Ok && r->Ok_0@ == subtree_at(self@, c as nat),
            c >= tree_size(self@) ==> r is Err && r->Err_0 as nat == c - tree_size(self@),
        decreases *self,
    {
        if c == 0 {
            return Ok(clone_tree(self));
        }
        match self {
            Node::Leaf(_) => Err(c - 1),
            Node::Branch(_, cs) => {
                let ghost cvs = views_of(cs@);
                proof {
                    lemma_views_of(cs@);
                    assert(cvs.take(0) =~= Seq::<TreeView<P>>::empty());
                }
                let mut rem: usize = c - 1;
                let mut k: usize = 0;
                while k < cs.len()
                    invariant
                        k <= cs@.len(),
                        seq_size(cvs.take(k as int)) <= c - 1,
                        rem as nat == c - 1 - seq_size(cvs.take(k as int)),
                    decreases cs@.len() - k,
                {
                    proof {
                        assert(decreases_to!(*self => self->Branch_1));
                        assert(decreases_to!(*self => cs@[k as int]));
                        assert(cvs.take(k + 1) =~= cvs.take(k as int).push(cvs[k as int]));
                        lemma_seq_size_push(cvs.take(k as int), cvs[k as int]);
                    }
                    let ck = &cs[k];
                    match ck.get_walk(rem) {
                        Ok(found) => {
                            proof {
                                lemma_walk_step(
                                    cvs,
                                    k as int,
                                    (c - 1) as nat,
                                    arbitrary(),
                                );
                                lemma_seq_size_take_bound(cvs, k + 1);
                            }
                            return Ok(found);
                        },
                        Err(r2) => {
                            rem = r2;
                            k += 1;
                        },
                    }
                }
                proof {
                    assert(cvs.take(cs@.len() as int) =~= cvs);
                }
                Err(rem)
            },
        }
    }
}

impl<P> Node<P> {
    /// How many direct children this node has: 0 for a terminal, the
    /// length of the stored child list for a non-terminal — the same
    /// children, in the same order, that every traversal walks.
    pub fn count_children(&self) -> (r: usize)
        ensures
            r as nat == (match self@ {
                TreeView::Leaf(_) => 0,
                TreeView::Branch(_, cs) => cs.len(),
            }),
    {
        match self {
            Node::Leaf(_) => 0,
            Node::Branch(_, cs) => {
                proof {
                    lemma_views_of(cs@);
                }
                cs.len()
            },
        }
    }
}

/// Node-count law: the count a traversal reports equals the size by
/// the independent recursive definition — a terminal counts 1, a
/// non-terminal 1 plus the sum of its children's counts — for every
/// tree whose size a `usize` can count. (A tree with more nodes than
/// that cannot be built in an address space this size; the reported
/// count clamps there.)
pub proof fn lemma_count_is_recursive_size<P>(t: TreeView<P>)
    requires
        tree_size(t) <= usize::MAX as nat,
    ensures
        clamped(tree_size(t)) == tree_size(t),
{
}

/// Crossover round-trip law: swapping the subtrees at the same two
/// preorder positions twice, between two otherwise untouched trees,
/// restores both trees.
pub proof fn lemma_crossover_round_trip<P>(a: TreeView<P>, b: TreeView<P>, ia: nat, ib: nat)
    requires
        ia < tree_size(a),
        ib < tree_size(b),
    ensures
        ({
            let a1 = replace_at(a, ia, subtree_at(b, ib));
            let b1 = replace_at(b, ib, subtree_at(a, ia));
            &&& replace_at(a1, ia, subtree_at(b1, ib)) == a
            &&& replace_at(b1, ib, subtree_at(a1, ia)) == b
        }),
{
    let sa = subtree_at(a, ia);
    let sb = subtree_at(b, ib);
    lemma_replace_lands(a, ia, sb);
    lemma_replace_lands(b, ib, sa);
    lemma_replace_restore(a, ia, sb);
    lemma_replace_restore(b, ib, sa);
}

/// Preorder determinism law: the node visited at a preorder index is a
/// function of the tree alone, so two successive walks of the same
/// unmodified tree visit the same subtrees in the same index order.
pub proof fn lemma_traversal_deterministic<P>(
    t: TreeView<P>,
    i: nat,
    first: TreeView<P>,
    second: TreeView<P>,
)
    requires
        first == subtree_at(t, i),
        second == subtree_at(t, i),
    ensures
        first == second,
{
}

} // verus!
