//! Tests of the traversal engine, subtree surgery, individuals and the
//! two evolutionary operators, on hand-built snake decision trees.

use evco::crossover::Crossover;
use evco::gen::{TreeGen, TreeGenMode};
use evco::individual::Individual;
use evco::mutation::Mutation;
use evco::snake::{Direction, Primitive, SnakeBranches, SnakeTerminals};
use evco::tree::Node;
use evco::GpError;
use rand::rngs::StdRng;
use rand::SeedableRng;

fn mv(d: Direction) -> Node<Primitive> {
    Node::Leaf(Primitive::Terminal(SnakeTerminals::Move(d)))
}

fn if_danger(d: Direction, yes: Node<Primitive>, no: Node<Primitive>) -> Node<Primitive> {
    Node::Branch(Primitive::Branch(SnakeBranches::IfDanger(d)), vec![yes, no])
}

fn if_food(d: Direction, yes: Node<Primitive>, no: Node<Primitive>) -> Node<Primitive> {
    Node::Branch(Primitive::Branch(SnakeBranches::IfFood(d)), vec![yes, no])
}

/// The node count by its own recursive definition: a terminal counts 1,
/// a non-terminal 1 plus the sum of its children's counts.
fn recursive_size(t: &Node<Primitive>) -> usize {
    match t {
        Node::Leaf(_) => 1,
        Node::Branch(_, cs) => 1 + cs.iter().map(recursive_size).sum::<usize>(),
    }
}

/// A 5-node tree: a danger test whose first child is a food test over
/// two moves and whose second child is a move.
fn five_node_tree() -> Node<Primitive> {
    if_danger(
        Direction::Ahead,
        if_food(Direction::Left, mv(Direction::Left), mv(Direction::Ahead)),
        mv(Direction::Right),
    )
}

#[test]
fn it_works() {}

#[test]
fn count_nodes_matches_recursive_size() {
    let single = mv(Direction::Left);
    assert_eq!(single.count_nodes(), 1);
    assert_eq!(single.count_nodes(), recursive_size(&single));

    let three = if_danger(Direction::Ahead, mv(Direction::Left), mv(Direction::Right));
    assert_eq!(three.count_nodes(), 3);
    assert_eq!(three.count_nodes(), recursive_size(&three));

    let five = five_node_tree();
    assert_eq!(five.count_nodes(), 5);
    assert_eq!(five.count_nodes(), recursive_size(&five));
}

#[test]
fn count_children_reports_stored_children() {
    assert_eq!(mv(Direction::Left).count_children(), 0);
    assert_eq!(five_node_tree().count_children(), 2);
}

#[test]
fn get_returns_each_preorder_subtree() {
    let five = five_node_tree();
    assert_eq!(five.get(0).unwrap(), five_node_tree());
    assert_eq!(
        five.get(1).unwrap(),
        if_food(Direction::Left, mv(Direction::Left), mv(Direction::Ahead))
    );
    assert_eq!(five.get(2).unwrap(), mv(Direction::Left));
    assert_eq!(five.get(3).unwrap(), mv(Direction::Ahead));
    assert_eq!(five.get(4).unwrap(), mv(Direction::Right));
    assert!(five.get(5).is_none());
}

#[test]
fn traversal_order_is_deterministic() {
    let five = five_node_tree();
    let count = five.count_nodes();
    let first_walk: Vec<Node<Primitive>> = (0..count).map(|i| five.get(i).unwrap()).collect();
    let second_walk: Vec<Node<Primitive>> = (0..count).map(|i| five.get(i).unwrap()).collect();
    assert_eq!(first_walk, second_walk);
}

#[test]
fn replace_subtree_changes_count_by_replaced_size() {
    // Replacing the subtree at each index by a single leaf shrinks the
    // count by the replaced subtree's size less one.
    let expected_counts = [1, 3, 5, 5, 5];
    for (index, expected) in expected_counts.iter().enumerate() {
        let five = five_node_tree();
        let replaced_size = recursive_size(&five.get(index).unwrap());
        let (mutated, old_sub) = evco::tree::replace_subtree(five, index, mv(Direction::Ahead));
        assert_eq!(mutated.count_nodes(), *expected);
        assert_eq!(mutated.count_nodes(), 5 - (replaced_size - 1));
        assert_eq!(old_sub, five_node_tree().get(index).unwrap());
    }
}

#[test]
fn swap_subtrees_round_trip_restores_both() {
    let a = five_node_tree();
    let b = if_food(Direction::Right, mv(Direction::Ahead), mv(Direction::Right));
    let (a1, b1) = evco::tree::swap_subtrees(a, 1, b, 2);
    let (a2, b2) = evco::tree::swap_subtrees(a1, 1, b1, 2);
    assert_eq!(a2, five_node_tree());
    assert_eq!(
        b2,
        if_food(Direction::Right, mv(Direction::Ahead), mv(Direction::Right))
    );
}

#[test]
fn swap_whole_tree_into_leaf_position() {
    // A 3-node tree and a single-leaf tree: exchanging the leaf at
    // preorder index 1 of the first with the whole second tree leaves a
    // 1-node subtree at that position of the first, and hands the
    // second tree the leaf it displaced.
    let first = if_danger(Direction::Ahead, mv(Direction::Left), mv(Direction::Right));
    let second = mv(Direction::Ahead);
    let (first2, second2) = evco::tree::swap_subtrees(first, 1, second, 0);
    assert_eq!(
        first2,
        if_danger(Direction::Ahead, mv(Direction::Ahead), mv(Direction::Right))
    );
    assert_eq!(first2.count_nodes(), 3);
    assert_eq!(first2.get(1).unwrap().count_nodes(), 1);
    assert_eq!(second2, mv(Direction::Left));
    assert_eq!(second2.count_nodes(), 1);
}

#[test]
fn individual_caches_count() {
    let mut indv = Individual::new_from_tree(five_node_tree());
    assert_eq!(indv.nodes_count(), 5);
    assert_eq!(indv.nodes_count(), indv.tree.count_nodes());

    // A direct edit goes stale until the metadata is recalculated.
    indv.tree = mv(Direction::Left);
    assert_eq!(indv.nodes_count(), 5);
    indv.recalculate_metadata();
    assert_eq!(indv.nodes_count(), 1);
    assert_eq!(indv.nodes_count(), indv.tree.count_nodes());
}

#[test]
fn mate_one_point_preserves_total_nodes() {
    let mut rng = StdRng::seed_from_u64(7);
    for seed in 0..20u64 {
        let mut rng2 = StdRng::seed_from_u64(seed);
        let mut a = Individual::new_from_tree(five_node_tree());
        let mut b = Individual::new_from_tree(if_food(
            Direction::Right,
            mv(Direction::Ahead),
            if_danger(Direction::Left, mv(Direction::Left), mv(Direction::Right)),
        ));
        let before = a.nodes_count() + b.nodes_count();
        assert!(Crossover::one_point().mate(&mut a, &mut b, &mut rng2).is_ok());
        assert_eq!(a.nodes_count() + b.nodes_count(), before);
        assert_eq!(a.nodes_count(), a.tree.count_nodes());
        assert_eq!(b.nodes_count(), b.tree.count_nodes());
    }
    // The same with one shared generator across calls.
    let mut a = Individual::new_from_tree(five_node_tree());
    let mut b = Individual::new_from_tree(mv(Direction::Ahead));
    let before = a.nodes_count() + b.nodes_count();
    assert!(Crossover::one_point().mate(&mut a, &mut b, &mut rng).is_ok());
    assert_eq!(a.nodes_count() + b.nodes_count(), before);
}

#[test]
fn mate_leaf_biased_is_unsupported() {
    let mut rng = StdRng::seed_from_u64(11);
    let mut a = Individual::new_from_tree(five_node_tree());
    let mut b = Individual::new_from_tree(mv(Direction::Ahead));
    let result = Crossover::one_point_leaf_biased().mate(&mut a, &mut b, &mut rng);
    assert_eq!(result, Err(GpError::Unsupported));
    assert_eq!(a.tree, five_node_tree());
    assert_eq!(b.tree, mv(Direction::Ahead));
    assert_eq!(a.nodes_count(), 5);
    assert_eq!(b.nodes_count(), 1);
}

#[test]
fn mutate_uniform_with_leaf_generator_shrinks_by_replaced_size() {
    // Bounds [0, 0] force every replacement to be a single leaf, so the
    // new count is the old count less the replaced subtree's size plus
    // one: here 1, 3 or 5, depending on the index drawn.
    for seed in 0..20u64 {
        let mut rng = StdRng::seed_from_u64(seed);
        let tg = TreeGen::full(0, 0).unwrap();
        let mut indv = Individual::new_from_tree(five_node_tree());
        assert!(Mutation::uniform().mutate(&mut indv, &tg, &mut rng).is_ok());
        let count = indv.nodes_count();
        assert!(count == 1 || count == 3 || count == 5);
        assert_eq!(count, indv.tree.count_nodes());
    }
}

#[test]
fn mutate_other_modes_are_unsupported() {
    let modes = [
        Mutation::shrink(),
        Mutation::node_replacement(),
        Mutation::ephemeral_one(),
        Mutation::ephemeral_all(),
        Mutation::insert(),
    ];
    for mode in modes.iter() {
        let mut rng = StdRng::seed_from_u64(3);
        let tg = TreeGen::full(1, 2).unwrap();
        let mut indv = Individual::new_from_tree(five_node_tree());
        assert_eq!(mode.mutate(&mut indv, &tg, &mut rng), Err(GpError::Unsupported));
        assert_eq!(indv.tree, five_node_tree());
        assert_eq!(indv.nodes_count(), 5);
    }
}

#[test]
fn treegen_rejects_inverted_bounds() {
    let mut rng = StdRng::seed_from_u64(5);
    assert_eq!(
        TreeGen::perfect(&mut rng, 3, 2).unwrap_err(),
        GpError::InvalidDepthBounds
    );
    assert_eq!(TreeGen::full(3, 2).unwrap_err(), GpError::InvalidDepthBounds);
    assert_eq!(
        TreeGen::full_ranged(&mut rng, 3, 2).unwrap_err(),
        GpError::InvalidDepthBounds
    );
    assert_eq!(
        TreeGen::half_and_half(&mut rng, 3, 2).unwrap_err(),
        GpError::InvalidDepthBounds
    );
}

#[test]
fn treegen_chooses_depth_within_bounds() {
    // Would fail if the randomness wrapper handed back something
    // outside the requested range.
    for seed in 0..50u64 {
        let mut rng = StdRng::seed_from_u64(seed);
        let tg = TreeGen::perfect(&mut rng, 1, 3).unwrap();
        match tg.mode {
            TreeGenMode::Perfect(d) => assert!((1..=3).contains(&d)),
            _ => panic!("perfect must configure the Perfect policy"),
        }
        let tg = TreeGen::half_and_half(&mut rng, 2, 4).unwrap();
        match tg.mode {
            TreeGenMode::Perfect(d) => assert!((2..=4).contains(&d)),
            TreeGenMode::FullRanged(d) => assert!((2..=4).contains(&d)),
            TreeGenMode::Full => panic!("half and half never configures Full"),
        }
    }
}
