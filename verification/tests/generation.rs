//! Tests of depth-bounded generation and of the snake example domain's
//! evaluator, with seeded random sources.

use evco::gen::TreeGen;
use evco::individual::Individual;
use evco::snake::{Direction, Primitive, SnakeBranches, SnakeEnv, SnakeTerminals};
use evco::tree::{Evaluable, Node};
use rand::rngs::StdRng;
use rand::SeedableRng;

fn mv(d: Direction) -> Node<Primitive> {
    Node::Leaf(Primitive::Terminal(SnakeTerminals::Move(d)))
}

fn if_danger(d: Direction, yes: Node<Primitive>, no: Node<Primitive>) -> Node<Primitive> {
    Node::Branch(Primitive::Branch(SnakeBranches::IfDanger(d)), vec![yes, no])
}

fn if_food(d: Direction, yes: Node<Primitive>, no: Node<Primitive>) -> Node<Primitive> {
    Node::Branch(Primitive::Branch(SnakeBranches::IfFood(d)), vec![yes, no])
}

/// Collect the depth of every leaf, the root standing at depth 0.
fn leaf_depths(t: &Node<Primitive>, depth: usize, out: &mut Vec<usize>) {
    match t {
        Node::Leaf(_) => out.push(depth),
        Node::Branch(_, cs) => {
            for c in cs.iter() {
                leaf_depths(c, depth + 1, out);
            }
        }
    }
}

fn calm() -> SnakeEnv {
    SnakeEnv {
        danger_left: false,
        danger_ahead: false,
        danger_right: false,
        food_left: false,
        food_ahead: false,
        food_right: false,
    }
}

#[test]
fn perfect_generation_puts_all_leaves_at_one_depth() {
    for seed in 0..30u64 {
        let mut rng = StdRng::seed_from_u64(seed);
        let tg = TreeGen::perfect(&mut rng, 1, 3).unwrap();
        let indv: Individual<Primitive> = Individual::new(&tg, &mut rng);
        let mut depths = Vec::new();
        leaf_depths(&indv.tree, 0, &mut depths);
        assert!(!depths.is_empty());
        let first = depths[0];
        assert!((1..=3).contains(&first));
        for d in depths.iter() {
            assert_eq!(*d, first);
        }
    }
}

#[test]
fn full_generation_keeps_leaf_depths_within_bounds() {
    for seed in 0..30u64 {
        let mut rng = StdRng::seed_from_u64(seed);
        let tg = TreeGen::full(1, 3).unwrap();
        let indv: Individual<Primitive> = Individual::new(&tg, &mut rng);
        let mut depths = Vec::new();
        leaf_depths(&indv.tree, 0, &mut depths);
        assert!(!depths.is_empty());
        for d in depths.iter() {
            assert!((1..=3).contains(d));
        }
    }
}

#[test]
fn full_ranged_and_half_and_half_keep_leaf_depths_within_bounds() {
    for seed in 0..30u64 {
        let mut rng = StdRng::seed_from_u64(seed);
        let tg = TreeGen::full_ranged(&mut rng, 1, 3).unwrap();
        let indv: Individual<Primitive> = Individual::new(&tg, &mut rng);
        let mut depths = Vec::new();
        leaf_depths(&indv.tree, 0, &mut depths);
        for d in depths.iter() {
            assert!((1..=3).contains(d));
        }

        let tg = TreeGen::half_and_half(&mut rng, 2, 4).unwrap();
        let indv: Individual<Primitive> = Individual::new(&tg, &mut rng);
        let mut depths = Vec::new();
        leaf_depths(&indv.tree, 0, &mut depths);
        for d in depths.iter() {
            assert!((2..=4).contains(d));
        }
    }
}

#[test]
fn full_mode_shallow_scenario() {
    // Bounds [1, 2] under the Full policy: the root, below the minimum
    // depth, is never a leaf, and the depth interval of width one makes
    // every depth-1 node a leaf. The node count lands within
    // [1, branch arity + 1] — for this domain of two-child tests, 3 —
    // and no leaf sits above depth 1.
    let mut rng = StdRng::seed_from_u64(1234);
    let tg = TreeGen::full(1, 2).unwrap();
    let indv: Individual<Primitive> = Individual::new(&tg, &mut rng);
    let count = indv.nodes_count();
    assert!((1..=3).contains(&count));
    let mut depths = Vec::new();
    leaf_depths(&indv.tree, 0, &mut depths);
    for d in depths.iter() {
        assert!(*d >= 1);
        assert!(*d <= 2);
    }
}

#[test]
fn equal_bounds_degenerate_to_a_fixed_depth() {
    // With the minimum equal to the maximum, the zero-width depth
    // interval never divides anything and every policy fixes the one
    // possible depth.
    for seed in 0..10u64 {
        let mut rng = StdRng::seed_from_u64(seed);

        let tg = TreeGen::full(2, 2).unwrap();
        let indv: Individual<Primitive> = Individual::new(&tg, &mut rng);
        let mut depths = Vec::new();
        leaf_depths(&indv.tree, 0, &mut depths);
        for d in depths.iter() {
            assert_eq!(*d, 2);
        }

        let tg = TreeGen::perfect(&mut rng, 0, 0).unwrap();
        let indv: Individual<Primitive> = Individual::new(&tg, &mut rng);
        assert_eq!(indv.nodes_count(), 1);
    }
}

#[test]
fn generated_individual_caches_its_count() {
    for seed in 0..10u64 {
        let mut rng = StdRng::seed_from_u64(seed);
        let tg = TreeGen::half_and_half(&mut rng, 1, 4).unwrap();
        let indv: Individual<Primitive> = Individual::new(&tg, &mut rng);
        assert_eq!(indv.nodes_count(), indv.tree.count_nodes());
        assert!(indv.nodes_count() >= 1);
    }
}

#[test]
fn snake_eval_follows_the_senses() {
    let genotype = Evaluable(if_danger(
        Direction::Ahead,
        mv(Direction::Left),
        if_food(Direction::Right, mv(Direction::Right), mv(Direction::Ahead)),
    ));

    let mut env = calm();
    assert_eq!(genotype.eval(&env), Direction::Ahead);

    env.danger_ahead = true;
    assert_eq!(genotype.eval(&env), Direction::Left);

    env.danger_ahead = false;
    env.food_right = true;
    assert_eq!(genotype.eval(&env), Direction::Right);
}

#[test]
fn snake_eval_of_degenerate_shapes_falls_back_to_the_payload() {
    // A non-terminal payload without its two children answers with the
    // direction its test names.
    let lone_test = Node::Leaf(Primitive::Branch(SnakeBranches::IfDanger(Direction::Right)));
    assert_eq!(Evaluable(lone_test).eval(&calm()), Direction::Right);

    let one_child = Node::Branch(
        Primitive::Branch(SnakeBranches::IfFood(Direction::Left)),
        vec![mv(Direction::Ahead)],
    );
    assert_eq!(Evaluable(one_child).eval(&calm()), Direction::Left);
}
