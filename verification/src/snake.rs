//! An example domain: a snake-steering decision tree. Non-terminals
//! test the surroundings for danger or food in one direction and pick
//! one of their two children; terminals name the move to make.
//!
//! The domain shows how a client satisfies the engine's capability
//! contract: payload hooks for [`Tree`], a specified evaluator for
//! [`Evaluable`].

use vstd::prelude::*;

use crate::rng::rand_inclusive;
use crate::tree::{lemma_views_of, view_node, views_of, Node, Tree, TreeView};

verus! {

/// A direction relative to the snake's head.
#[derive(Clone, Copy, Debug, PartialEq, Eq)]
pub enum Direction {
    /// To the snake's left.
    Left,
    /// Straight ahead.
    Ahead,
    /// To the snake's right.
    Right,
}

/// The payloads of non-terminal nodes: each tests one direction and
/// takes two children — the subtree for "yes" and the subtree for "no".
#[derive(Clone, Copy, Debug, PartialEq, Eq)]
pub enum SnakeBranches {
    /// Is there danger in the given direction?
    IfDanger(Direction),
    /// Is there food in the given direction?
    IfFood(Direction),
}

/// The payloads of terminal nodes.
#[derive(Clone, Copy, Debug, PartialEq, Eq)]
pub enum SnakeTerminals {
    /// Move in the given direction.
    Move(Direction),
}

/// One payload of a snake decision tree: a non-terminal test or a
/// terminal move.
#[derive(Clone, Copy, Debug, PartialEq, Eq)]
pub enum Primitive {
    /// A non-terminal payload.
    Branch(SnakeBranches),
    /// A terminal payload.
    Terminal(SnakeTerminals),
}

/// What the snake senses around its head: danger and food, each in the
/// three directions it can move.
#[derive(Clone, Copy, Debug, PartialEq, Eq)]
pub struct SnakeEnv {
    /// Danger to the left.
    pub danger_left: bool,
    /// Danger straight ahead.
    pub danger_ahead: bool,
    /// Danger to the right.
    pub danger_right: bool,
    /// Food to the left.
    pub food_left: bool,
    /// Food straight ahead.
    pub food_ahead: bool,
    /// Food to the right.
    pub food_right: bool,
}

impl SnakeEnv {
    /// Whether danger is sensed in the given direction.
    pub open spec fn danger_in(&self, d: Direction) -> bool {
        match d {
            Direction::Left => self.danger_left,
            Direction::Ahead => self.danger_ahead,
            Direction::Right => self.danger_right,
        }
    }

    /// Whether food is sensed in the given direction.
    pub open spec fn food_in(&self, d: Direction) -> bool {
        match d {
            Direction::Left => self.food_left,
            Direction::Ahead => self.food_ahead,
            Direction::Right => self.food_right,
        }
    }

    /// Sense danger in the given direction.
    pub fn danger(&self, d: Direction) -> (r: bool)
        ensures
            r == self.danger_in(d),
    {
        match d {
            Direction::Left => self.danger_left,
            Direction::Ahead => self.danger_ahead,
            Direction::Right => self.danger_right,
        }
    }

    /// Sense food in the given direction.
    pub fn food(&self, d: Direction) -> (r: bool)
        ensures
            r == self.food_in(d),
    {
        match d {
            Direction::Left => self.food_left,
            Direction::Ahead => self.food_ahead,
            Direction::Right => self.food_right,
        }
    }
}

/// The direction a payload falls back to on its own: a terminal's move,
/// or — for a tree too malformed to evaluate, a non-terminal without
/// its two children — the direction the test names.
pub open spec fn payload_direction(p: Primitive) -> Direction {
    match p {
        Primitive::Terminal(SnakeTerminals::Move(d)) => d,
        Primitive::Branch(SnakeBranches::IfDanger(d)) => d,
        Primitive::Branch(SnakeBranches::IfFood(d)) => d,
    }
}

/// The meaning of a snake decision tree: walk the tests from the root —
/// a sensed "yes" picks the first child, a "no" the second — down to
/// the terminal move that answers. A node of a shape generation never
/// produces (a test with fewer than two children, or a move with
/// children) falls back to its payload's own direction.
pub open spec fn snake_eval(t: TreeView<Primitive>, env: SnakeEnv) -> Direction
    decreases t,
{
    match t {
        TreeView::Leaf(p) => payload_direction(p),
        TreeView::Branch(p, cs) => match p {
            Primitive::Branch(SnakeBranches::IfDanger(d)) => if cs.len() < 2 {
                d
            } else if env.danger_in(d) {
                snake_eval(cs[0], env)
            } else {
                snake_eval(cs[1], env)
            },
            Primitive::Branch(SnakeBranches::IfFood(d)) => if cs.len() < 2 {
                d
            } else if env.food_in(d) {
                snake_eval(cs[0], env)
            } else {
                snake_eval(cs[1], env)
            },
            Primitive::Terminal(SnakeTerminals::Move(d)) => d,
        },
    }
}

impl Tree for Primitive {
    type Environment = SnakeEnv;

    type Action = Direction;

    open spec fn eval_spec(node: TreeView<Primitive>, env: SnakeEnv) -> Direction {
        snake_eval(node, env)
    }

    fn evaluate(node: &Node<Primitive>, env: &SnakeEnv) -> (r: Direction)
        decreases *node,
    {
        match node {
            Node::Leaf(p) => match p {
                Primitive::Terminal(SnakeTerminals::Move(d)) => *d,
                Primitive::Branch(SnakeBranches::IfDanger(d)) => *d,
                Primitive::Branch(SnakeBranches::IfFood(d)) => *d,
            },
            Node::Branch(p, cs) => {
                proof {
                    lemma_views_of(cs@);
                }
                match p {
                    Primitive::Branch(SnakeBranches::IfDanger(d)) => {
                        if cs.len() < 2 {
                            *d
                        } else {
                            proof {
                                assert(decreases_to!(*node => node->Branch_1));
                                assert(decreases_to!(*node => cs@[0]));
                                assert(decreases_to!(*node => cs@[1]));
                            }
                            if env.danger(*d) {
                                Self::evaluate(&cs[0], env)
                            } else {
                                Self::evaluate(&cs[1], env)
                            }
                        }
                    },
                    Primitive::Branch(SnakeBranches::IfFood(d)) => {
                        if cs.len() < 2 {
                            *d
                        } else {
                            proof {
                                assert(decreases_to!(*node => node->Branch_1));
                                assert(decreases_to!(*node => cs@[0]));
                                assert(decreases_to!(*node => cs@[1]));
                            }
                            if env.food(*d) {
                                Self::evaluate(&cs[0], env)
                            } else {
                                Self::evaluate(&cs[1], env)
                            }
                        }
                    },
                    Primitive::Terminal(SnakeTerminals::Move(d)) => *d,
                }
            },
        }
    }

    /// A non-terminal payload: a danger or food test in a random
    /// direction, always taking two children.
    fn branch(rng: &mut rand::rngs::StdRng, _depth: usize) -> (r: (Primitive, usize)) {
        let d = rand_direction(rng);
        let payload = if rand_inclusive(rng, 0, 1) == 0 {
            Primitive::Branch(SnakeBranches::IfDanger(d))
        } else {
            Primitive::Branch(SnakeBranches::IfFood(d))
        };
        (payload, 2)
    }

    /// A terminal payload: a move in a random direction.
    fn leaf(rng: &mut rand::rngs::StdRng, _depth: usize) -> Primitive {
        Primitive::Terminal(SnakeTerminals::Move(rand_direction(rng)))
    }

    fn duplicate(&self) -> (r: Primitive) {
        *self
    }
}

/// Draw one of the three directions, uniformly.
fn rand_direction(rng: &mut rand::rngs::StdRng) -> Direction {
    let v = rand_inclusive(rng, 0, 2);
    if v == 0 {
        Direction::Left
    } else if v == 1 {
        Direction::Ahead
    } else {
        Direction::Right
    }
}

} // verus!
