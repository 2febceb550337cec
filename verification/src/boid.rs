//! Agents, and the two steering decisions that rest on order alone: which
//! agents are in range of one another, and which edges of the world push an
//! agent back.

use crate::word::{
    lemma_one_is_nat_word, lemma_zero_is_nat_word, less_than, lt, nat_word, word_of, ONE, ZERO,
};
use vstd::prelude::*;

verus! {

/// How close another agent must be to count as a neighbor.
pub const LOCAL_RANGE: u32 = 100;

/// The square of [`LOCAL_RANGE`].
pub const LOCAL_RANGE_SQ: u32 = LOCAL_RANGE * LOCAL_RANGE;

/// Ceiling on the magnitude of an agent's acceleration.
pub const MAX_ACC: i32 = 600;

/// How close to an edge of the world an agent is pushed back.
pub const MARGIN: u32 = 100;

/// Magnitude of the push away from one edge of the world.
pub const OBS_ACC: i32 = MAX_ACC;

/// A point or a vector of the plane: two binary32 words.
#[derive(Clone, Copy, Debug, PartialEq, Eq, Structural)]
pub struct Vec2 {
    pub x: u32,
    pub y: u32,
}

/// One agent of the flock.
#[derive(Clone, Copy, Debug, PartialEq, Eq, Structural)]
pub struct Boid {
    /// Where the agent is, in world coordinates.
    pub position: Vec2,
    /// World units per time unit.
    pub velocity: Vec2,
}

/// The velocity a new agent starts with: one unit to the right.
pub open spec fn initial_velocity() -> Vec2 {
    Vec2 { x: ONE, y: ZERO }
}

/// Whether two agents whose squared distance is `dist_sq` are in range of
/// one another: the squared distance is strictly below [`LOCAL_RANGE_SQ`].
pub open spec fn in_range(dist_sq: u32) -> bool {
    less_than(dist_sq, nat_word(LOCAL_RANGE_SQ as nat))
}

/// Whether a coordinate is within the margin of the edge at zero.
pub open spec fn near_low_edge(coordinate: u32) -> bool {
    less_than(coordinate, nat_word(MARGIN as nat))
}

/// Whether a coordinate is within the margin of the far edge, given the far
/// edge less the margin.
pub open spec fn near_high_edge(coordinate: u32, inner: u32) -> bool {
    less_than(inner, coordinate)
}

/// The push along one axis: away from the low edge is positive, away from
/// the high edge negative, and the two add up.
pub open spec fn axis_push(low: bool, high: bool) -> int {
    (if low { OBS_ACC as int } else { 0 }) + (if high { -(OBS_ACC as int) } else { 0 })
}

impl Boid {
    /// An agent at `(x, y)` that moves one unit to the right per time unit.
    pub fn new(x: u32, y: u32) -> (boid: Boid)
        ensures
            boid.position == (Vec2 { x, y }),
            boid.velocity == initial_velocity(),
            boid.velocity == (Vec2 { x: nat_word(1), y: nat_word(0) }),
    {
        proof {
            lemma_one_is_nat_word();
            lemma_zero_is_nat_word();
        }
        Boid { position: Vec2 { x, y }, velocity: Vec2 { x: ONE, y: ZERO } }
    }

    /// Whether two agents are in range of one another, given the square of
    /// the distance between them.
    pub fn is_close(dist_sq: u32) -> (close: bool)
        ensures
            close == in_range(dist_sq),
    {
        lt(dist_sq, word_of(LOCAL_RANGE_SQ))
    }

    /// The acceleration that steers the agent away from the edges of the
    /// world it is near, in whole world units.
    ///
    /// The world is the box from `(0, 0)` to its far corner; `inner` is the
    /// far corner less [`MARGIN`] on each axis. Each edge that the agent is
    /// within the margin of contributes a push of magnitude [`OBS_ACC`]
    /// pointing into the world. The contributions are independent: in a
    /// corner both axes are pushed, and an agent near two opposite edges is
    /// pushed by both.
    pub fn avoid_bounds(&self, inner: Vec2) -> (total: (i32, i32))
        ensures
            total.0 == axis_push(
                near_low_edge(self.position.x),
                near_high_edge(self.position.x, inner.x),
            ),
            total.1 == axis_push(
                near_low_edge(self.position.y),
                near_high_edge(self.position.y, inner.y),
            ),
    {
        let margin = word_of(MARGIN);
        let mut total: (i32, i32) = (0, 0);
        if lt(self.position.x, margin) {
            total = (total.0 + OBS_ACC, total.1);
        }
        if lt(self.position.y, margin) {
            total = (total.0, total.1 + OBS_ACC);
        }
        if lt(inner.x, self.position.x) {
            total = (total.0 - OBS_ACC, total.1);
        }
        if lt(inner.y, self.position.y) {
            total = (total.0, total.1 - OBS_ACC);
        }
        total
    }

    /// The agent as a host reads it: the two words of the position, then the
    /// two words of the velocity.
    pub open spec fn words(self) -> Seq<u32> {
        seq![self.position.x, self.position.y, self.velocity.x, self.velocity.y]
    }

    /// The agent's four words in the order a host reads them.
    pub fn to_words(&self) -> (words: [u32; 4])
        ensures
            words@ == self.words(),
    {
        let words = [self.position.x, self.position.y, self.velocity.x, self.velocity.y];
        assert(words@ =~= self.words());
        words
    }
}

} // verus!
