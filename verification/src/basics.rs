//! Coordinates, directions, the neighbour arcs and the generator's policies.

use vstd::prelude::*;

verus! {

/// A coordinate on the lattice.
#[derive(Clone, Copy, PartialEq, Eq, Structural, Debug)]
pub struct Position {
    pub x: i32,
    pub y: i32,
}

/// The four directions in which the generator can move.
#[derive(Clone, Copy, PartialEq, Eq, Structural, Debug)]
pub enum OrdinalDirections {
    North,
    East,
    South,
    West,
}

/// What the engine does once every direction around the head is blocked.
#[derive(Clone, Copy, PartialEq, Eq, Structural, Debug)]
pub enum StuckReaction {
    /// Go back to the tile carved just before.
    OneStepBack,
    /// Jump to any tile that is still remembered.
    RandomPosition,
}

/// Whether a new corridor may touch an existing one, and how often.
///
/// The chance is a threshold in units of 2^-24: a draw of 24 random bits
/// succeeds when it does not exceed the threshold. A chance of `p` between
/// zero and one is the threshold `p * 2^24`, rounded down; from `CHANCE_ONE`
/// on every draw succeeds.
#[derive(Clone, Copy, PartialEq, Eq, Structural, Debug)]
pub enum Islet {
    No,
    Yes(u32),
}

/// Whether the generator may ignore every carving rule but the grid's bounds,
/// and how often. The chance is a threshold in units of 2^-24, as for `Islet`.
#[derive(Clone, Copy, PartialEq, Eq, Structural, Debug)]
pub enum Unsubordination {
    No,
    Yes(u32),
}

/// The threshold that stands for certainty: 2^24.
pub const CHANCE_ONE: u32 = 0x0100_0000;

/// Default grid size.
pub const DEFAULT_SIZE: usize = 32;

/// Default iteration limit; zero means no limit.
pub const DEFAULT_ITERATION_LIMIT: usize = 0;

/// Default chance of an islet: one in a hundred, rounded down to 2^-24 units.
pub const DEFAULT_ISLET_CHANCE: u32 = 167_772;

/// Default state of a fresh tile: not carved.
pub const DEFAULT_STATE: bool = false;

/// Default for writing the result to a file.
pub const DEFAULT_WRITE_TO_FILE: bool = false;

/// The five neighbours seen from a tile entered along the Y axis, heading
/// towards positive Y: both sides, both forward diagonals and the tile ahead.
pub open spec fn arc_y_1() -> Seq<Position> {
    seq![
        Position { x: -1i32, y: 0 },
        Position { x: -1i32, y: 1 },
        Position { x: 0, y: 1 },
        Position { x: 1, y: 1 },
        Position { x: 1, y: 0 },
    ]
}

/// The five neighbours seen from a tile entered along the X axis, heading
/// towards positive X.
pub open spec fn arc_x_1() -> Seq<Position> {
    seq![
        Position { x: 0, y: 1 },
        Position { x: 1, y: 1 },
        Position { x: 1, y: 0 },
        Position { x: 1, y: -1i32 },
        Position { x: 0, y: -1i32 },
    ]
}

/// The two side neighbours of a tile entered along the X axis: a narrower
/// field of view than the arc of five. The generator's arc check reads the
/// arcs of five throughout, for the rules and for islets alike.
pub open spec fn arc_xi_1() -> Seq<Position> {
    seq![Position { x: 0, y: 1 }, Position { x: 0, y: -1i32 }]
}

/// The two side neighbours of a tile entered along the Y axis.
pub open spec fn arc_yi_1() -> Seq<Position> {
    seq![Position { x: 1, y: 0 }, Position { x: -1i32, y: 0 }]
}

/// Relative coordinates of the neighbours in an arc of radius 1, the field of
/// view pointing along Y.
pub fn neighbours_arc_y_1() -> (arc: [Position; 5])
    ensures
        arc@ == arc_y_1(),
{
    [
        Position { x: -1, y: 0 },
        Position { x: -1, y: 1 },
        Position { x: 0, y: 1 },
        Position { x: 1, y: 1 },
        Position { x: 1, y: 0 },
    ]
}

/// Relative coordinates of the neighbours in an arc of radius 1, the field of
/// view pointing along X.
pub fn neighbours_arc_x_1() -> (arc: [Position; 5])
    ensures
        arc@ == arc_x_1(),
{
    [
        Position { x: 0, y: 1 },
        Position { x: 1, y: 1 },
        Position { x: 1, y: 0 },
        Position { x: 1, y: -1 },
        Position { x: 0, y: -1 },
    ]
}

/// Relative coordinates of the two side neighbours, the field of view
/// pointing along X.
pub fn neighbours_arc_xi_1() -> (arc: [Position; 2])
    ensures
        arc@ == arc_xi_1(),
{
    [Position { x: 0, y: 1 }, Position { x: 0, y: -1 }]
}

/// Relative coordinates of the two side neighbours, the field of view
/// pointing along Y.
pub fn neighbours_arc_yi_1() -> (arc: [Position; 2])
    ensures
        arc@ == arc_yi_1(),
{
    [Position { x: 1, y: 0 }, Position { x: -1, y: 0 }]
}

impl OrdinalDirections {
    /// The unit step of the direction: north is towards positive Y, east
    /// towards positive X.
    pub open spec fn step(self) -> Position {
        match self {
            OrdinalDirections::North => Position { x: 0, y: 1 },
            OrdinalDirections::East => Position { x: 1, y: 0 },
            OrdinalDirections::South => Position { x: 0, y: -1i32 },
            OrdinalDirections::West => Position { x: -1i32, y: 0 },
        }
    }

    /// The unit step of the direction.
    pub fn offset(self) -> (step: Position)
        ensures
            step == self.step(),
    {
        match self {
            OrdinalDirections::North => Position { x: 0, y: 1 },
            OrdinalDirections::East => Position { x: 1, y: 0 },
            OrdinalDirections::South => Position { x: 0, y: -1 },
            OrdinalDirections::West => Position { x: -1, y: 0 },
        }
    }
}

/// Two positions are lattice neighbours: they differ by one along one axis.
pub open spec fn adjacent(a: Position, b: Position) -> bool {
    ||| (a.x == b.x && (a.y - b.y == 1 || b.y - a.y == 1))
    ||| (a.y == b.y && (a.x - b.x == 1 || b.x - a.x == 1))
}

/// A draw of random bits succeeds against a threshold when its upper 24 bits,
/// read as a number, do not exceed it.
pub open spec fn chance_hits_spec(threshold: u32, word: u32) -> bool {
    word / 256 <= threshold
}

/// Decides a chance from one word of random bits.
#[verifier::when_used_as_spec(chance_hits_spec)]
pub fn chance_hits(threshold: u32, word: u32) -> (hit: bool)
    ensures
        hit == chance_hits_spec(threshold, word),
{
    word / 256 <= threshold
}

} // verus!
