use crate::cubie::Cubie;
use vstd::prelude::*;

verus! {

/// Sense of a layer rotation. Legal-move generation only offers quarter
/// turns; `HalfTurn` exists so externally built moves can be represented.
#[derive(Clone, Copy, Debug, Eq, Hash, PartialEq, Structural)]
pub enum Rotation {
    Clockwise,
    CounterClockwise,
    HalfTurn,
}

/// One of the three horizontal layers.
#[derive(Clone, Copy, Debug, Eq, Hash, PartialEq, Structural)]
pub enum Layer {
    Down,
    Equator,
    Up,
}

/// A move: drop a piece of a color into a column, rotate one horizontal
/// layer, or flip the whole frame upside down.
#[derive(Clone, Copy, Debug, Eq, Hash, PartialEq)]
pub enum Move {
    Drop { color: Cubie, column: (usize, usize) },
    RotateLayer { layer: Layer, rotation: Rotation },
    Flip,
}

/// The move that exactly undoes a move, if one exists: rotations invert to
/// the opposite rotation, `Flip` inverts to itself, and a drop cannot be
/// undone.
pub open spec fn spec_inverse(m: Move) -> Option<Move> {
    match m {
        Move::Drop { .. } => None,
        Move::RotateLayer { layer, rotation } => Some(
            Move::RotateLayer { layer, rotation: spec_opposite(rotation) },
        ),
        Move::Flip => Some(Move::Flip),
    }
}

/// The opposite sense of a rotation; a half turn is its own opposite.
pub open spec fn spec_opposite(r: Rotation) -> Rotation {
    match r {
        Rotation::Clockwise => Rotation::CounterClockwise,
        Rotation::CounterClockwise => Rotation::Clockwise,
        Rotation::HalfTurn => Rotation::HalfTurn,
    }
}

impl Move {
    pub fn inverse(self) -> (r: Option<Move>)
        ensures
            r == spec_inverse(self),
    {
        match self {
            Move::Drop { .. } => None,
            Move::RotateLayer { layer, rotation } => {
                let inverse_rotation = match rotation {
                    Rotation::Clockwise => Rotation::CounterClockwise,
                    Rotation::CounterClockwise => Rotation::Clockwise,
                    Rotation::HalfTurn => Rotation::HalfTurn,
                };
                Some(Move::RotateLayer { layer, rotation: inverse_rotation })
            },
            Move::Flip => Some(Move::Flip),
        }
    }

    /// Structural equality test; `r` reflects spec equality of the two moves.
    pub fn same_as(self, other: Move) -> (r: bool)
        ensures
            r == (self == other),
    {
        match (self, other) {
            (
                Move::Drop { color: c1, column: col1 },
                Move::Drop { color: c2, column: col2 },
            ) => c1 == c2 && col1.0 == col2.0 && col1.1 == col2.1,
            (
                Move::RotateLayer { layer: l1, rotation: r1 },
                Move::RotateLayer { layer: l2, rotation: r2 },
            ) => l1 == l2 && r1 == r2,
            (Move::Flip, Move::Flip) => true,
            _ => false,
        }
    }
}

} // verus!
