//! A queen and the attack relation between two queens.

use vstd::prelude::*;

verus! {

/// A queen on the square `(x, y)`.
#[derive(Clone, Copy, Debug, PartialEq, Eq, Structural)]
pub struct Queen {
    pub x: usize,
    pub y: usize,
}

/// Two queens attack each other when they stand in one column, in one row or
/// on one diagonal. Two queens on the same square attack each other.
pub open spec fn attacks(a: Queen, b: Queen) -> bool {
    ||| a.x == b.x
    ||| a.y == b.y
    ||| a.x + a.y == b.x + b.y
    ||| a.x - a.y == b.x - b.y
}

/// The attack relation does not depend on the order of the two queens.
pub proof fn attacks_symmetric(a: Queen, b: Queen)
    ensures
        attacks(a, b) == attacks(b, a),
{
}

impl Queen {
    /// Whether this queen and `other` attack each other.
    pub fn clash(&self, other: &Queen) -> (hit: bool)
        ensures
            hit == attacks(*self, *other),
    {
        if self.x == other.x {
            return true;
        }
        if self.y == other.y {
            return true;
        }
        if self.x as u128 + self.y as u128 == other.x as u128 + other.y as u128 {
            return true;
        }
        // x - y == x' - y', compared without leaving the naturals
        if self.x as u128 + other.y as u128 == other.x as u128 + self.y as u128 {
            return true;
        }
        false
    }
}

} // verus!
