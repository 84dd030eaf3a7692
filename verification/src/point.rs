use vstd::prelude::*;

verus! {

/// Largest coordinate value a lattice point may carry if its corner vertices
/// are to be representable: `2 * MAX_COORD + 1` must still fit in an `i64`.
pub const MAX_COORD: i64 = 0x3FFF_FFFF_FFFF_FFFF;

/// An integer lattice point of the candidate cube.
///
/// Coordinates are exact integers; at generation time each lies in
/// `[0, 3^n)` for the chosen level `n`.
#[derive(Clone, Copy, Debug, Hash, PartialEq, Eq, Structural)]
pub struct Point3 {
    pub x: i64,
    pub y: i64,
    pub z: i64,
}

impl Point3 {
    /// All three coordinates are non-negative.
    pub open spec fn nonneg(self) -> bool {
        0 <= self.x && 0 <= self.y && 0 <= self.z
    }

    /// Non-negative and small enough that every corner vertex of the unit
    /// cell centred on this point is representable.
    pub open spec fn bounded(self) -> bool {
        self.nonneg() && self.x <= MAX_COORD && self.y <= MAX_COORD && self.z <= MAX_COORD
    }
}

/// A corner vertex of a unit cell, held in half-unit coordinates: the stored
/// integer is twice the geometric coordinate, so an offset of `±0.5` from a
/// lattice point becomes the exact odd integer `2c ± 1`.
#[derive(Clone, Copy, Debug, Hash, PartialEq, Eq, Structural)]
pub struct Vertex {
    pub x: i64,
    pub y: i64,
    pub z: i64,
}

} // verus!
