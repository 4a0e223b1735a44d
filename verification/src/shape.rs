//! The primitives an entity can be made of.

use vstd::prelude::*;
use crate::vector::IVec3;

verus! {

/// The largest half-extent of a cuboid along one axis, in ticks.
pub const HALF_SIZE_LIMIT: i64 = 2_097_152;

/// A box centred on its own origin, reaching `half_size` along each axis in both directions.
#[derive(Clone, Copy, Debug, PartialEq, Eq, Structural)]
pub struct Cuboid {
    pub half_size: IVec3,
}

/// What an entity looks like to the picking pass.
#[derive(Clone, Copy, Debug, PartialEq, Eq, Structural)]
pub enum Shape {
    Box(Cuboid),
}

impl Cuboid {
    /// The half-extents are not negative and at most [`HALF_SIZE_LIMIT`].
    pub open spec fn wf(self) -> bool {
        self.half_size.within_positive(HALF_SIZE_LIMIT as int)
    }

    pub fn is_valid(&self) -> (valid: bool)
        ensures
            valid == self.wf(),
    {
        self.half_size.is_within_positive(HALF_SIZE_LIMIT)
    }

    /// The cuboid with the given half-extents, unless one is negative or too large.
    pub fn new(half_x: i64, half_y: i64, half_z: i64) -> (cuboid: Option<Cuboid>)
        ensures
            cuboid.is_some() == (Cuboid { half_size: IVec3 { x: half_x, y: half_y, z: half_z } }).wf(),
            cuboid.is_some() ==> cuboid.unwrap() == (Cuboid {
                half_size: IVec3 { x: half_x, y: half_y, z: half_z },
            }),
    {
        let candidate = Cuboid { half_size: IVec3 { x: half_x, y: half_y, z: half_z } };
        if candidate.is_valid() {
            Some(candidate)
        } else {
            None
        }
    }

    /// A full size can be halved on the lattice when each component is even,
    /// not negative and at most twice [`HALF_SIZE_LIMIT`].
    pub open spec fn size_is_valid(size: IVec3) -> bool {
        &&& size.within_positive(2 * HALF_SIZE_LIMIT)
        &&& size.x % 2 == 0
        &&& size.y % 2 == 0
        &&& size.z % 2 == 0
    }

    /// The cuboid with the given full extents, where they can be halved exactly.
    pub fn from_size(size: IVec3) -> (cuboid: Option<Cuboid>)
        ensures
            cuboid.is_some() == Self::size_is_valid(size),
            cuboid.is_some() ==> cuboid.unwrap().wf() && size.x == 2 * cuboid.unwrap().half_size.x
                && size.y == 2 * cuboid.unwrap().half_size.y && size.z == 2
                * cuboid.unwrap().half_size.z,
    {
        if size.is_within_positive(2 * HALF_SIZE_LIMIT) && size.x % 2 == 0 && size.y % 2 == 0
            && size.z % 2 == 0 {
            Some(Cuboid { half_size: IVec3 { x: size.x / 2, y: size.y / 2, z: size.z / 2 } })
        } else {
            None
        }
    }
}

impl Shape {
    pub open spec fn wf(self) -> bool {
        match self {
            Shape::Box(cuboid) => cuboid.wf(),
        }
    }

    pub fn is_valid(&self) -> (valid: bool)
        ensures
            valid == self.wf(),
    {
        match self {
            Shape::Box(cuboid) => cuboid.is_valid(),
        }
    }
}

} // verus!
