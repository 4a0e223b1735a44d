//! Where an entity stands and how it is turned.

use vstd::prelude::*;
use crate::rotation::IQuat;
use crate::vector::IVec3;

verus! {

/// The largest magnitude of a translation component, in ticks.
pub const COORD_LIMIT: i64 = 8_388_608;

/// A rigid placement: first rotate about the origin, then translate.
#[derive(Clone, Copy, Debug, PartialEq, Eq, Structural)]
pub struct Transform {
    pub translation: IVec3,
    pub rotation: IQuat,
}

impl Transform {
    pub open spec fn wf(self) -> bool {
        &&& self.translation.within(COORD_LIMIT as int)
        &&& self.rotation.wf()
    }

    pub fn is_valid(&self) -> (valid: bool)
        ensures
            valid == self.wf(),
    {
        self.translation.is_within(COORD_LIMIT) && self.rotation.is_valid()
    }

    /// The placement at `(x, y, z)` without rotation, unless a coordinate is out of range.
    pub fn from_xyz(x: i64, y: i64, z: i64) -> (transform: Option<Transform>)
        ensures
            transform.is_some() == (IVec3 { x, y, z }).within(COORD_LIMIT as int),
            transform.is_some() ==> transform.unwrap() == (Transform {
                translation: IVec3 { x, y, z },
                rotation: IQuat { w: 1, x: 0, y: 0, z: 0 },
            }),
    {
        let translation = IVec3 { x, y, z };
        if translation.is_within(COORD_LIMIT) {
            Some(Transform { translation, rotation: IQuat::identity() })
        } else {
            None
        }
    }

    /// The same position with another rotation.
    pub fn with_rotation(self, rotation: IQuat) -> (transform: Transform)
        ensures
            transform == (Transform { translation: self.translation, rotation }),
    {
        Transform { translation: self.translation, rotation }
    }
}

} // verus!
