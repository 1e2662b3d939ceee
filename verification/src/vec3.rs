//! Triples of scalars: displacements, points and colours.

use vstd::prelude::*;
use crate::scalar::{
    le, less, less_eq, lt, magnitude, magnitude_of, negate, negation_of, ONE, TINY, ZERO,
};

verus! {

#[derive(Clone, Copy, Debug)]
pub struct Vec3 {
    pub x: i64,
    pub y: i64,
    pub z: i64,
}

impl Vec3 {
    /// The component on axis 0, 1 or 2.
    pub open spec fn component(self, axis: int) -> i64 {
        if axis == 0 {
            self.x
        } else if axis == 1 {
            self.y
        } else {
            self.z
        }
    }

    /// Every component is smaller in magnitude than `1e-8`.
    pub open spec fn vanishes(self) -> bool {
        &&& lt(magnitude_of(self.x), TINY)
        &&& lt(magnitude_of(self.y), TINY)
        &&& lt(magnitude_of(self.z), TINY)
    }

    /// The opposite vector.
    pub open spec fn opposite(self) -> Vec3 {
        Vec3 { x: negation_of(self.x), y: negation_of(self.y), z: negation_of(self.z) }
    }

    pub fn new(x: i64, y: i64, z: i64) -> (v: Self)
        ensures
            v == (Vec3 { x, y, z }),
    {
        Self { x, y, z }
    }

    pub fn x(&self) -> (x: i64)
        ensures
            x == self.x,
    {
        self.x
    }

    pub fn y(&self) -> (y: i64)
        ensures
            y == self.y,
    {
        self.y
    }

    pub fn z(&self) -> (z: i64)
        ensures
            z == self.z,
    {
        self.z
    }

    /// Component by axis; only the axes 0, 1 and 2 exist.
    pub fn index(&self, axis: i32) -> (c: i64)
        requires
            0 <= axis <= 2,
        ensures
            c == self.component(axis as int),
    {
        if axis == 0 {
            self.x
        } else if axis == 1 {
            self.y
        } else {
            self.z
        }
    }

    pub fn near_zero(&self) -> (yes: bool)
        ensures
            yes == self.vanishes(),
    {
        less(magnitude(self.x), TINY) && less(magnitude(self.y), TINY) && less(
            magnitude(self.z),
            TINY,
        )
    }

    pub fn neg(&self) -> (v: Self)
        ensures
            v == self.opposite(),
    {
        Self { x: negate(self.x), y: negate(self.y), z: negate(self.z) }
    }
}

/// Code of `1e-160`: a squared length at or below this is too small to be
/// divided by.
pub const FAINT: i64 = 0x1EB6_7E9C_127B_6E74;

/// Whether a vector of the squared length `len_sq`, drawn from the cube
/// around the unit ball, is kept as a sample of the ball: it is where it lies
/// in the ball and is not too short to be scaled to the sphere.
pub fn in_unit_ball(len_sq: i64) -> (kept: bool)
    ensures
        kept == (lt(FAINT, len_sq) && le(len_sq, ONE)),
{
    less(FAINT, len_sq) && less_eq(len_sq, ONE)
}

/// Whether a vector of the squared length `len_sq`, drawn from the square
/// around the unit disk, is kept as a sample of the disk: it is where it lies
/// strictly inside the disk.
pub fn in_unit_disk(len_sq: i64) -> (kept: bool)
    ensures
        kept == lt(len_sq, ONE),
{
    less(len_sq, ONE)
}

/// `v` or its opposite, whichever lies on the side of a normal with which
/// `v` has the dot product `facing`.
pub fn random_on_hemisphere(v: &Vec3, facing: i64) -> (on_side: Vec3)
    ensures
        on_side == (if lt(ZERO, facing) {
            *v
        } else {
            v.opposite()
        }),
{
    if less(ZERO, facing) {
        *v
    } else {
        v.neg()
    }
}

impl Default for Vec3 {
    fn default() -> (v: Self)
        ensures
            v == (Vec3 { x: ZERO, y: ZERO, z: ZERO }),
    {
        Self { x: ZERO, y: ZERO, z: ZERO }
    }
}

} // verus!
