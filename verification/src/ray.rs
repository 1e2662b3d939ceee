//! Rays: an origin, a direction, and the moment at which the ray is cast.

use vstd::prelude::*;
use crate::scalar::ZERO;
use crate::vec3::Vec3;

verus! {

#[derive(Clone, Copy, Debug)]
pub struct Ray {
    pub origin: Vec3,
    pub direction: Vec3,
    pub time: i64,
}

impl Ray {
    /// A ray cast at `time`, or at time zero where none is given.
    pub fn new(origin: &Vec3, direction: &Vec3, time: Option<i64>) -> (ray: Self)
        ensures
            ray.origin == *origin,
            ray.direction == *direction,
            ray.time == (match time {
                Some(t) => t,
                None => ZERO,
            }),
    {
        let t: i64 = match time {
            Some(tm) => tm,
            None => ZERO,
        };
        Self { origin: *origin, direction: *direction, time: t }
    }

    pub fn origin(&self) -> (origin: &Vec3)
        ensures
            *origin == self.origin,
    {
        &self.origin
    }

    pub fn direction(&self) -> (direction: &Vec3)
        ensures
            *direction == self.direction,
    {
        &self.direction
    }

    pub fn time(&self) -> (time: i64)
        ensures
            time == self.time,
    {
        self.time
    }
}

impl Default for Ray {
    fn default() -> (ray: Self)
        ensures
            ray == (Ray {
                origin: Vec3 { x: ZERO, y: ZERO, z: ZERO },
                direction: Vec3 { x: ZERO, y: ZERO, z: ZERO },
                time: ZERO,
            }),
    {
        Self {
            origin: Vec3 { x: ZERO, y: ZERO, z: ZERO },
            direction: Vec3 { x: ZERO, y: ZERO, z: ZERO },
            time: ZERO,
        }
    }
}

} // verus!
