//! Rays: an origin and a direction, with evaluation along the parameter.

use crate::vector3::{add_v, bounded, scale_v, Vec3, Vector3f, VEC_BOUND};
use vstd::prelude::*;

verus! {

/// A point is a vector from the world origin.
pub type Point3 = Vector3f;

#[derive(Clone, Copy)]
pub struct Ray {
    origin: Point3,
    direction: Vector3f,
}

/// The model of a ray: two integer triples.
pub ghost struct RayModel {
    pub origin: Vec3,
    pub direction: Vec3,
}

impl View for Ray {
    type V = RayModel;

    closed spec fn view(&self) -> RayModel {
        RayModel { origin: self.origin@, direction: self.direction@ }
    }
}

/// `origin + direction * t`, the point the ray reaches at parameter `t`.
pub open spec fn at_v(r: RayModel, t: int) -> Vec3 {
    add_v(r.origin, scale_v(r.direction, t))
}

impl Ray {
    pub fn new(origin: Point3, direction: Vector3f) -> (r: Ray)
        ensures
            r@.origin == origin@,
            r@.direction == direction@,
    {
        Ray { origin, direction }
    }

    /// The point at parameter `t` (a fixed-point scalar).
    pub fn at(&self, t: i64) -> (p: Point3)
        requires
            bounded(self@.origin, VEC_BOUND as int),
            bounded(self@.direction, VEC_BOUND as int),
            -0x80_0000_0000 <= t <= 0x80_0000_0000,
        ensures
            p@ == at_v(self@, t as int),
    {
        proof {
            crate::vector3::lemma_scale_bounded(
                self@.direction,
                t as int,
                VEC_BOUND as int,
                0x80_0000_0000,
            );
        }
        self.origin.add(self.direction.scale(t))
    }

    pub fn origin(&self) -> (p: &Point3)
        ensures
            p@ == self@.origin,
    {
        &self.origin
    }

    pub fn direction(&self) -> (d: &Vector3f)
        ensures
            d@ == self@.direction,
    {
        &self.direction
    }
}

} // verus!
