//! The camera: maps normalized image-plane coordinates to world rays.

use crate::fixed::FP_ONE;
use crate::ray::{Point3, Ray, RayModel};
use crate::sphere::ray_wf;
use crate::vector3::{add_v, bounded, div_v, scale_v, sub_v, Vec3, Vector3f};
use vstd::prelude::*;

verus! {

/// Largest coordinate magnitude of camera geometry, comfortably inside the
/// ray bounds even after the four-term ray construction.
pub const CAMERA_BOUND: i64 = 0x100_0000;

pub struct Camera {
    origin: Point3,
    horizontal: Vector3f,
    vertical: Vector3f,
    bottom_left: Point3,
}

/// The model of a camera.
pub ghost struct CameraModel {
    pub origin: Vec3,
    pub horizontal: Vec3,
    pub vertical: Vec3,
    pub bottom_left: Vec3,
}

impl View for Camera {
    type V = CameraModel;

    closed spec fn view(&self) -> CameraModel {
        CameraModel {
            origin: self.origin@,
            horizontal: self.horizontal@,
            vertical: self.vertical@,
            bottom_left: self.bottom_left@,
        }
    }
}

/// The ray through image-plane coordinates `(u, v)`: from the camera
/// origin toward the matching point of the viewport plane.
pub open spec fn camera_ray_v(cam: CameraModel, u: int, v: int) -> RayModel {
    RayModel {
        origin: cam.origin,
        direction: sub_v(
            add_v(
                add_v(cam.bottom_left, scale_v(cam.horizontal, u)),
                scale_v(cam.vertical, v),
            ),
            cam.origin,
        ),
    }
}

impl Camera {
    /// All four vectors stay within four times the camera bound.
    #[verifier::type_invariant]
    pub open spec fn wf(self) -> bool {
        &&& bounded(self@.origin, 4 * CAMERA_BOUND as int)
        &&& bounded(self@.horizontal, 4 * CAMERA_BOUND as int)
        &&& bounded(self@.vertical, 4 * CAMERA_BOUND as int)
        &&& bounded(self@.bottom_left, 4 * CAMERA_BOUND as int)
    }

    /// Fix the viewport geometry: the image plane spans `horizontal` and
    /// `vertical` from a bottom-left corner one focal length in front of
    /// the origin.
    pub fn new(
        viewport_width: i64,
        viewport_height: i64,
        focal_length: i64,
        origin: Point3,
    ) -> (c: Camera)
        requires
            0 <= viewport_width <= CAMERA_BOUND,
            0 <= viewport_height <= CAMERA_BOUND,
            0 <= focal_length <= CAMERA_BOUND,
            bounded(origin@, CAMERA_BOUND as int),
        ensures
            c@.origin == origin@,
            c@.horizontal == (Vec3 { x: viewport_width as int, y: 0, z: 0 }),
            c@.vertical == (Vec3 { x: 0, y: viewport_height as int, z: 0 }),
            c@.bottom_left == sub_v(
                sub_v(
                    sub_v(origin@, div_v((Vec3 { x: viewport_width as int, y: 0, z: 0 }), 2
                        * FP_ONE as int)),
                    div_v((Vec3 { x: 0, y: viewport_height as int, z: 0 }), 2 * FP_ONE as int),
                ),
                Vec3 { x: 0, y: 0, z: focal_length as int },
            ),
    {
        let horizontal = Vector3f::new(viewport_width, 0, 0);
        let vertical = Vector3f::new(0, viewport_height, 0);
        let bottom_left = origin.sub(horizontal.div_scalar(2 * FP_ONE)).sub(
            vertical.div_scalar(2 * FP_ONE),
        ).sub(Vector3f::new(0, 0, focal_length));
        proof {
            crate::fixed::lemma_div_stays_in_range(
                viewport_width as int * FP_ONE as int,
                2 * FP_ONE as int,
            );
            crate::fixed::lemma_div_stays_in_range(
                viewport_height as int * FP_ONE as int,
                2 * FP_ONE as int,
            );
            vstd::arithmetic::div_mod::lemma_div_is_ordered(
                viewport_width as int * FP_ONE as int,
                CAMERA_BOUND as int * FP_ONE as int,
                2 * FP_ONE as int,
            );
            vstd::arithmetic::div_mod::lemma_div_is_ordered(
                viewport_height as int * FP_ONE as int,
                CAMERA_BOUND as int * FP_ONE as int,
                2 * FP_ONE as int,
            );
            assert(CAMERA_BOUND as int * FP_ONE as int / (2 * FP_ONE as int)
                <= CAMERA_BOUND as int) by (nonlinear_arith)
                requires
                    CAMERA_BOUND == 0x100_0000,
                    FP_ONE == 65536,
            ;
        }
        Camera { origin, horizontal, vertical, bottom_left }
    }

    /// The ray through image-plane coordinates `(u, v)`; both are
    /// fixed-point fractions, nominally in `[0, 1]` but a sampling jitter
    /// may push them slightly past either end.
    pub fn get_ray(&self, u: i64, v: i64) -> (r: Ray)
        requires
            -(FP_ONE as int) <= u <= 2 * FP_ONE as int,
            -(FP_ONE as int) <= v <= 2 * FP_ONE as int,
        ensures
            r@ == camera_ray_v(self@, u as int, v as int),
            ray_wf(r@),
    {
        proof {
            use_type_invariant(&*self);
            crate::vector3::lemma_scale_bounded(
                self@.horizontal,
                u as int,
                4 * CAMERA_BOUND as int,
                2 * FP_ONE as int,
            );
            crate::vector3::lemma_scale_bounded(
                self@.vertical,
                v as int,
                4 * CAMERA_BOUND as int,
                2 * FP_ONE as int,
            );
            assert((4 * CAMERA_BOUND as int * (2 * FP_ONE as int)) / FP_ONE as int + 1
                <= 8 * CAMERA_BOUND as int + 1) by (nonlinear_arith)
                requires
                    CAMERA_BOUND == 0x100_0000,
                    FP_ONE == 65536,
            ;
        }
        Ray::new(
            self.origin,
            self.bottom_left.add(self.horizontal.scale(u)).add(self.vertical.scale(v)).sub(
                self.origin,
            ),
        )
    }
}

} // verus!
