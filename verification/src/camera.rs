//! The camera: maps image-plane coordinates to primary rays.
//!
//! Built once from an aspect ratio, a viewport height and a focal length,
//! in the right-handed convention: x right, y up, the camera looking down
//! negative z. Jitter for antialiasing is the caller's business; the camera
//! itself is a pure function from `(u, v)` to a ray.

use vstd::prelude::*;

use crate::fixed::{fx_mul, lemma_real_range, Real, SCALE};
use crate::ray::{Ray, RayV};
use crate::vec3::{v3_add, v3_div, v3_scale, v3_sub, v3_zero, Point3, Vec3, Vec3V};

verus! {

broadcast use lemma_real_range;

/// Mathematical model of a camera.
pub struct CameraV {
    pub origin: Vec3V,
    pub lower_left_corner: Vec3V,
    pub horizontal: Vec3V,
    pub vertical: Vec3V,
}

/// The camera derived from the three construction parameters: viewport
/// basis vectors along x and y, and the lower-left image-plane corner one
/// focal length down negative z.
pub open spec fn spec_camera(aspect_ratio: int, viewport_height: int, focal_length: int) -> CameraV {
    let two = 2 * (SCALE as int);
    let viewport_width = fx_mul(aspect_ratio, viewport_height);
    let origin = v3_zero();
    let horizontal = Vec3V { x: viewport_width, y: 0, z: 0 };
    let vertical = Vec3V { x: 0, y: viewport_height, z: 0 };
    let lower_left_corner = v3_sub(
        v3_sub(v3_sub(origin, v3_div(horizontal, two)), v3_div(vertical, two)),
        Vec3V { x: 0, y: 0, z: focal_length },
    );
    CameraV { origin, lower_left_corner, horizontal, vertical }
}

/// The primary ray through image-plane coordinates `(u, v)`.
pub open spec fn spec_get_ray(c: CameraV, u: int, v: int) -> RayV {
    RayV {
        orig: c.origin,
        dir: v3_sub(
            v3_add(v3_add(c.lower_left_corner, v3_scale(c.horizontal, u)), v3_scale(c.vertical, v)),
            c.origin,
        ),
    }
}

/// An immutable camera.
#[derive(Clone, Copy, Debug)]
pub struct Camera {
    origin: Point3,
    lower_left_corner: Point3,
    horizontal: Vec3,
    vertical: Vec3,
}

impl View for Camera {
    type V = CameraV;

    closed spec fn view(&self) -> CameraV {
        CameraV {
            origin: self.origin@,
            lower_left_corner: self.lower_left_corner@,
            horizontal: self.horizontal@,
            vertical: self.vertical@,
        }
    }
}

impl Camera {
    /// Derive a camera from an aspect ratio, viewport height and focal length.
    pub fn new(aspect_ratio: Real, viewport_height: Real, focal_length: Real) -> (r: Camera)
        ensures
            r@ == spec_camera(aspect_ratio@, viewport_height@, focal_length@),
    {
        let zero = Real::zero();
        let two = Real::from_raw(2 * SCALE);
        let viewport_width = aspect_ratio.mul(viewport_height);

        let origin = Point3::new(zero, zero, zero);
        let horizontal = Vec3::new(viewport_width, zero, zero);
        let vertical = Vec3::new(zero, viewport_height, zero);
        let lower_left_corner = origin.sub(&horizontal.div(two)).sub(&vertical.div(two)).sub(
            &Vec3::new(zero, zero, focal_length),
        );

        Camera { origin, lower_left_corner, horizontal, vertical }
    }

    /// The ray from the camera origin through `(u, v)` on the image plane.
    pub fn get_ray(&self, u: Real, v: Real) -> (r: Ray)
        ensures
            r@ == spec_get_ray(self@, u@, v@),
    {
        let dir = self.lower_left_corner.add(&self.horizontal.scale(u)).add(
            &self.vertical.scale(v),
        ).sub(&self.origin);
        Ray::new(self.origin, dir)
    }
}

} // verus!
