//! Rays: parametric lines, immutable after construction.

use vstd::prelude::*;

use crate::fixed::{abs_i, fx_add, fx_mul, lemma_real_range, Real, RAW_MAX, SCALE};
use crate::vec3::{v3_add, v3_scale, v3_sub, Point3, Vec3, Vec3V};

verus! {

broadcast use lemma_real_range;

/// Mathematical model of a ray.
pub struct RayV {
    pub orig: Vec3V,
    pub dir: Vec3V,
}

/// The point reached after `t` times the direction, for any real `t`.
pub open spec fn ray_at(r: RayV, t: int) -> Vec3V {
    v3_add(r.orig, v3_scale(r.dir, t))
}

/// A ray: origin plus scaled direction.
#[derive(Clone, Copy, Debug, PartialEq, Eq, Structural)]
pub struct Ray {
    orig: Point3,
    dir: Vec3,
}

impl View for Ray {
    type V = RayV;

    closed spec fn view(&self) -> RayV {
        RayV { orig: self.orig@, dir: self.dir@ }
    }
}

impl Ray {
    /// Build a ray from an origin and a direction.
    pub fn new(orig: Point3, dir: Vec3) -> (r: Ray)
        ensures
            r@ == (RayV { orig: orig@, dir: dir@ }),
    {
        Ray { orig, dir }
    }

    /// The ray's origin.
    pub fn origin(&self) -> (r: Point3)
        ensures
            r@ == self@.orig,
    {
        self.orig
    }

    /// The ray's direction.
    pub fn direction(&self) -> (r: Vec3)
        ensures
            r@ == self@.dir,
    {
        self.dir
    }

    /// Evaluate `origin + direction * t`; negative `t` is as valid as any.
    pub fn at(&self, t: Real) -> (r: Point3)
        ensures
            r@ == ray_at(self@, t@),
    {
        let delta = self.dir.scale(t);
        self.orig.add(&delta)
    }
}

/// At parameter zero a ray sits at its origin.
pub proof fn lemma_at_zero(r: Ray)
    ensures
        ray_at(r@, 0) == r@.orig,
{
    assert(ray_at(r@, 0) =~= r@.orig);
}

/// Where the sum does not saturate, the offset of `at(t)` from the origin
/// is exactly the scaled direction.
pub proof fn lemma_at_offset_is_scaled_dir(r: Ray, t: Real)
    requires
        abs_i(r@.orig.x + fx_mul(r@.dir.x, t@)) <= RAW_MAX as int,
        abs_i(r@.orig.y + fx_mul(r@.dir.y, t@)) <= RAW_MAX as int,
        abs_i(r@.orig.z + fx_mul(r@.dir.z, t@)) <= RAW_MAX as int,
    ensures
        v3_sub(ray_at(r@, t@), r@.orig) == v3_scale(r@.dir, t@),
{
    assert(v3_sub(ray_at(r@, t@), r@.orig) =~= v3_scale(r@.dir, t@));
}

/// For whole-number parameters, and where nothing saturates, `at` is affine:
/// one step of `t + s` equals a step of `t` followed by the direction scaled
/// by `s`. For fractional parameters truncation makes this false in the last
/// raw unit, so the law is stated on the exact grid.
pub proof fn lemma_at_affine_whole(r: Ray, t: Real, s: Real, tu: int, su: int)
    requires
        t@ == tu * (SCALE as int),
        s@ == su * (SCALE as int),
        abs_i(t@ + s@) <= RAW_MAX as int,
        abs_i(r@.dir.x * tu) <= RAW_MAX as int,
        abs_i(r@.dir.y * tu) <= RAW_MAX as int,
        abs_i(r@.dir.z * tu) <= RAW_MAX as int,
        abs_i(r@.dir.x * su) <= RAW_MAX as int,
        abs_i(r@.dir.y * su) <= RAW_MAX as int,
        abs_i(r@.dir.z * su) <= RAW_MAX as int,
        abs_i(r@.dir.x * (tu + su)) <= RAW_MAX as int,
        abs_i(r@.dir.y * (tu + su)) <= RAW_MAX as int,
        abs_i(r@.dir.z * (tu + su)) <= RAW_MAX as int,
        abs_i(r@.orig.x + r@.dir.x * tu) <= RAW_MAX as int,
        abs_i(r@.orig.y + r@.dir.y * tu) <= RAW_MAX as int,
        abs_i(r@.orig.z + r@.dir.z * tu) <= RAW_MAX as int,
        abs_i(r@.orig.x + r@.dir.x * (tu + su)) <= RAW_MAX as int,
        abs_i(r@.orig.y + r@.dir.y * (tu + su)) <= RAW_MAX as int,
        abs_i(r@.orig.z + r@.dir.z * (tu + su)) <= RAW_MAX as int,
    ensures
        ray_at(r@, fx_add(t@, s@)) == v3_add(ray_at(r@, t@), v3_scale(r@.dir, s@)),
{
    crate::fixed::lemma_fx_mul_whole(r@.dir.x, tu);
    crate::fixed::lemma_fx_mul_whole(r@.dir.y, tu);
    crate::fixed::lemma_fx_mul_whole(r@.dir.z, tu);
    crate::fixed::lemma_fx_mul_whole(r@.dir.x, su);
    crate::fixed::lemma_fx_mul_whole(r@.dir.y, su);
    crate::fixed::lemma_fx_mul_whole(r@.dir.z, su);
    crate::fixed::lemma_fx_mul_whole(r@.dir.x, tu + su);
    crate::fixed::lemma_fx_mul_whole(r@.dir.y, tu + su);
    crate::fixed::lemma_fx_mul_whole(r@.dir.z, tu + su);
    assert(r@.dir.x * (tu + su) == r@.dir.x * tu + r@.dir.x * su) by (nonlinear_arith);
    assert(r@.dir.y * (tu + su) == r@.dir.y * tu + r@.dir.y * su) by (nonlinear_arith);
    assert(r@.dir.z * (tu + su) == r@.dir.z * tu + r@.dir.z * su) by (nonlinear_arith);
    assert(ray_at(r@, fx_add(t@, s@)) =~= v3_add(ray_at(r@, t@), v3_scale(r@.dir, s@)));
}

} // verus!
