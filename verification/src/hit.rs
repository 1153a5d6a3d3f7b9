//! Ray–surface intersection: hit records, spheres, and scene lists.
//!
//! `hit(ray, t_min, t_max)` reports the nearest intersection with a
//! parameter in `[t_min, t_max]`, or nothing. The executable code is pinned
//! exactly to the spec-level intersection functions, and every returned
//! record carries a normal oriented against the incoming ray.

use vstd::prelude::*;

use crate::fixed::{
    fx_add, fx_div, fx_mul, fx_neg, fx_sqrt, fx_sub, lemma_real_range, Real, RAW_MAX, SCALE,
};
use crate::material::{mat_wf, MaterialKind};
use crate::ray::{ray_at, Ray, RayV};
use crate::vec3::{
    lemma_dot_neg, v3_div, v3_dot, v3_len2, v3_neg, v3_sub, Point3, Vec3, Vec3V,
};

verus! {

broadcast use lemma_real_range;

/// Mathematical model of an intersection record.
pub struct HitV {
    pub p: Vec3V,
    pub normal: Vec3V,
    pub t: int,
    pub front_face: bool,
    pub material: MaterialKind,
}

/// The record produced at parameter `t` and point `p`: the outward normal
/// is kept when it opposes the ray and flipped when it does not.
pub open spec fn spec_hit_record(
    t: int,
    p: Vec3V,
    ray: RayV,
    outward: Vec3V,
    material: MaterialKind,
) -> HitV {
    let front = v3_dot(ray.dir, outward) < 0;
    HitV {
        p,
        normal: if front {
            outward
        } else {
            v3_neg(outward)
        },
        t,
        front_face: front,
        material,
    }
}

/// A record is valid when its material is.
pub open spec fn rec_wf(h: HitV) -> bool {
    mat_wf(h.material)
}

/// A transient intersection record, consumed within one bounce.
#[derive(Clone, Copy, Debug)]
pub struct HitRecord {
    pub p: Point3,
    pub normal: Vec3,
    pub material: MaterialKind,
    pub t: Real,
    pub front_face: bool,
}

impl View for HitRecord {
    type V = HitV;

    open spec fn view(&self) -> HitV {
        HitV {
            p: self.p@,
            normal: self.normal@,
            t: self.t@,
            front_face: self.front_face,
            material: self.material,
        }
    }
}

impl HitRecord {
    /// Build a record, orienting the outward normal against the ray.
    pub fn new(t: Real, p: Point3, ray: &Ray, outward_normal: Vec3, material: MaterialKind) -> (r:
        HitRecord)
        ensures
            r@ == spec_hit_record(t@, p@, ray@, outward_normal@, material),
            v3_dot(ray@.dir, r@.normal) <= 0,
    {
        let front_face = ray.direction().dot(&outward_normal).lt(&Real::zero());
        let normal = if front_face {
            outward_normal
        } else {
            proof {
                lemma_dot_neg(ray@.dir, outward_normal@);
            }
            outward_normal.neg()
        };
        HitRecord { p, normal, material, t, front_face }
    }
}

/// The view of an optional record.
pub open spec fn opt_hit_view(r: Option<HitRecord>) -> Option<HitV> {
    match r {
        Some(h) => Some(h@),
        None => None,
    }
}

/// Something a ray can intersect within a parametric interval.
pub trait Hittable {
    /// Structural validity of the scene object.
    spec fn wf(&self) -> bool;

    /// The nearest intersection in `[t_min, t_max]`, as a mathematical
    /// function of the object, the ray and the interval.
    spec fn spec_hit(&self, ray: RayV, t_min: int, t_max: int) -> Option<HitV>;

    /// Report the nearest intersection with parameter in `[t_min, t_max]`,
    /// or nothing. Any returned normal opposes the incoming ray.
    fn hit(&self, ray: &Ray, t_min: Real, t_max: Real) -> (r: Option<HitRecord>)
        requires
            self.wf(),
        ensures
            opt_hit_view(r) == self.spec_hit(ray@, t_min@, t_max@),
            r matches Some(rec) ==> v3_dot(ray@.dir, rec@.normal) <= 0,
            r matches Some(rec) ==> t_min@ <= rec@.t <= t_max@,
            r matches Some(rec) ==> rec_wf(rec@),
    ;
}

/// An immutable sphere with its surface material.
#[derive(Clone, Copy, Debug)]
pub struct Sphere {
    pub center: Point3,
    pub radius: Real,
    pub material: MaterialKind,
}

impl Sphere {
    /// A sphere of positive radius.
    pub fn new(center: Point3, radius: Real, material: MaterialKind) -> (r: Sphere)
        requires
            radius@ > 0,
            mat_wf(material),
        ensures
            r.center == center,
            r.radius == radius,
            r.material == material,
            r.wf(),
    {
        Sphere { center, radius, material }
    }
}

/// The quadratic-root intersection of a ray with a sphere: the nearer
/// admissible root wins; a ray starting inside the sphere is caught by the
/// farther root. A zero-length direction (below the fixed-point
/// resolution) intersects nothing.
pub open spec fn spec_sphere_hit(s: Sphere, ray: RayV, t_min: int, t_max: int) -> Option<HitV> {
    let oc = v3_sub(ray.orig, s.center@);
    let a = v3_len2(ray.dir);
    let half_b = v3_dot(oc, ray.dir);
    let c = fx_sub(v3_len2(oc), fx_mul(s.radius@, s.radius@));
    let disc = fx_sub(fx_mul(half_b, half_b), fx_mul(a, c));
    if disc < 0 || a == 0 {
        None
    } else {
        let sqrtd = fx_sqrt(disc);
        let root1 = fx_div(fx_sub(fx_neg(half_b), sqrtd), a);
        let root = if t_min <= root1 && root1 <= t_max {
            root1
        } else {
            fx_div(fx_add(fx_neg(half_b), sqrtd), a)
        };
        if t_min <= root && root <= t_max {
            let p = ray_at(ray, root);
            let outward = v3_div(v3_sub(p, s.center@), s.radius@);
            Some(spec_hit_record(root, p, ray, outward, s.material))
        } else {
            None
        }
    }
}

impl Hittable for Sphere {
    /// A positive radius and a valid material.
    open spec fn wf(&self) -> bool {
        self.radius@ > 0 && mat_wf(self.material)
    }

    open spec fn spec_hit(&self, ray: RayV, t_min: int, t_max: int) -> Option<HitV> {
        spec_sphere_hit(*self, ray, t_min, t_max)
    }

    fn hit(&self, ray: &Ray, t_min: Real, t_max: Real) -> (r: Option<HitRecord>) {
        let oc = ray.origin().sub(&self.center);
        let dir = ray.direction();
        let a = dir.length_squared();
        let half_b = oc.dot(&dir);
        let c = oc.length_squared().sub(self.radius.mul(self.radius));
        let disc = half_b.mul(half_b).sub(a.mul(c));
        if disc.lt(&Real::zero()) || a.raw() == 0 {
            return None;
        }
        let sqrtd = disc.sqrt();
        let root1 = half_b.neg().sub(sqrtd).div(a);
        let root = if t_min.le(&root1) && root1.le(&t_max) {
            root1
        } else {
            half_b.neg().add(sqrtd).div(a)
        };
        if t_min.le(&root) && root.le(&t_max) {
            let p = ray.at(root);
            let outward = p.sub(&self.center).div(self.radius);
            Some(HitRecord::new(root, p, ray, outward, self.material))
        } else {
            None
        }
    }
}

/// The view of an optional parameter value.
pub open spec fn opt_real_view(r: Option<Real>) -> Option<int> {
    match r {
        Some(t) => Some(t@),
        None => None,
    }
}

/// The near-root parameter at which a ray meets a sphere, with no interval
/// check: negative when the sphere is behind the ray or around its origin.
/// A direction of zero length (below the fixed-point resolution) meets
/// nothing.
pub open spec fn spec_hit_sphere(center: Vec3V, rad: int, ray: RayV) -> Option<int> {
    let oc = v3_sub(ray.orig, center);
    let a = v3_len2(ray.dir);
    let half_b = v3_dot(oc, ray.dir);
    let c = fx_sub(v3_len2(oc), fx_mul(rad, rad));
    let disc = fx_sub(fx_mul(half_b, half_b), fx_mul(a, c));
    if disc < 0 || a == 0 {
        None
    } else {
        Some(fx_div(fx_sub(fx_neg(half_b), fx_sqrt(disc)), a))
    }
}

/// The near-root parameter at which `ray` meets the sphere of radius `rad`
/// around `center`, or nothing when the quadratic has no real root.
pub fn hit_sphere(center: &Vec3, rad: Real, ray: &Ray) -> (r: Option<Real>)
    ensures
        opt_real_view(r) == spec_hit_sphere(center@, rad@, ray@),
{
    let oc = ray.origin().sub(center);
    let dir = ray.direction();
    let a = dir.length_squared();
    let half_b = oc.dot(&dir);
    let c = oc.length_squared().sub(rad.mul(rad));
    let discriminant = half_b.mul(half_b).sub(a.mul(c));
    if discriminant.lt(&Real::zero()) || a.raw() == 0 {
        None
    } else {
        Some(half_b.neg().sub(discriminant.sqrt()).div(a))
    }
}

/// Fold over a scene: scan the members in order, shrinking the admissible
/// interval to the closest parameter found so far.
pub open spec fn spec_list_hit(
    items: Seq<Sphere>,
    ray: RayV,
    t_min: int,
    closest: int,
    cur: Option<HitV>,
) -> Option<HitV>
    decreases items.len(),
{
    if items.len() == 0 {
        cur
    } else {
        match spec_sphere_hit(items[0], ray, t_min, closest) {
            Some(h) => spec_list_hit(items.drop_first(), ray, t_min, h.t, Some(h)),
            None => spec_list_hit(items.drop_first(), ray, t_min, closest, cur),
        }
    }
}

/// An ordered collection of spheres; insertion order does not affect which
/// intersection is reported, only the scan.
#[derive(Debug)]
pub struct HittableList {
    list: Vec<Sphere>,
}

impl HittableList {
    /// The members of the scene.
    pub closed spec fn members(&self) -> Seq<Sphere> {
        self.list@
    }

    /// An empty scene.
    pub fn new() -> (r: HittableList)
        ensures
            r.members() == Seq::<Sphere>::empty(),
            r.wf(),
    {
        HittableList { list: Vec::new() }
    }

    /// Append a sphere to the scene.
    pub fn add(&mut self, sphere: Sphere)
        requires
            sphere.wf(),
        ensures
            final(self).members() == old(self).members().push(sphere),
            old(self).wf() ==> final(self).wf(),
    {
        self.list.push(sphere);
        proof {
            if forall|i: int|
                0 <= i < old(self).members().len() ==> #[trigger] old(self).members()[i].wf() {
                assert forall|i: int| 0 <= i < self.members().len() implies #[trigger] self
                    .members()[i].wf() by {
                    if i < old(self).members().len() {
                        assert(self.members()[i] == old(self).members()[i]);
                    } else {
                        assert(self.members()[i] == sphere);
                    }
                }
            }
        }
    }

    /// Remove every member.
    pub fn clear(&mut self)
        ensures
            final(self).members() == Seq::<Sphere>::empty(),
            final(self).wf(),
    {
        self.list.clear();
    }
}

impl Hittable for HittableList {
    /// Every member is valid.
    open spec fn wf(&self) -> bool {
        forall|i: int| 0 <= i < self.members().len() ==> #[trigger] self.members()[i].wf()
    }

    open spec fn spec_hit(&self, ray: RayV, t_min: int, t_max: int) -> Option<HitV> {
        spec_list_hit(self.members(), ray, t_min, t_max, None)
    }

    fn hit(&self, ray: &Ray, t_min: Real, t_max: Real) -> (r: Option<HitRecord>) {
        let mut closest: Real = t_max;
        let mut ret: Option<HitRecord> = None;
        let n = self.list.len();
        let ghost items = self.members();
        proof {
            assert(items.skip(0) =~= items);
        }
        let mut i: usize = 0;
        while i < n
            invariant
                n == items.len(),
                0 <= i <= n,
                items == self.members(),
                self.wf(),
                spec_list_hit(items.skip(i as int), ray@, t_min@, closest@, opt_hit_view(ret))
                    == spec_list_hit(items, ray@, t_min@, t_max@, None),
                closest@ == match opt_hit_view(ret) {
                    Some(h) => h.t,
                    None => t_max@,
                },
                ret matches Some(rec) ==> v3_dot(ray@.dir, rec@.normal) <= 0,
                ret matches Some(rec) ==> t_min@ <= rec@.t <= t_max@,
                ret matches Some(rec) ==> rec_wf(rec@),
            decreases n - i,
        {
            proof {
                assert(items.skip(i as int)[0] == items[i as int]);
                assert(items.skip(i as int).drop_first() =~= items.skip(i as int + 1));
            }
            let member = &self.list[i];
            if let Some(rec) = member.hit(ray, t_min, closest) {
                closest = rec.t;
                ret = Some(rec);
            }
            i = i + 1;
        }
        proof {
            assert(items.skip(n as int) =~= Seq::<Sphere>::empty());
        }
        ret
    }
}

/// The quadratic pieces of a sphere query for a ray cast straight down
/// negative z, with the center offset `off` across and `dist` along the
/// view direction: the coefficient `a` is one, `half_b` is `-dist`, and
/// the discriminant is the squared radius minus the squared offset.
proof fn lemma_axis_setup(s: Sphere, ray: RayV, off: int, dist: int)
    requires
        ray.dir == (Vec3V { x: 0, y: 0, z: -(SCALE as int) }),
        off == ray.orig.x - s.center@.x,
        ray.orig.y == s.center@.y,
        dist == ray.orig.z - s.center@.z,
        crate::fixed::abs_i(off) <= 1_000_000_000_000,
        crate::fixed::abs_i(dist) <= 1_000_000_000_000,
        0 <= s.radius@ <= 1_000_000_000_000,
    ensures
        ({
            let sc = SCALE as int;
            let oc = v3_sub(ray.orig, s.center@);
            let a = v3_len2(ray.dir);
            let half_b = v3_dot(oc, ray.dir);
            let c = fx_sub(v3_len2(oc), fx_mul(s.radius@, s.radius@));
            let disc = fx_sub(fx_mul(half_b, half_b), fx_mul(a, c));
            &&& a == sc
            &&& half_b == -dist
            &&& disc == fx_mul(s.radius@, s.radius@) - (off * off) / sc
            &&& 0 <= fx_mul(s.radius@, s.radius@) <= 1_000_000_000_000_000_000
            &&& 0 <= (off * off) / sc <= 1_000_000_000_000_000_000
        }),
{
    let sc = SCALE as int;
    let rr = s.radius@ * s.radius@;
    let oo = off * off;
    let dd = dist * dist;
    assert((-(1_000_000int)) * (-(1_000_000int)) == 1_000_000_000_000int) by (nonlinear_arith);
    assert(1_000_000int * 1_000_000int == 1_000_000_000_000int) by (nonlinear_arith);
    assert(1_000_001int * 1_000_000int == 1_000_001_000_000int) by (nonlinear_arith);
    crate::fixed::lemma_tdiv_eval(1_000_000_000_000, sc, sc);
    crate::fixed::lemma_tdiv_eval(0, sc, 0);
    // Squares and their scaled quotients are bounded by the input bounds.
    assert(0 <= rr <= 1_000_000_000_000_000_000_000_000) by (nonlinear_arith)
        requires
            rr == s.radius@ * s.radius@,
            0 <= s.radius@ <= 1_000_000_000_000,
    ;
    assert(0 <= oo <= 1_000_000_000_000_000_000_000_000) by (nonlinear_arith)
        requires
            oo == off * off,
            crate::fixed::abs_i(off) <= 1_000_000_000_000,
    ;
    assert(0 <= dd <= 1_000_000_000_000_000_000_000_000) by (nonlinear_arith)
        requires
            dd == dist * dist,
            crate::fixed::abs_i(dist) <= 1_000_000_000_000,
    ;
    assert(1_000_000_000_000_000_000_000_000int / 1_000_000int == 1_000_000_000_000_000_000int)
        by (nonlinear_arith);
    vstd::arithmetic::div_mod::lemma_div_is_ordered(0, rr, sc);
    vstd::arithmetic::div_mod::lemma_div_is_ordered(rr, 1_000_000_000_000_000_000_000_000, sc);
    vstd::arithmetic::div_mod::lemma_div_is_ordered(0, oo, sc);
    vstd::arithmetic::div_mod::lemma_div_is_ordered(oo, 1_000_000_000_000_000_000_000_000, sc);
    vstd::arithmetic::div_mod::lemma_div_is_ordered(0, dd, sc);
    vstd::arithmetic::div_mod::lemma_div_is_ordered(dd, 1_000_000_000_000_000_000_000_000, sc);
    // The saturated squares are the plain scaled quotients.
    assert(fx_mul(s.radius@, s.radius@) == rr / sc);
    assert(fx_mul(off, off) == oo / sc) by {
        assert(crate::fixed::abs_i(oo) == crate::fixed::abs_i(off) * crate::fixed::abs_i(off))
            by (nonlinear_arith)
            requires
                oo == off * off,
        ;
    }
    assert(fx_mul(dist, dist) == dd / sc) by {
        assert(crate::fixed::abs_i(dd) == crate::fixed::abs_i(dist) * crate::fixed::abs_i(dist))
            by (nonlinear_arith)
            requires
                dd == dist * dist,
        ;
    }
    // The direction's squared length is exactly one.
    let dirv = ray.dir;
    assert(0int * 0int == 0int) by (nonlinear_arith);
    assert(v3_len2(dirv) == sc);
    // The dot of the offset with the direction is exactly -dist.
    let oc = v3_sub(ray.orig, s.center@);
    assert(oc == (Vec3V { x: off, y: 0, z: dist }));
    crate::fixed::lemma_fx_mul_whole(dist, -1);
    assert(v3_dot(oc, dirv) == -dist);
    // The squared offset length is the sum of the two scaled squares.
    assert(v3_len2(oc) == oo / sc + dd / sc);
    // a * c is just c, and the discriminant collapses.
    let c = fx_sub(v3_len2(oc), fx_mul(s.radius@, s.radius@));
    crate::fixed::lemma_fx_mul_comm(sc, c);
    crate::fixed::lemma_fx_mul_whole(c, 1);
    assert(fx_mul(sc, c) == c);
    assert(fx_mul(-dist, -dist) == dd / sc) by {
        assert((-dist) * (-dist) == dd) by (nonlinear_arith)
            requires
                dd == dist * dist,
        ;
        assert(crate::fixed::abs_i(dd) == crate::fixed::abs_i(dist) * crate::fixed::abs_i(dist))
            by (nonlinear_arith)
            requires
                dd == dist * dist,
        ;
    }
}

/// The square root of an exactly representable squared radius.
proof fn lemma_radius_sqrt(rad: int)
    requires
        0 <= rad <= 1_000_000_000_000,
        (rad * rad) % (SCALE as int) == 0,
    ensures
        fx_sqrt(fx_mul(rad, rad)) == rad,
{
    let sc = SCALE as int;
    let rr = rad * rad;
    assert(0 <= rr <= 1_000_000_000_000_000_000_000_000) by (nonlinear_arith)
        requires
            rr == rad * rad,
            0 <= rad <= 1_000_000_000_000,
    ;
    assert(1_000_000_000_000_000_000_000_000int / 1_000_000int == 1_000_000_000_000_000_000int)
        by (nonlinear_arith);
    vstd::arithmetic::div_mod::lemma_div_is_ordered(0, rr, sc);
    vstd::arithmetic::div_mod::lemma_div_is_ordered(rr, 1_000_000_000_000_000_000_000_000, sc);
    assert(fx_mul(rad, rad) == rr / sc);
    vstd::arithmetic::div_mod::lemma_fundamental_div_mod(rr, sc);
    assert((rr / sc) * sc == rr) by (nonlinear_arith)
        requires
            rr == sc * (rr / sc) + rr % sc,
            rr % sc == 0,
    ;
    assert(crate::fixed::is_sqrt_floor(rr, rad)) by (nonlinear_arith)
        requires
            rr == rad * rad,
            rad >= 0,
    ;
    crate::fixed::lemma_sqrt_unique(rr, rad);
}

/// Dividing by the coefficient one is exact.
proof fn lemma_div_by_one(x: int)
    requires
        crate::fixed::abs_i(x) <= RAW_MAX as int,
    ensures
        fx_div(x, SCALE as int) == x,
{
    crate::fixed::lemma_fx_mul_whole(x, 1);
    assert(fx_div(x, SCALE as int) == fx_mul(x, SCALE as int));
}

/// A ray aimed straight at a sphere's center from outside hits it at the
/// distance to its surface: with the ray cast down negative z at unit
/// speed and the center `dist` below, the reported parameter is exactly
/// `dist - radius`. The squared radius must sit on the fixed-point grid
/// so that its square root is exact.
pub proof fn lemma_sphere_direct_hit(s: Sphere, ray: RayV, dist: int, t_min: int, t_max: int)
    requires
        ray.dir == (Vec3V { x: 0, y: 0, z: -(SCALE as int) }),
        ray.orig.x == s.center@.x,
        ray.orig.y == s.center@.y,
        dist == ray.orig.z - s.center@.z,
        0 < s.radius@ < dist <= 1_000_000_000_000,
        (s.radius@ * s.radius@) % (SCALE as int) == 0,
        t_min <= dist - s.radius@ <= t_max,
    ensures
        match spec_sphere_hit(s, ray, t_min, t_max) {
            Some(h) => h.t == dist - s.radius@,
            None => false,
        },
{
    let sc = SCALE as int;
    lemma_axis_setup(s, ray, 0, dist);
    assert(0int * 0int == 0int) by (nonlinear_arith);
    crate::fixed::lemma_tdiv_eval(0, sc, 0);
    lemma_radius_sqrt(s.radius@);
    lemma_div_by_one(dist - s.radius@);
}

/// A ray starting inside a sphere reports the far intersection ahead of
/// it, not the near one behind it: with the center `dist` below along the
/// view direction and `dist` smaller than the radius, the near root
/// `dist - radius` is negative, so the reported parameter is
/// `dist + radius`.
pub proof fn lemma_sphere_hit_from_inside(s: Sphere, ray: RayV, dist: int, t_min: int, t_max: int)
    requires
        ray.dir == (Vec3V { x: 0, y: 0, z: -(SCALE as int) }),
        ray.orig.x == s.center@.x,
        ray.orig.y == s.center@.y,
        dist == ray.orig.z - s.center@.z,
        0 <= dist < s.radius@ <= 1_000_000_000_000,
        (s.radius@ * s.radius@) % (SCALE as int) == 0,
        0 <= t_min <= dist + s.radius@ <= t_max,
    ensures
        match spec_sphere_hit(s, ray, t_min, t_max) {
            Some(h) => h.t == dist + s.radius@,
            None => false,
        },
{
    let sc = SCALE as int;
    lemma_axis_setup(s, ray, 0, dist);
    assert(0int * 0int == 0int) by (nonlinear_arith);
    crate::fixed::lemma_tdiv_eval(0, sc, 0);
    lemma_radius_sqrt(s.radius@);
    lemma_div_by_one(dist - s.radius@);
    lemma_div_by_one(dist + s.radius@);
}

/// A ray whose line passes a sphere at a perpendicular offset exceeding
/// the radius (by at least one resolution step, squared) misses it: the
/// discriminant is negative, whatever the distance along the view
/// direction.
pub proof fn lemma_sphere_miss(s: Sphere, ray: RayV, off: int, dist: int, t_min: int, t_max: int)
    requires
        ray.dir == (Vec3V { x: 0, y: 0, z: -(SCALE as int) }),
        off == ray.orig.x - s.center@.x,
        ray.orig.y == s.center@.y,
        dist == ray.orig.z - s.center@.z,
        crate::fixed::abs_i(off) <= 1_000_000_000_000,
        crate::fixed::abs_i(dist) <= 1_000_000_000_000,
        0 <= s.radius@ <= 1_000_000_000_000,
        off * off >= s.radius@ * s.radius@ + SCALE as int,
    ensures
        spec_sphere_hit(s, ray, t_min, t_max) is None,
{
    let sc = SCALE as int;
    lemma_axis_setup(s, ray, off, dist);
    let rr = s.radius@ * s.radius@;
    let oo = off * off;
    assert(rr >= 0) by (nonlinear_arith)
        requires
            rr == s.radius@ * s.radius@,
    ;
    vstd::arithmetic::div_mod::lemma_fundamental_div_mod(rr, sc);
    vstd::arithmetic::div_mod::lemma_mod_bound(rr, sc);
    assert((rr + sc) / sc == rr / sc + 1) by (nonlinear_arith)
        requires
            rr == sc * (rr / sc) + rr % sc,
            0 <= rr % sc < sc,
            sc > 0,
            rr >= 0,
    ;
    vstd::arithmetic::div_mod::lemma_div_is_ordered(rr + sc, oo, sc);
    assert(oo / sc > rr / sc);
    vstd::arithmetic::div_mod::lemma_div_is_ordered(0, rr, sc);
    assert(fx_mul(s.radius@, s.radius@) == rr / sc);
}

} // verus!
