//! Surface materials and the scatter protocol.
//!
//! A material answers an incoming ray at a surface hit with a scattered ray
//! and an attenuation color, or absorbs the ray. The three kinds — diffuse
//! Lambertian, specular metal with fuzz, and refractive dielectric — form a
//! closed enumeration, so a sphere can carry any of them by value.

use vstd::prelude::*;

use crate::fixed::{fx_add, fx_div, fx_mul, fx_neg, fx_sqrt, fx_sub, lemma_real_range, Real, SCALE};
use crate::hit::{HitRecord, HitV};
use crate::ray::{Ray, RayV};
use crate::vec3::{
    v3_add, v3_dot, v3_len2, v3_near_zero, v3_neg, v3_scale, v3_sub, v3_unit, Color, Vec3, Vec3V,
};

verus! {

broadcast use lemma_real_range;

/// A diffuse surface with a base color.
#[derive(Clone, Copy, Debug, PartialEq, Eq, Structural)]
pub struct Lambertian {
    pub albedo: Color,
}

impl Lambertian {
    /// A diffuse material with the given base color.
    pub fn new(albedo: Color) -> (r: Lambertian)
        ensures
            r.albedo == albedo,
    {
        Lambertian { albedo }
    }
}

/// A reflective surface: a base color and a fuzz radius in `[0, 1]`.
#[derive(Clone, Copy, Debug, PartialEq, Eq, Structural)]
pub struct Metal {
    pub albedo: Color,
    pub fuzz: Real,
}

impl Metal {
    /// A metal with the given color; fuzz is clamped into `[0, 1]` at
    /// construction.
    pub fn new(albedo: Color, fuzz: Real) -> (r: Metal)
        ensures
            r.albedo == albedo,
            r.fuzz@ == if fuzz@ < 0 {
                0
            } else if fuzz@ < SCALE as int {
                fuzz@
            } else {
                SCALE as int
            },
            0 <= r.fuzz@ <= SCALE as int,
    {
        let fuzz = if fuzz.lt(&Real::zero()) {
            Real::zero()
        } else if fuzz.lt(&Real::one()) {
            fuzz
        } else {
            Real::one()
        };
        Metal { albedo, fuzz }
    }
}

/// A transmissive surface with an index of refraction.
#[derive(Clone, Copy, Debug, PartialEq, Eq, Structural)]
pub struct Dielectric {
    pub ir: Real,
}

impl Dielectric {
    /// A dielectric with the given positive index of refraction.
    pub fn new(index_of_refraction: Real) -> (r: Dielectric)
        requires
            index_of_refraction@ > 0,
        ensures
            r.ir == index_of_refraction,
    {
        Dielectric { ir: index_of_refraction }
    }

    /// Schlick's approximation of the reflectance at the given incidence.
    pub fn reflectance(&self, cosine: Real, ref_idx: Real) -> (r: Real)
        requires
            fx_add(SCALE as int, ref_idx@) != 0,
        ensures
            r@ == spec_reflectance(cosine@, ref_idx@),
    {
        let one = Real::one();
        let r0 = one.sub(ref_idx).div(one.add(ref_idx));
        let r0 = r0.mul(r0);
        let base = one.sub(cosine);
        let pow5 = base.mul(base).mul(base).mul(base).mul(base);
        r0.add(one.sub(r0).mul(pow5))
    }
}

/// Schlick's approximation: `r0 + (1 - r0) * (1 - cos)^5` with
/// `r0 = ((1 - ir) / (1 + ir))^2`, in fixed point.
pub open spec fn spec_reflectance(cosine: int, ref_idx: int) -> int
    recommends
        fx_add(SCALE as int, ref_idx) != 0,
{
    let s = SCALE as int;
    let r0 = fx_div(fx_sub(s, ref_idx), fx_add(s, ref_idx));
    let r0sq = fx_mul(r0, r0);
    let base = fx_sub(s, cosine);
    let pow5 = fx_mul(fx_mul(fx_mul(fx_mul(base, base), base), base), base);
    fx_add(r0sq, fx_mul(fx_sub(s, r0sq), pow5))
}

/// The mirror image of `v` about the normal `n`: `v - 2 (v . n) n`.
pub open spec fn spec_reflect(v: Vec3V, n: Vec3V) -> Vec3V {
    v3_sub(v, v3_scale(v3_scale(n, v3_dot(v, n)), 2 * (SCALE as int)))
}

/// Mirror-reflect `v` about the unit normal `n`.
pub fn reflect(v: &Vec3, n: &Vec3) -> (r: Vec3)
    ensures
        r@ == spec_reflect(v@, n@),
{
    let two = Real::from_raw(2 * SCALE);
    v.sub(&n.scale(v.dot(n)).scale(two))
}

/// Snell refraction of the unit direction `uv` at the unit normal `n`,
/// with the given ratio of refraction indices; decomposed into the
/// perpendicular and parallel components. A negative radicand (possible
/// only away from unit inputs) is squared away by the absolute value.
pub open spec fn spec_refract(uv: Vec3V, n: Vec3V, etai_over_etat: int) -> Vec3V {
    let s = SCALE as int;
    let cos_theta = {
        let d = v3_dot(v3_neg(uv), n);
        if d <= s {
            d
        } else {
            s
        }
    };
    let r_out_perp = v3_scale(v3_add(uv, v3_scale(n, cos_theta)), etai_over_etat);
    let tmp = crate::fixed::abs_i(fx_sub(s, v3_len2(r_out_perp)));
    let r_out_parallel = v3_scale(n, fx_neg(fx_sqrt(tmp)));
    v3_add(r_out_perp, r_out_parallel)
}

/// Refract `uv` about `n` by the given ratio of refraction indices.
pub fn refract(uv: &Vec3, n: &Vec3, etai_over_etat: Real) -> (r: Vec3)
    ensures
        r@ == spec_refract(uv@, n@, etai_over_etat@),
{
    let cos_theta = uv.neg().dot(n).min(Real::one());
    let r_out_perp = uv.add(&n.scale(cos_theta)).scale(etai_over_etat);
    let tmp = Real::one().sub(r_out_perp.length_squared()).abs();
    let r_out_parallel = n.scale(tmp.sqrt().neg());
    r_out_perp.add(&r_out_parallel)
}

/// A closed choice of surface material, carried by value.
#[derive(Clone, Copy, Debug, PartialEq, Eq, Structural)]
pub enum MaterialKind {
    Lambertian(Lambertian),
    Metal(Metal),
    Dielectric(Dielectric),
}

/// Structural validity of a material: a dielectric needs a positive index
/// of refraction, so its refraction ratio is well defined.
pub open spec fn mat_wf(m: MaterialKind) -> bool {
    match m {
        MaterialKind::Dielectric(d) => d.ir@ > 0,
        _ => true,
    }
}

/// Mathematical model of a scatter response.
pub struct ScatterV {
    pub did_scatter: bool,
    pub attenuation: Vec3V,
    pub scattered: RayV,
}

/// A material's answer to an incoming ray at a surface hit.
#[derive(Clone, Copy, Debug)]
pub struct ScatterResult {
    pub did_scatter: bool,
    pub attenuation: Color,
    pub scattered: Ray,
}

impl View for ScatterResult {
    type V = ScatterV;

    open spec fn view(&self) -> ScatterV {
        ScatterV {
            did_scatter: self.did_scatter,
            attenuation: self.attenuation@,
            scattered: self.scattered@,
        }
    }
}

/// The diffuse scatter direction: the normal offset by a unit sample, or
/// the bare normal when the two cancel to (fixed-point) zero.
pub open spec fn spec_lambertian_dir(normal: Vec3V, u: Vec3V) -> Vec3V {
    let d = v3_add(normal, u);
    if v3_near_zero(d) {
        normal
    } else {
        d
    }
}

/// The cosine of the angle of incidence: `(-uv) . n`, capped at one.
pub open spec fn spec_cos_theta(uv: Vec3V, n: Vec3V) -> int {
    let d = v3_dot(v3_neg(uv), n);
    if d <= SCALE as int {
        d
    } else {
        SCALE as int
    }
}

/// The sine of the angle of incidence, with a negative radicand (possible
/// only away from unit inputs) truncated to zero.
pub open spec fn spec_sin_theta(uv: Vec3V, n: Vec3V) -> int {
    let cos = spec_cos_theta(uv, n);
    let t = fx_sub(SCALE as int, fx_mul(cos, cos));
    fx_sqrt(
        if t < 0 {
            0
        } else {
            t
        },
    )
}

/// Total internal reflection: Snell's law has no solution.
pub open spec fn spec_cannot_refract(uv: Vec3V, n: Vec3V, ratio: int) -> bool {
    fx_mul(ratio, spec_sin_theta(uv, n)) > SCALE as int
}

/// The refraction ratio a dielectric applies on the given face.
pub open spec fn spec_refraction_ratio(ir: int, front_face: bool) -> int
    recommends
        ir != 0,
{
    if front_face {
        fx_div(SCALE as int, ir)
    } else {
        ir
    }
}

/// A surface's scatter behaviour, pinned per material by `scatter_ok`.
pub trait Material {
    /// Structural validity of the material.
    spec fn wf(&self) -> bool;

    /// What the material asks of the incoming ray.
    spec fn scatter_req(&self, ray: RayV) -> bool;

    /// Everything this material promises of a scatter response, whatever
    /// the random samples were.
    spec fn scatter_ok(&self, ray: RayV, rec: HitV, res: ScatterV) -> bool;

    /// Answer an incoming ray at a hit with a scattered ray and an
    /// attenuation, or absorb it.
    fn scatter(&self, r_in: &Ray, rec: &HitRecord, rng: &mut rand::rngs::StdRng) -> (res:
        ScatterResult)
        requires
            self.wf(),
            self.scatter_req(r_in@),
        ensures
            self.scatter_ok(r_in@, rec@, res@),
    ;
}

impl Material for Lambertian {
    open spec fn wf(&self) -> bool {
        true
    }

    open spec fn scatter_req(&self, ray: RayV) -> bool {
        true
    }

    /// Diffuse scatter always succeeds, attenuates by the albedo exactly,
    /// starts at the hit point, and heads along the normal offset by some
    /// unit sample.
    open spec fn scatter_ok(&self, ray: RayV, rec: HitV, res: ScatterV) -> bool {
        &&& res.did_scatter == true
        &&& res.attenuation == self.albedo@
        &&& res.scattered.orig == rec.p
        &&& exists|p: Vec3V|
            crate::rng::MIN_SAMPLE_LEN2 as int <= #[trigger] v3_len2(p) < SCALE as int
                && res.scattered.dir == spec_lambertian_dir(rec.normal, v3_unit(p))
    }

    fn scatter(&self, r_in: &Ray, rec: &HitRecord, rng: &mut rand::rngs::StdRng) -> (res:
        ScatterResult) {
        let ruv = crate::rng::random_unit_vector(rng);
        let ghost sample = choose|p: Vec3V|
            crate::rng::MIN_SAMPLE_LEN2 as int <= #[trigger] v3_len2(p) < SCALE as int && ruv@
                == v3_unit(p);
        let mut scatter_direction = rec.normal.add(&ruv);
        if scatter_direction.is_near_zero() {
            scatter_direction = rec.normal;
        }
        proof {
            assert(scatter_direction@ == spec_lambertian_dir(rec@.normal, v3_unit(sample)));
        }
        let scattered = Ray::new(rec.p, scatter_direction);
        ScatterResult { did_scatter: true, attenuation: self.albedo, scattered }
    }
}

impl Material for Metal {
    open spec fn wf(&self) -> bool {
        true
    }

    /// The incoming direction is normalized, so it must be long enough to
    /// normalize at this resolution.
    open spec fn scatter_req(&self, ray: RayV) -> bool {
        v3_len2(ray.dir) >= 1
    }

    /// Specular scatter attenuates by the albedo exactly, starts at the hit
    /// point, reports success exactly when the scattered ray leaves the
    /// surface, and with zero fuzz obeys the mirror law exactly.
    open spec fn scatter_ok(&self, ray: RayV, rec: HitV, res: ScatterV) -> bool {
        &&& res.attenuation == self.albedo@
        &&& res.scattered.orig == rec.p
        &&& res.did_scatter == (v3_dot(res.scattered.dir, rec.normal) > 0)
        &&& exists|f: Vec3V|
            #[trigger] v3_len2(f) < SCALE as int && res.scattered.dir == v3_add(
                spec_reflect(v3_unit(ray.dir), rec.normal),
                v3_scale(f, self.fuzz@),
            )
        &&& self.fuzz@ == 0 ==> res.scattered.dir == spec_reflect(v3_unit(ray.dir), rec.normal)
    }

    fn scatter(&self, r_in: &Ray, rec: &HitRecord, rng: &mut rand::rngs::StdRng) -> (res:
        ScatterResult) {
        proof {
            crate::vec3::lemma_len_pos(r_in@.dir);
        }
        let unit_in = r_in.direction().unit_vector();
        let reflected = reflect(&unit_in, &rec.normal);
        let fuzz_sample = crate::rng::random_in_unit_sphere(rng);
        let scattered_dir = reflected.add(&fuzz_sample.scale(self.fuzz));
        proof {
            if self.fuzz@ == 0 {
                lemma_scale_zero(fuzz_sample@);
                assert(scattered_dir@ =~= reflected@);
            }
        }
        let scattered = Ray::new(rec.p, scattered_dir);
        let did_scatter = scattered.direction().dot(&rec.normal).gt(&Real::zero());
        ScatterResult { did_scatter, attenuation: self.albedo, scattered }
    }
}

/// Scaling by zero gives the zero vector, and adding it changes nothing.
proof fn lemma_scale_zero(a: Vec3V)
    ensures
        v3_scale(a, 0) == (Vec3V { x: 0, y: 0, z: 0 }),
{
    crate::fixed::lemma_tdiv_eval(0, SCALE as int, 0);
    assert(a.x * 0 == 0) by (nonlinear_arith);
    assert(a.y * 0 == 0) by (nonlinear_arith);
    assert(a.z * 0 == 0) by (nonlinear_arith);
}

impl Material for Dielectric {
    /// A positive index of refraction.
    open spec fn wf(&self) -> bool {
        self.ir@ > 0
    }

    /// The incoming direction is normalized, so it must be long enough to
    /// normalize at this resolution.
    open spec fn scatter_req(&self, ray: RayV) -> bool {
        v3_len2(ray.dir) >= 1
    }

    /// Transmissive scatter always succeeds, never tints, starts at the hit
    /// point, and heads along either the mirror reflection or the Snell
    /// refraction of the unit incoming direction; total internal reflection
    /// forces the reflection.
    open spec fn scatter_ok(&self, ray: RayV, rec: HitV, res: ScatterV) -> bool {
        let ratio = spec_refraction_ratio(self.ir@, rec.front_face);
        let u = v3_unit(ray.dir);
        &&& res.did_scatter == true
        &&& res.attenuation == (Vec3V { x: SCALE as int, y: SCALE as int, z: SCALE as int })
        &&& res.scattered.orig == rec.p
        &&& (res.scattered.dir == spec_reflect(u, rec.normal) || res.scattered.dir == spec_refract(
            u,
            rec.normal,
            ratio,
        ))
        &&& spec_cannot_refract(u, rec.normal, ratio) ==> res.scattered.dir == spec_reflect(
            u,
            rec.normal,
        )
    }

    fn scatter(&self, r_in: &Ray, rec: &HitRecord, rng: &mut rand::rngs::StdRng) -> (res:
        ScatterResult) {
        let one = Real::one();
        let attenuation = Vec3::new(one, one, one);
        let refraction_ratio = if rec.front_face {
            one.div(self.ir)
        } else {
            self.ir
        };
        proof {
            lemma_ratio_nonneg(self.ir@, rec@.front_face);
        }
        proof {
            crate::vec3::lemma_len_pos(r_in@.dir);
        }
        let unit_direction = r_in.direction().unit_vector();
        let cos_theta = unit_direction.neg().dot(&rec.normal).min(one);
        let radicand = one.sub(cos_theta.mul(cos_theta));
        let radicand = if radicand.lt(&Real::zero()) {
            Real::zero()
        } else {
            radicand
        };
        let sin_theta = radicand.sqrt();
        let cannot_refract = refraction_ratio.mul(sin_theta).gt(&one);
        let direction = if cannot_refract || self.reflectance(cos_theta, refraction_ratio).gt(
            &crate::rng::random_double(Real::zero(), one, rng),
        ) {
            reflect(&unit_direction, &rec.normal)
        } else {
            refract(&unit_direction, &rec.normal, refraction_ratio)
        };
        let scattered = Ray::new(rec.p, direction);
        ScatterResult { did_scatter: true, scattered, attenuation }
    }
}

/// A refraction ratio derived from a positive index is never negative, so
/// Schlick's denominator is positive.
proof fn lemma_ratio_nonneg(ir: int, front_face: bool)
    requires
        ir > 0,
    ensures
        spec_refraction_ratio(ir, front_face) >= 0,
        fx_add(SCALE as int, spec_refraction_ratio(ir, front_face)) > 0,
{
    let s = SCALE as int;
    if front_face {
        assert(s * s >= 0) by (nonlinear_arith);
    }
}

impl Material for MaterialKind {
    /// Validity of the underlying material.
    open spec fn wf(&self) -> bool {
        mat_wf(*self)
    }

    /// The strongest demand among the variants.
    open spec fn scatter_req(&self, ray: RayV) -> bool {
        v3_len2(ray.dir) >= 1
    }

    /// The promise of the underlying material.
    open spec fn scatter_ok(&self, ray: RayV, rec: HitV, res: ScatterV) -> bool {
        match *self {
            MaterialKind::Lambertian(m) => m.scatter_ok(ray, rec, res),
            MaterialKind::Metal(m) => m.scatter_ok(ray, rec, res),
            MaterialKind::Dielectric(m) => m.scatter_ok(ray, rec, res),
        }
    }

    fn scatter(&self, r_in: &Ray, rec: &HitRecord, rng: &mut rand::rngs::StdRng) -> (res:
        ScatterResult) {
        match self {
            MaterialKind::Lambertian(m) => m.scatter(r_in, rec, rng),
            MaterialKind::Metal(m) => m.scatter(r_in, rec, rng),
            MaterialKind::Dielectric(m) => m.scatter(r_in, rec, rng),
        }
    }
}

} // verus!
