//! The recursive radiance estimator.
//!
//! `ray_color` walks a light path backward from the eye: find the nearest
//! hit above a small self-intersection guard, ask the surface to scatter,
//! recurse on the scattered ray with one unit of depth spent, and multiply
//! by the attenuation; a miss yields the sky gradient, and exhausted depth
//! yields black. Depth strictly decreases, so the recursion terminates.

use vstd::prelude::*;

use crate::fixed::{fx_add, fx_mul, fx_sub, lemma_real_range, Real, RAW_MAX, SCALE};
use crate::hit::Hittable;
use crate::material::{Material, ScatterV};
use crate::ray::{Ray, RayV};
use crate::vec3::{
    lemma_len_pos, v3_add, v3_len2, v3_mul, v3_scale, v3_unit, v3_zero, Color, Vec3V,
};

verus! {

broadcast use lemma_real_range;

/// The self-intersection guard: hits closer than this along the scattered
/// ray are ignored, so a bounce does not re-hit its own surface point.
pub const T_MIN_RAW: i64 = 1_000;

/// The sky color at the zenith.
pub open spec fn spec_sky_blue() -> Vec3V {
    Vec3V { x: 500_000, y: 700_000, z: SCALE as int }
}

/// The sky color at the horizon.
pub open spec fn spec_white() -> Vec3V {
    Vec3V { x: SCALE as int, y: SCALE as int, z: SCALE as int }
}

/// The background gradient: blend white into sky blue by the height of the
/// unit direction, `t = (unit_y + 1) / 2`.
pub open spec fn spec_background(ray: RayV) -> Vec3V
    recommends
        v3_len2(ray.dir) >= 1,
{
    let u = v3_unit(ray.dir);
    let t = fx_mul(500_000, fx_add(u.y, SCALE as int));
    v3_add(v3_scale(spec_white(), fx_sub(SCALE as int, t)), v3_scale(spec_sky_blue(), t))
}

/// The per-ray color: black at exhausted depth, black for a direction below
/// the fixed-point resolution, the attenuated bounce on a scatter, black on
/// absorption, and the sky gradient on a miss. On a hit the result is
/// either black or the componentwise product of a scatter outcome's
/// attenuation with some bounce color; with one unit of depth the bounce
/// is already black, so the whole hit is.
pub fn ray_color<H: Hittable>(ray: &Ray, world: &H, depth: u32, rng: &mut rand::rngs::StdRng) -> (c:
    Color)
    requires
        world.wf(),
    ensures
        depth == 0 ==> c@ == v3_zero(),
        depth > 0 && v3_len2(ray@.dir) < 1 ==> c@ == v3_zero(),
        depth > 0 && v3_len2(ray@.dir) >= 1 && world.spec_hit(
            ray@,
            T_MIN_RAW as int,
            RAW_MAX as int,
        ) is None ==> c@ == spec_background(ray@),
        depth > 0 && v3_len2(ray@.dir) >= 1 ==> (world.spec_hit(
            ray@,
            T_MIN_RAW as int,
            RAW_MAX as int,
        ) matches Some(h) ==> (c@ == v3_zero() || exists|res: ScatterV, b: Vec3V|
            h.material.scatter_ok(ray@, h, res) && res.did_scatter && c@ == #[trigger] v3_mul(
                res.attenuation,
                b,
            ))),
        depth == 1 && v3_len2(ray@.dir) >= 1 && world.spec_hit(
            ray@,
            T_MIN_RAW as int,
            RAW_MAX as int,
        ) is Some ==> c@ == v3_zero(),
    decreases depth,
{
    let zero = Real::zero();
    if depth == 0 {
        return Color::new(zero, zero, zero);
    }
    // A direction shorter than one raw unit cannot be normalized at this
    // resolution; such a ray carries no light.
    if ray.direction().length_squared().raw() < 1 {
        return Color::new(zero, zero, zero);
    }
    let t_min = Real::from_raw(T_MIN_RAW);
    let t_max = Real::from_raw(RAW_MAX);
    if let Some(rec) = world.hit(ray, t_min, t_max) {
        let res = rec.material.scatter(ray, &rec, rng);
        if res.did_scatter {
            let bounce = ray_color(&res.scattered, world, depth - 1, rng);
            let out = res.attenuation.mul(&bounce);
            proof {
                assert(rec@.material.scatter_ok(ray@, rec@, res@) && res@.did_scatter && out@
                    == v3_mul(res@.attenuation, bounce@));
                if depth == 1 {
                    lemma_v3_mul_zero(res@.attenuation);
                }
            }
            return out;
        } else {
            return Color::new(zero, zero, zero);
        }
    }

    proof {
        lemma_len_pos(ray@.dir);
    }
    let one = Real::one();
    let unit_dir = ray.direction().unit_vector();
    let t = Real::from_raw(500_000).mul(unit_dir.y.add(one));
    let white = Color::new(one, one, one);
    let c1 = white.scale(one.sub(t));
    let color_base = Color::new(Real::from_raw(500_000), Real::from_raw(700_000), one);
    let c2 = color_base.scale(t);
    c1.add(&c2)
}

/// Multiplying any color by black gives black.
proof fn lemma_v3_mul_zero(a: Vec3V)
    ensures
        v3_mul(a, v3_zero()) == v3_zero(),
{
    crate::fixed::lemma_tdiv_eval(0, SCALE as int, 0);
    assert(a.x * 0 == 0) by (nonlinear_arith);
    assert(a.y * 0 == 0) by (nonlinear_arith);
    assert(a.z * 0 == 0) by (nonlinear_arith);
}

/// One channel of the gradient blend stays between the sky value and
/// white: `(1 - t) + floor(q t) >= q` because `(1 - t)(1 - q)` is
/// congruent to `q t` modulo one and not negative (all in raw units).
proof fn lemma_blend_channel_bounds(t: int, q: int)
    requires
        0 <= t <= SCALE as int,
        0 <= q <= SCALE as int,
    ensures
        q <= fx_add(fx_mul(SCALE as int, fx_sub(SCALE as int, t)), fx_mul(q, t)) <= SCALE as int,
{
    let s = SCALE as int;
    crate::fixed::lemma_fx_mul_comm(s, fx_sub(s, t));
    crate::fixed::lemma_fx_mul_whole(fx_sub(s, t), 1);
    assert(fx_mul(s, fx_sub(s, t)) == s - t);
    assert(q * t >= 0) by (nonlinear_arith)
        requires
            q >= 0,
            t >= 0,
    ;
    let qt = q * t;
    let f2 = qt / s;
    vstd::arithmetic::div_mod::lemma_fundamental_div_mod(qt, s);
    let m = qt % s;
    vstd::arithmetic::div_mod::lemma_mod_bound(qt, s);
    assert(0 <= m < s);
    assert(f2 >= 0) by (nonlinear_arith)
        requires
            qt == s * f2 + m,
            0 <= m < s,
            qt >= 0,
            s > 0,
    ;
    // Upper bound on the second term: floor(q t) <= t because q <= s.
    assert(qt <= s * t) by (nonlinear_arith)
        requires
            qt == q * t,
            q <= s,
            t >= 0,
    ;
    assert(f2 <= t) by (nonlinear_arith)
        requires
            qt == s * f2 + m,
            0 <= m,
            qt <= s * t,
            s > 0,
    ;
    assert(fx_mul(q, t) == f2);
    let e = (s - t) * (s - q);
    assert(e == s * s - t * s - q * s + q * t) by (nonlinear_arith)
        requires
            e == (s - t) * (s - q),
    ;
    assert(e >= 0) by (nonlinear_arith)
        requires
            e == (s - t) * (s - q),
            t <= s,
            q <= s,
    ;
    // s * ((s - t + f2) - q) == e - m, and e - m > -s, so the channel
    // value (s - t) + f2 is at least q.
    assert(s * ((s - t + f2) - q) == e - m) by (nonlinear_arith)
        requires
            qt == q * t,
            qt == s * f2 + m,
            e == s * s - t * s - q * s + q * t,
    ;
    assert((s - t + f2) - q >= 0) by (nonlinear_arith)
        requires
            s * ((s - t + f2) - q) == e - m,
            e >= 0,
            m < s,
            s > 0,
    ;
}

/// The background gradient is a convex blend: for any ray whose direction
/// has length at least one (and components within a millionfold of one),
/// each channel of the returned color lies between that channel of the sky
/// color and of white.
pub proof fn lemma_background_bounded(ray: Ray)
    requires
        crate::fixed::abs_i(ray@.dir.x) <= 1_000_000_000_000,
        crate::fixed::abs_i(ray@.dir.y) <= 1_000_000_000_000,
        crate::fixed::abs_i(ray@.dir.z) <= 1_000_000_000_000,
        v3_len2(ray@.dir) >= SCALE as int,
    ensures
        spec_sky_blue().x <= spec_background(ray@).x <= SCALE as int,
        spec_sky_blue().y <= spec_background(ray@).y <= SCALE as int,
        spec_background(ray@).z == SCALE as int,
{
    let s = SCALE as int;
    crate::vec3::lemma_unit_components_bounded(ray@.dir);
    let u = v3_unit(ray@.dir);
    let w = fx_add(u.y, s);
    assert(-1 <= w <= 2 * s + 1);
    let t = fx_mul(500_000, w);
    if w >= 0 {
        let num = 500_000 * w;
        assert(num >= 0) by (nonlinear_arith)
            requires
                w >= 0,
                num == 500_000 * w,
        ;
        assert(num <= s * s + 500_000) by (nonlinear_arith)
            requires
                0 <= w <= 2 * s + 1,
                num == 500_000 * w,
                s == 1_000_000,
        ;
        let q = num / s;
        vstd::arithmetic::div_mod::lemma_fundamental_div_mod(num, s);
        vstd::arithmetic::div_mod::lemma_mod_bound(num, s);
        assert(0 <= q <= s) by (nonlinear_arith)
            requires
                num == s * q + num % s,
                0 <= num % s < s,
                0 <= num <= s * s + 500_000,
                s == 1_000_000,
        ;
        assert(t == q);
    } else {
        crate::fixed::lemma_tdiv_eval(500_000, s, 0);
        assert(500_000 * w == -500_000) by (nonlinear_arith)
            requires
                w == -1,
        ;
        assert(t == 0);
    }
    assert(0 <= t <= s);
    lemma_blend_channel_bounds(t, 500_000);
    lemma_blend_channel_bounds(t, 700_000);
    lemma_blend_channel_bounds(t, s);
    crate::fixed::lemma_fx_mul_comm(s, t);
    crate::fixed::lemma_fx_mul_whole(t, 1);
}

} // verus!
