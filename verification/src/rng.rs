//! Randomness, behind an injectable, seedable generator.
//!
//! The process-wide uniform source of the renderer is an explicit
//! `rand::rngs::StdRng` handle threaded through sampling and scattering, so
//! a fixed seed reproduces a rendering exactly. Only the two calls into
//! `rand` are trusted; everything derived from them is verified against
//! what holds of every possible outcome.

use vstd::prelude::*;

use crate::fixed::{lemma_real_range, Real, SCALE};
use crate::vec3::{lemma_len_pos, lemma_unit_vector_length, v3_len, v3_len2, v3_unit, Point3, Vec3, Vec3V};

verus! {

broadcast use lemma_real_range;

/// Squared length, in raw units, below which a ball sample is rejected
/// rather than normalized: normalization of shorter samples is inaccurate
/// at this resolution (the threshold is half a unit, squared).
pub const MIN_SAMPLE_LEN2: i64 = 250_000;

#[verifier::external_type_specification]
#[verifier::external_body]
pub struct ExStdRng(rand::rngs::StdRng);

/// Relies on `rand::SeedableRng::seed_from_u64`: builds a deterministic
/// generator from a seed. Nothing is assumed of the values it yields.
#[verifier::external_body]
pub fn rng_from_seed(seed: u64) -> rand::rngs::StdRng {
    <rand::rngs::StdRng as rand::SeedableRng>::seed_from_u64(seed)
}

/// Relies on `rand::Rng::gen_range` over `0..bound`: a non-empty integer
/// range yields a value inside it.
#[verifier::external_body]
fn rand_below(rng: &mut rand::rngs::StdRng, bound: i64) -> (r: i64)
    requires
        1 <= bound,
    ensures
        0 <= r < bound,
{
    rand::Rng::gen_range(rng, 0..bound)
}

/// A uniform value in `[min, max)`, truncated to the fixed-point grid;
/// the upper bound is reached only when the interval is empty.
pub fn random_double(min: Real, max: Real, rng: &mut rand::rngs::StdRng) -> (r: Real)
    requires
        min@ <= max@,
    ensures
        min@ <= r@,
        min@ < max@ ==> r@ < max@,
        min@ == max@ ==> r@ == min@,
{
    let span = max.sub(min);
    let u = Real::from_raw(rand_below(rng, SCALE));
    let offset = u.mul(span);
    proof {
        let s = SCALE as int;
        let d = span@;
        assert(u@ * d >= 0) by (nonlinear_arith)
            requires
                u@ >= 0,
                d >= 0,
        ;
        if d == 0 {
            assert(u@ * d == 0) by (nonlinear_arith)
                requires
                    d == 0,
            ;
            crate::fixed::lemma_tdiv_eval(0, s, 0);
            assert(offset@ == 0);
        } else {
            // The draw is at most one short of the scale, so the truncated
            // product falls at least one short of the span.
            assert(u@ * d <= (s - 1) * d) by (nonlinear_arith)
                requires
                    0 <= u@ <= s - 1,
                    d >= 0,
            ;
            let k = (u@ * d) / s;
            vstd::arithmetic::div_mod::lemma_fundamental_div_mod(u@ * d, s);
            vstd::arithmetic::div_mod::lemma_mod_bound(u@ * d, s);
            assert(k <= d - 1) by (nonlinear_arith)
                requires
                    u@ * d == s * k + (u@ * d) % s,
                    0 <= (u@ * d) % s < s,
                    u@ * d <= (s - 1) * d,
                    d >= 1,
                    s > 0,
            ;
            assert(k >= 0) by (nonlinear_arith)
                requires
                    u@ * d == s * k + (u@ * d) % s,
                    0 <= (u@ * d) % s < s,
                    u@ * d >= 0,
                    s > 0,
            ;
            assert(offset@ == k);
        }
    }
    min.add(offset)
}

/// A vector whose three components are uniform in `[min, max)`.
pub fn random_vec(min: Real, max: Real, rng: &mut rand::rngs::StdRng) -> (r: Vec3)
    requires
        min@ <= max@,
    ensures
        min@ <= r@.x <= max@,
        min@ <= r@.y <= max@,
        min@ <= r@.z <= max@,
{
    let x = random_double(min, max, rng);
    let y = random_double(min, max, rng);
    let z = random_double(min, max, rng);
    Vec3::new(x, y, z)
}

/// Rejection-sample a point strictly inside the unit sphere. The retry
/// budget bounds the loop; exhausting it (vanishingly unlikely) falls back
/// to a fixed interior point.
pub fn random_in_unit_sphere(rng: &mut rand::rngs::StdRng) -> (r: Point3)
    ensures
        v3_len2(r@) < SCALE as int,
        crate::fixed::abs_i(r@.x) <= SCALE as int,
        crate::fixed::abs_i(r@.y) <= SCALE as int,
        crate::fixed::abs_i(r@.z) <= SCALE as int,
{
    let one = Real::one();
    let neg_one = one.neg();
    let mut tries: u32 = 0;
    while tries < 64
        invariant
            one@ == SCALE as int,
            neg_one@ == -(SCALE as int),
        decreases 64 - tries,
    {
        let p = random_vec(neg_one, one, rng);
        if p.length_squared().lt(&one) {
            return p;
        }
        tries = tries + 1;
    }
    let half = Real::from_raw(500_000);
    let fallback = Vec3::new(half, Real::zero(), Real::zero());
    proof {
        assert(500_000int * 500_000int == 250_000_000_000int) by (nonlinear_arith);
        assert(0int * 0int == 0int) by (nonlinear_arith);
        assert(250_000_000_000int / 1_000_000int == 250_000int) by (nonlinear_arith);
        assert(v3_len2(fallback@) == 250_000);
    }
    fallback
}

/// A unit vector in a uniformly random direction: a point of the unit
/// ball, normalized. Samples shorter than half a unit are rejected like
/// points outside the ball (rejecting by radius does not bias the
/// direction), so the result's length is within 2e-5 of one.
pub fn random_unit_vector(rng: &mut rand::rngs::StdRng) -> (r: Vec3)
    ensures
        exists|p: Vec3V|
            MIN_SAMPLE_LEN2 as int <= #[trigger] v3_len2(p) < SCALE as int && r@ == v3_unit(p),
        SCALE as int - 9 <= v3_len2(r@) <= SCALE as int + 20,
        SCALE as int - 5 <= v3_len(r@) <= SCALE as int + 10,
{
    let mut tries: u32 = 0;
    while tries < 64
        decreases 64 - tries,
    {
        let p = random_in_unit_sphere(rng);
        if p.length_squared().raw() >= MIN_SAMPLE_LEN2 {
            proof {
                lemma_len_pos(p@);
                lemma_unit_vector_length(p@);
            }
            let u = p.unit_vector();
            proof {
                assert(MIN_SAMPLE_LEN2 as int <= v3_len2(p@) < SCALE as int && u@ == v3_unit(
                    p@,
                ));
            }
            return u;
        }
        tries = tries + 1;
    }
    let half = Real::from_raw(500_000);
    let fallback = Vec3::new(half, Real::zero(), Real::zero());
    proof {
        assert(500_000int * 500_000int == 250_000_000_000int) by (nonlinear_arith);
        assert(0int * 0int == 0int) by (nonlinear_arith);
        assert(250_000_000_000int / 1_000_000int == 250_000int) by (nonlinear_arith);
        assert(v3_len2(fallback@) == 250_000);
        lemma_len_pos(fallback@);
        lemma_unit_vector_length(fallback@);
    }
    let u = fallback.unit_vector();
    proof {
        assert(MIN_SAMPLE_LEN2 as int <= v3_len2(fallback@) < SCALE as int && u@ == v3_unit(
            fallback@,
        ));
    }
    u
}

/// A point of the unit ball lying in the hemisphere around `normal`.
pub fn random_in_hemisphere(normal: &Vec3, rng: &mut rand::rngs::StdRng) -> (r: Vec3)
    ensures
        v3_len2(r@) < SCALE as int,
        crate::vec3::v3_dot(r@, normal@) >= 0,
{
    let in_unit_sphere = random_in_unit_sphere(rng);
    if in_unit_sphere.dot(normal).gt(&Real::zero()) {
        in_unit_sphere
    } else {
        proof {
            crate::vec3::lemma_len2_neg(in_unit_sphere@);
            lemma_dot_comm_neg(in_unit_sphere@, normal@);
        }
        in_unit_sphere.neg()
    }
}

/// Negating the first operand negates a dot product of in-range vectors.
proof fn lemma_dot_comm_neg(a: Vec3V, b: Vec3V)
    requires
        crate::fixed::abs_i(a.x) <= crate::fixed::RAW_MAX as int,
        crate::fixed::abs_i(a.y) <= crate::fixed::RAW_MAX as int,
        crate::fixed::abs_i(a.z) <= crate::fixed::RAW_MAX as int,
    ensures
        crate::vec3::v3_dot(crate::vec3::v3_neg(a), b) == crate::fixed::fx_neg(
            crate::vec3::v3_dot(a, b),
        ),
{
    crate::fixed::lemma_fx_mul_comm(crate::fixed::fx_neg(a.x), b.x);
    crate::fixed::lemma_fx_mul_comm(crate::fixed::fx_neg(a.y), b.y);
    crate::fixed::lemma_fx_mul_comm(crate::fixed::fx_neg(a.z), b.z);
    crate::fixed::lemma_fx_mul_comm(a.x, b.x);
    crate::fixed::lemma_fx_mul_comm(a.y, b.y);
    crate::fixed::lemma_fx_mul_comm(a.z, b.z);
    crate::vec3::lemma_dot_neg(b, a);
}

} // verus!

