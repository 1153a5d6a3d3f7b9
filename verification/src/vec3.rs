//! Three-component vector algebra over fixed-point reals.
//!
//! `Vec3` doubles as a point (`Point3`) and a color (`Color`). Every
//! operation returns a new value whose components are pinned exactly by the
//! spec functions over the `Vec3V` model, so algebraic laws (commutativity
//! of addition, antisymmetry of subtraction, the dot/length relation) are
//! proved rather than assumed.

use vstd::prelude::*;

use crate::fixed::{
    abs_i, fx_add, fx_div, fx_mul, fx_neg, fx_sqrt, fx_sub, lemma_real_range, tdiv, Real, RAW_MAX, SCALE,
};

verus! {

broadcast use lemma_real_range;

/// Mathematical model of a vector: three raw fixed-point components.
pub struct Vec3V {
    pub x: int,
    pub y: int,
    pub z: int,
}

/// Componentwise sum.
pub open spec fn v3_add(a: Vec3V, b: Vec3V) -> Vec3V {
    Vec3V { x: fx_add(a.x, b.x), y: fx_add(a.y, b.y), z: fx_add(a.z, b.z) }
}

/// Componentwise difference.
pub open spec fn v3_sub(a: Vec3V, b: Vec3V) -> Vec3V {
    Vec3V { x: fx_sub(a.x, b.x), y: fx_sub(a.y, b.y), z: fx_sub(a.z, b.z) }
}

/// Componentwise negation.
pub open spec fn v3_neg(a: Vec3V) -> Vec3V {
    Vec3V { x: fx_neg(a.x), y: fx_neg(a.y), z: fx_neg(a.z) }
}

/// Componentwise (Hadamard) product.
pub open spec fn v3_mul(a: Vec3V, b: Vec3V) -> Vec3V {
    Vec3V { x: fx_mul(a.x, b.x), y: fx_mul(a.y, b.y), z: fx_mul(a.z, b.z) }
}

/// Scaling by a fixed-point scalar.
pub open spec fn v3_scale(a: Vec3V, s: int) -> Vec3V {
    Vec3V { x: fx_mul(a.x, s), y: fx_mul(a.y, s), z: fx_mul(a.z, s) }
}

/// Division by a non-zero fixed-point scalar.
pub open spec fn v3_div(a: Vec3V, s: int) -> Vec3V
    recommends
        s != 0,
{
    Vec3V { x: fx_div(a.x, s), y: fx_div(a.y, s), z: fx_div(a.z, s) }
}

/// Dot product, summed left to right.
pub open spec fn v3_dot(a: Vec3V, b: Vec3V) -> int {
    fx_add(fx_add(fx_mul(a.x, b.x), fx_mul(a.y, b.y)), fx_mul(a.z, b.z))
}

/// Cross product by the right-hand rule.
pub open spec fn v3_cross(a: Vec3V, b: Vec3V) -> Vec3V {
    Vec3V {
        x: fx_sub(fx_mul(a.y, b.z), fx_mul(a.z, b.y)),
        y: fx_sub(fx_mul(a.z, b.x), fx_mul(a.x, b.z)),
        z: fx_sub(fx_mul(a.x, b.y), fx_mul(a.y, b.x)),
    }
}

/// Squared Euclidean length.
pub open spec fn v3_len2(a: Vec3V) -> int {
    v3_dot(a, a)
}

/// Euclidean length.
pub open spec fn v3_len(a: Vec3V) -> int {
    fx_sqrt(v3_len2(a))
}

/// Normalization: each component divided by the length.
pub open spec fn v3_unit(a: Vec3V) -> Vec3V
    recommends
        v3_len(a) > 0,
{
    v3_div(a, v3_len(a))
}

/// The zero vector.
pub open spec fn v3_zero() -> Vec3V {
    Vec3V { x: 0, y: 0, z: 0 }
}

/// Near zero in all three components. The detection epsilon of the
/// scattering model (1e-8) is finer than one raw unit (1e-6), so at this
/// resolution it admits exactly the zero component.
pub open spec fn v3_near_zero(a: Vec3V) -> bool {
    a.x == 0 && a.y == 0 && a.z == 0
}

/// Axis selector for a vector used as a point in space.
pub enum Point3Index {
    X,
    Y,
    Z,
}

/// Channel selector for a vector used as a color.
pub enum ColorIndex {
    R,
    G,
    B,
}

/// A three-component fixed-point vector.
#[derive(Clone, Copy, Debug, PartialEq, Eq, Structural)]
pub struct Vec3 {
    pub x: Real,
    pub y: Real,
    pub z: Real,
}

/// A vector used as a point in space.
pub type Point3 = Vec3;

/// A vector used as an RGB color.
pub type Color = Vec3;

impl View for Vec3 {
    type V = Vec3V;

    open spec fn view(&self) -> Vec3V {
        Vec3V { x: self.x@, y: self.y@, z: self.z@ }
    }
}

impl Vec3 {
    /// Build a vector from its components.
    pub fn new(x: Real, y: Real, z: Real) -> (r: Vec3)
        ensures
            r@ == (Vec3V { x: x@, y: y@, z: z@ }),
    {
        Vec3 { x, y, z }
    }

    /// The component along an axis.
    pub fn component(&self, idx: Point3Index) -> (r: Real)
        ensures
            r@ == match idx {
                Point3Index::X => self@.x,
                Point3Index::Y => self@.y,
                Point3Index::Z => self@.z,
            },
    {
        match idx {
            Point3Index::X => self.x,
            Point3Index::Y => self.y,
            Point3Index::Z => self.z,
        }
    }

    /// The value of a color channel.
    pub fn channel(&self, idx: ColorIndex) -> (r: Real)
        ensures
            r@ == match idx {
                ColorIndex::R => self@.x,
                ColorIndex::G => self@.y,
                ColorIndex::B => self@.z,
            },
    {
        match idx {
            ColorIndex::R => self.x,
            ColorIndex::G => self.y,
            ColorIndex::B => self.z,
        }
    }

    /// Componentwise sum.
    pub fn add(&self, rhs: &Vec3) -> (r: Vec3)
        ensures
            r@ == v3_add(self@, rhs@),
    {
        Vec3 { x: self.x.add(rhs.x), y: self.y.add(rhs.y), z: self.z.add(rhs.z) }
    }

    /// Componentwise difference.
    pub fn sub(&self, rhs: &Vec3) -> (r: Vec3)
        ensures
            r@ == v3_sub(self@, rhs@),
    {
        Vec3 { x: self.x.sub(rhs.x), y: self.y.sub(rhs.y), z: self.z.sub(rhs.z) }
    }

    /// Componentwise negation.
    pub fn neg(&self) -> (r: Vec3)
        ensures
            r@ == v3_neg(self@),
    {
        Vec3 { x: self.x.neg(), y: self.y.neg(), z: self.z.neg() }
    }

    /// Componentwise product.
    pub fn mul(&self, rhs: &Vec3) -> (r: Vec3)
        ensures
            r@ == v3_mul(self@, rhs@),
    {
        Vec3 { x: self.x.mul(rhs.x), y: self.y.mul(rhs.y), z: self.z.mul(rhs.z) }
    }

    /// Scaling by a scalar.
    pub fn scale(&self, s: Real) -> (r: Vec3)
        ensures
            r@ == v3_scale(self@, s@),
    {
        Vec3 { x: self.x.mul(s), y: self.y.mul(s), z: self.z.mul(s) }
    }

    /// Division by a non-zero scalar.
    pub fn div(&self, s: Real) -> (r: Vec3)
        requires
            s@ != 0,
        ensures
            r@ == v3_div(self@, s@),
    {
        Vec3 { x: self.x.div(s), y: self.y.div(s), z: self.z.div(s) }
    }

    /// In-place componentwise sum, used when accumulating samples.
    pub fn add_assign(&mut self, rhs: &Vec3)
        ensures
            final(self)@ == v3_add(old(self)@, rhs@),
    {
        *self = self.add(rhs);
    }

    /// In-place scaling.
    pub fn mul_assign(&mut self, s: Real)
        ensures
            final(self)@ == v3_scale(old(self)@, s@),
    {
        *self = self.scale(s);
    }

    /// In-place division by a non-zero scalar.
    pub fn div_assign(&mut self, s: Real)
        requires
            s@ != 0,
        ensures
            final(self)@ == v3_div(old(self)@, s@),
    {
        *self = self.div(s);
    }

    /// Dot product.
    pub fn dot(&self, rhs: &Vec3) -> (r: Real)
        ensures
            r@ == v3_dot(self@, rhs@),
    {
        self.x.mul(rhs.x).add(self.y.mul(rhs.y)).add(self.z.mul(rhs.z))
    }

    /// Cross product by the right-hand rule.
    pub fn cross(&self, rhs: &Vec3) -> (r: Vec3)
        ensures
            r@ == v3_cross(self@, rhs@),
    {
        Vec3 {
            x: self.y.mul(rhs.z).sub(self.z.mul(rhs.y)),
            y: self.z.mul(rhs.x).sub(self.x.mul(rhs.z)),
            z: self.x.mul(rhs.y).sub(self.y.mul(rhs.x)),
        }
    }

    /// Squared Euclidean length.
    pub fn length_squared(&self) -> (r: Real)
        ensures
            r@ == v3_len2(self@),
            r@ >= 0,
    {
        proof {
            lemma_len2_nonneg(self@);
        }
        self.dot(self)
    }

    /// Euclidean length.
    pub fn length(&self) -> (r: Real)
        ensures
            r@ == v3_len(self@),
            r@ >= 0,
    {
        proof {
            lemma_len_nonneg(self@);
        }
        self.length_squared().sqrt()
    }

    /// The unit vector in this direction; the length must be positive.
    pub fn unit_vector(&self) -> (r: Vec3)
        requires
            v3_len(self@) > 0,
        ensures
            r@ == v3_unit(self@),
    {
        let len = self.length();
        self.div(len)
    }

    /// Whether the vector is close to zero in all dimensions.
    pub fn is_near_zero(&self) -> (r: bool)
        ensures
            r == v3_near_zero(self@),
    {
        self.x.raw() == 0 && self.y.raw() == 0 && self.z.raw() == 0
    }
}

/// A saturated product of a value with itself is never negative.
proof fn lemma_fx_mul_self_nonneg(a: int)
    ensures
        fx_mul(a, a) >= 0,
{
    assert(a * a >= 0) by (nonlinear_arith);
}

/// A squared length is never negative.
pub proof fn lemma_len2_nonneg(a: Vec3V)
    ensures
        v3_len2(a) >= 0,
{
    lemma_fx_mul_self_nonneg(a.x);
    lemma_fx_mul_self_nonneg(a.y);
    lemma_fx_mul_self_nonneg(a.z);
}

/// A length is never negative.
pub proof fn lemma_len_nonneg(a: Vec3V)
    ensures
        v3_len(a) >= 0,
{
    lemma_len2_nonneg(a);
    crate::fixed::lemma_sqrt_floor_bounds((v3_len2(a) * (SCALE as int)) as nat);
}

/// Vector addition is commutative.
pub proof fn lemma_add_commutes(a: Vec3V, b: Vec3V)
    ensures
        v3_add(a, b) == v3_add(b, a),
{
}

/// Swapping the operands of a subtraction negates the result exactly,
/// saturation included, because the raw range is symmetric.
pub proof fn lemma_sub_antisymmetric(a: Vec3V, b: Vec3V)
    ensures
        v3_sub(a, b) == v3_neg(v3_sub(b, a)),
{
}

/// The dot product of a vector with itself is its squared length.
pub proof fn lemma_dot_self_is_len2(a: Vec3V)
    ensures
        v3_dot(a, a) == v3_len2(a),
{
}

/// Negating the second operand negates a dot product exactly, for
/// components in the raw range; saturation is symmetric.
pub proof fn lemma_dot_neg(a: Vec3V, b: Vec3V)
    requires
        abs_i(b.x) <= crate::fixed::RAW_MAX as int,
        abs_i(b.y) <= crate::fixed::RAW_MAX as int,
        abs_i(b.z) <= crate::fixed::RAW_MAX as int,
    ensures
        v3_dot(a, v3_neg(b)) == fx_neg(v3_dot(a, b)),
{
    crate::fixed::lemma_fx_mul_neg(a.x, b.x);
    crate::fixed::lemma_fx_mul_neg(a.y, b.y);
    crate::fixed::lemma_fx_mul_neg(a.z, b.z);
    let mx = fx_mul(a.x, b.x);
    let my = fx_mul(a.y, b.y);
    let mz = fx_mul(a.z, b.z);
    crate::fixed::lemma_fx_add_neg(mx, my);
    crate::fixed::lemma_fx_add_neg(fx_add(mx, my), mz);
}

/// Negation keeps the squared length, exactly.
pub proof fn lemma_len2_neg(a: Vec3V)
    ensures
        v3_len2(v3_neg(a)) == v3_len2(a),
{
    crate::fixed::lemma_fx_mul_comm(fx_neg(a.x), fx_neg(a.x));
    lemma_fx_mul_neg_both(a.x);
    lemma_fx_mul_neg_both(a.y);
    lemma_fx_mul_neg_both(a.z);
}

/// The saturated square of a negation equals the saturated square.
proof fn lemma_fx_mul_neg_both(x: int)
    ensures
        fx_mul(fx_neg(x), fx_neg(x)) == fx_mul(x, x),
{
    if abs_i(x) <= crate::fixed::RAW_MAX as int {
        assert((-x) * (-x) == x * x) by (nonlinear_arith);
    } else {
        let m = crate::fixed::RAW_MAX as int;
        assert(fx_neg(x) == if x >= 0 {
            -m
        } else {
            m
        });
        assert((-m) * (-m) == m * m) by (nonlinear_arith);
        assert(m * m > x * x || m * m <= x * x) by (nonlinear_arith);
        assert(x * x >= m * m) by (nonlinear_arith)
            requires
                abs_i(x) > m > 0,
        ;
        assert(m * m >= m * (SCALE as int)) by (nonlinear_arith)
            requires
                m >= SCALE as int > 0,
        ;
        assert(tdiv(x * x, SCALE as int) >= tdiv(m * m, SCALE as int)) by (nonlinear_arith)
            requires
                x * x >= m * m >= 0,
                SCALE as int > 0,
        ;
        assert(tdiv(m * m, SCALE as int) >= m) by (nonlinear_arith)
            requires
                m * m >= m * (SCALE as int),
                m >= 0,
                SCALE as int > 0,
        ;
    }
}

/// One channel of a Beer-Lambert step: a saturated product of factors in
/// `[0, 1]` stays in `[0, 1]`.
proof fn lemma_fx_mul_unit_interval(a: int, b: int)
    requires
        0 <= a <= SCALE as int,
        0 <= b <= SCALE as int,
    ensures
        0 <= fx_mul(a, b) <= SCALE as int,
{
    let s = SCALE as int;
    assert(0 <= a * b <= s * s) by (nonlinear_arith)
        requires
            0 <= a <= s,
            0 <= b <= s,
    ;
    let k = (a * b) / s;
    vstd::arithmetic::div_mod::lemma_fundamental_div_mod(a * b, s);
    vstd::arithmetic::div_mod::lemma_mod_bound(a * b, s);
    assert(0 <= k <= s) by (nonlinear_arith)
        requires
            a * b == s * k + (a * b) % s,
            0 <= (a * b) % s < s,
            0 <= a * b <= s * s,
            s > 0,
    ;
}

/// Attenuation keeps colors physical: when both factors have every channel
/// in `[0, 1]`, so does their componentwise product, so one bounce of the
/// integrator cannot leave the range.
pub proof fn lemma_attenuation_preserves_range(att: Vec3V, c: Vec3V)
    requires
        0 <= att.x <= SCALE as int,
        0 <= att.y <= SCALE as int,
        0 <= att.z <= SCALE as int,
        0 <= c.x <= SCALE as int,
        0 <= c.y <= SCALE as int,
        0 <= c.z <= SCALE as int,
    ensures
        0 <= v3_mul(att, c).x <= SCALE as int,
        0 <= v3_mul(att, c).y <= SCALE as int,
        0 <= v3_mul(att, c).z <= SCALE as int,
{
    lemma_fx_mul_unit_interval(att.x, c.x);
    lemma_fx_mul_unit_interval(att.y, c.y);
    lemma_fx_mul_unit_interval(att.z, c.z);
}

/// Normalization is accurate: for a vector of length at least one half
/// (and components within a millionfold of one, so that no product
/// saturates), the squared length of `unit_vector(v)` is within twenty raw
/// units of one, and its length within ten — a relative error at or below
/// 2e-5. Shorter vectors lose relative precision to truncation, so the law
/// is stated above half the unit ball.
pub proof fn lemma_unit_vector_length(v: Vec3V)
    requires
        abs_i(v.x) <= 1_000_000_000_000,
        abs_i(v.y) <= 1_000_000_000_000,
        abs_i(v.z) <= 1_000_000_000_000,
        v3_len2(v) >= 250_000,
    ensures
        v3_len(v) > 0,
        SCALE as int - 9 <= v3_len2(v3_unit(v)) <= SCALE as int + 20,
        SCALE as int - 5 <= v3_len(v3_unit(v)) <= SCALE as int + 10,
{
    let s = SCALE as int;
    let b = 1_000_000_000_000int;
    let a1 = abs_i(v.x);
    let a2 = abs_i(v.y);
    let a3 = abs_i(v.z);
    assert(b * b == 1_000_000_000_000_000_000_000_000int) by (nonlinear_arith)
        requires
            b == 1_000_000_000_000int,
    ;
    lemma_sq_floor(v.x, b);
    lemma_sq_floor(v.y, b);
    lemma_sq_floor(v.z, b);
    let n1 = (a1 * a1) / s;
    let n2 = (a2 * a2) / s;
    let n3 = (a3 * a3) / s;
    let n = n1 + n2 + n3;
    assert(v3_len2(v) == n);
    let q = a1 * a1 + a2 * a2 + a3 * a3;
    vstd::arithmetic::div_mod::lemma_fundamental_div_mod(a1 * a1, s);
    vstd::arithmetic::div_mod::lemma_fundamental_div_mod(a2 * a2, s);
    vstd::arithmetic::div_mod::lemma_fundamental_div_mod(a3 * a3, s);
    vstd::arithmetic::div_mod::lemma_mod_bound(a1 * a1, s);
    vstd::arithmetic::div_mod::lemma_mod_bound(a2 * a2, s);
    vstd::arithmetic::div_mod::lemma_mod_bound(a3 * a3, s);
    assert(s * n <= q < s * n + 3 * s) by (nonlinear_arith)
        requires
            a1 * a1 == s * n1 + (a1 * a1) % s,
            a2 * a2 == s * n2 + (a2 * a2) % s,
            a3 * a3 == s * n3 + (a3 * a3) % s,
            0 <= (a1 * a1) % s < s,
            0 <= (a2 * a2) % s < s,
            0 <= (a3 * a3) % s < s,
            q == a1 * a1 + a2 * a2 + a3 * a3,
            n == n1 + n2 + n3,
    ;
    // The length L: the floor square root of n s, at least one half.
    crate::fixed::lemma_sqrt_floor_bounds((n * s) as nat);
    let el = crate::fixed::sqrt_floor(n * s);
    assert(v3_len(v) == el);
    assert(el >= 500_000) by (nonlinear_arith)
        requires
            0 <= el,
            n * s < (el + 1) * (el + 1),
            n >= 250_000,
            s == 1_000_000,
    ;
    assert(el <= 2 * n) by (nonlinear_arith)
        requires
            0 <= el,
            el * el <= n * s,
            s <= 4 * n,
            n >= 0,
    ;
    // The normalized components and their true quotients.
    lemma_div_floor(v.x, el, b);
    lemma_div_floor(v.y, el, b);
    lemma_div_floor(v.z, el, b);
    let w1 = (a1 * s) / el;
    let w2 = (a2 * s) / el;
    let w3 = (a3 * s) / el;
    let u = v3_unit(v);
    assert(abs_i(u.x) == w1 && abs_i(u.y) == w2 && abs_i(u.z) == w3);
    vstd::arithmetic::div_mod::lemma_fundamental_div_mod(a1 * s, el);
    vstd::arithmetic::div_mod::lemma_fundamental_div_mod(a2 * s, el);
    vstd::arithmetic::div_mod::lemma_fundamental_div_mod(a3 * s, el);
    vstd::arithmetic::div_mod::lemma_mod_bound(a1 * s, el);
    vstd::arithmetic::div_mod::lemma_mod_bound(a2 * s, el);
    vstd::arithmetic::div_mod::lemma_mod_bound(a3 * s, el);
    assert(w1 * el <= a1 * s < (w1 + 1) * el) by (nonlinear_arith)
        requires
            a1 * s == el * w1 + (a1 * s) % el,
            0 <= (a1 * s) % el < el,
    ;
    assert(w2 * el <= a2 * s < (w2 + 1) * el) by (nonlinear_arith)
        requires
            a2 * s == el * w2 + (a2 * s) % el,
            0 <= (a2 * s) % el < el,
    ;
    assert(w3 * el <= a3 * s < (w3 + 1) * el) by (nonlinear_arith)
        requires
            a3 * s == el * w3 + (a3 * s) % el,
            0 <= (a3 * s) % el < el,
    ;
    assert(w1 >= 0 && w2 >= 0 && w3 >= 0);
    // Bound each component by the length: a_i^2 <= q < (el + 4)^2.
    assert(q < (el + 4) * (el + 4)) by (nonlinear_arith)
        requires
            q < s * n + 3 * s,
            n * s < (el + 1) * (el + 1),
            el >= 500_000,
            s == 1_000_000,
    ;
    assert(a1 <= el + 3 && a2 <= el + 3 && a3 <= el + 3) by (nonlinear_arith)
        requires
            a1 * a1 <= q,
            a2 * a2 <= q,
            a3 * a3 <= q,
            q < (el + 4) * (el + 4),
            a1 >= 0,
            a2 >= 0,
            a3 >= 0,
            el >= 0,
    ;
    assert(w1 <= s + 6 && w2 <= s + 6 && w3 <= s + 6) by (nonlinear_arith)
        requires
            w1 * el <= a1 * s,
            w2 * el <= a2 * s,
            w3 * el <= a3 * s,
            a1 <= el + 3,
            a2 <= el + 3,
            a3 <= el + 3,
            el >= 500_000,
            s == 1_000_000,
            w1 >= 0,
            w2 >= 0,
            w3 >= 0,
    ;
    // The squared length of the normalized vector.
    lemma_sq_floor_of(w1, s + 6);
    lemma_sq_floor_of(w2, s + 6);
    lemma_sq_floor_of(w3, s + 6);
    let m1 = (w1 * w1) / s;
    let m2 = (w2 * w2) / s;
    let m3 = (w3 * w3) / s;
    assert(fx_mul(u.x, u.x) == m1 && fx_mul(u.y, u.y) == m2 && fx_mul(u.z, u.z) == m3) by {
        lemma_abs_sq_floor(u.x, w1, s + 6);
        lemma_abs_sq_floor(u.y, w2, s + 6);
        lemma_abs_sq_floor(u.z, w3, s + 6);
    }
    let m = m1 + m2 + m3;
    assert(v3_len2(u) == m) by {
        assert(0 <= m1 <= 2 * s && 0 <= m2 <= 2 * s && 0 <= m3 <= 2 * s) by (nonlinear_arith)
            requires
                m1 == (w1 * w1) / s,
                m2 == (w2 * w2) / s,
                m3 == (w3 * w3) / s,
                0 <= w1 <= s + 6,
                0 <= w2 <= s + 6,
                0 <= w3 <= s + 6,
                s == 1_000_000,
        ;
    }
    let big_w = w1 * w1 + w2 * w2 + w3 * w3;
    vstd::arithmetic::div_mod::lemma_fundamental_div_mod(w1 * w1, s);
    vstd::arithmetic::div_mod::lemma_fundamental_div_mod(w2 * w2, s);
    vstd::arithmetic::div_mod::lemma_fundamental_div_mod(w3 * w3, s);
    vstd::arithmetic::div_mod::lemma_mod_bound(w1 * w1, s);
    vstd::arithmetic::div_mod::lemma_mod_bound(w2 * w2, s);
    vstd::arithmetic::div_mod::lemma_mod_bound(w3 * w3, s);
    assert(s * m <= big_w < s * m + 3 * s) by (nonlinear_arith)
        requires
            w1 * w1 == s * m1 + (w1 * w1) % s,
            w2 * w2 == s * m2 + (w2 * w2) % s,
            w3 * w3 == s * m3 + (w3 * w3) % s,
            0 <= (w1 * w1) % s < s,
            0 <= (w2 * w2) % s < s,
            0 <= (w3 * w3) % s < s,
            big_w == w1 * w1 + w2 * w2 + w3 * w3,
            m == m1 + m2 + m3,
    ;
    // Relate W to the true squares: W el^2 <= q s^2 < el^2 (W + 2 sum + 3).
    lemma_scaled_square_le(w1, el, a1, s);
    lemma_scaled_square_le(w2, el, a2, s);
    lemma_scaled_square_le(w3, el, a3, s);
    lemma_scaled_square_gt(w1, el, a1, s);
    lemma_scaled_square_gt(w2, el, a2, s);
    lemma_scaled_square_gt(w3, el, a3, s);
    assert(big_w * (el * el) <= q * (s * s)) by (nonlinear_arith)
        requires
            (w1 * w1) * (el * el) <= (a1 * a1) * (s * s),
            (w2 * w2) * (el * el) <= (a2 * a2) * (s * s),
            (w3 * w3) * (el * el) <= (a3 * a3) * (s * s),
            big_w == w1 * w1 + w2 * w2 + w3 * w3,
            q == a1 * a1 + a2 * a2 + a3 * a3,
    ;
    assert(q * (s * s) < (el * el) * (big_w + 2 * (w1 + w2 + w3) + 3)) by (nonlinear_arith)
        requires
            (a1 * a1) * (s * s) < (w1 * w1 + 2 * w1 + 1) * (el * el),
            (a2 * a2) * (s * s) < (w2 * w2 + 2 * w2 + 1) * (el * el),
            (a3 * a3) * (s * s) < (w3 * w3 + 2 * w3 + 1) * (el * el),
            big_w == w1 * w1 + w2 * w2 + w3 * w3,
            q == a1 * a1 + a2 * a2 + a3 * a3,
    ;
    // Upper bound: m <= s + 20.
    assert(m * (el * el) <= q * s) by (nonlinear_arith)
        requires
            s * m <= big_w,
            big_w * (el * el) <= q * (s * s),
            s > 0,
            el > 0,
    ;
    if m >= s + 21 {
        assert(el * el >= n * s - 4 * n) by (nonlinear_arith)
            requires
                n * s < (el + 1) * (el + 1),
                el <= 2 * n,
                el >= 0,
        ;
        assert((s + 21) * (n * s - 4 * n) <= m * (el * el)) by (nonlinear_arith)
            requires
                m >= s + 21,
                el * el >= n * s - 4 * n,
                n * s - 4 * n >= 0,
                s == 1_000_000,
        ;
        assert(n * s - 4 * n >= 0) by (nonlinear_arith)
            requires
                n >= 0,
                s == 1_000_000,
        ;
        assert(q * s < (n * s + 3 * s) * s) by (nonlinear_arith)
            requires
                q < n * s + 3 * s,
                s > 0,
        ;
        assert(false) by (nonlinear_arith)
            requires
                (s + 21) * (n * s - 4 * n) < (n * s + 3 * s) * s,
                n >= 250_000,
                s == 1_000_000,
        ;
    }
    assert(m <= s + 20);
    // Lower bound: m >= s - 9.
    assert((el * el) * (s * s) <= q * (s * s)) by (nonlinear_arith)
        requires
            el * el <= n * s,
            s * n <= q,
            s > 0,
    ;
    assert(s * s < big_w + 6 * s + 39) by (nonlinear_arith)
        requires
            (el * el) * (s * s) <= q * (s * s),
            q * (s * s) < (el * el) * (big_w + 2 * (w1 + w2 + w3) + 3),
            w1 + w2 + w3 <= 3 * s + 18,
            el > 0,
    ;
    assert(m >= s - 9) by (nonlinear_arith)
        requires
            big_w < s * m + 3 * s,
            s * s < big_w + 6 * s + 39,
            s == 1_000_000,
    ;
    // The length of the normalized vector from its squared length.
    crate::fixed::lemma_sqrt_floor_bounds((m * s) as nat);
    let ul = crate::fixed::sqrt_floor(m * s);
    assert(v3_len(u) == ul);
    assert(s - 5 <= ul <= s + 10) by (nonlinear_arith)
        requires
            crate::fixed::is_sqrt_floor(m * s, ul),
            s - 9 <= m <= s + 20,
            s == 1_000_000,
    ;
}

/// Each component of a normalized vector of length at least one is within
/// one raw unit of the unit interval: truncation can overshoot one by at
/// most 1e-6.
pub proof fn lemma_unit_components_bounded(v: Vec3V)
    requires
        abs_i(v.x) <= 1_000_000_000_000,
        abs_i(v.y) <= 1_000_000_000_000,
        abs_i(v.z) <= 1_000_000_000_000,
        v3_len2(v) >= SCALE as int,
    ensures
        v3_len(v) > 0,
        abs_i(v3_unit(v).x) <= SCALE as int + 1,
        abs_i(v3_unit(v).y) <= SCALE as int + 1,
        abs_i(v3_unit(v).z) <= SCALE as int + 1,
{
    let s = SCALE as int;
    let b = 1_000_000_000_000int;
    let a1 = abs_i(v.x);
    let a2 = abs_i(v.y);
    let a3 = abs_i(v.z);
    assert(b * b == 1_000_000_000_000_000_000_000_000int) by (nonlinear_arith)
        requires
            b == 1_000_000_000_000int,
    ;
    lemma_sq_floor(v.x, b);
    lemma_sq_floor(v.y, b);
    lemma_sq_floor(v.z, b);
    let n1 = (a1 * a1) / s;
    let n2 = (a2 * a2) / s;
    let n3 = (a3 * a3) / s;
    let n = n1 + n2 + n3;
    assert(v3_len2(v) == n);
    let q = a1 * a1 + a2 * a2 + a3 * a3;
    vstd::arithmetic::div_mod::lemma_fundamental_div_mod(a1 * a1, s);
    vstd::arithmetic::div_mod::lemma_fundamental_div_mod(a2 * a2, s);
    vstd::arithmetic::div_mod::lemma_fundamental_div_mod(a3 * a3, s);
    vstd::arithmetic::div_mod::lemma_mod_bound(a1 * a1, s);
    vstd::arithmetic::div_mod::lemma_mod_bound(a2 * a2, s);
    vstd::arithmetic::div_mod::lemma_mod_bound(a3 * a3, s);
    assert(s * n <= q < s * n + 3 * s) by (nonlinear_arith)
        requires
            a1 * a1 == s * n1 + (a1 * a1) % s,
            a2 * a2 == s * n2 + (a2 * a2) % s,
            a3 * a3 == s * n3 + (a3 * a3) % s,
            0 <= (a1 * a1) % s < s,
            0 <= (a2 * a2) % s < s,
            0 <= (a3 * a3) % s < s,
            q == a1 * a1 + a2 * a2 + a3 * a3,
            n == n1 + n2 + n3,
    ;
    crate::fixed::lemma_sqrt_floor_bounds((n * s) as nat);
    let el = crate::fixed::sqrt_floor(n * s);
    assert(v3_len(v) == el);
    assert(el >= s) by (nonlinear_arith)
        requires
            0 <= el,
            n * s < (el + 1) * (el + 1),
            n >= s,
            s > 0,
    ;
    lemma_div_floor(v.x, el, b);
    lemma_div_floor(v.y, el, b);
    lemma_div_floor(v.z, el, b);
    let w1 = (a1 * s) / el;
    let w2 = (a2 * s) / el;
    let w3 = (a3 * s) / el;
    let u = v3_unit(v);
    assert(abs_i(u.x) == w1 && abs_i(u.y) == w2 && abs_i(u.z) == w3);
    vstd::arithmetic::div_mod::lemma_fundamental_div_mod(a1 * s, el);
    vstd::arithmetic::div_mod::lemma_fundamental_div_mod(a2 * s, el);
    vstd::arithmetic::div_mod::lemma_fundamental_div_mod(a3 * s, el);
    vstd::arithmetic::div_mod::lemma_mod_bound(a1 * s, el);
    vstd::arithmetic::div_mod::lemma_mod_bound(a2 * s, el);
    vstd::arithmetic::div_mod::lemma_mod_bound(a3 * s, el);
    assert(w1 * el <= a1 * s) by (nonlinear_arith)
        requires
            a1 * s == el * w1 + (a1 * s) % el,
            0 <= (a1 * s) % el < el,
    ;
    assert(w2 * el <= a2 * s) by (nonlinear_arith)
        requires
            a2 * s == el * w2 + (a2 * s) % el,
            0 <= (a2 * s) % el < el,
    ;
    assert(w3 * el <= a3 * s) by (nonlinear_arith)
        requires
            a3 * s == el * w3 + (a3 * s) % el,
            0 <= (a3 * s) % el < el,
    ;
    assert(q < (el + 3) * (el + 3)) by (nonlinear_arith)
        requires
            q < s * n + 3 * s,
            n * s < (el + 1) * (el + 1),
            el >= s,
            s == 1_000_000,
    ;
    assert(a1 <= el + 2 && a2 <= el + 2 && a3 <= el + 2) by (nonlinear_arith)
        requires
            a1 * a1 <= q,
            a2 * a2 <= q,
            a3 * a3 <= q,
            q < (el + 3) * (el + 3),
            a1 >= 0,
            a2 >= 0,
            a3 >= 0,
            el >= 0,
    ;
    lemma_unit_component_sharp(a1, n1, n, el, w1);
    lemma_unit_component_sharp(a2, n2, n, el, w2);
    lemma_unit_component_sharp(a3, n3, n, el, w3);
}

/// The sharp per-component bound: a normalized component cannot exceed one
/// by more than a raw unit, because that would force the length down to
/// exactly one and the component's own square above it.
proof fn lemma_unit_component_sharp(a: int, na: int, n: int, el: int, w: int)
    requires
        a >= 0,
        w >= 0,
        w * el <= a * s_const(),
        a <= el + 2,
        el >= s_const(),
        n >= s_const(),
        el * el <= n * s_const() < (el + 1) * (el + 1),
        s_const() * na <= a * a,
        a * a < s_const() * na + s_const(),
        na <= n,
    ensures
        w <= s_const() + 1,
{
    let s = s_const();
    if w >= s + 2 {
        assert((s + 2) * el <= w * el) by (nonlinear_arith)
            requires
                w >= s + 2,
                el >= 0,
        ;
        assert(a * s <= (el + 2) * s) by (nonlinear_arith)
            requires
                a <= el + 2,
                s > 0,
        ;
        assert(el <= s) by (nonlinear_arith)
            requires
                (s + 2) * el <= a * s,
                a * s <= (el + 2) * s,
                s > 0,
        ;
        assert(el == s);
        assert(n <= s + 2) by (nonlinear_arith)
            requires
                n * s < (el + 1) * (el + 1),
                el == s,
                s == 1_000_000,
        ;
        assert(a >= s + 2) by (nonlinear_arith)
            requires
                (s + 2) * el <= a * s,
                el == s,
                s > 0,
        ;
        assert(a * a >= (s + 2) * (s + 2)) by (nonlinear_arith)
            requires
                a >= s + 2,
                s == 1_000_000,
        ;
        assert(na >= s + 4) by (nonlinear_arith)
            requires
                a * a < s * na + s,
                a * a >= (s + 2) * (s + 2),
                s == 1_000_000,
        ;
        assert(false);
    }
}

/// The scale as a spec value, for lemma statements.
pub open spec fn s_const() -> int {
    SCALE as int
}

/// From `w el <= a s` (all non-negative), squares stay ordered.
proof fn lemma_scaled_square_le(w: int, el: int, a: int, s: int)
    requires
        0 <= w,
        0 <= el,
        0 <= a,
        0 <= s,
        w * el <= a * s,
    ensures
        (w * w) * (el * el) <= (a * a) * (s * s),
{
    assert((w * el) * (w * el) <= (a * s) * (a * s)) by (nonlinear_arith)
        requires
            0 <= w * el <= a * s,
    ;
    assert((w * el) * (w * el) == (w * w) * (el * el)) by (nonlinear_arith);
    assert((a * s) * (a * s) == (a * a) * (s * s)) by (nonlinear_arith);
}

/// From `a s < (w + 1) el` (all non-negative), squares stay ordered.
proof fn lemma_scaled_square_gt(w: int, el: int, a: int, s: int)
    requires
        0 <= w,
        0 <= el,
        0 <= a,
        0 <= s,
        a * s < (w + 1) * el,
    ensures
        (a * a) * (s * s) < (w * w + 2 * w + 1) * (el * el),
{
    assert((a * s) * (a * s) < ((w + 1) * el) * ((w + 1) * el)) by (nonlinear_arith)
        requires
            0 <= a * s < (w + 1) * el,
    ;
    assert(((w + 1) * el) * ((w + 1) * el) == (w * w + 2 * w + 1) * (el * el)) by (nonlinear_arith);
    assert((a * s) * (a * s) == (a * a) * (s * s)) by (nonlinear_arith);
}

/// The saturated square of a bounded value is the floor of its true square
/// over the scale, with no saturation.
proof fn lemma_sq_floor(x: int, bound: int)
    requires
        abs_i(x) <= bound,
        bound * bound <= 1_000_000_000_000_000_000_000_000,
    ensures
        fx_mul(x, x) == (abs_i(x) * abs_i(x)) / (SCALE as int),
        0 <= (abs_i(x) * abs_i(x)) / (SCALE as int) <= 1_000_000_000_000_000_000,
{
    let s = SCALE as int;
    let a = abs_i(x);
    if x >= 0 {
        assert(x * x == a * a);
    } else {
        assert((-x) * (-x) == x * x) by (nonlinear_arith);
    }
    assert(0 <= a * a <= 1_000_000_000_000_000_000_000_000) by (nonlinear_arith)
        requires
            0 <= a <= bound,
            bound * bound <= 1_000_000_000_000_000_000_000_000,
    ;
    assert(1_000_000_000_000_000_000_000_000int / 1_000_000int == 1_000_000_000_000_000_000int)
        by (nonlinear_arith);
    vstd::arithmetic::div_mod::lemma_div_is_ordered(0, a * a, s);
    vstd::arithmetic::div_mod::lemma_div_is_ordered(a * a, 1_000_000_000_000_000_000_000_000, s);
}

/// The saturated square of a value whose magnitude is a known small
/// quotient is the floor of that quotient's square over the scale.
proof fn lemma_abs_sq_floor(x: int, w: int, bound: int)
    requires
        abs_i(x) == w,
        0 <= w <= bound,
        bound * bound <= 1_000_000_000_000_000_000_000_000,
    ensures
        fx_mul(x, x) == (w * w) / (SCALE as int),
{
    lemma_sq_floor(x, bound);
}

/// The floor square of a small value is bounded and non-negative.
proof fn lemma_sq_floor_of(w: int, bound: int)
    requires
        0 <= w <= bound,
        bound * bound <= 1_000_000_000_000_000_000_000_000,
    ensures
        0 <= (w * w) / (SCALE as int) <= 1_000_000_000_000_000_000,
{
    let s = SCALE as int;
    assert(0 <= w * w <= 1_000_000_000_000_000_000_000_000) by (nonlinear_arith)
        requires
            0 <= w <= bound,
            bound * bound <= 1_000_000_000_000_000_000_000_000,
    ;
    assert(1_000_000_000_000_000_000_000_000int / 1_000_000int == 1_000_000_000_000_000_000int)
        by (nonlinear_arith);
    vstd::arithmetic::div_mod::lemma_div_is_ordered(0, w * w, s);
    vstd::arithmetic::div_mod::lemma_div_is_ordered(w * w, 1_000_000_000_000_000_000_000_000, s);
}

/// A normalized component is the signed floor quotient of the scaled
/// component by the length, with no saturation.
proof fn lemma_div_floor(x: int, el: int, bound: int)
    requires
        abs_i(x) <= bound,
        bound <= 1_000_000_000_000,
        el >= 500_000,
    ensures
        fx_div(x, el) == if x >= 0 {
            (abs_i(x) * (SCALE as int)) / el
        } else {
            -((abs_i(x) * (SCALE as int)) / el)
        },
        abs_i(fx_div(x, el)) == (abs_i(x) * (SCALE as int)) / el,
        0 <= (abs_i(x) * (SCALE as int)) / el <= 2_000_000_000_000,
{
    let s = SCALE as int;
    let a = abs_i(x);
    assert(abs_i(x * s) == a * s) by (nonlinear_arith)
        requires
            a == abs_i(x),
            s > 0,
    ;
    assert((x * s >= 0) == (x >= 0)) by (nonlinear_arith)
        requires
            s > 0,
    ;
    assert(a * s <= 1_000_000_000_000_000_000) by (nonlinear_arith)
        requires
            0 <= a <= 1_000_000_000_000,
            s == 1_000_000,
    ;
    vstd::arithmetic::div_mod::lemma_div_is_ordered(0, a * s, el);
    vstd::arithmetic::div_mod::lemma_div_is_ordered(a * s, 1_000_000_000_000_000_000, el);
    assert(1_000_000_000_000_000_000int / el <= 2_000_000_000_000int) by (nonlinear_arith)
        requires
            el >= 500_000,
    ;
}

/// A squared length of at least one raw unit gives a positive length.
pub proof fn lemma_len_pos(a: Vec3V)
    requires
        v3_len2(a) >= 1,
    ensures
        v3_len(a) >= 1000,
{
    let n = v3_len2(a) * (SCALE as int);
    crate::fixed::lemma_sqrt_floor_bounds(n as nat);
    let r = crate::fixed::sqrt_floor(n);
    assert(r >= 1000) by (nonlinear_arith)
        requires
            crate::fixed::is_sqrt_floor(n, r),
            n >= 1_000_000,
    ;
}

} // verus!
