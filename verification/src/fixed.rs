//! Exact fixed-point arithmetic: the number type of the renderer.
//!
//! A `Real` stores a signed value scaled by `SCALE` (six decimal places).
//! Multiplication and division truncate toward zero, exactly like the
//! corresponding operations on raw integers; results outside the
//! representable range saturate symmetrically at `RAW_MAX` / `-RAW_MAX`.
//! Every operation is total and its result is pinned by a spec function,
//! so algebra over `Real` values can be reasoned about exactly.

use vstd::prelude::*;

verus! {

/// Number of raw units per 1.0.
pub const SCALE: i64 = 1_000_000;

/// Largest representable raw magnitude; the range is symmetric.
pub const RAW_MAX: i64 = 9_223_372_036_854_775_807;

/// Saturate a mathematical integer into the symmetric raw range.
pub open spec fn clamp_raw(x: int) -> int {
    if x > RAW_MAX as int {
        RAW_MAX as int
    } else if x < -(RAW_MAX as int) {
        -(RAW_MAX as int)
    } else {
        x
    }
}

/// Absolute value of a mathematical integer.
pub open spec fn abs_i(a: int) -> int {
    if a >= 0 {
        a
    } else {
        -a
    }
}

/// Division truncating toward zero, the rounding used by the executable code.
pub open spec fn tdiv(a: int, b: int) -> int {
    if (a >= 0) == (b >= 0) {
        abs_i(a) / abs_i(b)
    } else {
        -(abs_i(a) / abs_i(b))
    }
}

/// Raw result of fixed-point addition.
pub open spec fn fx_add(a: int, b: int) -> int {
    clamp_raw(a + b)
}

/// Raw result of fixed-point subtraction.
pub open spec fn fx_sub(a: int, b: int) -> int {
    clamp_raw(a - b)
}

/// Raw result of fixed-point negation.
pub open spec fn fx_neg(a: int) -> int {
    clamp_raw(-a)
}

/// Raw result of fixed-point multiplication (truncating, saturating).
pub open spec fn fx_mul(a: int, b: int) -> int {
    clamp_raw(tdiv(a * b, SCALE as int))
}

/// Raw result of fixed-point division (truncating, saturating); `b != 0`.
pub open spec fn fx_div(a: int, b: int) -> int
    recommends
        b != 0,
{
    clamp_raw(tdiv(a * (SCALE as int), b))
}

/// `r` is the floor of the square root of `n`.
pub open spec fn is_sqrt_floor(n: int, r: int) -> bool {
    0 <= r && r * r <= n && n < (r + 1) * (r + 1)
}

/// The floor of the square root of a non-negative integer.
pub open spec fn sqrt_floor(n: int) -> int {
    choose|r: int| is_sqrt_floor(n, r)
}

/// Raw result of the fixed-point square root of a non-negative value.
pub open spec fn fx_sqrt(a: int) -> int
    recommends
        a >= 0,
{
    sqrt_floor(a * (SCALE as int))
}

/// A fixed-point real number: `raw` units of 1/`SCALE`.
#[derive(Clone, Copy, Debug, PartialEq, Eq, Structural)]
pub struct Real {
    raw: i64,
}

impl View for Real {
    type V = int;

    closed spec fn view(&self) -> int {
        clamp_raw(self.raw as int)
    }
}

/// Every `Real` value, ghost ones included, lies in the symmetric raw range.
pub broadcast proof fn lemma_real_range(r: Real)
    ensures
        -(RAW_MAX as int) <= #[trigger] r@ <= RAW_MAX as int,
{
}

impl Real {
    /// The raw range is symmetric: `i64::MIN` never occurs.
    #[verifier::type_invariant]
    spec fn type_inv(self) -> bool {
        -(RAW_MAX as int) <= self.raw as int <= RAW_MAX as int
    }

    /// Build a value from raw units of 1/`SCALE`.
    pub fn from_raw(raw: i64) -> (r: Real)
        requires
            raw > i64::MIN,
        ensures
            r@ == raw as int,
    {
        Real { raw }
    }

    /// The raw units of this value.
    pub fn raw(&self) -> (r: i64)
        ensures
            r as int == self@,
    {
        proof {
            use_type_invariant(*self);
        }
        self.raw
    }

    /// The value zero.
    pub fn zero() -> (r: Real)
        ensures
            r@ == 0,
    {
        Real { raw: 0 }
    }

    /// The value one.
    pub fn one() -> (r: Real)
        ensures
            r@ == SCALE as int,
    {
        Real { raw: SCALE }
    }

    /// Build a value from a whole number of units.
    pub fn from_int(units: i64) -> (r: Real)
        requires
            -9_223_372_036_854 <= units <= 9_223_372_036_854,
        ensures
            r@ == units * (SCALE as int),
    {
        Real { raw: units * SCALE }
    }

    /// Saturating addition.
    pub fn add(self, rhs: Real) -> (r: Real)
        ensures
            r@ == fx_add(self@, rhs@),
    {
        proof {
            use_type_invariant(self);
            use_type_invariant(rhs);
        }
        let s: i128 = self.raw as i128 + rhs.raw as i128;
        let c: i128 = if s > RAW_MAX as i128 {
            RAW_MAX as i128
        } else if s < -(RAW_MAX as i128) {
            -(RAW_MAX as i128)
        } else {
            s
        };
        Real { raw: c as i64 }
    }

    /// Saturating subtraction.
    pub fn sub(self, rhs: Real) -> (r: Real)
        ensures
            r@ == fx_sub(self@, rhs@),
    {
        proof {
            use_type_invariant(self);
            use_type_invariant(rhs);
        }
        let s: i128 = self.raw as i128 - rhs.raw as i128;
        let c: i128 = if s > RAW_MAX as i128 {
            RAW_MAX as i128
        } else if s < -(RAW_MAX as i128) {
            -(RAW_MAX as i128)
        } else {
            s
        };
        Real { raw: c as i64 }
    }

    /// Negation; exact, since the raw range is symmetric.
    pub fn neg(self) -> (r: Real)
        ensures
            r@ == fx_neg(self@),
    {
        proof {
            use_type_invariant(self);
        }
        Real { raw: -self.raw }
    }

    /// Saturating fixed-point multiplication, truncating toward zero.
    pub fn mul(self, rhs: Real) -> (r: Real)
        ensures
            r@ == fx_mul(self@, rhs@),
    {
        proof {
            use_type_invariant(self);
            use_type_invariant(rhs);
        }
        let neg: bool = (self.raw < 0) != (rhs.raw < 0);
        let ma: u128 = abs64(self.raw) as u128;
        let mb: u128 = abs64(rhs.raw) as u128;
        proof {
            assert(ma * mb <= 0x8000_0000_0000_0000u128 * 0x8000_0000_0000_0000u128)
                by (nonlinear_arith)
                requires
                    ma <= 0x8000_0000_0000_0000u128,
                    mb <= 0x8000_0000_0000_0000u128,
            ;
        }
        let q: u128 = (ma * mb) / (SCALE as u128);
        let qc: i64 = if q > RAW_MAX as u128 {
            RAW_MAX
        } else {
            q as i64
        };
        let raw: i64 = if neg {
            -qc
        } else {
            qc
        };
        proof {
            lemma_tdiv_mul_signs(self@, rhs@, SCALE as int);
        }
        Real { raw }
    }

    /// Saturating fixed-point division, truncating toward zero.
    pub fn div(self, rhs: Real) -> (r: Real)
        requires
            rhs@ != 0,
        ensures
            r@ == fx_div(self@, rhs@),
    {
        proof {
            use_type_invariant(self);
            use_type_invariant(rhs);
        }
        let neg: bool = (self.raw < 0) != (rhs.raw < 0);
        let ma: u128 = abs64(self.raw) as u128;
        let mb: u128 = abs64(rhs.raw) as u128;
        let q: u128 = (ma * (SCALE as u128)) / mb;
        let qc: i64 = if q > RAW_MAX as u128 {
            RAW_MAX
        } else {
            q as i64
        };
        let raw: i64 = if neg {
            -qc
        } else {
            qc
        };
        proof {
            assert(abs_i(self@ * (SCALE as int)) == abs_i(self@) * (SCALE as int));
            assert((self@ * (SCALE as int) >= 0) == (self@ >= 0));
        }
        Real { raw }
    }

    /// Fixed-point square root of a non-negative value, truncating.
    pub fn sqrt(self) -> (r: Real)
        requires
            self@ >= 0,
        ensures
            r@ == fx_sqrt(self@),
    {
        proof {
            use_type_invariant(self);
        }
        let ra: u128 = self.raw as u128;
        let sc: u128 = SCALE as u128;
        proof {
            assert(ra * sc < 0x1_0000_0000_0000_0000_0000_0000u128) by (nonlinear_arith)
                requires
                    ra <= 0x8000_0000_0000_0000u128,
                    sc == 1_000_000u128,
            ;
        }
        let n: u128 = ra * sc;
        let root: u128 = isqrt_u128(n);
        proof {
            lemma_sqrt_unique(n as int, root as int);
            assert(root * root <= n);
            assert(root < 0x1_0000_0000_0000u128) by (nonlinear_arith)
                requires
                    root * root <= n,
                    n < 0x1_0000_0000_0000_0000_0000_0000u128,
            ;
        }
        Real { raw: root as i64 }
    }

    /// Division by a positive whole number, truncating toward zero.
    pub fn div_whole(self, n: u32) -> (r: Real)
        requires
            n >= 1,
        ensures
            r@ == tdiv(self@, n as int),
    {
        proof {
            use_type_invariant(self);
        }
        let m: u64 = abs64(self.raw) / (n as u64);
        let raw: i64 = if self.raw < 0 {
            -(m as i64)
        } else {
            m as i64
        };
        Real { raw }
    }

    /// Absolute value.
    pub fn abs(self) -> (r: Real)
        ensures
            r@ == abs_i(self@),
    {
        proof {
            use_type_invariant(self);
        }
        if self.raw < 0 {
            Real { raw: -self.raw }
        } else {
            self
        }
    }

    /// The smaller of two values.
    pub fn min(self, rhs: Real) -> (r: Real)
        ensures
            r@ == if self@ <= rhs@ {
                self@
            } else {
                rhs@
            },
    {
        proof {
            use_type_invariant(self);
            use_type_invariant(rhs);
        }
        if self.raw <= rhs.raw {
            self
        } else {
            rhs
        }
    }

    /// Whether `self < rhs`.
    pub fn lt(&self, rhs: &Real) -> (r: bool)
        ensures
            r == (self@ < rhs@),
    {
        proof {
            use_type_invariant(*self);
            use_type_invariant(*rhs);
        }
        self.raw < rhs.raw
    }

    /// Whether `self <= rhs`.
    pub fn le(&self, rhs: &Real) -> (r: bool)
        ensures
            r == (self@ <= rhs@),
    {
        proof {
            use_type_invariant(*self);
            use_type_invariant(*rhs);
        }
        self.raw <= rhs.raw
    }

    /// Whether `self > rhs`.
    pub fn gt(&self, rhs: &Real) -> (r: bool)
        ensures
            r == (self@ > rhs@),
    {
        proof {
            use_type_invariant(*self);
            use_type_invariant(*rhs);
        }
        self.raw > rhs.raw
    }

    /// Whether `self >= rhs`.
    pub fn ge(&self, rhs: &Real) -> (r: bool)
        ensures
            r == (self@ >= rhs@),
    {
        proof {
            use_type_invariant(*self);
            use_type_invariant(*rhs);
        }
        self.raw >= rhs.raw
    }
}

/// Absolute value of an `i64` above `i64::MIN`, as a `u64`.
fn abs64(x: i64) -> (r: u64)
    requires
        x > i64::MIN,
    ensures
        r as int == abs_i(x as int),
{
    if x < 0 {
        (-x) as u64
    } else {
        x as u64
    }
}

/// Evaluate a truncating division of non-negative operands from a witness
/// quotient: `q * b <= a < (q + 1) * b` pins `tdiv(a, b)` to `q`.
pub proof fn lemma_tdiv_eval(a: int, b: int, q: int)
    requires
        a >= 0,
        b > 0,
        q >= 0,
        q * b <= a < (q + 1) * b,
    ensures
        tdiv(a, b) == q,
{
    assert(a / b == q) by (nonlinear_arith)
        requires
            a >= 0,
            b > 0,
            q >= 0,
            q * b <= a < (q + 1) * b,
    ;
}

/// Multiplying by a whole number of units is exact (up to saturation).
pub proof fn lemma_fx_mul_whole(d: int, k: int)
    ensures
        fx_mul(d, k * (SCALE as int)) == clamp_raw(d * k),
{
    let s = SCALE as int;
    assert(d * (k * s) == (d * k) * s) by (nonlinear_arith);
    assert(abs_i((d * k) * s) == abs_i(d * k) * s) by (nonlinear_arith)
        requires
            s > 0,
    ;
    assert(abs_i(d * k) * s / s == abs_i(d * k)) by (nonlinear_arith)
        requires
            s > 0,
    ;
    assert(((d * k) * s >= 0) == (d * k >= 0)) by (nonlinear_arith)
        requires
            s > 0,
    ;
}

/// Saturation is symmetric, so negating commutes with clamping.
pub proof fn lemma_clamp_neg(x: int)
    ensures
        clamp_raw(-x) == -clamp_raw(x),
{
}

/// Negating one factor negates a saturated product exactly.
pub proof fn lemma_fx_mul_neg(a: int, b: int)
    ensures
        fx_mul(a, -b) == fx_neg(fx_mul(a, b)),
{
    assert(a * (-b) == -(a * b)) by (nonlinear_arith);
    assert(abs_i(-(a * b)) == abs_i(a * b));
    assert(tdiv(-(a * b), SCALE as int) == -tdiv(a * b, SCALE as int));
    lemma_clamp_neg(tdiv(a * b, SCALE as int));
}

/// Saturated multiplication is commutative.
pub proof fn lemma_fx_mul_comm(a: int, b: int)
    ensures
        fx_mul(a, b) == fx_mul(b, a),
{
    assert(a * b == b * a) by (nonlinear_arith);
}

/// Negating both addends negates a saturated sum, for in-range addends.
pub proof fn lemma_fx_add_neg(u: int, v: int)
    requires
        abs_i(u) <= RAW_MAX as int,
        abs_i(v) <= RAW_MAX as int,
    ensures
        fx_add(-u, -v) == fx_neg(fx_add(u, v)),
{
}

/// Truncating division distributes over the signs of its arguments.
proof fn lemma_tdiv_mul_signs(a: int, b: int, d: int)
    requires
        d > 0,
    ensures
        tdiv(a * b, d) == if (a < 0) != (b < 0) {
            -((abs_i(a) * abs_i(b)) / d)
        } else {
            (abs_i(a) * abs_i(b)) / d
        },
{
    assert(abs_i(a * b) == abs_i(a) * abs_i(b)) by (nonlinear_arith);
    if (a < 0) != (b < 0) {
        assert(a * b <= 0) by (nonlinear_arith)
            requires
                (a < 0) != (b < 0),
        ;
    } else {
        assert(a * b >= 0) by (nonlinear_arith)
            requires
                (a < 0) == (b < 0),
        ;
    }
}

/// A floor square root exists for every non-negative integer.
proof fn lemma_sqrt_exists(n: nat)
    ensures
        exists|r: int| is_sqrt_floor(n as int, r),
    decreases n,
{
    if n == 0 {
        assert(is_sqrt_floor(0, 0));
    } else {
        lemma_sqrt_exists((n - 1) as nat);
        let r = choose|r: int| #[trigger] is_sqrt_floor(n - 1, r);
        if n < (r + 1) * (r + 1) {
            assert(is_sqrt_floor(n as int, r));
        } else {
            assert(n == (r + 1) * (r + 1));
            assert((r + 2) * (r + 2) > (r + 1) * (r + 1)) by (nonlinear_arith)
                requires
                    r >= 0,
            ;
            assert(is_sqrt_floor(n as int, r + 1));
        }
    }
}

/// The floor square root is unique, so `sqrt_floor` picks the witness.
pub proof fn lemma_sqrt_unique(n: int, r: int)
    requires
        is_sqrt_floor(n, r),
    ensures
        sqrt_floor(n) == r,
{
    assert(exists|x: int| is_sqrt_floor(n, x));
    let s = sqrt_floor(n);
    assert(is_sqrt_floor(n, s));
    assert(r == s) by (nonlinear_arith)
        requires
            is_sqrt_floor(n, r),
            is_sqrt_floor(n, s),
    ;
}

/// The floor square root of a natural number satisfies its defining bounds.
pub proof fn lemma_sqrt_floor_bounds(n: nat)
    ensures
        is_sqrt_floor(n as int, sqrt_floor(n as int)),
{
    lemma_sqrt_exists(n);
    let r = choose|x: int| is_sqrt_floor(n as int, x);
    lemma_sqrt_unique(n as int, r);
}

/// Binary search for the floor square root of a `u128`.
fn isqrt_u128(n: u128) -> (r: u128)
    requires
        n < 0x1_0000_0000_0000_0000_0000_0000u128,
    ensures
        is_sqrt_floor(n as int, r as int),
{
    let mut lo: u128 = 0;
    let mut hi: u128 = 0x1_0000_0000_0000u128;
    proof {
        assert(0x1_0000_0000_0000u128 * 0x1_0000_0000_0000u128
            == 0x1_0000_0000_0000_0000_0000_0000u128) by (nonlinear_arith);
    }
    while lo + 1 < hi
        invariant
            lo < hi <= 0x1_0000_0000_0000u128,
            (lo as int) * (lo as int) <= n as int,
            (n as int) < (hi as int) * (hi as int),
        decreases hi - lo,
    {
        let mid: u128 = lo + (hi - lo) / 2;
        proof {
            assert(mid * mid <= 0x1_0000_0000_0000u128 * 0x1_0000_0000_0000u128)
                by (nonlinear_arith)
                requires
                    mid <= 0x1_0000_0000_0000u128,
            ;
        }
        if mid * mid <= n {
            lo = mid;
        } else {
            hi = mid;
        }
    }
    lo
}

} // verus!
