use vstd::prelude::*;

verus! {

/// Raw representation of 1.0: every scalar keeps 16 fractional bits.
pub const FX_ONE: i64 = 65536;

/// Raw representation of 0.5.
pub const FX_HALF: i64 = 32768;

/// A real number stored as a signed 64-bit integer scaled by 2^16.
#[derive(Clone, Copy, Debug, PartialEq, Eq, Structural)]
pub struct Fixed {
    pub raw: i64,
}

/// Absolute value of a mathematical integer.
pub open spec fn iabs(a: int) -> int {
    if a >= 0 {
        a
    } else {
        -a
    }
}

/// Truncating (round toward zero) quotient of `a` by `b`, the rounding that
/// hardware integer division performs. Meaningful only for `b != 0`.
pub open spec fn tdiv(a: int, b: int) -> int {
    if (a >= 0) == (b >= 0) {
        iabs(a) / iabs(b)
    } else {
        -(iabs(a) / iabs(b))
    }
}

/// The product of two fixed-point scalars: the exact integer product,
/// rescaled with truncation toward zero.
pub open spec fn fmul(a: int, b: int) -> int {
    tdiv(a * b, 65536)
}

/// The quotient of two fixed-point scalars: the dividend is pre-scaled so the
/// result carries the same 16 fractional bits. Meaningful only for `b != 0`.
pub open spec fn fdiv(a: int, b: int) -> int {
    tdiv(a * 65536, b)
}

/// `r` is the integer square root of `n`: the largest integer whose square
/// does not exceed `n`.
pub open spec fn is_isqrt(n: int, r: int) -> bool {
    &&& 0 <= r
    &&& r * r <= n
    &&& n < (r + 1) * (r + 1)
}

/// The integer square root of `n`, for `n >= 0`.
pub open spec fn isqrt_s(n: int) -> int {
    choose|r: int| #[trigger] is_isqrt(n, r)
}

/// The square root of a fixed-point scalar keeps the scale: the raw result is
/// the integer square root of the raw argument times the scale.
pub open spec fn fsqrt(a: int) -> int {
    isqrt_s(a * 65536)
}

/// A value representable by the raw 64-bit carrier.
pub open spec fn fits(a: int) -> bool {
    i64::MIN <= a <= i64::MAX
}

pub proof fn lemma_isqrt_exists(n: int)
    requires
        n >= 0,
    ensures
        exists|r: int| #[trigger] is_isqrt(n, r),
    decreases n,
{
    if n == 0 {
        assert(is_isqrt(0, 0)) by (nonlinear_arith);
    } else {
        lemma_isqrt_exists(n - 1);
        let r = choose|r: int| #[trigger] is_isqrt(n - 1, r);
        if n < (r + 1) * (r + 1) {
            assert(is_isqrt(n, r));
        } else {
            assert(is_isqrt(n, r + 1)) by (nonlinear_arith)
                requires
                    0 <= r,
                    r * r <= n - 1,
                    n - 1 < (r + 1) * (r + 1),
                    n >= (r + 1) * (r + 1);
        }
    }
}

pub proof fn lemma_isqrt_unique(n: int, a: int, b: int) by (nonlinear_arith)
    requires
        is_isqrt(n, a),
        is_isqrt(n, b),
    ensures
        a == b,
{
}

/// Any integer satisfying the square-root characterization is the value the
/// spec-level square root denotes.
pub proof fn lemma_isqrt_is(n: int, r: int)
    requires
        n >= 0,
        is_isqrt(n, r),
    ensures
        isqrt_s(n) == r,
{
    lemma_isqrt_exists(n);
    let w = choose|w: int| #[trigger] is_isqrt(n, w);
    lemma_isqrt_unique(n, w, r);
}

/// Truncating division never grows the magnitude of the dividend, and shrinks
/// it by the divisor.
pub proof fn lemma_tdiv_abs(a: int, b: int) by (nonlinear_arith)
    requires
        b != 0,
    ensures
        iabs(tdiv(a, b)) <= iabs(a) / iabs(b),
        iabs(a) / iabs(b) <= iabs(a),
        a >= 0 && b > 0 ==> tdiv(a, b) == a / b,
{
}

/// A bound on both factors bounds the exact product.
pub proof fn lemma_prod_bound(a: int, b: int, p: int, q: int) by (nonlinear_arith)
    requires
        iabs(a) <= p,
        iabs(b) <= q,
    ensures
        iabs(a * b) <= p * q,
{
}

/// A bound on the dividend bounds the truncated quotient, which the divisor
/// further shrinks.
pub proof fn lemma_tdiv_bound(a: int, b: int, m: int) by (nonlinear_arith)
    requires
        b != 0,
        iabs(a) <= m,
    ensures
        iabs(tdiv(a, b)) <= m / iabs(b),
        m / iabs(b) <= m,
        a >= 0 && b > 0 ==> tdiv(a, b) >= 0,
{
}

/// A bound on both factors bounds the rescaled fixed-point product.
pub proof fn lemma_fmul_bound(a: int, b: int, p: int, q: int) by (nonlinear_arith)
    requires
        iabs(a) <= p,
        iabs(b) <= q,
    ensures
        iabs(fmul(a, b)) <= p * q / 65536,
        p * q / 65536 <= p * q,
{
}

/// Scaling by the raw unit is exact.
pub proof fn lemma_fmul_one(a: int) by (nonlinear_arith)
    ensures
        fmul(a, 65536) == a,
        fmul(65536, a) == a,
{
}

/// A zero factor gives a zero product.
pub proof fn lemma_fmul_zero(a: int) by (nonlinear_arith)
    ensures
        fmul(a, 0) == 0,
        fmul(0, a) == 0,
{
}

/// Negating one operand negates the truncated quotient.
pub proof fn lemma_tdiv_neg(a: int, b: int) by (nonlinear_arith)
    requires
        b != 0,
    ensures
        tdiv(-a, b) == -tdiv(a, b),
        tdiv(a, -b) == -tdiv(a, b),
{
}

/// The exact product of two 64-bit values stays inside the 128-bit carrier.
proof fn lemma_wide_product_fits(a: int, b: int) by (nonlinear_arith)
    requires
        iabs(a) <= 0x8000000000000000,
        iabs(b) <= 0x8000000000000000,
    ensures
        iabs(a * b) <= 0x40000000000000000000000000000000,
{
}

/// Truncating division by a positive divisor is monotone in the dividend.
pub proof fn lemma_tdiv_monotone(a1: int, a2: int, b: int)
    requires
        a1 <= a2,
        b > 0,
    ensures
        tdiv(a1, b) <= tdiv(a2, b),
{
    if a1 >= 0 {
        vstd::arithmetic::div_mod::lemma_div_is_ordered(a1, a2, b);
    } else if a2 < 0 {
        vstd::arithmetic::div_mod::lemma_div_is_ordered(-a2, -a1, b);
    } else {
        vstd::arithmetic::div_mod::lemma_div_pos_is_pos(-a1, b);
        vstd::arithmetic::div_mod::lemma_div_pos_is_pos(a2, b);
    }
}

/// Truncating division leaves a remainder smaller than the divisor.
pub proof fn lemma_tdiv_rem(a: int, b: int) by (nonlinear_arith)
    requires
        b > 0,
    ensures
        iabs(a - tdiv(a, b) * b) < b,
{
}

/// Scaling a nonnegative value by a factor of at most one never grows it.
pub proof fn lemma_fmul_le_one(a: int, t: int) by (nonlinear_arith)
    requires
        0 <= a <= 65536,
        0 <= t,
    ensures
        fmul(a, t) <= t,
        fmul(t, a) <= t,
{
}

/// The fixed-point square of any scalar is nonnegative.
pub proof fn lemma_fmul_self_nonneg(a: int) by (nonlinear_arith)
    ensures
        fmul(a, a) >= 0,
{
}

/// The fixed-point product of nonnegative scalars is nonnegative, and the
/// product of a nonnegative and a nonpositive scalar is nonpositive.
pub proof fn lemma_fmul_sign(a: int, b: int) by (nonlinear_arith)
    ensures
        a >= 0 && b >= 0 ==> fmul(a, b) >= 0,
        a >= 0 && b <= 0 ==> fmul(a, b) <= 0,
        a <= 0 && b <= 0 ==> fmul(a, b) >= 0,
{
}

impl Fixed {
    /// The mathematical value of this scalar, in raw (scaled) units.
    pub open spec fn val(self) -> int {
        self.raw as int
    }

    pub fn new(raw: i64) -> (r: Fixed)
        ensures
            r.val() == raw as int,
    {
        Fixed { raw }
    }

    pub fn zero() -> (r: Fixed)
        ensures
            r.val() == 0,
    {
        Fixed { raw: 0 }
    }

    pub fn one() -> (r: Fixed)
        ensures
            r.val() == 65536,
    {
        Fixed { raw: 65536 }
    }

    /// The integer `n`, as a fixed-point scalar.
    pub fn from_int(n: i32) -> (r: Fixed)
        ensures
            r.val() == n as int * 65536,
    {
        Fixed { raw: (n as i64) * 65536 }
    }

    pub fn add(self, other: Fixed) -> (r: Fixed)
        requires
            fits(self.val() + other.val()),
        ensures
            r.val() == self.val() + other.val(),
    {
        Fixed { raw: self.raw + other.raw }
    }

    pub fn sub(self, other: Fixed) -> (r: Fixed)
        requires
            fits(self.val() - other.val()),
        ensures
            r.val() == self.val() - other.val(),
    {
        Fixed { raw: self.raw - other.raw }
    }

    pub fn neg(self) -> (r: Fixed)
        requires
            self.val() != i64::MIN,
        ensures
            r.val() == -self.val(),
    {
        Fixed { raw: -self.raw }
    }

    pub fn mul(self, other: Fixed) -> (r: Fixed)
        requires
            fits(fmul(self.val(), other.val())),
        ensures
            r.val() == fmul(self.val(), other.val()),
    {
        proof {
            lemma_wide_product_fits(self.val(), other.val());
        }
        let p: i128 = (self.raw as i128) * (other.raw as i128);
        let q: i128 = if p >= 0 {
            ((p as u128) / 65536u128) as i128
        } else {
            -((((-p) as u128) / 65536u128) as i128)
        };
        Fixed { raw: q as i64 }
    }

    pub fn div(self, other: Fixed) -> (r: Fixed)
        requires
            other.val() != 0,
            fits(fdiv(self.val(), other.val())),
        ensures
            r.val() == fdiv(self.val(), other.val()),
    {
        let a: i128 = self.raw as i128;
        let b: i128 = other.raw as i128;
        let am: u128 = if a >= 0 {
            (a as u128) * 65536
        } else {
            ((-a) as u128) * 65536
        };
        let bm: u128 = if b >= 0 {
            b as u128
        } else {
            (-b) as u128
        };
        let q: u128 = am / bm;
        let r: i128 = if (a >= 0) == (b >= 0) {
            q as i128
        } else {
            -(q as i128)
        };
        Fixed { raw: r as i64 }
    }

    /// The fixed-point square root; the argument must be nonnegative.
    pub fn sqrt(self) -> (r: Fixed)
        requires
            self.val() >= 0,
        ensures
            r.val() == fsqrt(self.val()),
            r.val() >= 0,
    {
        let n: u128 = (self.raw as u128) * 65536;
        let mut lo: u128 = 0;
        let mut hi: u128 = 1u128 << 40;
        proof {
            assert((1u128 << 40) == 0x10000000000) by (bit_vector);
            assert(n < 0x10000000000 * 0x10000000000) by (nonlinear_arith)
                requires
                    n <= 0x7fffffffffffffffu128 * 65536,
            ;
        }
        while lo + 1 < hi
            invariant
                0 <= lo < hi <= 0x10000000000,
                lo * lo <= n,
                n < hi * hi,
            decreases hi - lo,
        {
            let mid: u128 = lo + (hi - lo) / 2;
            proof {
                assert(mid * mid < 0x10000000000 * 0x10000000000) by (nonlinear_arith)
                    requires
                        0 <= mid < 0x10000000000u128,
                ;
            }
            if mid * mid <= n {
                lo = mid;
            } else {
                hi = mid;
            }
        }
        proof {
            assert(is_isqrt(n as int, lo as int));
            lemma_isqrt_is(n as int, lo as int);
        }
        Fixed { raw: lo as i64 }
    }

    /// The smaller of two scalars.
    pub fn min(self, other: Fixed) -> (r: Fixed)
        ensures
            r.val() == if self.val() <= other.val() {
                self.val()
            } else {
                other.val()
            },
    {
        if self.raw <= other.raw {
            self
        } else {
            other
        }
    }

    /// True exactly when this scalar is strictly less than the other.
    pub fn lt(self, other: Fixed) -> (r: bool)
        ensures
            r == (self.val() < other.val()),
    {
        self.raw < other.raw
    }
}

} // verus!
