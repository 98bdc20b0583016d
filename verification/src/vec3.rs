use vstd::prelude::*;

use crate::fixed::{
    fdiv, fits, fmul, iabs, is_isqrt, isqrt_s, lemma_fmul_bound, lemma_prod_bound,
    lemma_tdiv_bound, tdiv, Fixed,
};
use crate::utils;

verus! {

/// A 3-component vector of fixed-point scalars; doubles as a point and as an
/// RGB color, exactly as the field names suggest.
#[derive(Clone, Copy, Debug, PartialEq, Eq, Structural)]
pub struct Vec3 {
    pub x: Fixed,
    pub y: Fixed,
    pub z: Fixed,
}

pub type Color = Vec3;

pub type Point3 = Vec3;

/// The mathematical content of a vector: its three raw components.
pub open spec fn v3(v: Vec3) -> (int, int, int) {
    (v.x.val(), v.y.val(), v.z.val())
}

/// Every component lies within `m` of zero.
pub open spec fn bounded3(a: (int, int, int), m: int) -> bool {
    &&& iabs(a.0) <= m
    &&& iabs(a.1) <= m
    &&& iabs(a.2) <= m
}

pub open spec fn vadd3(a: (int, int, int), b: (int, int, int)) -> (int, int, int) {
    (a.0 + b.0, a.1 + b.1, a.2 + b.2)
}

pub open spec fn vsub3(a: (int, int, int), b: (int, int, int)) -> (int, int, int) {
    (a.0 - b.0, a.1 - b.1, a.2 - b.2)
}

pub open spec fn vneg3(a: (int, int, int)) -> (int, int, int) {
    (-a.0, -a.1, -a.2)
}

/// Componentwise fixed-point product.
pub open spec fn vmul3(a: (int, int, int), b: (int, int, int)) -> (int, int, int) {
    (fmul(a.0, b.0), fmul(a.1, b.1), fmul(a.2, b.2))
}

/// Every component scaled by the fixed-point factor `k`.
pub open spec fn vscale3(a: (int, int, int), k: int) -> (int, int, int) {
    (fmul(a.0, k), fmul(a.1, k), fmul(a.2, k))
}

/// Every component divided by the fixed-point divisor `k`.
pub open spec fn vdiv3(a: (int, int, int), k: int) -> (int, int, int) {
    (fdiv(a.0, k), fdiv(a.1, k), fdiv(a.2, k))
}

/// The exact (unrescaled) inner product of the raw components. One rescale by
/// the fixed-point unit turns it into the scalar dot product.
pub open spec fn wide_dot(a: (int, int, int), b: (int, int, int)) -> int {
    a.0 * b.0 + a.1 * b.1 + a.2 * b.2
}

/// The fixed-point dot product: the exact inner product, rescaled once.
pub open spec fn dot_s(a: (int, int, int), b: (int, int, int)) -> int {
    tdiv(wide_dot(a, b), 65536)
}

/// The fixed-point squared length.
pub open spec fn len_sq_s(a: (int, int, int)) -> int {
    dot_s(a, a)
}

/// The fixed-point length: the integer square root of the squared length,
/// brought back to the common scale.
pub open spec fn len_s(a: (int, int, int)) -> int {
    isqrt_s(len_sq_s(a) * 65536)
}

/// The unit vector with the direction of `a`: each component divided by the
/// length. Meaningful only for a vector of positive length.
pub open spec fn unit_s(a: (int, int, int)) -> (int, int, int) {
    vdiv3(a, len_s(a))
}

/// The exact (unrescaled) cross product of the raw components.
pub open spec fn cross_w(a: (int, int, int), b: (int, int, int)) -> (int, int, int) {
    (a.1 * b.2 - a.2 * b.1, a.2 * b.0 - a.0 * b.2, a.0 * b.1 - a.1 * b.0)
}

/// The fixed-point cross product: each exact component, rescaled once.
pub open spec fn cross_s(a: (int, int, int), b: (int, int, int)) -> (int, int, int) {
    (
        tdiv(cross_w(a, b).0, 65536),
        tdiv(cross_w(a, b).1, 65536),
        tdiv(cross_w(a, b).2, 65536),
    )
}

/// The reflection of `v` about the normal `n`: `v - 2*dot(v,n)*n`, with the
/// scalar factor computed first, exactly as the executable code does.
pub open spec fn reflect_s(v: (int, int, int), n: (int, int, int)) -> (int, int, int) {
    vsub3(v, vscale3(n, 2 * dot_s(v, n)))
}

/// The smaller of two spec-level scalars.
pub open spec fn min_s(a: int, b: int) -> int {
    if a <= b {
        a
    } else {
        b
    }
}

/// Snell refraction of the direction `uv` at a surface with normal `n`, for
/// the refractive-index ratio `eta`: the perpendicular part is
/// `eta*(uv + cos_theta*n)`, the parallel part `-sqrt(1 - |perp|^2)*n`, and
/// the result is their sum. A negative radicand, possible only through
/// rounding at grazing incidence, is treated as zero.
pub open spec fn refract_s(uv: (int, int, int), n: (int, int, int), eta: int) -> (int, int, int) {
    let cos_theta = min_s(dot_s(vneg3(uv), n), 65536);
    let perp = vscale3(vadd3(uv, vscale3(n, cos_theta)), eta);
    let k = 65536 - len_sq_s(perp);
    let kk = if k < 0 {
        0
    } else {
        k
    };
    vadd3(perp, vscale3(n, -isqrt_s(kk * 65536)))
}

/// `a` with every component scaled by the exact integer `k`.
pub open spec fn vmul_int3(a: (int, int, int), k: int) -> (int, int, int) {
    (k * a.0, k * a.1, k * a.2)
}

/// The common component bound under which the vector operations are free of
/// overflow: 2^31 raw units, far beyond any quantity a render produces.
pub open spec fn vb() -> int {
    0x80000000
}

/// An inner product of vectors bounded by `m` is bounded by `3*m*m`.
pub proof fn lemma_wide_dot_bound(a: (int, int, int), b: (int, int, int), m: int) by (nonlinear_arith)
    requires
        bounded3(a, m),
        bounded3(b, m),
    ensures
        iabs(wide_dot(a, b)) <= 3 * m * m,
{
}

/// An inner product of vectors bounded by `p` and `q` is bounded by `3*p*q`.
pub proof fn lemma_wide_dot_bound2(
    a: (int, int, int),
    b: (int, int, int),
    p: int,
    q: int,
) by (nonlinear_arith)
    requires
        bounded3(a, p),
        bounded3(b, q),
    ensures
        iabs(wide_dot(a, b)) <= 3 * p * q,
{
}

/// The inner product of a vector with itself is nonnegative, and no component
/// square exceeds it.
pub proof fn lemma_wide_dot_self(a: (int, int, int)) by (nonlinear_arith)
    ensures
        wide_dot(a, a) >= 0,
        a.0 * a.0 <= wide_dot(a, a),
        a.1 * a.1 <= wide_dot(a, a),
        a.2 * a.2 <= wide_dot(a, a),
{
}

/// Negating a vector negates its inner product with any other.
pub proof fn lemma_wide_dot_neg(a: (int, int, int), b: (int, int, int)) by (nonlinear_arith)
    ensures
        wide_dot(vneg3(a), b) == -wide_dot(a, b),
        wide_dot(a, vneg3(b)) == -wide_dot(a, b),
{
}

/// Normalizing a vector of length at least 1/256 yields components within
/// twice the fixed-point unit.
pub proof fn lemma_unit_bounded(v: (int, int, int))
    requires
        bounded3(v, vb()),
        wide_dot(v, v) >= 65536,
    ensures
        bounded3(unit_s(v), 131072),
{
    let q = wide_dot(v, v);
    let ls = len_sq_s(v);
    let m = ls * 65536;
    let l = len_s(v);
    lemma_wide_dot_self(v);
    lemma_wide_dot_bound(v, v, vb());
    assert(q - 65535 <= ls * 65536 <= q && ls >= 1) by (nonlinear_arith)
        requires
            ls == tdiv(q, 65536),
            65536 <= q;
    crate::fixed::lemma_isqrt_exists(m);
    assert(is_isqrt(m, l));
    assert(l >= 256) by (nonlinear_arith)
        requires
            is_isqrt(m, l),
            m >= 65536;
    assert(q <= 4 * l * l) by (nonlinear_arith)
        requires
            m <= q <= m + 65535,
            m < (l + 1) * (l + 1),
            l >= 256;
    assert(iabs(v.0) <= 2 * l && iabs(v.1) <= 2 * l && iabs(v.2) <= 2 * l) by (nonlinear_arith)
        requires
            v.0 * v.0 <= q,
            v.1 * v.1 <= q,
            v.2 * v.2 <= q,
            q <= 4 * l * l,
            l >= 0;
    crate::fixed::lemma_tdiv_bound(v.0 * 65536, l, 2 * l * 65536);
    crate::fixed::lemma_tdiv_bound(v.1 * 65536, l, 2 * l * 65536);
    crate::fixed::lemma_tdiv_bound(v.2 * 65536, l, 2 * l * 65536);
    assert(2 * l * 65536 / iabs(l) <= 131072) by (nonlinear_arith)
        requires
            l >= 256;
}

impl Vec3 {
    pub fn new(x: Fixed, y: Fixed, z: Fixed) -> (r: Vec3)
        ensures
            r.x == x && r.y == y && r.z == z,
    {
        Vec3 { x, y, z }
    }

    pub fn zero() -> (r: Vec3)
        ensures
            v3(r) == (0int, 0int, 0int),
    {
        Vec3 { x: Fixed { raw: 0 }, y: Fixed { raw: 0 }, z: Fixed { raw: 0 } }
    }

    pub fn ones() -> (r: Vec3)
        ensures
            v3(r) == (65536int, 65536int, 65536int),
    {
        Vec3 { x: Fixed { raw: 65536 }, y: Fixed { raw: 65536 }, z: Fixed { raw: 65536 } }
    }

    pub fn add(self, other: Vec3) -> (r: Vec3)
        requires
            fits(self.x.val() + other.x.val()),
            fits(self.y.val() + other.y.val()),
            fits(self.z.val() + other.z.val()),
        ensures
            v3(r) == vadd3(v3(self), v3(other)),
    {
        Vec3 { x: self.x.add(other.x), y: self.y.add(other.y), z: self.z.add(other.z) }
    }

    pub fn sub(self, other: Vec3) -> (r: Vec3)
        requires
            fits(self.x.val() - other.x.val()),
            fits(self.y.val() - other.y.val()),
            fits(self.z.val() - other.z.val()),
        ensures
            v3(r) == vsub3(v3(self), v3(other)),
    {
        Vec3 { x: self.x.sub(other.x), y: self.y.sub(other.y), z: self.z.sub(other.z) }
    }

    pub fn neg(self) -> (r: Vec3)
        requires
            self.x.val() != i64::MIN,
            self.y.val() != i64::MIN,
            self.z.val() != i64::MIN,
        ensures
            v3(r) == vneg3(v3(self)),
    {
        Vec3 { x: self.x.neg(), y: self.y.neg(), z: self.z.neg() }
    }

    /// Componentwise fixed-point product.
    pub fn mul(self, other: Vec3) -> (r: Vec3)
        requires
            fits(fmul(self.x.val(), other.x.val())),
            fits(fmul(self.y.val(), other.y.val())),
            fits(fmul(self.z.val(), other.z.val())),
        ensures
            v3(r) == vmul3(v3(self), v3(other)),
    {
        Vec3 { x: self.x.mul(other.x), y: self.y.mul(other.y), z: self.z.mul(other.z) }
    }

    /// Every component scaled by the fixed-point factor `k`.
    pub fn scale(self, k: Fixed) -> (r: Vec3)
        requires
            fits(fmul(self.x.val(), k.val())),
            fits(fmul(self.y.val(), k.val())),
            fits(fmul(self.z.val(), k.val())),
        ensures
            v3(r) == vscale3(v3(self), k.val()),
    {
        Vec3 { x: self.x.mul(k), y: self.y.mul(k), z: self.z.mul(k) }
    }

    /// Every component divided by the fixed-point divisor `k`.
    pub fn div_scalar(self, k: Fixed) -> (r: Vec3)
        requires
            k.val() != 0,
            fits(fdiv(self.x.val(), k.val())),
            fits(fdiv(self.y.val(), k.val())),
            fits(fdiv(self.z.val(), k.val())),
        ensures
            v3(r) == vdiv3(v3(self), k.val()),
    {
        Vec3 { x: self.x.div(k), y: self.y.div(k), z: self.z.div(k) }
    }

    /// Componentwise fixed-point division.
    pub fn div(self, other: Vec3) -> (r: Vec3)
        requires
            other.x.val() != 0,
            other.y.val() != 0,
            other.z.val() != 0,
            fits(fdiv(self.x.val(), other.x.val())),
            fits(fdiv(self.y.val(), other.y.val())),
            fits(fdiv(self.z.val(), other.z.val())),
        ensures
            v3(r) == (
                fdiv(self.x.val(), other.x.val()),
                fdiv(self.y.val(), other.y.val()),
                fdiv(self.z.val(), other.z.val()),
            ),
    {
        Vec3 { x: self.x.div(other.x), y: self.y.div(other.y), z: self.z.div(other.z) }
    }

    pub fn dot(&self, other: &Vec3) -> (r: Fixed)
        requires
            bounded3(v3(*self), vb()),
            bounded3(v3(*other), vb()),
        ensures
            r.val() == dot_s(v3(*self), v3(*other)),
            iabs(r.val()) <= 3 * vb() * vb() / 65536,
    {
        proof {
            let a = v3(*self);
            let b = v3(*other);
            lemma_prod_bound(a.0, b.0, vb(), vb());
            lemma_prod_bound(a.1, b.1, vb(), vb());
            lemma_prod_bound(a.2, b.2, vb(), vb());
            lemma_wide_dot_bound(a, b, vb());
            lemma_tdiv_bound(wide_dot(a, b), 65536, 3 * vb() * vb());
        }
        let wx: i128 = (self.x.raw as i128) * (other.x.raw as i128);
        let wy: i128 = (self.y.raw as i128) * (other.y.raw as i128);
        let wz: i128 = (self.z.raw as i128) * (other.z.raw as i128);
        let w: i128 = wx + wy + wz;
        let q: i128 = if w >= 0 {
            ((w as u128) / 65536u128) as i128
        } else {
            -((((-w) as u128) / 65536u128) as i128)
        };
        Fixed { raw: q as i64 }
    }

    pub fn length_squared(&self) -> (r: Fixed)
        requires
            bounded3(v3(*self), vb()),
        ensures
            r.val() == len_sq_s(v3(*self)),
            0 <= r.val() <= 3 * vb() * vb() / 65536,
    {
        proof {
            lemma_wide_dot_self(v3(*self));
            lemma_wide_dot_bound(v3(*self), v3(*self), vb());
            lemma_tdiv_bound(wide_dot(v3(*self), v3(*self)), 65536, 3 * vb() * vb());
        }
        self.dot(self)
    }

    pub fn length(&self) -> (r: Fixed)
        requires
            bounded3(v3(*self), vb()),
        ensures
            r.val() == len_s(v3(*self)),
            r.val() >= 0,
    {
        proof {
            lemma_wide_dot_self(v3(*self));
            lemma_wide_dot_bound(v3(*self), v3(*self), vb());
            lemma_tdiv_bound(wide_dot(v3(*self), v3(*self)), 65536, 3 * vb() * vb());
        }
        self.length_squared().sqrt()
    }

    /// The unit vector with this vector's direction. The vector must not be
    /// shorter than 1/256, so that the normalization is meaningful.
    pub fn unit(&self) -> (r: Vec3)
        requires
            bounded3(v3(*self), vb()),
            wide_dot(v3(*self), v3(*self)) >= 65536,
        ensures
            v3(r) == unit_s(v3(*self)),
            len_s(v3(*self)) >= 256,
    {
        proof {
            lemma_wide_dot_self(v3(*self));
            lemma_wide_dot_bound(v3(*self), v3(*self), vb());
            lemma_tdiv_bound(wide_dot(v3(*self), v3(*self)), 65536, 3 * vb() * vb());
        }
        let l = self.length();
        proof {
            crate::fixed::lemma_isqrt_exists(len_sq_s(v3(*self)) * 65536);
            assert(is_isqrt(len_sq_s(v3(*self)) * 65536, len_s(v3(*self))));
            assert(wide_dot(v3(*self), v3(*self)) >= 65536 ==> len_sq_s(v3(*self)) >= 1)
                by (nonlinear_arith);
            assert(len_s(v3(*self)) >= 256) by (nonlinear_arith)
                requires
                    is_isqrt(len_sq_s(v3(*self)) * 65536, len_s(v3(*self))),
                    len_sq_s(v3(*self)) >= 1;
            lemma_tdiv_bound(self.x.val() * 65536, l.val(), vb() * 65536);
            lemma_tdiv_bound(self.y.val() * 65536, l.val(), vb() * 65536);
            lemma_tdiv_bound(self.z.val() * 65536, l.val(), vb() * 65536);
        }
        self.div_scalar(l)
    }

    pub fn cross(&self, other: &Vec3) -> (r: Vec3)
        requires
            bounded3(v3(*self), vb()),
            bounded3(v3(*other), vb()),
        ensures
            v3(r) == cross_s(v3(*self), v3(*other)),
    {
        proof {
            let a = v3(*self);
            let b = v3(*other);
            lemma_prod_bound(a.1, b.2, vb(), vb());
            lemma_prod_bound(a.2, b.1, vb(), vb());
            lemma_prod_bound(a.2, b.0, vb(), vb());
            lemma_prod_bound(a.0, b.2, vb(), vb());
            lemma_prod_bound(a.0, b.1, vb(), vb());
            lemma_prod_bound(a.1, b.0, vb(), vb());
            lemma_tdiv_bound(cross_w(a, b).0, 65536, 2 * vb() * vb());
            lemma_tdiv_bound(cross_w(a, b).1, 65536, 2 * vb() * vb());
            lemma_tdiv_bound(cross_w(a, b).2, 65536, 2 * vb() * vb());
        }
        let cx: i128 = (self.y.raw as i128) * (other.z.raw as i128) - (self.z.raw as i128)
            * (other.y.raw as i128);
        let cy: i128 = (self.z.raw as i128) * (other.x.raw as i128) - (self.x.raw as i128)
            * (other.z.raw as i128);
        let cz: i128 = (self.x.raw as i128) * (other.y.raw as i128) - (self.y.raw as i128)
            * (other.x.raw as i128);
        Vec3 { x: rescale_wide(cx), y: rescale_wide(cy), z: rescale_wide(cz) }
    }

    /// The reflection of this vector about the normal `n`.
    pub fn reflect(&self, normal: &Vec3) -> (r: Vec3)
        requires
            bounded3(v3(*self), 0x40000000),
            bounded3(v3(*normal), 0x40000000),
        ensures
            v3(r) == reflect_s(v3(*self), v3(*normal)),
    {
        proof {
            let v = v3(*self);
            let n = v3(*normal);
            assert(bounded3(v, vb()) && bounded3(n, vb()));
            lemma_wide_dot_bound(v, n, 0x40000000);
            lemma_tdiv_bound(wide_dot(v, n), 65536, 3int * 0x40000000 * 0x40000000);
            lemma_fmul_bound(n.0, 2 * dot_s(v, n), 0x40000000, 0x600000000000);
            lemma_fmul_bound(n.1, 2 * dot_s(v, n), 0x40000000, 0x600000000000);
            lemma_fmul_bound(n.2, 2 * dot_s(v, n), 0x40000000, 0x600000000000);
        }
        let d = self.dot(normal);
        let two_d = d.add(d);
        self.sub(normal.scale(two_d))
    }

    /// A vector with every component drawn uniformly from [0, 1).
    pub fn random() -> (r: Vec3)
        ensures
            0 <= v3(r).0 < 65536,
            0 <= v3(r).1 < 65536,
            0 <= v3(r).2 < 65536,
    {
        let x = utils::random();
        let y = utils::random();
        let z = utils::random();
        Vec3::new(x, y, z)
    }

    /// A vector with every component drawn uniformly from [min, max).
    pub fn random_range(min: Fixed, max: Fixed) -> (r: Vec3)
        requires
            min.val() < max.val(),
        ensures
            min.val() <= v3(r).0 < max.val(),
            min.val() <= v3(r).1 < max.val(),
            min.val() <= v3(r).2 < max.val(),
    {
        let x = utils::random_range(min, max);
        let y = utils::random_range(min, max);
        let z = utils::random_range(min, max);
        Vec3::new(x, y, z)
    }

    /// A random point strictly inside the unit sphere, found by rejection
    /// sampling. A bounded number of draws keeps the loop finite; the all-but
    /// impossible exhaustion falls back to a fixed interior point.
    pub fn random_in_unit_sphere() -> (r: Vec3)
        ensures
            bounded3(v3(r), 65536),
            len_sq_s(v3(r)) < 65536,
    {
        let mut tries: usize = 0;
        while tries < 64
            invariant
                tries <= 64,
            decreases 64 - tries,
        {
            let p = Vec3::random_range(Fixed { raw: -65536 }, Fixed { raw: 65536 });
            if p.length_squared().raw < 65536 {
                return p;
            }
            tries = tries + 1;
        }
        proof {
            assert(len_sq_s((32768int, 0int, 0int)) < 65536) by (nonlinear_arith);
        }
        Vec3 { x: Fixed { raw: 32768 }, y: Fixed { raw: 0 }, z: Fixed { raw: 0 } }
    }

    /// A random direction of unit length up to a few trailing fractional
    /// bits: a rejection-sampled point of the unit sphere, normalized.
    /// Draws shorter than one half are rejected with the exterior ones, so
    /// that the normalization keeps its tolerance.
    pub fn random_unit_vector() -> (r: Vec3)
        ensures
            bounded3(v3(r), 65543),
            65529 <= len_sq_s(v3(r)) <= 65550,
            65532 <= len_s(v3(r)) <= 65543,
    {
        let mut tries: usize = 0;
        while tries < 64
            invariant
                tries <= 64,
            decreases 64 - tries,
        {
            let p = Vec3::random_range(Fixed { raw: -65536 }, Fixed { raw: 65536 });
            let ls = p.length_squared();
            if 16384 <= ls.raw && ls.raw < 65536 {
                proof {
                    lemma_wide_dot_self(v3(p));
                    assert(wide_dot(v3(p), v3(p)) >= 65536) by (nonlinear_arith)
                        requires
                            tdiv(wide_dot(v3(p), v3(p)), 65536) >= 16384,
                            wide_dot(v3(p), v3(p)) >= 0;
                    lemma_unit_bounded(v3(p));
                    crate::fixed::lemma_isqrt_exists(len_sq_s(v3(p)) * 65536);
                    assert(is_isqrt(len_sq_s(v3(p)) * 65536, len_s(v3(p))));
                    assert(len_s(v3(p)) >= 32768) by (nonlinear_arith)
                        requires
                            is_isqrt(len_sq_s(v3(p)) * 65536, len_s(v3(p))),
                            len_sq_s(v3(p)) >= 16384;
                    lemma_unit_length_tolerance(v3(p));
                    let uv = unit_s(v3(p));
                    lemma_wide_dot_self(uv);
                    assert(wide_dot(uv, uv) <= 65550 * 65536 + 65535) by (nonlinear_arith)
                        requires
                            tdiv(wide_dot(uv, uv), 65536) <= 65550,
                            wide_dot(uv, uv) >= 0;
                    assert(bounded3(uv, 65543)) by (nonlinear_arith)
                        requires
                            uv.0 * uv.0 <= wide_dot(uv, uv),
                            uv.1 * uv.1 <= wide_dot(uv, uv),
                            uv.2 * uv.2 <= wide_dot(uv, uv),
                            wide_dot(uv, uv) <= 65550 * 65536 + 65535;
                }
                return p.unit();
            }
            tries = tries + 1;
        }
        proof {
            crate::fixed::lemma_fmul_one(65536);
            assert(is_isqrt(65536int * 65536, 65536)) by (nonlinear_arith);
            crate::fixed::lemma_isqrt_is(65536int * 65536, 65536);
        }
        Vec3 { x: Fixed { raw: 65536 }, y: Fixed { raw: 0 }, z: Fixed { raw: 0 } }
    }

    /// A random point strictly inside the unit disk of the xy-plane, found
    /// by rejection sampling with a bounded number of draws.
    pub fn random_in_unit_disk() -> (r: Vec3)
        ensures
            bounded3(v3(r), 65536),
            len_sq_s(v3(r)) < 65536,
            v3(r).2 == 0,
    {
        let mut tries: usize = 0;
        while tries < 64
            invariant
                tries <= 64,
            decreases 64 - tries,
        {
            let px = utils::random_range(Fixed { raw: -65536 }, Fixed { raw: 65536 });
            let py = utils::random_range(Fixed { raw: -65536 }, Fixed { raw: 65536 });
            let p = Vec3::new(px, py, Fixed { raw: 0 });
            if p.length_squared().raw < 65536 {
                return p;
            }
            tries = tries + 1;
        }
        proof {
            assert(len_sq_s((0int, 0int, 0int)) < 65536) by (nonlinear_arith);
        }
        Vec3 { x: Fixed { raw: 0 }, y: Fixed { raw: 0 }, z: Fixed { raw: 0 } }
    }

    /// Adds `other` onto this vector in place.
    pub fn add_assign(&mut self, other: Vec3)
        requires
            fits(old(self).x.val() + other.x.val()),
            fits(old(self).y.val() + other.y.val()),
            fits(old(self).z.val() + other.z.val()),
        ensures
            v3(*final(self)) == vadd3(v3(*old(self)), v3(other)),
    {
        *self = self.add(other);
    }

    /// Subtracts `other` from this vector in place.
    pub fn sub_assign(&mut self, other: Vec3)
        requires
            fits(old(self).x.val() - other.x.val()),
            fits(old(self).y.val() - other.y.val()),
            fits(old(self).z.val() - other.z.val()),
        ensures
            v3(*final(self)) == vsub3(v3(*old(self)), v3(other)),
    {
        *self = self.sub(other);
    }

    /// Scales this vector by `k` in place.
    pub fn mul_assign(&mut self, k: Fixed)
        requires
            fits(fmul(old(self).x.val(), k.val())),
            fits(fmul(old(self).y.val(), k.val())),
            fits(fmul(old(self).z.val(), k.val())),
        ensures
            v3(*final(self)) == vscale3(v3(*old(self)), k.val()),
    {
        *self = self.scale(k);
    }

    /// Divides this vector by `k` in place.
    pub fn div_assign(&mut self, k: Fixed)
        requires
            k.val() != 0,
            fits(fdiv(old(self).x.val(), k.val())),
            fits(fdiv(old(self).y.val(), k.val())),
            fits(fdiv(old(self).z.val(), k.val())),
        ensures
            v3(*final(self)) == vdiv3(v3(*old(self)), k.val()),
    {
        *self = self.div_scalar(k);
    }

    /// A random point of the unit sphere lying on the side of the normal:
    /// the rejection-sampled point, negated when it points against `normal`.
    pub fn random_in_hemisphere(normal: &Vec3) -> (r: Vec3)
        requires
            bounded3(v3(*normal), vb()),
        ensures
            bounded3(v3(r), 65536),
            len_sq_s(v3(r)) < 65536,
            dot_s(v3(r), v3(*normal)) >= 0,
    {
        let p = Vec3::random_in_unit_sphere();
        let d = p.dot(normal);
        if d.raw > 0 {
            p
        } else {
            proof {
                lemma_wide_dot_neg(v3(p), v3(*normal));
                crate::fixed::lemma_tdiv_neg(wide_dot(v3(p), v3(*normal)), 65536);
                lemma_wide_dot_self(v3(p));
                lemma_wide_dot_neg(v3(p), v3(p));
                lemma_wide_dot_neg(vneg3(v3(p)), v3(p));
                crate::fixed::lemma_tdiv_neg(wide_dot(v3(p), v3(p)), 65536);
            }
            p.neg()
        }
    }

    /// Snell refraction of this (roughly unit) direction at a surface with
    /// normal `n`, for the refractive-index ratio `etai_over_etat`.
    pub fn refract(&self, n: &Vec3, etai_over_etat: Fixed) -> (r: Vec3)
        requires
            bounded3(v3(*self), 0x20000),
            bounded3(v3(*n), 0x20000),
            0 < etai_over_etat.val() <= 0x40000,
        ensures
            v3(r) == refract_s(v3(*self), v3(*n), etai_over_etat.val()),
            bounded3(v3(r), 0x700000),
    {
        let ghost uv = v3(*self);
        let ghost nn = v3(*n);
        proof {
            lemma_wide_dot_bound(vneg3(uv), nn, 0x20000);
            crate::fixed::lemma_tdiv_bound(wide_dot(vneg3(uv), nn), 65536, 3int * 0x20000 * 0x20000);
        }
        let cos_theta = self.neg().dot(n).min(Fixed { raw: 65536 });
        proof {
            lemma_fmul_bound(nn.0, cos_theta.val(), 0x20000, 0xC0000);
            lemma_fmul_bound(nn.1, cos_theta.val(), 0x20000, 0xC0000);
            lemma_fmul_bound(nn.2, cos_theta.val(), 0x20000, 0xC0000);
        }
        let scaled_n = n.scale(cos_theta);
        let summed = self.add(scaled_n);
        proof {
            lemma_fmul_bound(v3(summed).0, etai_over_etat.val(), 0x1A0000, 0x40000);
            lemma_fmul_bound(v3(summed).1, etai_over_etat.val(), 0x1A0000, 0x40000);
            lemma_fmul_bound(v3(summed).2, etai_over_etat.val(), 0x1A0000, 0x40000);
        }
        let r_out_perp = summed.scale(etai_over_etat);
        let perp_len = r_out_perp.length_squared();
        let k = Fixed { raw: 65536 }.sub(perp_len);
        let kk = if k.raw < 0 {
            Fixed { raw: 0 }
        } else {
            k
        };
        let par_len = kk.sqrt();
        proof {
            crate::fixed::lemma_isqrt_exists(kk.val() * 65536);
            assert(is_isqrt(kk.val() * 65536, par_len.val()));
            assert(par_len.val() <= 65536) by (nonlinear_arith)
                requires
                    is_isqrt(kk.val() * 65536, par_len.val()),
                    kk.val() <= 65536;
            lemma_fmul_bound(nn.0, -par_len.val(), 0x20000, 0x10000);
            lemma_fmul_bound(nn.1, -par_len.val(), 0x20000, 0x10000);
            lemma_fmul_bound(nn.2, -par_len.val(), 0x20000, 0x10000);
        }
        let r_out_parallel = n.scale(par_len.neg());
        r_out_perp.add(r_out_parallel)
    }

    /// The component selected by `index`: 0 is x, 1 is y, 2 is z.
    pub fn index(&self, index: usize) -> (r: Fixed)
        requires
            index < 3,
        ensures
            index == 0 ==> r == self.x,
            index == 1 ==> r == self.y,
            index == 2 ==> r == self.z,
    {
        if index == 0 {
            self.x
        } else if index == 1 {
            self.y
        } else {
            self.z
        }
    }

    /// Replaces the component selected by `index`: 0 is x, 1 is y, 2 is z.
    pub fn set_index(&mut self, index: usize, value: Fixed)
        requires
            index < 3,
        ensures
            index == 0 ==> *final(self) == (Vec3 { x: value, ..*old(self) }),
            index == 1 ==> *final(self) == (Vec3 { y: value, ..*old(self) }),
            index == 2 ==> *final(self) == (Vec3 { z: value, ..*old(self) }),
    {
        if index == 0 {
            self.x = value;
        } else if index == 1 {
            self.y = value;
        } else {
            self.z = value;
        }
    }
}

/// A vector that already has unit length is left exactly unchanged by
/// normalization, so its normalized form has unit length as well.
pub proof fn lemma_unit_of_unit_vector(v: Vec3)
    requires
        len_s(v3(v)) == 65536,
    ensures
        unit_s(v3(v)) == v3(v),
        len_s(unit_s(v3(v))) == 65536,
{
    crate::fixed::lemma_fmul_one(v3(v).0);
    crate::fixed::lemma_fmul_one(v3(v).1);
    crate::fixed::lemma_fmul_one(v3(v).2);
    assert(unit_s(v3(v)) == v3(v));
}

/// Normalizing any vector no shorter than one half yields a vector whose
/// length lies within 11/65536 of one: the fixed-point normalization takes
/// every reasonable vector, unit vectors among them, to unit length up to
/// a few trailing fractional bits.
pub proof fn lemma_unit_length_tolerance(v: (int, int, int))
    requires
        32768 <= len_s(v),
    ensures
        65529 <= len_sq_s(unit_s(v)) <= 65550,
        65532 <= len_s(unit_s(v)) <= 65543,
{
    let q = wide_dot(v, v);
    let ls = len_sq_s(v);
    let m = ls * 65536;
    let l = len_s(v);
    lemma_wide_dot_self(v);
    crate::fixed::lemma_tdiv_bound(q, 65536, q);
    assert(q - 65535 <= m <= q) by (nonlinear_arith)
        requires
            m == ls * 65536,
            ls == tdiv(q, 65536),
            q >= 0;
    crate::fixed::lemma_isqrt_exists(m);
    assert(is_isqrt(m, l));
    assert(l * l <= q < l * l + 2 * l + 65537) by (nonlinear_arith)
        requires
            is_isqrt(m, l),
            q - 65535 <= m <= q;
    assert(iabs(v.0) <= l + 2 && iabs(v.1) <= l + 2 && iabs(v.2) <= l + 2) by (nonlinear_arith)
        requires
            v.0 * v.0 <= q,
            v.1 * v.1 <= q,
            v.2 * v.2 <= q,
            q < l * l + 2 * l + 65537,
            l >= 32768;
    let c0 = tdiv(v.0 * 65536, l);
    let c1 = tdiv(v.1 * 65536, l);
    let c2 = tdiv(v.2 * 65536, l);
    assert(unit_s(v) == (c0, c1, c2));
    crate::fixed::lemma_tdiv_rem(v.0 * 65536, l);
    crate::fixed::lemma_tdiv_rem(v.1 * 65536, l);
    crate::fixed::lemma_tdiv_rem(v.2 * 65536, l);
    let r0 = v.0 * 65536 - c0 * l;
    let r1 = v.1 * 65536 - c1 * l;
    let r2 = v.2 * 65536 - c2 * l;
    let u = wide_dot(unit_s(v), unit_s(v));
    assert(u == c0 * c0 + c1 * c1 + c2 * c2);
    assert(q == v.0 * v.0 + v.1 * v.1 + v.2 * v.2);
    assert(c0 * c0 * (l * l) == 65536 * 65536 * (v.0 * v.0) - 2 * 65536 * (v.0 * r0) + r0 * r0)
        by (nonlinear_arith)
        requires
            r0 == v.0 * 65536 - c0 * l;
    assert(c1 * c1 * (l * l) == 65536 * 65536 * (v.1 * v.1) - 2 * 65536 * (v.1 * r1) + r1 * r1)
        by (nonlinear_arith)
        requires
            r1 == v.1 * 65536 - c1 * l;
    assert(c2 * c2 * (l * l) == 65536 * 65536 * (v.2 * v.2) - 2 * 65536 * (v.2 * r2) + r2 * r2)
        by (nonlinear_arith)
        requires
            r2 == v.2 * 65536 - c2 * l;
    assert(u * (l * l) == c0 * c0 * (l * l) + c1 * c1 * (l * l) + c2 * c2 * (l * l))
        by (nonlinear_arith)
        requires
            u == c0 * c0 + c1 * c1 + c2 * c2;
    assert(iabs(v.0 * r0) <= (l + 2) * l) by (nonlinear_arith)
        requires
            iabs(v.0) <= l + 2,
            iabs(r0) < l,
            l >= 0;
    assert(iabs(v.1 * r1) <= (l + 2) * l) by (nonlinear_arith)
        requires
            iabs(v.1) <= l + 2,
            iabs(r1) < l,
            l >= 0;
    assert(iabs(v.2 * r2) <= (l + 2) * l) by (nonlinear_arith)
        requires
            iabs(v.2) <= l + 2,
            iabs(r2) < l,
            l >= 0;
    assert(0 <= r0 * r0 <= l * l && 0 <= r1 * r1 <= l * l && 0 <= r2 * r2 <= l * l)
        by (nonlinear_arith)
        requires
            iabs(r0) < l,
            iabs(r1) < l,
            iabs(r2) < l;
    assert(u * (l * l) == (65536 * 65536 * (v.0 * v.0) - 2 * 65536 * (v.0 * r0) + r0 * r0) + (
    65536 * 65536 * (v.1 * v.1) - 2 * 65536 * (v.1 * r1) + r1 * r1) + (65536 * 65536 * (v.2
        * v.2) - 2 * 65536 * (v.2 * r2) + r2 * r2));
    assert(u * (l * l) == 65536 * 65536 * q - 2 * 65536 * (v.0 * r0 + v.1 * r1 + v.2 * r2) + (r0
        * r0 + r1 * r1 + r2 * r2)) by (nonlinear_arith)
        requires
            u * (l * l) == (65536 * 65536 * (v.0 * v.0) - 2 * 65536 * (v.0 * r0) + r0 * r0) + (
            65536 * 65536 * (v.1 * v.1) - 2 * 65536 * (v.1 * r1) + r1 * r1) + (65536 * 65536 * (
            v.2 * v.2) - 2 * 65536 * (v.2 * r2) + r2 * r2),
            q == v.0 * v.0 + v.1 * v.1 + v.2 * v.2;
    assert(l * l >= 32768 * l) by (nonlinear_arith)
        requires
            l >= 32768;
    // the accumulated identity, with every error term bounded, pins the
    // inner product of the normalized vector near the squared unit
    assert(65536 * 65536 - 400000 <= u <= 65536 * 65536 + 940000) by (nonlinear_arith)
        requires
            u * (l * l) == 65536 * 65536 * q - 2 * 65536 * (v.0 * r0 + v.1 * r1 + v.2 * r2) + (
            r0 * r0 + r1 * r1 + r2 * r2),
            l * l <= q < l * l + 2 * l + 65537,
            iabs(v.0 * r0) <= (l + 2) * l,
            iabs(v.1 * r1) <= (l + 2) * l,
            iabs(v.2 * r2) <= (l + 2) * l,
            0 <= r0 * r0 <= l * l,
            0 <= r1 * r1 <= l * l,
            0 <= r2 * r2 <= l * l,
            l >= 32768,
            l * l >= 32768 * l;
    let lsu = len_sq_s(unit_s(v));
    assert(65529 <= lsu <= 65550) by (nonlinear_arith)
        requires
            lsu == tdiv(u, 65536),
            65536 * 65536 - 400000 <= u <= 65536 * 65536 + 940000;
    crate::fixed::lemma_isqrt_exists(lsu * 65536);
    assert(is_isqrt(lsu * 65536, len_s(unit_s(v))));
    assert(65532 <= len_s(unit_s(v)) <= 65543) by (nonlinear_arith)
        requires
            is_isqrt(lsu * 65536, len_s(unit_s(v))),
            65529 <= lsu <= 65550;
}

/// The exact inner product, which the fixed-point dot product rescales once,
/// is bilinear and symmetric: additive and homogeneous in either argument.
pub proof fn lemma_dot_bilinear(a: (int, int, int), b: (int, int, int), c: (int, int, int), k: int)
    ensures
        wide_dot(vadd3(a, b), c) == wide_dot(a, c) + wide_dot(b, c),
        wide_dot(a, vadd3(b, c)) == wide_dot(a, b) + wide_dot(a, c),
        wide_dot(vmul_int3(a, k), b) == k * wide_dot(a, b),
        wide_dot(a, vmul_int3(b, k)) == k * wide_dot(a, b),
        wide_dot(a, b) == wide_dot(b, a),
{
    let (a0, a1, a2) = a;
    let (b0, b1, b2) = b;
    let (c0, c1, c2) = c;
    assert((a0 + b0) * c0 == a0 * c0 + b0 * c0) by (nonlinear_arith);
    assert((a1 + b1) * c1 == a1 * c1 + b1 * c1) by (nonlinear_arith);
    assert((a2 + b2) * c2 == a2 * c2 + b2 * c2) by (nonlinear_arith);
    assert(a0 * (b0 + c0) == a0 * b0 + a0 * c0) by (nonlinear_arith);
    assert(a1 * (b1 + c1) == a1 * b1 + a1 * c1) by (nonlinear_arith);
    assert(a2 * (b2 + c2) == a2 * b2 + a2 * c2) by (nonlinear_arith);
    assert((k * a0) * b0 == k * (a0 * b0)) by (nonlinear_arith);
    assert((k * a1) * b1 == k * (a1 * b1)) by (nonlinear_arith);
    assert((k * a2) * b2 == k * (a2 * b2)) by (nonlinear_arith);
    assert(a0 * (k * b0) == k * (a0 * b0)) by (nonlinear_arith);
    assert(a1 * (k * b1) == k * (a1 * b1)) by (nonlinear_arith);
    assert(a2 * (k * b2) == k * (a2 * b2)) by (nonlinear_arith);
    assert(k * (a0 * b0) + k * (a1 * b1) + k * (a2 * b2) == k * (a0 * b0 + a1 * b1 + a2 * b2))
        by (nonlinear_arith);
    assert(a0 * b0 == b0 * a0 && a1 * b1 == b1 * a1 && a2 * b2 == b2 * a2) by (nonlinear_arith);
}

/// The exact cross product, which the fixed-point cross product rescales
/// once per component, is bilinear: additive and homogeneous in either
/// argument.
pub proof fn lemma_cross_bilinear(
    a: (int, int, int),
    b: (int, int, int),
    c: (int, int, int),
    k: int,
)
    ensures
        cross_w(vadd3(a, b), c) == vadd3(cross_w(a, c), cross_w(b, c)),
        cross_w(a, vadd3(b, c)) == vadd3(cross_w(a, b), cross_w(a, c)),
        cross_w(vmul_int3(a, k), b) == vmul_int3(cross_w(a, b), k),
        cross_w(a, vmul_int3(b, k)) == vmul_int3(cross_w(a, b), k),
{
    let (a0, a1, a2) = a;
    let (b0, b1, b2) = b;
    let (c0, c1, c2) = c;
    assert((a1 + b1) * c2 - (a2 + b2) * c1 == (a1 * c2 - a2 * c1) + (b1 * c2 - b2 * c1))
        by (nonlinear_arith);
    assert((a2 + b2) * c0 - (a0 + b0) * c2 == (a2 * c0 - a0 * c2) + (b2 * c0 - b0 * c2))
        by (nonlinear_arith);
    assert((a0 + b0) * c1 - (a1 + b1) * c0 == (a0 * c1 - a1 * c0) + (b0 * c1 - b1 * c0))
        by (nonlinear_arith);
    assert(a1 * (b2 + c2) - a2 * (b1 + c1) == (a1 * b2 - a2 * b1) + (a1 * c2 - a2 * c1))
        by (nonlinear_arith);
    assert(a2 * (b0 + c0) - a0 * (b2 + c2) == (a2 * b0 - a0 * b2) + (a2 * c0 - a0 * c2))
        by (nonlinear_arith);
    assert(a0 * (b1 + c1) - a1 * (b0 + c0) == (a0 * b1 - a1 * b0) + (a0 * c1 - a1 * c0))
        by (nonlinear_arith);
    assert((k * a1) * b2 - (k * a2) * b1 == k * (a1 * b2 - a2 * b1)) by (nonlinear_arith);
    assert((k * a2) * b0 - (k * a0) * b2 == k * (a2 * b0 - a0 * b2)) by (nonlinear_arith);
    assert((k * a0) * b1 - (k * a1) * b0 == k * (a0 * b1 - a1 * b0)) by (nonlinear_arith);
    assert(a1 * (k * b2) - a2 * (k * b1) == k * (a1 * b2 - a2 * b1)) by (nonlinear_arith);
    assert(a2 * (k * b0) - a0 * (k * b2) == k * (a2 * b0 - a0 * b2)) by (nonlinear_arith);
    assert(a0 * (k * b1) - a1 * (k * b0) == k * (a0 * b1 - a1 * b0)) by (nonlinear_arith);
}

/// The cross product is anti-commutative, exactly, at the fixed-point level
/// as well as for the exact components: swapping the arguments negates it.
pub proof fn lemma_cross_antisym(a: (int, int, int), b: (int, int, int))
    ensures
        cross_w(a, b) == vneg3(cross_w(b, a)),
        cross_s(a, b) == vneg3(cross_s(b, a)),
{
    assert(cross_w(a, b) == vneg3(cross_w(b, a))) by (nonlinear_arith);
    crate::fixed::lemma_tdiv_neg(cross_w(b, a).0, 65536);
    crate::fixed::lemma_tdiv_neg(cross_w(b, a).1, 65536);
    crate::fixed::lemma_tdiv_neg(cross_w(b, a).2, 65536);
    assert(cross_s(a, b) == vneg3(cross_s(b, a)));
}

/// Brings an exact 128-bit product back to the common scale, truncating
/// toward zero.
fn rescale_wide(w: i128) -> (r: Fixed)
    requires
        iabs(w as int) <= 0x40000000000000000000000000000000,
        fits(tdiv(w as int, 65536)),
    ensures
        r.val() == tdiv(w as int, 65536),
{
    let q: i128 = if w >= 0 {
        ((w as u128) / 65536u128) as i128
    } else {
        -((((-w) as u128) / 65536u128) as i128)
    };
    Fixed { raw: q as i64 }
}

} // verus!
