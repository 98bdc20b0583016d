use vstd::prelude::*;

use crate::fixed::{
    fdiv, fmul, iabs, isqrt_s, lemma_fmul_bound, lemma_tdiv_bound, tdiv, Fixed,
};
use crate::hittable::HitRecord;
use crate::materials::Material;
use crate::ray::{ray_at_s, ray_wf, trange_wf, Ray};
use crate::vec3::{
    bounded3, dot_s, len_sq_s, lemma_wide_dot_bound, lemma_wide_dot_bound2, lemma_wide_dot_self,
    v3, vdiv3, vneg3, vsub3, wide_dot, Point3,
};

verus! {

/// A sphere with a center, a radius and a material. A negative radius is a
/// valid hollow sphere whose outward normal points inward, used for glass
/// shells.
#[derive(Clone, Copy, Debug)]
pub struct Sphere {
    pub center: Point3,
    pub radius: Fixed,
    pub material: Option<Material>,
}

impl Sphere {
    /// A sphere the intersection arithmetic accepts: center within 1024
    /// units, radius nonzero and within 1024 units, material parameters in
    /// range.
    pub open spec fn wf(self) -> bool {
        &&& bounded3(v3(self.center), 0x4000000)
        &&& self.radius.val() != 0
        &&& iabs(self.radius.val()) <= 0x4000000
        &&& (self.material matches Some(m) ==> m.wf())
    }

    pub fn new(center: Point3, radius: Fixed, material: Option<Material>) -> (s: Sphere)
        ensures
            s.center == center,
            s.radius == radius,
            s.material == material,
    {
        Sphere { center, radius, material }
    }

    /// The parameter at which the ray first strikes this sphere inside
    /// `(t_min, t_max)`, if it does: the discriminant of
    /// `a*t^2 + 2*half_b*t + c` decides, and of the two quadratic roots the
    /// smaller is tried first, each accepted only strictly inside the
    /// interval.
    pub open spec fn hit_t_s(
        self,
        ro: (int, int, int),
        rd: (int, int, int),
        t_min: int,
        t_max: int,
    ) -> Option<int> {
        let oc = vsub3(ro, v3(self.center));
        let a = len_sq_s(rd);
        let half_b = dot_s(oc, rd);
        let c = len_sq_s(oc) - fmul(self.radius.val(), self.radius.val());
        let disc = fmul(half_b, half_b) - fmul(a, c);
        if disc <= 0 {
            None
        } else {
            let root = isqrt_s(disc * 65536);
            let t1 = fdiv(-half_b - root, a);
            if t_min < t1 && t1 < t_max {
                Some(t1)
            } else {
                let t2 = fdiv(-half_b + root, a);
                if t_min < t2 && t2 < t_max {
                    Some(t2)
                } else {
                    None
                }
            }
        }
    }

    /// The record a hit at parameter `t` fills in: the contact point, the
    /// outward normal `(p - center) / radius` oriented against the ray, and
    /// this sphere's material.
    pub open spec fn hit_record_ok(self, r: Ray, t: int, rec: HitRecord) -> bool {
        let p = ray_at_s(v3(r.origin), v3(r.direction), t);
        let outward = vdiv3(vsub3(p, v3(self.center)), self.radius.val());
        &&& rec.t.val() == t
        &&& v3(rec.p) == p
        &&& rec.front_face == (wide_dot(v3(r.direction), outward) < 0)
        &&& v3(rec.normal) == (if wide_dot(v3(r.direction), outward) < 0 {
            outward
        } else {
            vneg3(outward)
        })
        &&& rec.material == self.material
    }

    /// How a hit responds to narrowing the parameter interval: a miss stays
    /// a miss; a hit at or beyond the narrowed end disappears; a hit still
    /// strictly inside is returned unchanged. This is what lets the member
    /// scan keep exactly the closest hit by narrowing the interval.
    pub proof fn lemma_hit_interval(
        self,
        ro: (int, int, int),
        rd: (int, int, int),
        t_min: int,
        m: int,
        m2: int,
    )
        requires
            len_sq_s(rd) >= 1,
            m2 <= m,
        ensures
            self.hit_t_s(ro, rd, t_min, m) is None ==> self.hit_t_s(ro, rd, t_min, m2) is None,
            self.hit_t_s(ro, rd, t_min, m) matches Some(t) ==> ((m2 <= t ==> self.hit_t_s(
                ro,
                rd,
                t_min,
                m2,
            ) is None) && (t < m2 ==> self.hit_t_s(ro, rd, t_min, m2) == Some(t))),
    {
        let oc = vsub3(ro, v3(self.center));
        let a = len_sq_s(rd);
        let half_b = dot_s(oc, rd);
        let c = len_sq_s(oc) - fmul(self.radius.val(), self.radius.val());
        let disc = fmul(half_b, half_b) - fmul(a, c);
        if disc > 0 {
            let root = isqrt_s(disc * 65536);
            crate::fixed::lemma_isqrt_exists(disc * 65536);
            assert(crate::fixed::is_isqrt(disc * 65536, root));
            crate::fixed::lemma_tdiv_monotone(
                (-half_b - root) * 65536,
                (-half_b + root) * 65536,
                a,
            );
            assert(fdiv(-half_b - root, a) <= fdiv(-half_b + root, a));
        }
    }

    /// Fills the record for a hit at parameter `t`.
    fn record_hit(&self, r: &Ray, t: Fixed, rec: &mut HitRecord)
        requires
            ray_wf(*r),
            self.wf(),
            iabs(t.val()) <= 0x1000000000,
        ensures
            self.hit_record_ok(*r, t.val(), *final(rec)),
    {
        proof {
            let rd = v3(r.direction);
            lemma_fmul_bound(rd.0, t.val(), 0x2000000, 0x1000000000);
            lemma_fmul_bound(rd.1, t.val(), 0x2000000, 0x1000000000);
            lemma_fmul_bound(rd.2, t.val(), 0x2000000, 0x1000000000);
        }
        rec.t = t;
        rec.p = r.at(t);
        proof {
            let p = v3(rec.p);
            let ce = v3(self.center);
            lemma_tdiv_bound(
                (p.0 - ce.0) * 65536,
                self.radius.val(),
                0x20000C000000int * 65536,
            );
            lemma_tdiv_bound(
                (p.1 - ce.1) * 65536,
                self.radius.val(),
                0x20000C000000int * 65536,
            );
            lemma_tdiv_bound(
                (p.2 - ce.2) * 65536,
                self.radius.val(),
                0x20000C000000int * 65536,
            );
        }
        let outward_normal = rec.p.sub(self.center).div_scalar(self.radius);
        rec.set_face_normal(r, &outward_normal);
        rec.material = self.material;
    }

    /// Whether the ray strikes this sphere inside `(t_min, t_max)`; on a hit
    /// the record is filled, otherwise it is left untouched.
    pub fn hit(&self, r: &Ray, t_min: Fixed, t_max: Fixed, rec: &mut HitRecord) -> (b: bool)
        requires
            ray_wf(*r),
            self.wf(),
            trange_wf(t_min.val(), t_max.val()),
        ensures
            b == (self.hit_t_s(v3(r.origin), v3(r.direction), t_min.val(), t_max.val()) is Some),
            self.hit_t_s(v3(r.origin), v3(r.direction), t_min.val(), t_max.val()) matches Some(t)
                ==> self.hit_record_ok(*r, t, *final(rec)) && t_min.val() < t < t_max.val(),
            !b ==> *final(rec) == *old(rec),
    {
        let ghost ro = v3(r.origin);
        let ghost rd = v3(r.direction);
        let oc = r.origin.sub(self.center);
        proof {
            lemma_wide_dot_self(rd);
            lemma_wide_dot_bound(rd, rd, 0x2000000);
            lemma_tdiv_bound(wide_dot(rd, rd), 65536, 3int * 0x2000000 * 0x2000000);
        }
        let a = r.direction.length_squared();
        proof {
            assert(a.val() >= 1) by (nonlinear_arith)
                requires
                    a.val() == tdiv(wide_dot(rd, rd), 65536),
                    wide_dot(rd, rd) >= 65536;
            lemma_wide_dot_bound2(v3(oc), rd, 0xC000000, 0x2000000);
            lemma_tdiv_bound(wide_dot(v3(oc), rd), 65536, 3int * 0xC000000 * 0x2000000);
            lemma_wide_dot_bound(v3(oc), v3(oc), 0xC000000);
            lemma_tdiv_bound(wide_dot(v3(oc), v3(oc)), 65536, 3int * 0xC000000 * 0xC000000);
            lemma_wide_dot_self(v3(oc));
            lemma_fmul_bound(self.radius.val(), self.radius.val(), 0x4000000, 0x4000000);
        }
        let half_b = oc.dot(&r.direction);
        let c = oc.length_squared().sub(self.radius.mul(self.radius));
        proof {
            lemma_fmul_bound(half_b.val(), half_b.val(), 0x8000000000, 0x8000000000);
            lemma_fmul_bound(a.val(), c.val(), 0xC00000000, 0x40000000000);
        }
        let discriminant = half_b.mul(half_b).sub(a.mul(c));
        if discriminant.raw > 0 {
            let root = discriminant.sqrt();
            proof {
                crate::fixed::lemma_isqrt_exists(discriminant.val() * 65536);
                assert(crate::fixed::is_isqrt(discriminant.val() * 65536, root.val()));
                assert(root.val() <= 0x10000000000) by (nonlinear_arith)
                    requires
                        crate::fixed::is_isqrt(discriminant.val() * 65536, root.val()),
                        discriminant.val() <= 0x7fffffffffffffff;
                lemma_tdiv_bound(
                    (-half_b.val() - root.val()) * 65536,
                    a.val(),
                    0x18000000000int * 65536,
                );
                lemma_tdiv_bound(
                    (-half_b.val() + root.val()) * 65536,
                    a.val(),
                    0x18000000000int * 65536,
                );
            }
            let t1 = half_b.neg().sub(root).div(a);
            if t_min.raw < t1.raw && t1.raw < t_max.raw {
                self.record_hit(r, t1, rec);
                return true;
            }
            let t2 = half_b.neg().add(root).div(a);
            if t_min.raw < t2.raw && t2.raw < t_max.raw {
                self.record_hit(r, t2, rec);
                return true;
            }
            return false;
        }
        false
    }
}

impl crate::hittable::Hittable for Sphere {
    open spec fn shape_wf(&self) -> bool {
        self.wf()
    }

    fn hit(&self, r: &Ray, t_min: Fixed, t_max: Fixed, rec: &mut HitRecord) -> (b: bool)
        ensures
            b == (self.hit_t_s(v3(r.origin), v3(r.direction), t_min.val(), t_max.val()) is Some),
            self.hit_t_s(v3(r.origin), v3(r.direction), t_min.val(), t_max.val()) matches Some(t)
                ==> self.hit_record_ok(*r, t, *final(rec)) && t_min.val() < t < t_max.val(),
            !b ==> *final(rec) == *old(rec),
    {
        Sphere::hit(self, r, t_min, t_max, rec)
    }
}

} // verus!
