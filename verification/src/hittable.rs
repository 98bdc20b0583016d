use vstd::prelude::*;

use crate::fixed::{iabs, lemma_tdiv_neg, tdiv, Fixed};
use crate::materials::Material;
use crate::ray::{ray_wf, trange_wf, Ray};
use crate::vec3::{bounded3, dot_s, lemma_wide_dot_neg, v3, vneg3, wide_dot, Point3, Vec3};

verus! {

/// The polymorphic intersection capability: something a ray can strike.
pub trait Hittable {
    /// The well-formedness the intersection arithmetic relies on.
    spec fn shape_wf(&self) -> bool;

    /// Whether the ray strikes this shape inside `(t_min, t_max)`; on a hit
    /// the record is filled with the intersection.
    fn hit(&self, r: &Ray, t_min: Fixed, t_max: Fixed, rec: &mut HitRecord) -> bool
        requires
            ray_wf(*r),
            self.shape_wf(),
            trange_wf(t_min.val(), t_max.val()),
    ;
}

/// The outcome of a successful intersection: the contact point, the surface
/// normal oriented against the ray, the material met there, the ray
/// parameter, and whether the outer face was struck.
#[derive(Clone, Copy, Debug)]
pub struct HitRecord {
    pub p: Point3,
    pub normal: Vec3,
    pub material: Option<Material>,
    pub t: Fixed,
    pub front_face: bool,
}

impl HitRecord {
    pub fn new() -> (r: HitRecord)
        ensures
            v3(r.p) == (0int, 0int, 0int),
            v3(r.normal) == (0int, 0int, 0int),
            r.material is None,
            r.t.val() == 0,
            r.front_face == false,
    {
        HitRecord {
            p: Vec3::zero(),
            normal: Vec3::zero(),
            t: Fixed { raw: 0 },
            material: None,
            front_face: false,
        }
    }

    /// Stores the outward normal oriented against the ray, deciding the face
    /// by the sign of the exact inner product: the record's normal keeps the
    /// outward direction when the ray arrives from outside, and is flipped
    /// when the ray arrives from inside.
    pub fn set_face_normal(&mut self, r: &Ray, outward_normal: &Vec3)
        requires
            bounded3(v3(r.direction), 0x2000000),
            bounded3(v3(*outward_normal), 0x4000000000000000),
        ensures
            final(self).front_face == (wide_dot(v3(r.direction), v3(*outward_normal)) < 0),
            v3(final(self).normal) == if wide_dot(v3(r.direction), v3(*outward_normal)) < 0 {
                v3(*outward_normal)
            } else {
                vneg3(v3(*outward_normal))
            },
            final(self).p == old(self).p,
            final(self).t == old(self).t,
            final(self).material == old(self).material,
    {
        proof {
            let d = v3(r.direction);
            let n = v3(*outward_normal);
            crate::fixed::lemma_prod_bound(d.0, n.0, 0x2000000, 0x4000000000000000);
            crate::fixed::lemma_prod_bound(d.1, n.1, 0x2000000, 0x4000000000000000);
            crate::fixed::lemma_prod_bound(d.2, n.2, 0x2000000, 0x4000000000000000);
        }
        let wx: i128 = (r.direction.x.raw as i128) * (outward_normal.x.raw as i128);
        let wy: i128 = (r.direction.y.raw as i128) * (outward_normal.y.raw as i128);
        let wz: i128 = (r.direction.z.raw as i128) * (outward_normal.z.raw as i128);
        self.front_face = wx + wy + wz < 0;
        self.normal = if self.front_face {
            *outward_normal
        } else {
            outward_normal.neg()
        };
    }
}

/// The stored normal never points with the ray: after the front-face
/// convention is applied, the exact inner product of the ray's direction
/// and the stored normal is strictly negative whenever the two are not
/// exactly perpendicular, and the fixed-point dot product is never positive.
pub proof fn lemma_front_face_convention(d: (int, int, int), outward: (int, int, int))
    ensures
        wide_dot(d, outward) != 0 ==> wide_dot(
            d,
            if wide_dot(d, outward) < 0 {
                outward
            } else {
                vneg3(outward)
            },
        ) < 0,
        dot_s(
            d,
            if wide_dot(d, outward) < 0 {
                outward
            } else {
                vneg3(outward)
            },
        ) <= 0,
        iabs(wide_dot(d, outward)) >= 65536 ==> dot_s(
            d,
            if wide_dot(d, outward) < 0 {
                outward
            } else {
                vneg3(outward)
            },
        ) < 0,
{
    lemma_wide_dot_neg(d, outward);
    lemma_tdiv_neg(wide_dot(d, outward), 65536);
    let w = wide_dot(d, outward);
    if w < 0 {
        crate::fixed::lemma_tdiv_bound(-w, 65536, iabs(w));
        assert(iabs(w) >= 65536 ==> tdiv(-w, 65536) >= 1) by (nonlinear_arith)
            requires
                w < 0;
    } else {
        crate::fixed::lemma_tdiv_bound(w, 65536, iabs(w));
        assert(iabs(w) >= 65536 ==> tdiv(w, 65536) >= 1) by (nonlinear_arith)
            requires
                w >= 0;
    }
}

} // verus!
