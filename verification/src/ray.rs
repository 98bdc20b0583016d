use vstd::prelude::*;

use crate::fixed::{fits, fmul, iabs, Fixed};
use crate::vec3::{bounded3, v3, vadd3, vscale3, wide_dot, Point3, Vec3};

verus! {

/// A ray the renderer can trace without overflow: the origin lies within
/// 2048 units, the direction within 512 units per component, and the
/// direction is no shorter than 1/256.
pub open spec fn ray_wf(r: Ray) -> bool {
    &&& bounded3(v3(r.origin), 0x8000000)
    &&& bounded3(v3(r.direction), 0x2000000)
    &&& wide_dot(v3(r.direction), v3(r.direction)) >= 65536
}

/// A parameter interval the intersection arithmetic accepts: both ends
/// within 2^20 units of zero.
pub open spec fn trange_wf(t_min: int, t_max: int) -> bool {
    &&& iabs(t_min) <= 0x1000000000
    &&& iabs(t_max) <= 0x1000000000
}

/// A parametric line: every intersection query walks along one of these.
#[derive(Clone, Copy, Debug)]
pub struct Ray {
    pub origin: Point3,
    pub direction: Vec3,
}

/// The point reached after walking `t` along the ray: origin plus the
/// direction scaled by `t`.
pub open spec fn ray_at_s(origin: (int, int, int), direction: (int, int, int), t: int) -> (
    int,
    int,
    int,
) {
    vadd3(origin, vscale3(direction, t))
}

impl Ray {
    pub fn new(origin: Point3, direction: Point3) -> (r: Ray)
        ensures
            r.origin == origin,
            r.direction == direction,
    {
        Ray { origin, direction }
    }

    /// The point reached after walking `t` along this ray.
    pub fn at(&self, t: Fixed) -> (r: Point3)
        requires
            fits(fmul(self.direction.x.val(), t.val())),
            fits(fmul(self.direction.y.val(), t.val())),
            fits(fmul(self.direction.z.val(), t.val())),
            fits(self.origin.x.val() + fmul(self.direction.x.val(), t.val())),
            fits(self.origin.y.val() + fmul(self.direction.y.val(), t.val())),
            fits(self.origin.z.val() + fmul(self.direction.z.val(), t.val())),
        ensures
            v3(r) == ray_at_s(v3(self.origin), v3(self.direction), t.val()),
    {
        self.origin.add(self.direction.scale(t))
    }
}

} // verus!
