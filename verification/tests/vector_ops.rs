use raytracer::fixed::Fixed;
use raytracer::utils;
use raytracer::vec3::Vec3;

fn v(x: i32, y: i32, z: i32) -> Vec3 {
    Vec3::new(Fixed::from_int(x), Fixed::from_int(y), Fixed::from_int(z))
}

#[test]
fn test_vectors_addition() {
    // Addition with copy.
    let a = v(1, 10, 100);
    let b = v(2, 3, 4);

    let c = a.add(b);

    assert_eq!(c, v(3, 13, 104));

    // Addition with mutation.
    let mut base = Vec3::zero();
    assert_eq!(base, v(0, 0, 0));

    base.add_assign(b);
    assert_eq!(base, v(2, 3, 4));

    base.add_assign(b);
    assert_eq!(base, v(4, 6, 8));

    base.sub_assign(b);
    assert_eq!(base, v(2, 3, 4));
}

#[test]
fn test_vectors_multiplication() {
    let a = v(1, 10, 100);
    let b = v(2, 3, 4);

    let c = a.mul(b);

    assert_eq!(c, v(2, 30, 400));

    let d = c.div(b);

    assert_eq!(d, a);

    let mut base = v(1, 2, 3);
    base.mul_assign(Fixed::from_int(2));

    assert_eq!(base, v(2, 4, 6));

    base.div_assign(Fixed::from_int(2));

    assert_eq!(base, v(1, 2, 3));
}

#[test]
fn test_vectors_dot_product() {
    let a = v(2, 3, 4);
    let b = v(5, 6, 7);
    assert_eq!(a.dot(&b), Fixed::from_int(56));
}

#[test]
fn test_vectors_cross_product() {
    let a = v(2, 3, 4);
    let b = v(5, 6, 7);
    assert_eq!(a.cross(&b), v(-3, 6, -3));
}

#[test]
fn test_vectors_unit() {
    // The fixed-point normalization of (1, 2, 3): each component is the
    // exact truncated quotient by the integer square-root length, within
    // one part in 2^16 of the real normalization.
    let a = v(1, 2, 3).unit();
    assert_eq!(
        a,
        Vec3::new(
            Fixed { raw: 17515 },
            Fixed { raw: 35030 },
            Fixed { raw: 52545 },
        )
    );
    // Its length is one up to the last two fractional bits.
    assert_eq!(a.length(), Fixed { raw: 65534 });
}

#[test]
fn test_index() {
    let a = v(1, 2, 3);
    assert_eq!(Fixed::from_int(1), a.index(0));
    assert_eq!(Fixed::from_int(2), a.index(1));
    assert_eq!(Fixed::from_int(3), a.index(2));

    let mut b = a;
    b.set_index(0, Fixed::from_int(9));
    b.set_index(1, Fixed::from_int(10));
    b.set_index(2, Fixed::from_int(11));
    assert_eq!(b, v(9, 10, 11));
}

#[test]
fn test_vectors_length() {
    let a = v(5, 0, 0);
    assert_eq!(a.length(), Fixed::from_int(5));

    let a = v(0, 6, 0);
    assert_eq!(a.length(), Fixed::from_int(6));

    let a = v(0, 0, 7);
    assert_eq!(a.length(), Fixed::from_int(7));

    let a = v(2, 1, 2);
    assert_eq!(a.length(), Fixed::from_int(3));
}

#[test]
fn test_unit_of_unit_vector_has_unit_length() {
    // A vector of exactly unit length is left unchanged by normalization.
    let a = v(1, 0, 0);
    assert_eq!(a.length(), Fixed::from_int(1));
    let u = a.unit();
    assert_eq!(u, a);
    assert_eq!(u.length(), Fixed::from_int(1));
}

#[test]
fn test_renormalizing_keeps_unit_length() {
    // Normalizing a roughly unit vector moves its length at most a few
    // raw steps from one: (3,4,12)/13 normalizes to length 65534/65536,
    // and normalizing again lands on 65535/65536.
    let u = v(3, 4, 12).unit();
    assert_eq!(u, Vec3::new(
        Fixed { raw: 15123 },
        Fixed { raw: 20164 },
        Fixed { raw: 60494 },
    ));
    assert_eq!(u.length(), Fixed { raw: 65534 });
    let uu = u.unit();
    assert_eq!(uu.length(), Fixed { raw: 65535 });
    assert!((uu.length().raw - 65536).abs() <= 4);
}

#[test]
fn test_cross_anticommutative() {
    let a = v(2, 3, 4);
    let b = v(5, 6, 7);
    assert_eq!(a.cross(&b), b.cross(&a).neg());

    let a = v(-1, 8, 0);
    let b = v(3, -2, 9);
    assert_eq!(a.cross(&b), b.cross(&a).neg());
}

#[test]
fn test_dot_bilinear_on_integers() {
    // On integer-valued vectors the fixed-point dot product is exact, so
    // additivity in the first argument holds on the nose.
    let a = v(2, 3, 4);
    let b = v(-1, 5, 2);
    let c = v(7, 0, -3);
    let lhs = a.add(b).dot(&c);
    let rhs = a.dot(&c).add(b.dot(&c));
    assert_eq!(lhs, rhs);
    // Homogeneity by an integer factor.
    let lhs = a.scale(Fixed::from_int(4)).dot(&c);
    let rhs = a.dot(&c).mul(Fixed::from_int(4));
    assert_eq!(lhs, rhs);
}

#[test]
fn test_reflect() {
    // reflect((1,-1,0), (0,1,0)) bounces the vector off the xz-plane.
    let incoming = v(1, -1, 0);
    let normal = v(0, 1, 0);
    assert_eq!(incoming.reflect(&normal), v(1, 1, 0));
}

#[test]
fn test_refract_normal_incidence() {
    // Matching indices at exact normal incidence: the refracted direction
    // is the incoming direction itself.
    let uv = v(0, 0, -1);
    let n = v(0, 0, 1);
    assert_eq!(uv.refract(&n, Fixed::from_int(1)), uv);
}

#[test]
fn test_fixed_sqrt() {
    assert_eq!(Fixed::from_int(9).sqrt(), Fixed::from_int(3));
    assert_eq!(Fixed::from_int(0).sqrt(), Fixed::from_int(0));
    // sqrt(2.25) == 1.5 exactly in fixed point.
    assert_eq!(Fixed { raw: 147456 }.sqrt(), Fixed { raw: 98304 });
    // A non-square rounds down: sqrt(2) in 16 fractional bits.
    assert_eq!(Fixed::from_int(2).sqrt(), Fixed { raw: 92681 });
}

#[test]
fn test_fixed_mul_div() {
    let half = Fixed { raw: 32768 };
    assert_eq!(half.mul(half), Fixed { raw: 16384 });
    assert_eq!(Fixed::from_int(3).div(Fixed::from_int(2)), Fixed { raw: 98304 });
    // Truncation is toward zero on both sides.
    assert_eq!(Fixed::from_int(-3).div(Fixed::from_int(2)), Fixed { raw: -98304 });
    assert_eq!(Fixed { raw: -1 }.mul(Fixed { raw: 1 }), Fixed { raw: 0 });
}

#[test]
fn test_clamp() {
    let lo = Fixed::from_int(0);
    let hi = Fixed::from_int(1);
    assert_eq!(utils::clamp(Fixed::from_int(-2), lo, hi), lo);
    assert_eq!(utils::clamp(Fixed::from_int(2), lo, hi), hi);
    assert_eq!(utils::clamp(Fixed { raw: 12345 }, lo, hi), Fixed { raw: 12345 });
}

#[test]
fn test_random_draws_stay_in_range() {
    for _ in 0..64 {
        let r = utils::random();
        assert!(0 <= r.raw && r.raw < 65536);
        let s = utils::random_range(Fixed::from_int(-3), Fixed::from_int(5));
        assert!(Fixed::from_int(-3).raw <= s.raw && s.raw < Fixed::from_int(5).raw);
    }
}

#[test]
fn test_random_in_unit_sphere_is_inside() {
    for _ in 0..32 {
        let p = Vec3::random_in_unit_sphere();
        assert!(p.length_squared().raw < 65536);
        let d = Vec3::random_in_unit_disk();
        assert!(d.length_squared().raw < 65536);
        assert_eq!(d.z.raw, 0);
        let u = Vec3::random_unit_vector();
        // Unit up to a few trailing fractional bits.
        assert!(65529 <= u.length_squared().raw && u.length_squared().raw <= 65550);
        assert!(65532 <= u.length().raw && u.length().raw <= 65543);
        assert!(u.z.raw.abs() <= 65543);
    }
}
