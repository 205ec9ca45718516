use raytracer::fixed::FP_ONE;
use raytracer::vector3::{CrossProduct, DotProduct, Lerp, Magnitude, Normalize, Vector3f};

#[test]
fn add_sub_neg_componentwise() {
    let a = Vector3f::new(65536, -131072, 3);
    let b = Vector3f::new(1, 2, 3);
    let s = a.add(b);
    assert_eq!((s.x, s.y, s.z), (65537, -131070, 6));
    let d = a.sub(b);
    assert_eq!((d.x, d.y, d.z), (65535, -131074, 0));
    let n = a.neg();
    assert_eq!((n.x, n.y, n.z), (-65536, 131072, -3));
}

#[test]
fn constructors_hold_expected_values() {
    let one = Vector3f::one();
    assert_eq!((one.x, one.y, one.z), (FP_ONE, FP_ONE, FP_ONE));
    let zero = Vector3f::zero();
    assert_eq!((zero.x, zero.y, zero.z), (0, 0, 0));
    let u = Vector3f::uniform(7);
    assert_eq!((u.x, u.y, u.z), (7, 7, 7));
    assert_eq!(Vector3f::unit_x().x, FP_ONE);
    assert_eq!(Vector3f::unit_y().y, FP_ONE);
    assert_eq!(Vector3f::unit_z().z, FP_ONE);
}

#[test]
fn dot_product_is_raw_sum_of_products() {
    let a = Vector3f::new(2, 3, 4);
    let b = Vector3f::new(5, -6, 7);
    assert_eq!(a.dot(&b), 2 * 5 - 3 * 6 + 4 * 7);
    assert_eq!(Vector3f::dot_product(&a, &b), a.dot(&b));
}

#[test]
fn cross_product_of_axes() {
    // x cross y == z, scaled by FP_ONE * FP_ONE in raw units.
    let c = Vector3f::unit_x().cross(&Vector3f::unit_y());
    assert_eq!((c.x, c.y, c.z), (0, 0, FP_ONE * FP_ONE));
    let anti = Vector3f::unit_y().cross(&Vector3f::unit_x());
    assert_eq!((anti.x, anti.y, anti.z), (0, 0, -FP_ONE * FP_ONE));
}

#[test]
fn scalar_scale_and_divide() {
    let a = Vector3f::new(65536, 131072, -65536);
    let half = a.scale(32768);
    assert_eq!((half.x, half.y, half.z), (32768, 65536, -32768));
    let d = a.div_scalar(2 * FP_ONE);
    assert_eq!((d.x, d.y, d.z), (32768, 65536, -32768));
}

#[test]
fn scalar_divide_by_negative() {
    // A negative divisor negates the floored magnitude quotient.
    let a = Vector3f::new(65536, -131072, 98304);
    let d = a.div_scalar(-2 * FP_ONE);
    assert_eq!((d.x, d.y, d.z), (-32768, 65536, -49152));
}

#[test]
fn hadamard_rescales_once() {
    let a = Vector3f::new(32768, 65536, 16384);
    let b = Vector3f::new(32768, 32768, 65536);
    let h = a.multiply_element_wise(&b);
    // 0.5 * 0.5 == 0.25, 1.0 * 0.5 == 0.5, 0.25 * 1.0 == 0.25.
    assert_eq!((h.x, h.y, h.z), (16384, 32768, 16384));
}

#[test]
fn lerp_midpoint() {
    let a = Vector3f::new(0, 0, 0);
    let b = Vector3f::new(65536, 131072, -65536);
    let m = Vector3f::lerp(&a, &b, 32768);
    assert_eq!((m.x, m.y, m.z), (32768, 65536, -32768));
    let mut c = a;
    c.lerp_self(&b, 32768);
    assert_eq!((c.x, c.y, c.z), (m.x, m.y, m.z));
    let m2 = a.lerp(&b, 32768);
    assert_eq!((m2.x, m2.y, m2.z), (m.x, m.y, m.z));
}

#[test]
fn magnitude_of_three_four_five_triangle() {
    let v = Vector3f::new(3 * FP_ONE, 4 * FP_ONE, 0);
    assert_eq!(v.square_magnitude(), 25 * FP_ONE * FP_ONE);
    assert_eq!(v.magnitude(), 5 * FP_ONE);
}

#[test]
fn unit_vector_has_unit_magnitude_within_tolerance() {
    // The law proved over all vectors of at least unit length, checked on
    // one: the squared magnitude of the normalization is FP_ONE^2 within a
    // few quanta.
    let v = Vector3f::new(3 * FP_ONE, 4 * FP_ONE, 0);
    let u = v.unit_vector();
    assert_eq!((u.x, u.y), (39321, 52428));
    let sq = u.dot(&u);
    assert!(FP_ONE * FP_ONE - 6 * FP_ONE <= sq);
    assert!(sq <= FP_ONE * FP_ONE + 8 * FP_ONE + 3);
}

#[test]
fn unit_vector_of_zero_is_zero() {
    let z = Vector3f::zero().unit_vector();
    assert_eq!((z.x, z.y, z.z), (0, 0, 0));
}

#[test]
fn normalize_updates_in_place() {
    let mut v = Vector3f::new(0, 0, 2 * FP_ONE);
    let r = v.normalize();
    assert_eq!((v.x, v.y, v.z), (0, 0, FP_ONE));
    assert_eq!((r.x, r.y, r.z), (0, 0, FP_ONE));
}

#[test]
fn reflection_flips_normal_component() {
    // The law proved for all unit vectors, checked on one: reflecting a
    // downward ray off the upward normal flips it exactly.
    let d = Vector3f::new(0, 0, -FP_ONE);
    let n = Vector3f::new(0, 0, FP_ONE);
    let r = d.get_reflected(&n);
    assert_eq!((r.x, r.y, r.z), (0, 0, FP_ONE));
    assert_eq!(r.dot(&n), -d.dot(&n));
}

#[test]
fn reflection_keeps_tangential_component() {
    // A 45-degree incoming ray bounces off the floor normal.
    let d = Vector3f::new(FP_ONE, 0, -FP_ONE);
    let n = Vector3f::new(0, 0, FP_ONE);
    let r = d.get_reflected(&n);
    assert_eq!((r.x, r.y, r.z), (FP_ONE, 0, FP_ONE));
}

#[test]
fn near_zero_only_for_exact_zero() {
    assert!(Vector3f::zero().near_zero());
    assert!(!Vector3f::new(1, 0, 0).near_zero());
    assert!(!Vector3f::new(0, 0, -1).near_zero());
}
