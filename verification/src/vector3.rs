//! Three-component vectors over fixed-point scalars.
//!
//! The mathematical model of a `Vector3f` is a `Vec3`, a triple of
//! unbounded integers in fixed-point units; every operation's contract is an
//! exact formula over that model. Products of two fixed-point values (dot,
//! cross, squared magnitude) are kept "raw", in units of `FP_ONE * FP_ONE`,
//! exactly as the quadratic of the sphere intersection wants them.

use crate::fixed::{div_floor_i128, fp_div, fp_mul, fpdiv, fpmul, isqrt_i64, mul_wide, sqrt_floor,
    FP_ONE};
use vstd::prelude::*;

verus! {

/// Largest coordinate magnitude the vector operations accept; callers keep
/// their values far below it.
pub const VEC_BOUND: i64 = 0x4000_0000;

#[derive(Clone, Copy, PartialEq, Eq, Structural, Debug)]
pub struct Vector3f {
    pub x: i64,
    pub y: i64,
    pub z: i64,
}

/// The model of a vector: a triple of unbounded fixed-point integers.
pub ghost struct Vec3 {
    pub x: int,
    pub y: int,
    pub z: int,
}

impl View for Vector3f {
    type V = Vec3;

    open spec fn view(&self) -> Vec3 {
        Vec3 { x: self.x as int, y: self.y as int, z: self.z as int }
    }
}

/// All three coordinates lie in `[-b, b]`.
pub open spec fn bounded(v: Vec3, b: int) -> bool {
    &&& -b <= v.x <= b
    &&& -b <= v.y <= b
    &&& -b <= v.z <= b
}

pub open spec fn add_v(a: Vec3, b: Vec3) -> Vec3 {
    Vec3 { x: a.x + b.x, y: a.y + b.y, z: a.z + b.z }
}

pub open spec fn sub_v(a: Vec3, b: Vec3) -> Vec3 {
    Vec3 { x: a.x - b.x, y: a.y - b.y, z: a.z - b.z }
}

pub open spec fn neg_v(a: Vec3) -> Vec3 {
    Vec3 { x: -a.x, y: -a.y, z: -a.z }
}

/// Scalar multiply by a fixed-point factor, rescaled componentwise.
pub open spec fn scale_v(a: Vec3, s: int) -> Vec3 {
    Vec3 { x: fpmul(a.x, s), y: fpmul(a.y, s), z: fpmul(a.z, s) }
}

/// Scalar divide by a nonzero fixed-point factor.
pub open spec fn div_v(a: Vec3, s: int) -> Vec3
    recommends
        s != 0,
{
    Vec3 { x: fpdiv(a.x, s), y: fpdiv(a.y, s), z: fpdiv(a.z, s) }
}

/// Raw dot product, in units of `FP_ONE * FP_ONE`.
pub open spec fn dot_v(a: Vec3, b: Vec3) -> int {
    a.x * b.x + a.y * b.y + a.z * b.z
}

/// Raw cross product, in units of `FP_ONE * FP_ONE`.
pub open spec fn cross_v(a: Vec3, b: Vec3) -> Vec3 {
    Vec3 {
        x: a.y * b.z - a.z * b.y,
        y: a.z * b.x - a.x * b.z,
        z: a.x * b.y - a.y * b.x,
    }
}

/// Hadamard product of two fixed-point vectors, rescaled componentwise.
pub open spec fn hadamard_v(a: Vec3, b: Vec3) -> Vec3 {
    Vec3 { x: fpmul(a.x, b.x), y: fpmul(a.y, b.y), z: fpmul(a.z, b.z) }
}

/// `a + (b - a) * t`, the linear interpolation of the executable code.
pub open spec fn lerp_v(a: Vec3, b: Vec3, t: int) -> Vec3 {
    add_v(a, scale_v(sub_v(b, a), t))
}

/// The numerator of the reflection formula: `d * FP_ONE^2 - 2 * dot(d, n) * n`,
/// in units of `FP_ONE^3`. The executable reflection is this, rescaled.
pub open spec fn reflect_num_v(d: Vec3, n: Vec3) -> Vec3 {
    Vec3 {
        x: d.x * (FP_ONE * FP_ONE) - 2 * (dot_v(d, n) * n.x),
        y: d.y * (FP_ONE * FP_ONE) - 2 * (dot_v(d, n) * n.y),
        z: d.z * (FP_ONE * FP_ONE) - 2 * (dot_v(d, n) * n.z),
    }
}

/// The executable reflection: each numerator component floored back to
/// fixed-point units.
pub open spec fn reflect_v(d: Vec3, n: Vec3) -> Vec3 {
    Vec3 {
        x: reflect_num_v(d, n).x / (FP_ONE * FP_ONE),
        y: reflect_num_v(d, n).y / (FP_ONE * FP_ONE),
        z: reflect_num_v(d, n).z / (FP_ONE * FP_ONE),
    }
}

/// Fixed-point magnitude: the floor square root of the raw dot product.
pub open spec fn mag_v(a: Vec3) -> int
    recommends
        dot_v(a, a) >= 0,
{
    sqrt_floor(dot_v(a, a) as nat) as int
}

/// The normalization of the executable code: `a * FP_ONE / |a|` componentwise,
/// or the zero vector when the magnitude rounds to zero.
pub open spec fn unit_v(a: Vec3) -> Vec3 {
    if mag_v(a) == 0 {
        Vec3 { x: 0, y: 0, z: 0 }
    } else {
        Vec3 {
            x: (a.x * FP_ONE) / mag_v(a),
            y: (a.y * FP_ONE) / mag_v(a),
            z: (a.z * FP_ONE) / mag_v(a),
        }
    }
}

pub trait Magnitude: View<V = Vec3> {
    /// The raw squared magnitude, in units of `FP_ONE * FP_ONE`.
    fn square_magnitude(&self) -> (r: i64)
        requires
            bounded(self.view(), VEC_BOUND as int),
        ensures
            r == dot_v(self.view(), self.view()),
            r >= 0,
    ;

    /// The fixed-point magnitude, rounded down.
    fn magnitude(&self) -> (r: i64)
        requires
            bounded(self.view(), VEC_BOUND as int),
        ensures
            r == mag_v(self.view()),
            r >= 0,
    ;
}

pub trait Normalize: Sized + View<V = Vec3> {
    /// Normalize in place and return the new value.
    fn normalize(&mut self) -> (r: Self)
        requires
            bounded(old(self).view(), VEC_BOUND as int),
        ensures
            final(self).view() == unit_v(old(self).view()),
            r.view() == unit_v(old(self).view()),
    ;

    /// The unit vector in the direction of `self`, or zero when the
    /// magnitude rounds down to zero.
    fn unit_vector(&self) -> (r: Self)
        requires
            bounded(self.view(), VEC_BOUND as int),
        ensures
            r.view() == unit_v(self.view()),
    ;
}

pub trait DotProduct: View<V = Vec3> {
    fn dot_product(v: &Self, u: &Self) -> (r: i64)
        requires
            bounded(v.view(), VEC_BOUND as int),
            bounded(u.view(), VEC_BOUND as int),
        ensures
            r == dot_v(v.view(), u.view()),
    ;

    /// The raw dot product, in units of `FP_ONE * FP_ONE`.
    fn dot(&self, other: &Self) -> (r: i64)
        requires
            bounded(self.view(), VEC_BOUND as int),
            bounded(other.view(), VEC_BOUND as int),
        ensures
            r == dot_v(self.view(), other.view()),
    ;
}

pub trait CrossProduct: Sized + View<V = Vec3> {
    /// The raw cross product, in units of `FP_ONE * FP_ONE`.
    fn cross(self, other: &Self) -> (r: Self)
        requires
            bounded(self.view(), VEC_BOUND as int),
            bounded(other.view(), VEC_BOUND as int),
        ensures
            r.view() == cross_v(self.view(), other.view()),
    ;

    fn cross_product(v: &Self, u: &Self) -> (r: Self)
        requires
            bounded(v.view(), VEC_BOUND as int),
            bounded(u.view(), VEC_BOUND as int),
        ensures
            r.view() == cross_v(v.view(), u.view()),
    ;
}

pub trait Lerp: Sized + View<V = Vec3> {
    fn lerp_self(&mut self, target: &Self, t: i64)
        requires
            bounded(old(self).view(), VEC_BOUND as int),
            bounded(target.view(), VEC_BOUND as int),
            -0x80_0000_0000 <= t <= 0x80_0000_0000,
        ensures
            final(self).view() == lerp_v(old(self).view(), target.view(), t as int),
    ;

    fn lerp(self, target: &Self, t: i64) -> (r: Self)
        requires
            bounded(self.view(), VEC_BOUND as int),
            bounded(target.view(), VEC_BOUND as int),
            -0x80_0000_0000 <= t <= 0x80_0000_0000,
        ensures
            r.view() == lerp_v(self.view(), target.view(), t as int),
    ;
}

impl Vector3f {
    pub fn new(x: i64, y: i64, z: i64) -> (r: Vector3f)
        ensures
            r@ == (Vec3 { x: x as int, y: y as int, z: z as int }),
    {
        Vector3f { x, y, z }
    }

    pub fn uniform(s: i64) -> (r: Vector3f)
        ensures
            r@ == (Vec3 { x: s as int, y: s as int, z: s as int }),
    {
        Vector3f { x: s, y: s, z: s }
    }

    /// The zero vector, which is also `0.0` in every component.
    pub fn zero() -> (r: Vector3f)
        ensures
            r@ == (Vec3 { x: 0, y: 0, z: 0 }),
    {
        Vector3f { x: 0, y: 0, z: 0 }
    }

    /// The all-ones vector: every component holds fixed-point `1.0`.
    pub fn one() -> (r: Vector3f)
        ensures
            r@ == (Vec3 { x: FP_ONE as int, y: FP_ONE as int, z: FP_ONE as int }),
    {
        Vector3f { x: FP_ONE, y: FP_ONE, z: FP_ONE }
    }

    pub fn unit_x() -> (r: Vector3f)
        ensures
            r@ == (Vec3 { x: FP_ONE as int, y: 0, z: 0 }),
    {
        Vector3f { x: FP_ONE, y: 0, z: 0 }
    }

    pub fn unit_y() -> (r: Vector3f)
        ensures
            r@ == (Vec3 { x: 0, y: FP_ONE as int, z: 0 }),
    {
        Vector3f { x: 0, y: FP_ONE, z: 0 }
    }

    pub fn unit_z() -> (r: Vector3f)
        ensures
            r@ == (Vec3 { x: 0, y: 0, z: FP_ONE as int }),
    {
        Vector3f { x: 0, y: 0, z: FP_ONE }
    }

    pub fn add(self, rhs: Vector3f) -> (r: Vector3f)
        requires
            bounded(self@, 0x3FFF_FFFF_FFFF_FFFF),
            bounded(rhs@, 0x3FFF_FFFF_FFFF_FFFF),
        ensures
            r@ == add_v(self@, rhs@),
    {
        Vector3f { x: self.x + rhs.x, y: self.y + rhs.y, z: self.z + rhs.z }
    }

    pub fn sub(self, rhs: Vector3f) -> (r: Vector3f)
        requires
            bounded(self@, 0x3FFF_FFFF_FFFF_FFFF),
            bounded(rhs@, 0x3FFF_FFFF_FFFF_FFFF),
        ensures
            r@ == sub_v(self@, rhs@),
    {
        Vector3f { x: self.x - rhs.x, y: self.y - rhs.y, z: self.z - rhs.z }
    }

    pub fn neg(self) -> (r: Vector3f)
        requires
            bounded(self@, i64::MAX as int),
        ensures
            r@ == neg_v(self@),
    {
        Vector3f { x: -self.x, y: -self.y, z: -self.z }
    }

    /// Multiply by a fixed-point scalar.
    pub fn scale(self, s: i64) -> (r: Vector3f)
        requires
            bounded(self@, 0x80_0000_0000),
            -0x80_0000_0000 <= s <= 0x80_0000_0000,
        ensures
            r@ == scale_v(self@, s as int),
    {
        Vector3f { x: fp_mul(self.x, s), y: fp_mul(self.y, s), z: fp_mul(self.z, s) }
    }

    /// Divide by a nonzero fixed-point scalar.
    pub fn div_scalar(self, s: i64) -> (r: Vector3f)
        requires
            bounded(self@, 0x4000_0000_0000),
            s != 0,
            s != i64::MIN,
        ensures
            r@ == div_v(self@, s as int),
    {
        Vector3f { x: fp_div(self.x, s), y: fp_div(self.y, s), z: fp_div(self.z, s) }
    }

    pub fn multiply_element_wise(&self, other: &Vector3f) -> (r: Vector3f)
        requires
            bounded(self@, 0x80_0000_0000),
            bounded(other@, 0x80_0000_0000),
        ensures
            r@ == hadamard_v(self@, other@),
    {
        Vector3f {
            x: fp_mul(self.x, other.x),
            y: fp_mul(self.y, other.y),
            z: fp_mul(self.z, other.z),
        }
    }

    /// A vector with three independent uniform components in `[0, 1)`.
    pub fn random(rng: &mut rand::rngs::StdRng) -> (r: Vector3f)
        ensures
            0 <= r@.x < FP_ONE as int,
            0 <= r@.y < FP_ONE as int,
            0 <= r@.z < FP_ONE as int,
    {
        Vector3f {
            x: crate::rng::rand_fp(rng),
            y: crate::rng::rand_fp(rng),
            z: crate::rng::rand_fp(rng),
        }
    }

    /// A vector with three independent uniform components in
    /// `[min, max)`: a unit-cube sample stretched and shifted. An empty
    /// span pins every component to `min`.
    pub fn random_range(rng: &mut rand::rngs::StdRng, min: i64, max: i64) -> (r: Vector3f)
        requires
            -0x40_0000_0000 <= min <= max <= 0x40_0000_0000,
        ensures
            min <= r@.x <= max,
            min <= r@.y <= max,
            min <= r@.z <= max,
            min < max ==> r@.x < max && r@.y < max && r@.z < max,
            min == max ==> r@.x == min && r@.y == min && r@.z == min,
    {
        let sample = Vector3f::random(rng);
        proof {
            lemma_scale_bounded(sample@, (max - min) as int, FP_ONE as int, 0x80_0000_0000);
            lemma_random_range_component(sample@.x, max as int - min as int);
            lemma_random_range_component(sample@.y, max as int - min as int);
            lemma_random_range_component(sample@.z, max as int - min as int);
        }
        sample.scale(max - min).add(Vector3f::uniform(min))
    }

    /// `start + (target - start) * t`.
    pub fn lerp(start: &Vector3f, target: &Vector3f, t: i64) -> (r: Vector3f)
        requires
            bounded(start@, VEC_BOUND as int),
            bounded(target@, VEC_BOUND as int),
            -0x80_0000_0000 <= t <= 0x80_0000_0000,
        ensures
            r@ == lerp_v(start@, target@, t as int),
    {
        let diff = target.sub(*start);
        proof {
            lemma_scale_bounded(diff@, t as int, 2 * VEC_BOUND as int, 0x80_0000_0000);
        }
        start.add(diff.scale(t))
    }

    /// Reflect `self` about `normal`: `self - 2 * dot(self, normal) * normal`,
    /// with the product of three fixed-point factors floored back once.
    pub fn get_reflected(&self, normal: &Vector3f) -> (r: Vector3f)
        requires
            bounded(self@, VEC_BOUND as int),
            bounded(normal@, VEC_BOUND as int),
        ensures
            r@ == reflect_v(self@, normal@),
    {
        let d = self.dot(normal);
        proof {
            lemma_dot_bounded(self@, normal@, VEC_BOUND as int);
        }
        let rx = reflect_component(self.x, d, normal.x);
        let ry = reflect_component(self.y, d, normal.y);
        let rz = reflect_component(self.z, d, normal.z);
        Vector3f { x: rx, y: ry, z: rz }
    }
}

/// One vector component bounded by `b`, scaled by a fixed-point factor
/// bounded by `s`, stays within `(b * s) / FP_ONE` in magnitude (plus one
/// for the floor).
pub proof fn lemma_scale_bounded(a: Vec3, s: int, b: int, sb: int)
    requires
        bounded(a, b),
        -sb <= s <= sb,
        0 <= b,
        0 <= sb,
    ensures
        bounded(scale_v(a, s), (b * sb) / FP_ONE as int + 1),
{
    assert(-(b * sb) <= a.x * s <= b * sb) by (nonlinear_arith)
        requires
            -b <= a.x <= b,
            -sb <= s <= sb,
            0 <= b,
            0 <= sb,
    ;
    assert(-(b * sb) <= a.y * s <= b * sb) by (nonlinear_arith)
        requires
            -b <= a.y <= b,
            -sb <= s <= sb,
            0 <= b,
            0 <= sb,
    ;
    assert(-(b * sb) <= a.z * s <= b * sb) by (nonlinear_arith)
        requires
            -b <= a.z <= b,
            -sb <= s <= sb,
            0 <= b,
            0 <= sb,
    ;
    assert(b * sb >= 0) by (nonlinear_arith)
        requires
            0 <= b,
            0 <= sb,
    ;
    crate::fixed::lemma_div_bound_abs(a.x * s, b * sb, FP_ONE as int);
    crate::fixed::lemma_div_bound_abs(a.y * s, b * sb, FP_ONE as int);
    crate::fixed::lemma_div_bound_abs(a.z * s, b * sb, FP_ONE as int);
}

/// One component of the reflection: `(v * FP_ONE^2 - 2 * d * n) / FP_ONE^2`
/// where `d` is the raw dot product.
fn reflect_component(v: i64, d: i64, n: i64) -> (r: i64)
    requires
        -(VEC_BOUND as int) <= v <= VEC_BOUND as int,
        -(VEC_BOUND as int) <= n <= VEC_BOUND as int,
        -0x3000_0000_0000_0000 <= d <= 0x3000_0000_0000_0000,
    ensures
        r == (v * (FP_ONE * FP_ONE) - 2 * (d as int * n as int)) / (FP_ONE * FP_ONE),
{
    let p = mul_wide(d, n);
    proof {
        assert(-0xC00_0000_0000_0000_0000_0000 <= d as int * n as int
            <= 0xC00_0000_0000_0000_0000_0000) by (nonlinear_arith)
            requires
                -0x3000_0000_0000_0000 <= d as int <= 0x3000_0000_0000_0000,
                -0x4000_0000 <= n as int <= 0x4000_0000,
        ;
    }
    let num: i128 = (v as i128) * 0x1_0000_0000i128 - 2 * p;
    proof {
        crate::fixed::lemma_div_bound_abs(
            num as int,
            0x2000_0000_0000_0000_0000_0000,
            (FP_ONE * FP_ONE) as int,
        );
    }
    div_floor_i128(num, 0x1_0000_0000i128) as i64
}

impl Magnitude for Vector3f {
    fn square_magnitude(&self) -> (r: i64) {
        proof {
            lemma_dot_self_nonneg(self@);
        }
        self.dot(self)
    }

    fn magnitude(&self) -> (r: i64) {
        let sq = self.square_magnitude();
        isqrt_i64(sq)
    }
}

impl DotProduct for Vector3f {
    fn dot_product(v: &Vector3f, u: &Vector3f) -> (r: i64) {
        v.dot(u)
    }

    fn dot(&self, other: &Vector3f) -> (r: i64) {
        proof {
            lemma_dot_bounded(self@, other@, VEC_BOUND as int);
        }
        self.x * other.x + self.y * other.y + self.z * other.z
    }
}

/// A vector's raw dot product with itself is a sum of squares, hence
/// nonnegative.
pub proof fn lemma_dot_self_nonneg(a: Vec3)
    ensures
        dot_v(a, a) >= 0,
{
    assert(a.x * a.x >= 0) by (nonlinear_arith);
    assert(a.y * a.y >= 0) by (nonlinear_arith);
    assert(a.z * a.z >= 0) by (nonlinear_arith);
}

/// Bounds each addend of a dot product of vectors bounded by `b`.
pub proof fn lemma_dot_bounded(a: Vec3, c: Vec3, b: int)
    requires
        bounded(a, b),
        bounded(c, b),
        b >= 0,
    ensures
        -(b * b) <= a.x * c.x <= b * b,
        -(b * b) <= a.y * c.y <= b * b,
        -(b * b) <= a.z * c.z <= b * b,
        -(3 * (b * b)) <= dot_v(a, c) <= 3 * (b * b),
{
    assert(-(b * b) <= a.x * c.x <= b * b) by (nonlinear_arith)
        requires
            -b <= a.x <= b,
            -b <= c.x <= b,
            b >= 0,
    ;
    assert(-(b * b) <= a.y * c.y <= b * b) by (nonlinear_arith)
        requires
            -b <= a.y <= b,
            -b <= c.y <= b,
            b >= 0,
    ;
    assert(-(b * b) <= a.z * c.z <= b * b) by (nonlinear_arith)
        requires
            -b <= a.z <= b,
            -b <= c.z <= b,
            b >= 0,
    ;
}

/// Law: reflecting a direction about a unit normal it runs against flips
/// the sign of its normal component and keeps its magnitude. The reflected
/// vector is stated in numerator form, whose raw dot with the normal
/// carries one extra factor of `FP_ONE * FP_ONE` from the scaling.
pub proof fn lemma_reflect_flips_normal_component(d: Vec3, n: Vec3)
    requires
        dot_v(d, d) == FP_ONE as int * FP_ONE as int,
        dot_v(n, n) == FP_ONE as int * FP_ONE as int,
        dot_v(d, n) < 0,
    ensures
        dot_v(reflect_num_v(d, n), n) == -dot_v(d, n) * (FP_ONE as int * FP_ONE as int),
{
    let k = dot_v(d, n);
    let p = FP_ONE as int * FP_ONE as int;
    let m = reflect_num_v(d, n);
    assert(m.x * n.x == (d.x * n.x) * p - 2 * (k * (n.x * n.x))) by (nonlinear_arith)
        requires
            m.x == d.x * p - 2 * (k * n.x),
    ;
    assert(m.y * n.y == (d.y * n.y) * p - 2 * (k * (n.y * n.y))) by (nonlinear_arith)
        requires
            m.y == d.y * p - 2 * (k * n.y),
    ;
    assert(m.z * n.z == (d.z * n.z) * p - 2 * (k * (n.z * n.z))) by (nonlinear_arith)
        requires
            m.z == d.z * p - 2 * (k * n.z),
    ;
    assert((d.x * n.x) * p + (d.y * n.y) * p + (d.z * n.z) * p == k * p) by (nonlinear_arith)
        requires
            k == d.x * n.x + d.y * n.y + d.z * n.z,
    ;
    assert(k * (n.x * n.x) + k * (n.y * n.y) + k * (n.z * n.z) == k * p) by (nonlinear_arith)
        requires
            n.x * n.x + n.y * n.y + n.z * n.z == p,
    ;
    assert(dot_v(m, n) == k * p - 2 * (k * p));
    assert(-dot_v(d, n) * p == -(k * p)) by (nonlinear_arith)
        requires
            k == dot_v(d, n),
    ;
}

/// A unit-interval fraction of a nonnegative span stays within the span,
/// strictly so for a positive span, and vanishes for an empty one.
proof fn lemma_random_range_component(u: int, span: int)
    requires
        0 <= u < FP_ONE as int,
        0 <= span,
    ensures
        0 <= fpmul(u, span) <= span,
        span > 0 ==> fpmul(u, span) < span,
        span == 0 ==> fpmul(u, span) == 0,
{
    if span == 0 {
        assert(u * span == 0) by (nonlinear_arith)
            requires
                span == 0,
        ;
    } else {
        crate::fixed::lemma_fpmul_fraction_strict(u, span);
    }
}

/// Any product of two scalars bounded by `b` is bounded by `b * b`.
pub proof fn lemma_prod_bound(p: int, q: int, b: int)
    requires
        -b <= p <= b,
        -b <= q <= b,
        0 <= b,
    ensures
        -(b * b) <= p * q <= b * b,
{
    assert(-(b * b) <= p * q <= b * b) by (nonlinear_arith)
        requires
            -b <= p <= b,
            -b <= q <= b,
            0 <= b,
    ;
}

impl CrossProduct for Vector3f {
    fn cross(self, other: &Vector3f) -> (r: Vector3f) {
        proof {
            let b = VEC_BOUND as int;
            lemma_prod_bound(self@.y, other@.z, b);
            lemma_prod_bound(self@.z, other@.y, b);
            lemma_prod_bound(self@.z, other@.x, b);
            lemma_prod_bound(self@.x, other@.z, b);
            lemma_prod_bound(self@.x, other@.y, b);
            lemma_prod_bound(self@.y, other@.x, b);
        }
        Vector3f {
            x: self.y * other.z - self.z * other.y,
            y: self.z * other.x - self.x * other.z,
            z: self.x * other.y - self.y * other.x,
        }
    }

    fn cross_product(v: &Vector3f, u: &Vector3f) -> (r: Vector3f) {
        (*v).cross(u)
    }
}

impl Normalize for Vector3f {
    fn normalize(&mut self) -> (r: Vector3f) {
        let u = self.unit_vector();
        *self = u;
        u
    }

    fn unit_vector(&self) -> (r: Vector3f) {
        let m = self.magnitude();
        if m == 0 {
            Vector3f { x: 0, y: 0, z: 0 }
        } else {
            let rx = unit_component(self.x, m);
            let ry = unit_component(self.y, m);
            let rz = unit_component(self.z, m);
            Vector3f { x: rx, y: ry, z: rz }
        }
    }
}

/// Law: normalizing a vector of at least unit length yields a vector of
/// magnitude one, up to the quantization tolerance: its raw squared
/// magnitude differs from `FP_ONE^2` by at most a few quanta. (Vectors
/// shorter than one unit quantize too coarsely for any such bound.)
pub proof fn lemma_unit_vector_magnitude(a: Vec3)
    requires
        bounded(a, VEC_BOUND as int),
        dot_v(a, a) >= FP_ONE as int * FP_ONE as int,
    ensures
        FP_ONE as int * FP_ONE as int - 6 * FP_ONE as int <= dot_v(unit_v(a), unit_v(a)),
        dot_v(unit_v(a), unit_v(a)) <= FP_ONE as int * FP_ONE as int + 8 * FP_ONE as int + 3,
{
    let s = FP_ONE as int;
    let d = dot_v(a, a);
    let m = mag_v(a);
    lemma_dot_self_nonneg(a);
    crate::fixed::lemma_sqrt_floor(d as nat);
    assert(s * s > 0) by (nonlinear_arith)
        requires
            s == 65536,
    ;
    assert(m >= s) by (nonlinear_arith)
        requires
            m >= 0,
            d < (m + 1) * (m + 1),
            d >= s * s,
            s > 0,
    ;
    let u = unit_v(a);
    assert(m != 0);
    assert(u.x == (a.x * s) / m && u.y == (a.y * s) / m && u.z == (a.z * s) / m);
    vstd::arithmetic::div_mod::lemma_fundamental_div_mod(a.x * s, m);
    vstd::arithmetic::div_mod::lemma_fundamental_div_mod(a.y * s, m);
    vstd::arithmetic::div_mod::lemma_fundamental_div_mod(a.z * s, m);
    vstd::arithmetic::div_mod::lemma_mod_bound(a.x * s, m);
    vstd::arithmetic::div_mod::lemma_mod_bound(a.y * s, m);
    vstd::arithmetic::div_mod::lemma_mod_bound(a.z * s, m);
    let ex = (a.x * s) % m;
    let ey = (a.y * s) % m;
    let ez = (a.z * s) % m;
    // Each coordinate is at most the magnitude in size.
    assert(-m <= a.x <= m && -m <= a.y <= m && -m <= a.z <= m) by (nonlinear_arith)
        requires
            d < (m + 1) * (m + 1),
            d == a.x * a.x + a.y * a.y + a.z * a.z,
            m >= 0,
    ;
    // One exact identity per component: the square of the scaled
    // coordinate, split by the division remainder.
    lemma_unit_sq_split(a.x, s, m, u.x, ex);
    lemma_unit_sq_split(a.y, s, m, u.y, ey);
    lemma_unit_sq_split(a.z, s, m, u.z, ez);
    // Summing the three identities bounds the scaled squared magnitude.
    assert((a.x * s) * (a.x * s) == (a.x * a.x) * (s * s)) by (nonlinear_arith);
    assert((a.y * s) * (a.y * s) == (a.y * a.y) * (s * s)) by (nonlinear_arith);
    assert((a.z * s) * (a.z * s) == (a.z * a.z) * (s * s)) by (nonlinear_arith);
    assert((a.x * a.x) * (s * s) + (a.y * a.y) * (s * s) + (a.z * a.z) * (s * s) == d * (s
        * s)) by (nonlinear_arith)
        requires
            d == a.x * a.x + a.y * a.y + a.z * a.z,
    ;
    assert(m * m * (dot_v(u, u)) == m * m * (u.x * u.x) + m * m * (u.y * u.y) + m * m * (u.z
        * u.z)) by (nonlinear_arith)
        requires
            dot_v(u, u) == u.x * u.x + u.y * u.y + u.z * u.z,
    ;
    let lo = d * (s * s) - 6 * ((m * m) * s);
    let hi = d * (s * s) + 6 * ((m * m) * s) + 3 * (m * m);
    assert(lo <= m * m * (dot_v(u, u)) <= hi);
    // The raw magnitude lies under `m^2 + 2m`, and `m` is at least `s`,
    // which closes the bound after dividing by `m^2`.
    assert(d <= m * m + 2 * m) by (nonlinear_arith)
        requires
            d < (m + 1) * (m + 1),
    ;
    assert(m * m * (dot_v(u, u)) <= m * m * (s * s + 8 * s + 3)) by (nonlinear_arith)
        requires
            m * m * (dot_v(u, u)) <= d * (s * s) + 6 * ((m * m) * s) + 3 * (m * m),
            d <= m * m + 2 * m,
            m >= s,
            s > 0,
    ;
    assert(dot_v(u, u) <= s * s + 8 * s + 3) by (nonlinear_arith)
        requires
            m * m * (dot_v(u, u)) <= m * m * (s * s + 8 * s + 3),
            m >= 1,
    ;
    assert(m * m * (s * s - 6 * s) <= m * m * (dot_v(u, u))) by (nonlinear_arith)
        requires
            d * (s * s) - 6 * ((m * m) * s) <= m * m * (dot_v(u, u)),
            m * m <= d,
            s > 0,
    ;
    assert(s * s - 6 * s <= dot_v(u, u)) by (nonlinear_arith)
        requires
            m * m * (s * s - 6 * s) <= m * m * (dot_v(u, u)),
            m >= 1,
    ;
}

/// The square of one scaled coordinate, split by its division remainder:
/// `(v*s)^2 = (m*u + e)^2` bounds `m^2 u^2` within `6` remainder terms.
proof fn lemma_unit_sq_split(v: int, s: int, m: int, u: int, e: int)
    requires
        v * s == m * u + e,
        0 <= e < m,
        -m <= v <= m,
        s > 0,
        m >= 1,
    ensures
        (v * s) * (v * s) - 2 * ((m * m) * s) <= m * m * (u * u) <= (v * s) * (v * s) + 2 * ((m
            * m) * s) + m * m,
{
    assert(m * m * (u * u) == (v * s) * (v * s) - 2 * ((v * s) * e) + e * e)
        by (nonlinear_arith)
        requires
            v * s == m * u + e,
    ;
    assert(-((m * m) * s) <= (v * s) * e <= (m * m) * s) by (nonlinear_arith)
        requires
            -m <= v <= m,
            0 <= e < m,
            s > 0,
            m >= 1,
    ;
    assert(0 <= e * e <= m * m) by (nonlinear_arith)
        requires
            0 <= e < m,
    ;
}

/// One component of normalization: `(v * FP_ONE) / m` for a positive `m`.
fn unit_component(v: i64, m: i64) -> (r: i64)
    requires
        -(VEC_BOUND as int) <= v <= VEC_BOUND as int,
        m >= 1,
    ensures
        r == (v * FP_ONE as int) / m as int,
{
    let num = mul_wide(v, FP_ONE);
    proof {
        crate::fixed::lemma_div_stays_in_range(num as int, m as int);
    }
    div_floor_i128(num, m as i128) as i64
}

impl Lerp for Vector3f {
    fn lerp_self(&mut self, target: &Vector3f, t: i64) {
        let start = *self;
        *self = Vector3f::lerp(&start, target, t);
    }

    fn lerp(self, target: &Vector3f, t: i64) -> (r: Vector3f) {
        Vector3f::lerp(&self, target, t)
    }
}

} // verus!
