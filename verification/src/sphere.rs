//! Spheres: the one geometry kind, with the analytic ray intersection.
//!
//! The quadratic is evaluated on raw products (units of `FP_ONE * FP_ONE`),
//! so its discriminant is an exact integer; only the roots themselves are
//! floored back to fixed-point parameters.

use crate::constants::QUICK_RENDER;
use crate::fixed::{div_floor_i128, isqrt_u128, lemma_div_stays_in_range, mul_wide, sqrt_floor,
    FP_ONE};
use crate::hit::{hit_view, HitData, HitModel};
use crate::material::{material_wf, Material};
use crate::ray::{at_v, Point3, Ray, RayModel};
use crate::rng::rand_fp;
use crate::vector3::{bounded, cross_v, div_v, dot_v, lemma_dot_bounded, lemma_dot_self_nonneg, neg_v,
    sub_v, DotProduct, Magnitude, Vec3, Vector3f, VEC_BOUND};
use vstd::prelude::*;

verus! {

/// Largest coordinate magnitude of scene geometry and rays.
pub const WORLD_BOUND: i64 = 0x1000_0000;

/// Largest intersection parameter the search window may reach.
pub const T_CAP: i64 = 0x10_0000_0000;

/// Largest coordinate magnitude of a ray: scattered rays start on a
/// surface, which integer rounding keeps within twice the world bound.
pub const RAY_BOUND: i64 = 0x2000_0000;

/// A well-formed ray: origin and direction within the ray bounds.
pub open spec fn ray_wf(r: RayModel) -> bool {
    &&& bounded(r.origin, RAY_BOUND as int)
    &&& bounded(r.direction, RAY_BOUND as int)
}

/// The model of a sphere.
pub ghost struct SphereModel {
    pub center: Vec3,
    pub radius: int,
    pub material: Material,
}

/// A well-formed sphere: center within world bounds, radius positive and
/// within them too, and a well-formed material.
pub open spec fn sphere_wf_v(s: SphereModel) -> bool {
    &&& bounded(s.center, WORLD_BOUND as int)
    &&& 1 <= s.radius <= WORLD_BOUND as int
    &&& material_wf(s.material)
}

#[derive(Clone, Copy)]
pub struct Sphere {
    center: Point3,
    radius: i64,
    material: Material,
}

impl View for Sphere {
    type V = SphereModel;

    closed spec fn view(&self) -> SphereModel {
        SphereModel { center: self.center@, radius: self.radius as int, material: self.material }
    }
}

impl Sphere {
    /// Every sphere value is well-formed: the constructor rejects the rest.
    #[verifier::type_invariant]
    pub open spec fn wf(self) -> bool {
        sphere_wf_v(self@)
    }

    /// Build a sphere, rejecting a nonpositive radius, geometry outside
    /// the world bounds, and a malformed material.
    pub fn new(center: Point3, radius: i64, material: Material) -> (s: Option<Sphere>)
        ensures
            s is Some <==> sphere_wf_v(
                SphereModel { center: center@, radius: radius as int, material: material },
            ),
            s is Some ==> s->0@ == (SphereModel {
                center: center@,
                radius: radius as int,
                material: material,
            }),
    {
        if radius >= 1 && radius <= WORLD_BOUND && center.x >= -WORLD_BOUND && center.x
            <= WORLD_BOUND && center.y >= -WORLD_BOUND && center.y <= WORLD_BOUND && center.z
            >= -WORLD_BOUND && center.z <= WORLD_BOUND && material.is_wf() {
            Some(Sphere { center, radius, material })
        } else {
            None
        }
    }
}

/// Coefficient `a` of the quadratic: the raw squared magnitude of the
/// direction.
pub open spec fn sphere_a_v(r: RayModel) -> int {
    dot_v(r.direction, r.direction)
}

/// Coefficient `half_b`: the raw dot of center-to-origin with the direction.
pub open spec fn sphere_half_b_v(s: SphereModel, r: RayModel) -> int {
    dot_v(sub_v(r.origin, s.center), r.direction)
}

/// Coefficient `c`: the raw squared center distance less the squared radius.
pub open spec fn sphere_c_v(s: SphereModel, r: RayModel) -> int {
    dot_v(sub_v(r.origin, s.center), sub_v(r.origin, s.center)) - s.radius * s.radius
}

/// The discriminant `half_b^2 - a * c`, an exact integer in units of
/// `FP_ONE^4`.
pub open spec fn sphere_disc_v(s: SphereModel, r: RayModel) -> int {
    sphere_half_b_v(s, r) * sphere_half_b_v(s, r) - sphere_a_v(r) * sphere_c_v(s, r)
}

/// The chosen root: the smaller root if it lies in the open window
/// `(t_min, t_max)`, else the larger if it does, else nothing. A
/// degenerate direction (`a == 0`) hits nothing.
pub open spec fn sphere_root1_v(s: SphereModel, r: RayModel) -> int
    recommends
        sphere_a_v(r) != 0,
        sphere_disc_v(s, r) >= 0,
{
    let hb = sphere_half_b_v(s, r);
    let sd = sqrt_floor(sphere_disc_v(s, r) as nat) as int;
    ((-hb - sd) * FP_ONE as int) / sphere_a_v(r)
}

pub open spec fn sphere_root2_v(s: SphereModel, r: RayModel) -> int
    recommends
        sphere_a_v(r) != 0,
        sphere_disc_v(s, r) >= 0,
{
    let hb = sphere_half_b_v(s, r);
    let sd = sqrt_floor(sphere_disc_v(s, r) as nat) as int;
    ((-hb + sd) * FP_ONE as int) / sphere_a_v(r)
}

pub open spec fn sphere_root_v(s: SphereModel, r: RayModel, t_min: int, t_max: int) -> Option<
    int,
> {
    let a = sphere_a_v(r);
    if a == 0 {
        None
    } else if sphere_disc_v(s, r) < 0 {
        None
    } else {
        let t1 = sphere_root1_v(s, r);
        if t_min < t1 < t_max {
            Some(t1)
        } else {
            let t2 = sphere_root2_v(s, r);
            if t_min < t2 < t_max {
                Some(t2)
            } else {
                None
            }
        }
    }
}

/// The residual of the sphere equation at parameter `t`, before the hit
/// point itself is floored: `S^2 * (|origin + t*d/S - center|^2 - r^2)`
/// expanded over raw products, in units of `FP_ONE^4`. It vanishes at the
/// exact real roots.
pub open spec fn sphere_quadratic_v(s: SphereModel, r: RayModel, t: int) -> int {
    sphere_a_v(r) * (t * t) + 2 * ((sphere_half_b_v(s, r) * FP_ONE as int) * t)
        + sphere_c_v(s, r) * (FP_ONE as int * FP_ONE as int)
}

/// The record built at parameter `t`: hit point, outward normal scaled to
/// unit length, and the front-face orientation. A hit whose rounded point
/// or normal escapes its bound (impossible for genuine intersections, but
/// not ruled out by integer rounding alone) is dropped.
pub open spec fn sphere_record_v(s: SphereModel, r: RayModel, t: int) -> Option<HitModel> {
    let p = at_v(r, t);
    if !bounded(p, RAY_BOUND as int) {
        None
    } else {
        let outward = div_v(sub_v(p, s.center), s.radius);
        if !bounded(outward, 2 * FP_ONE as int) {
            None
        } else {
            let front = dot_v(r.direction, outward) < 0;
            Some(
                HitModel {
                    at: p,
                    normal: if front {
                        outward
                    } else {
                        neg_v(outward)
                    },
                    t: t,
                    hit_front_face: front,
                    material: s.material,
                },
            )
        }
    }
}

/// What `Sphere::hit` returns: the record at the chosen root.
pub open spec fn sphere_hit_v(s: SphereModel, r: RayModel, t_min: int, t_max: int) -> Option<
    HitModel,
> {
    match sphere_root_v(s, r, t_min, t_max) {
        None => None,
        Some(t) => sphere_record_v(s, r, t),
    }
}

impl Sphere {
    /// Analytic ray-sphere intersection over the open window `(t_min, t_max)`.
    pub fn hit(&self, ray: &Ray, t_min: i64, t_max: i64) -> (h: Option<HitData>)
        requires
            ray_wf(ray@),
            0 <= t_min,
            t_max <= T_CAP,
        ensures
            hit_view(h) == sphere_hit_v(self@, ray@, t_min as int, t_max as int),
            sphere_wf_v(self@),
            h is Some ==> {
                &&& bounded(h->0@.at, RAY_BOUND as int)
                &&& bounded(h->0@.normal, 2 * FP_ONE as int)
                &&& t_min < h->0@.t < t_max
                &&& h->0@.material == self@.material
            },
    {
        proof {
            use_type_invariant(&*self);
        }
        let dir = *ray.direction();
        let oc = ray.origin().sub(self.center);

        let a = dir.square_magnitude();
        let half_b = oc.dot(&dir);
        let oc2 = oc.dot(&oc);
        proof {
            lemma_dot_bounded(oc@, oc@, 0x3000_0000);
            lemma_dot_bounded(oc@, dir@, 0x3000_0000);
            lemma_dot_bounded(dir@, dir@, 0x3000_0000);
            assert(self@.radius * self@.radius <= 0x100_0000_0000_0000) by (nonlinear_arith)
                requires
                    1 <= self@.radius <= 0x1000_0000,
            ;
        }
        let c_val = oc2 - self.radius * self.radius;

        if a == 0 {
            return None;
        }
        proof {
            lemma_dot_self_nonneg(dir@);
            lemma_dot_self_nonneg(oc@);
            assert(0 <= half_b as int * half_b as int
                <= 0x2D9_0000_0000_0000_0000_0000_0000_0000) by (nonlinear_arith)
                requires
                    -0x1B00_0000_0000_0000 <= half_b as int <= 0x1B00_0000_0000_0000,
            ;
            assert(-0x2F4_0000_0000_0000_0000_0000_0000_0000 <= a as int * c_val as int
                <= 0x2F4_0000_0000_0000_0000_0000_0000_0000) by (nonlinear_arith)
                requires
                    0 <= a as int <= 0x1B00_0000_0000_0000,
                    -0x1C00_0000_0000_0000 <= c_val as int <= 0x1C00_0000_0000_0000,
            ;
        }
        let disc: i128 = mul_wide(half_b, half_b) - mul_wide(a, c_val);
        if disc < 0 {
            return None;
        }

        let sd_u = isqrt_u128(disc as u128);
        proof {
            crate::fixed::lemma_sqrt_floor(disc as nat);
            assert(sqrt_floor(disc as nat) < 0x4000_0000_0000_0000) by (nonlinear_arith)
                requires
                    sqrt_floor(disc as nat) * sqrt_floor(disc as nat) <= disc,
                    disc <= 0x5CD_0000_0000_0000_0000_0000_0000_0000,
            ;
        }
        let sd: i128 = sd_u as i128;

        let num1: i128 = -(half_b as i128) - sd;
        let t1 = div_floor_i128(num1 * (FP_ONE as i128), a as i128);
        proof {
            lemma_div_stays_in_range(num1 as int * FP_ONE as int, a as int);
        }
        let root: i64;
        if (t_min as i128) < t1 && t1 < (t_max as i128) {
            root = t1 as i64;
        } else {
            let num2: i128 = -(half_b as i128) + sd;
            let t2 = div_floor_i128(num2 * (FP_ONE as i128), a as i128);
            proof {
                lemma_div_stays_in_range(num2 as int * FP_ONE as int, a as int);
            }
            if (t_min as i128) < t2 && t2 < (t_max as i128) {
                root = t2 as i64;
            } else {
                return None;
            }
        }

        let p = ray.at(root);
        if p.x < -RAY_BOUND || p.x > RAY_BOUND || p.y < -RAY_BOUND || p.y > RAY_BOUND || p.z
            < -RAY_BOUND || p.z > RAY_BOUND {
            return None;
        }
        let outward = p.sub(self.center).div_scalar(self.radius);
        let nb = 2 * FP_ONE;
        if outward.x < -nb || outward.x > nb || outward.y < -nb || outward.y > nb || outward.z
            < -nb || outward.z > nb {
            return None;
        }
        Some(HitData::new(root, p, &dir, &outward, self.material))
    }
}

/// Fixed-point `1 / sqrt(3)`, rounded down.
pub const INV_SQRT_THREE: i64 = 37837;

/// Twice `INV_SQRT_THREE`.
pub const TWICE_INV_SQRT_THREE: i64 = 75674;

/// How many rejection-sampling draws are attempted before falling back to
/// the zero vector, which guarantees termination.
pub const MAX_SAMPLE_TRIES: u16 = 32;

/// One coordinate of the cube-based sample: uniform in
/// `[-1/sqrt(3), 1/sqrt(3))`, so the whole vector always lands inside the
/// unit sphere.
fn rand_hack_coord(rng: &mut rand::rngs::StdRng) -> (r: i64)
    ensures
        -INV_SQRT_THREE <= r <= INV_SQRT_THREE,
{
    let u = rand_fp(rng);
    let scaled = crate::fixed::fp_mul(u, TWICE_INV_SQRT_THREE);
    proof {
        assert(0 <= (u as int) * (TWICE_INV_SQRT_THREE as int) <= (65535 * 75674) as int)
            by (nonlinear_arith)
            requires
                0 <= u as int <= 65535,
        ;
        crate::fixed::lemma_div_bound_abs(
            (u as int) * (TWICE_INV_SQRT_THREE as int),
            (65535 * 75674) as int,
            FP_ONE as int,
        );
        lemma_div_stays_in_range((u as int) * (TWICE_INV_SQRT_THREE as int), FP_ONE as int);
    }
    scaled - INV_SQRT_THREE
}

/// A sample inside the unit sphere without rejection: uniform over the
/// largest cube the sphere contains.
fn random_in_unit_sphere_hack(rng: &mut rand::rngs::StdRng) -> (v: Vector3f)
    ensures
        bounded(v@, INV_SQRT_THREE as int),
        dot_v(v@, v@) <= FP_ONE as int * FP_ONE as int,
{
    let x = rand_hack_coord(rng);
    let y = rand_hack_coord(rng);
    let z = rand_hack_coord(rng);
    let v = Vector3f { x, y, z };
    proof {
        lemma_dot_bounded(v@, v@, INV_SQRT_THREE as int);
    }
    v
}

/// Rejection sampling: draw from the cube `[-1, 1)^3` until the sample
/// lands inside the unit sphere, bounded by `MAX_SAMPLE_TRIES` draws with
/// the zero vector as fallback.
fn random_in_unit_sphere(rng: &mut rand::rngs::StdRng) -> (v: Vector3f)
    ensures
        bounded(v@, FP_ONE as int),
        dot_v(v@, v@) <= FP_ONE as int * FP_ONE as int,
{
    let mut tries: u16 = 0;
    while tries < MAX_SAMPLE_TRIES
        decreases MAX_SAMPLE_TRIES - tries,
    {
        let x = 2 * rand_fp(rng) - FP_ONE;
        let y = 2 * rand_fp(rng) - FP_ONE;
        let z = 2 * rand_fp(rng) - FP_ONE;
        let v = Vector3f { x, y, z };
        if v.square_magnitude() <= FP_ONE * FP_ONE {
            return v;
        }
        tries = tries + 1;
    }
    proof {
        lemma_dot_self_nonneg((Vec3 { x: 0, y: 0, z: 0 }));
    }
    Vector3f { x: 0, y: 0, z: 0 }
}

/// The diffuse-scatter sample: a vector inside the unit sphere, drawn by
/// rejection, or from the cheaper cube when quick rendering is on.
pub fn random_vec_in_unit_sphere(rng: &mut rand::rngs::StdRng) -> (v: Vector3f)
    ensures
        bounded(v@, FP_ONE as int),
        dot_v(v@, v@) <= FP_ONE as int * FP_ONE as int,
{
    if QUICK_RENDER {
        random_in_unit_sphere_hack(rng)
    } else {
        random_in_unit_sphere(rng)
    }
}

/// A sample inside the unit sphere on the same side as `normal`.
pub fn random_in_hemisphere(rng: &mut rand::rngs::StdRng, normal: &Vector3f) -> (v: Vector3f)
    requires
        bounded(normal@, VEC_BOUND as int),
    ensures
        bounded(v@, INV_SQRT_THREE as int),
        dot_v(v@, normal@) >= 0,
{
    let in_unit_sphere = random_in_unit_sphere_hack(rng);
    if in_unit_sphere.dot(normal) < 0 {
        proof {
            lemma_dot_neg(in_unit_sphere@, normal@);
        }
        in_unit_sphere.neg()
    } else {
        in_unit_sphere
    }
}

/// Lagrange's identity in three dimensions: the product of two squared
/// magnitudes less the squared dot product is the squared magnitude of the
/// cross product.
pub proof fn lemma_lagrange_identity(a: Vec3, b: Vec3)
    ensures
        dot_v(a, a) * dot_v(b, b) - dot_v(a, b) * dot_v(a, b) == dot_v(
            cross_v(a, b),
            cross_v(a, b),
        ),
{
    let c = cross_v(a, b);
    let p = a.x * b.x;
    let q = a.y * b.y;
    let w = a.z * b.z;
    let u1 = a.y * b.z;
    let u2 = a.z * b.y;
    let v1 = a.z * b.x;
    let v2 = a.x * b.z;
    let w1 = a.x * b.y;
    let w2 = a.y * b.x;
    let xa = a.x * a.x;
    let ya = a.y * a.y;
    let za = a.z * a.z;
    let xb = b.x * b.x;
    let yb = b.y * b.y;
    let zb = b.z * b.z;
    let sa = dot_v(a, a);
    let sb = dot_v(b, b);
    let sd = dot_v(a, b);
    // The product of the two squared magnitudes distributes into the nine
    // products of squared coordinates ...
    assert(sa * sb == xa * sb + ya * sb + za * sb) by (nonlinear_arith)
        requires
            sa == xa + ya + za,
    ;
    assert(xa * sb == xa * xb + xa * yb + xa * zb) by (nonlinear_arith)
        requires
            sb == xb + yb + zb,
    ;
    assert(ya * sb == ya * xb + ya * yb + ya * zb) by (nonlinear_arith)
        requires
            sb == xb + yb + zb,
    ;
    assert(za * sb == za * xb + za * yb + za * zb) by (nonlinear_arith)
        requires
            sb == xb + yb + zb,
    ;
    // ... each of which is the square of a mixed product.
    assert(xa * xb == p * p) by (nonlinear_arith)
        requires
            xa == a.x * a.x && xb == b.x * b.x && p == a.x * b.x,
    ;
    assert(xa * yb == w1 * w1) by (nonlinear_arith)
        requires
            xa == a.x * a.x && yb == b.y * b.y && w1 == a.x * b.y,
    ;
    assert(xa * zb == v2 * v2) by (nonlinear_arith)
        requires
            xa == a.x * a.x && zb == b.z * b.z && v2 == a.x * b.z,
    ;
    assert(ya * xb == w2 * w2) by (nonlinear_arith)
        requires
            ya == a.y * a.y && xb == b.x * b.x && w2 == a.y * b.x,
    ;
    assert(ya * yb == q * q) by (nonlinear_arith)
        requires
            ya == a.y * a.y && yb == b.y * b.y && q == a.y * b.y,
    ;
    assert(ya * zb == u1 * u1) by (nonlinear_arith)
        requires
            ya == a.y * a.y && zb == b.z * b.z && u1 == a.y * b.z,
    ;
    assert(za * xb == v1 * v1) by (nonlinear_arith)
        requires
            za == a.z * a.z && xb == b.x * b.x && v1 == a.z * b.x,
    ;
    assert(za * yb == u2 * u2) by (nonlinear_arith)
        requires
            za == a.z * a.z && yb == b.y * b.y && u2 == a.z * b.y,
    ;
    assert(za * zb == w * w) by (nonlinear_arith)
        requires
            za == a.z * a.z && zb == b.z * b.z && w == a.z * b.z,
    ;
    // The squared dot product expands over the three diagonal products.
    assert(sd * sd == p * p + q * q + w * w + 2 * (p * q) + 2 * (p * w) + 2 * (q * w))
        by (nonlinear_arith)
        requires
            sd == p + q + w,
    ;
    // Each off-diagonal product pairs two mixed products.
    assert(p * q == w1 * w2) by (nonlinear_arith)
        requires
            p == a.x * b.x && q == a.y * b.y && w1 == a.x * b.y && w2 == a.y * b.x,
    ;
    assert(p * w == v1 * v2) by (nonlinear_arith)
        requires
            p == a.x * b.x && w == a.z * b.z && v1 == a.z * b.x && v2 == a.x * b.z,
    ;
    assert(q * w == u1 * u2) by (nonlinear_arith)
        requires
            q == a.y * b.y && w == a.z * b.z && u1 == a.y * b.z && u2 == a.z * b.y,
    ;
    // What remains is exactly the squared cross product.
    assert(c.x * c.x == u1 * u1 - 2 * (u1 * u2) + u2 * u2) by (nonlinear_arith)
        requires
            c.x == u1 - u2,
    ;
    assert(c.y * c.y == v1 * v1 - 2 * (v1 * v2) + v2 * v2) by (nonlinear_arith)
        requires
            c.y == v1 - v2,
    ;
    assert(c.z * c.z == w1 * w1 - 2 * (w1 * w2) + w2 * w2) by (nonlinear_arith)
        requires
            c.z == w1 - w2,
    ;
}

/// The Cauchy-Schwarz inequality, a corollary of Lagrange's identity: a
/// squared dot product never exceeds the product of squared magnitudes.
pub proof fn lemma_dot_cauchy(a: Vec3, b: Vec3)
    ensures
        dot_v(a, b) * dot_v(a, b) <= dot_v(a, a) * dot_v(b, b),
{
    lemma_lagrange_identity(a, b);
    lemma_dot_self_nonneg(cross_v(a, b));
}

/// The discriminant measures the perpendicular offset: it equals
/// `radius^2 * |d|^2 - |oc x d|^2`.
pub proof fn lemma_discriminant_vs_offset(s: SphereModel, r: RayModel)
    ensures
        sphere_disc_v(s, r) == (s.radius * s.radius) * sphere_a_v(r) - dot_v(
            cross_v(sub_v(r.origin, s.center), r.direction),
            cross_v(sub_v(r.origin, s.center), r.direction),
        ),
{
    let oc = sub_v(r.origin, s.center);
    let d = r.direction;
    lemma_lagrange_identity(oc, d);
    let hb = sphere_half_b_v(s, r);
    let a = sphere_a_v(r);
    let oc2 = dot_v(oc, oc);
    let r2 = s.radius * s.radius;
    assert(a * (oc2 - r2) == a * oc2 - a * r2) by (nonlinear_arith);
    assert(oc2 * a == a * oc2) by (nonlinear_arith);
    assert(a * r2 == r2 * a) by (nonlinear_arith);
    assert(hb * hb - a * oc2 == -(oc2 * a - hb * hb));
}

/// Law: a ray whose perpendicular offset from the center exceeds the
/// radius misses the sphere entirely.
pub proof fn lemma_miss_when_offset_exceeds_radius(
    s: SphereModel,
    r: RayModel,
    t_min: int,
    t_max: int,
)
    requires
        dot_v(
            cross_v(sub_v(r.origin, s.center), r.direction),
            cross_v(sub_v(r.origin, s.center), r.direction),
        ) > (s.radius * s.radius) * sphere_a_v(r),
    ensures
        sphere_disc_v(s, r) < 0,
        sphere_hit_v(s, r, t_min, t_max) is None,
{
    lemma_discriminant_vs_offset(s, r);
}

/// Law: a ray tangent to the sphere (perpendicular offset equal to the
/// radius) has discriminant exactly zero, a single repeated root.
pub proof fn lemma_tangent_zero_discriminant(s: SphereModel, r: RayModel)
    requires
        dot_v(
            cross_v(sub_v(r.origin, s.center), r.direction),
            cross_v(sub_v(r.origin, s.center), r.direction),
        ) == (s.radius * s.radius) * sphere_a_v(r),
    ensures
        sphere_disc_v(s, r) == 0,
        sphere_a_v(r) != 0 ==> sphere_root1_v(s, r) == sphere_root2_v(s, r),
{
    lemma_discriminant_vs_offset(s, r);
    crate::fixed::lemma_sqrt_floor(0);
    crate::fixed::lemma_sqrt_floor_unique(0, 0);
}

/// Law: a ray aimed straight at the center from strictly outside the
/// sphere meets it in two distinct points: the discriminant is strictly
/// positive.
pub proof fn lemma_aimed_at_center_two_roots(s: SphereModel, r: RayModel)
    requires
        sphere_wf_v(s),
        r.direction == sub_v(s.center, r.origin),
        sphere_c_v(s, r) > 0,
    ensures
        sphere_disc_v(s, r) > 0,
{
    let oc = sub_v(r.origin, s.center);
    let d = r.direction;
    let a = sphere_a_v(r);
    let oc2 = dot_v(oc, oc);
    let r2 = s.radius * s.radius;
    assert(d.x == -oc.x && d.y == -oc.y && d.z == -oc.z);
    assert(a == oc2 && dot_v(oc, d) == -oc2) by (nonlinear_arith)
        requires
            d.x == -oc.x && d.y == -oc.y && d.z == -oc.z,
            a == d.x * d.x + d.y * d.y + d.z * d.z,
            oc2 == oc.x * oc.x + oc.y * oc.y + oc.z * oc.z,
            dot_v(oc, d) == oc.x * d.x + oc.y * d.y + oc.z * d.z,
    ;
    assert(r2 > 0) by (nonlinear_arith)
        requires
            s.radius >= 1,
            r2 == s.radius * s.radius,
    ;
    assert(sphere_disc_v(s, r) == (-oc2) * (-oc2) - oc2 * (oc2 - r2));
    assert((-oc2) * (-oc2) - oc2 * (oc2 - r2) == oc2 * r2) by (nonlinear_arith);
    assert(oc2 * r2 > 0) by (nonlinear_arith)
        requires
            oc2 - r2 > 0,
            r2 > 0,
    ;
}

/// Law: the chosen smaller root nearly solves the sphere equation. Its
/// quadratic residual, scaled by `a`, is pinned exactly by the two
/// rounding remainders - of the integer square root and of the root
/// division - so the reported parameter lies within rounding of the true
/// intersection: `|residual| <= 2*S^2*sd/a + 2*S*sd + a` after dividing
/// out `a`.
pub proof fn lemma_root_residual(s: SphereModel, r: RayModel)
    requires
        sphere_a_v(r) >= 1,
        sphere_disc_v(s, r) >= 0,
    ensures
        ({
            let a = sphere_a_v(r);
            let s2 = FP_ONE as int * FP_ONE as int;
            let disc = sphere_disc_v(s, r);
            let sd = sqrt_floor(disc as nat) as int;
            let e = ((-sphere_half_b_v(s, r) - sd) * FP_ONE as int) % a;
            &&& a * sphere_quadratic_v(s, r, sphere_root1_v(s, r)) == s2 * (sd * sd - disc)
                + 2 * (e * (FP_ONE as int * sd)) + e * e
            &&& -(2 * (s2 * sd)) <= a * sphere_quadratic_v(s, r, sphere_root1_v(s, r))
            &&& a * sphere_quadratic_v(s, r, sphere_root1_v(s, r)) <= 2 * (a * (FP_ONE as int
                * sd)) + a * a
        }),
{
    let a = sphere_a_v(r);
    let hb = sphere_half_b_v(s, r);
    let c = sphere_c_v(s, r);
    let disc = sphere_disc_v(s, r);
    let sp = FP_ONE as int;
    let s2 = sp * sp;
    crate::fixed::lemma_sqrt_floor(disc as nat);
    let sd = sqrt_floor(disc as nat) as int;
    let n = (-hb - sd) * sp;
    let t = sphere_root1_v(s, r);
    vstd::arithmetic::div_mod::lemma_fundamental_div_mod(n, a);
    vstd::arithmetic::div_mod::lemma_mod_bound(n, a);
    let e = n % a;
    assert(n == a * t + e);
    let q = sphere_quadratic_v(s, r, t);
    // Scale the residual by `a` so the root division can be substituted.
    let qx = a * (t * t);
    let qy = 2 * ((hb * sp) * t);
    let qz = c * s2;
    assert(a * q == a * qx + a * qy + a * qz) by (nonlinear_arith)
        requires
            q == qx + qy + qz,
    ;
    assert(a * qx == (a * t) * (a * t)) by (nonlinear_arith)
        requires
            qx == a * (t * t),
    ;
    assert(a * qy == 2 * ((hb * sp) * (a * t))) by (nonlinear_arith)
        requires
            qy == 2 * ((hb * sp) * t),
    ;
    assert(a * qz == (a * c) * s2) by (nonlinear_arith)
        requires
            qz == c * s2,
    ;
    assert((a * t) * (a * t) == n * n - 2 * (n * e) + e * e) by (nonlinear_arith)
        requires
            n == a * t + e,
    ;
    assert(2 * ((hb * sp) * (a * t)) == 2 * ((hb * sp) * n) - 2 * ((hb * sp) * e))
        by (nonlinear_arith)
        requires
            n == a * t + e,
    ;
    // The exact-root part collapses to the square-root remainder.
    assert(n * n == ((hb + sd) * (hb + sd)) * s2) by (nonlinear_arith)
        requires
            n == (-hb - sd) * sp,
            s2 == sp * sp,
    ;
    assert(2 * ((hb * sp) * n) == -(2 * ((hb * (hb + sd)) * s2))) by (nonlinear_arith)
        requires
            n == (-hb - sd) * sp,
            s2 == sp * sp,
    ;
    assert(((hb + sd) * (hb + sd)) * s2 - 2 * ((hb * (hb + sd)) * s2) + (a * c) * s2 == s2 * (
    sd * sd - disc)) by (nonlinear_arith)
        requires
            disc == hb * hb - a * c,
    ;
    // The remainder part collapses to the division remainder.
    assert(-(2 * (n * e)) - 2 * ((hb * sp) * e) == 2 * (e * (sp * sd))) by (nonlinear_arith)
        requires
            n == (-hb - sd) * sp,
    ;
    assert(a * q == s2 * (sd * sd - disc) + 2 * (e * (sp * sd)) + e * e);
    // Bounds: the square-root remainder is at most `2*sd`, the division
    // remainder below `a`.
    assert(-(2 * (s2 * sd)) <= s2 * (sd * sd - disc) <= 0) by (nonlinear_arith)
        requires
            sd * sd <= disc,
            disc < (sd + 1) * (sd + 1),
            sd >= 0,
            s2 == sp * sp,
            sp == 65536,
    ;
    assert(0 <= 2 * (e * (sp * sd)) + e * e <= 2 * (a * (sp * sd)) + a * a)
        by (nonlinear_arith)
        requires
            0 <= e < a,
            sd >= 0,
            sp == 65536,
    ;
}

/// One coordinate of the hit point, scaled up: the floored evaluation of
/// the ray splits off one division remainder below `FP_ONE`.
proof fn lemma_at_component_split(oc_i: int, d_i: int, t: int, pc_i: int, rho: int)
    requires
        d_i * t == FP_ONE as int * ((d_i * t) / FP_ONE as int) + rho,
        0 <= rho < FP_ONE,
        pc_i == oc_i + (d_i * t) / FP_ONE as int,
    ensures
        (FP_ONE as int * FP_ONE as int) * (pc_i * pc_i) == (FP_ONE as int * FP_ONE as int) * (
        oc_i * oc_i) + 2 * ((oc_i * FP_ONE as int) * (d_i * t)) + (d_i * t) * (d_i * t) - 2 * ((
        oc_i * FP_ONE as int + d_i * t) * rho) + rho * rho,
{
    let sp = FP_ONE as int;
    let w = oc_i * sp + d_i * t;
    assert(sp * pc_i == w - rho) by (nonlinear_arith)
        requires
            d_i * t == sp * ((d_i * t) / sp) + rho,
            pc_i == oc_i + (d_i * t) / sp,
            w == oc_i * sp + d_i * t,
    ;
    assert((sp * sp) * (pc_i * pc_i) == (sp * pc_i) * (sp * pc_i)) by (nonlinear_arith);
    assert((sp * pc_i) * (sp * pc_i) == w * w - 2 * (w * rho) + rho * rho) by (nonlinear_arith)
        requires
            sp * pc_i == w - rho,
    ;
    assert(w * w == (sp * sp) * (oc_i * oc_i) + 2 * ((oc_i * sp) * (d_i * t)) + (d_i * t) * (
    d_i * t)) by (nonlinear_arith)
        requires
            w == oc_i * sp + d_i * t,
    ;
}

/// Law: the reported hit point lies on the sphere surface up to rounding.
/// Its squared center distance, scaled by `FP_ONE^2`, equals the quadratic
/// residual at the chosen parameter plus `radius^2 * FP_ONE^2`, within a
/// few quanta per coordinate; combined with the root-residual law this
/// pins the point to the surface.
pub proof fn lemma_hit_point_near_surface(s: SphereModel, r: RayModel, t: int, b: int)
    requires
        bounded(sub_v(at_v(r, t), s.center), b),
        0 <= b,
    ensures
        ({
            let s2 = FP_ONE as int * FP_ONE as int;
            let pc = sub_v(at_v(r, t), s.center);
            let diff = s2 * dot_v(pc, pc) - sphere_quadratic_v(s, r, t) - (s.radius * s.radius)
                * s2;
            -(6 * (s2 * (b + 1))) <= diff <= 6 * (s2 * (b + 1)) + 3 * s2
        }),
{
    let sp = FP_ONE as int;
    let s2 = sp * sp;
    let oc = sub_v(r.origin, s.center);
    let d = r.direction;
    let pc = sub_v(at_v(r, t), s.center);
    let a = sphere_a_v(r);
    let hb = sphere_half_b_v(s, r);
    let q = sphere_quadratic_v(s, r, t);
    vstd::arithmetic::div_mod::lemma_fundamental_div_mod(d.x * t, sp);
    vstd::arithmetic::div_mod::lemma_fundamental_div_mod(d.y * t, sp);
    vstd::arithmetic::div_mod::lemma_fundamental_div_mod(d.z * t, sp);
    vstd::arithmetic::div_mod::lemma_mod_bound(d.x * t, sp);
    vstd::arithmetic::div_mod::lemma_mod_bound(d.y * t, sp);
    vstd::arithmetic::div_mod::lemma_mod_bound(d.z * t, sp);
    let rx = (d.x * t) % sp;
    let ry = (d.y * t) % sp;
    let rz = (d.z * t) % sp;
    assert(pc.x == oc.x + (d.x * t) / sp && pc.y == oc.y + (d.y * t) / sp && pc.z == oc.z + (
    d.z * t) / sp);
    lemma_at_component_split(oc.x, d.x, t, pc.x, rx);
    lemma_at_component_split(oc.y, d.y, t, pc.y, ry);
    lemma_at_component_split(oc.z, d.z, t, pc.z, rz);
    // The exact parts sum to the quadratic plus the squared radius.
    assert(s2 * dot_v(pc, pc) == s2 * (pc.x * pc.x) + s2 * (pc.y * pc.y) + s2 * (pc.z * pc.z))
        by (nonlinear_arith)
        requires
            dot_v(pc, pc) == pc.x * pc.x + pc.y * pc.y + pc.z * pc.z,
    ;
    assert(s2 * dot_v(oc, oc) == s2 * (oc.x * oc.x) + s2 * (oc.y * oc.y) + s2 * (oc.z * oc.z))
        by (nonlinear_arith)
        requires
            dot_v(oc, oc) == oc.x * oc.x + oc.y * oc.y + oc.z * oc.z,
    ;
    assert((d.x * t) * (d.x * t) == (d.x * d.x) * (t * t)) by (nonlinear_arith);
    assert((d.y * t) * (d.y * t) == (d.y * d.y) * (t * t)) by (nonlinear_arith);
    assert((d.z * t) * (d.z * t) == (d.z * d.z) * (t * t)) by (nonlinear_arith);
    assert(a * (t * t) == (d.x * d.x) * (t * t) + (d.y * d.y) * (t * t) + (d.z * d.z) * (t
        * t)) by (nonlinear_arith)
        requires
            a == d.x * d.x + d.y * d.y + d.z * d.z,
    ;
    assert((oc.x * sp) * (d.x * t) == (oc.x * d.x) * (sp * t)) by (nonlinear_arith);
    assert((oc.y * sp) * (d.y * t) == (oc.y * d.y) * (sp * t)) by (nonlinear_arith);
    assert((oc.z * sp) * (d.z * t) == (oc.z * d.z) * (sp * t)) by (nonlinear_arith);
    assert(hb * (sp * t) == (oc.x * d.x) * (sp * t) + (oc.y * d.y) * (sp * t) + (oc.z * d.z) * (
    sp * t)) by (nonlinear_arith)
        requires
            hb == oc.x * d.x + oc.y * d.y + oc.z * d.z,
    ;
    assert((hb * sp) * t == hb * (sp * t)) by (nonlinear_arith);
    assert(sphere_c_v(s, r) * s2 + (s.radius * s.radius) * s2 == s2 * dot_v(oc, oc))
        by (nonlinear_arith)
        requires
            sphere_c_v(s, r) == dot_v(oc, oc) - s.radius * s.radius,
    ;
    // The rounding parts are a few quanta per coordinate.
    lemma_at_rounding_bound(oc.x, d.x, t, pc.x, rx, b);
    lemma_at_rounding_bound(oc.y, d.y, t, pc.y, ry, b);
    lemma_at_rounding_bound(oc.z, d.z, t, pc.z, rz, b);
}

/// The rounding term of one hit-point coordinate stays within two quanta
/// of weight `b + 1`.
proof fn lemma_at_rounding_bound(oc_i: int, d_i: int, t: int, pc_i: int, rho: int, b: int)
    requires
        d_i * t == FP_ONE as int * ((d_i * t) / FP_ONE as int) + rho,
        0 <= rho < FP_ONE,
        pc_i == oc_i + (d_i * t) / FP_ONE as int,
        -b <= pc_i <= b,
        0 <= b,
    ensures
        ({
            let s2 = FP_ONE as int * FP_ONE as int;
            -(2 * (s2 * (b + 1))) <= -(2 * ((oc_i * FP_ONE as int + d_i * t) * rho)) + rho
                * rho <= 2 * (s2 * (b + 1)) + s2
        }),
{
    let sp = FP_ONE as int;
    let s2 = sp * sp;
    let w = oc_i * sp + d_i * t;
    assert(w == sp * pc_i + rho) by (nonlinear_arith)
        requires
            d_i * t == sp * ((d_i * t) / sp) + rho,
            pc_i == oc_i + (d_i * t) / sp,
            w == oc_i * sp + d_i * t,
    ;
    assert(-(sp * (b + 1)) <= w <= sp * (b + 1)) by (nonlinear_arith)
        requires
            w == sp * pc_i + rho,
            -b <= pc_i <= b,
            0 <= rho < sp,
            sp == 65536,
    ;
    assert(-(2 * ((sp * (b + 1)) * sp)) <= -(2 * (w * rho)) <= 2 * ((sp * (b + 1)) * sp))
        by (nonlinear_arith)
        requires
            -(sp * (b + 1)) <= w <= sp * (b + 1),
            0 <= rho < sp,
            sp == 65536,
            0 <= b,
    ;
    assert(0 <= rho * rho <= s2) by (nonlinear_arith)
        requires
            0 <= rho < sp,
            s2 == sp * sp,
            sp == 65536,
    ;
    assert((sp * (b + 1)) * sp == s2 * (b + 1)) by (nonlinear_arith)
        requires
            s2 == sp * sp,
    ;
}

/// Law: the stored outward normal has unit length up to rounding. Its
/// squared magnitude, scaled by `radius^2`, equals the hit point's squared
/// center distance scaled by `FP_ONE^2`, within a few quanta per
/// coordinate; the flip to oppose the ray does not change it.
pub proof fn lemma_normal_near_unit(pc: Vec3, radius: int, b: int)
    requires
        bounded(pc, b),
        1 <= radius,
        0 <= b,
    ensures
        ({
            let s2 = FP_ONE as int * FP_ONE as int;
            let n = div_v(pc, radius);
            let diff = (radius * radius) * dot_v(n, n) - s2 * dot_v(pc, pc);
            -(6 * ((b * FP_ONE as int) * radius)) <= diff <= 6 * ((b * FP_ONE as int) * radius)
                + 3 * (radius * radius)
        }),
        dot_v(neg_v(div_v(pc, radius)), neg_v(div_v(pc, radius))) == dot_v(
            div_v(pc, radius),
            div_v(pc, radius),
        ),
{
    let sp = FP_ONE as int;
    let s2 = sp * sp;
    let n = div_v(pc, radius);
    vstd::arithmetic::div_mod::lemma_fundamental_div_mod(pc.x * sp, radius);
    vstd::arithmetic::div_mod::lemma_fundamental_div_mod(pc.y * sp, radius);
    vstd::arithmetic::div_mod::lemma_fundamental_div_mod(pc.z * sp, radius);
    vstd::arithmetic::div_mod::lemma_mod_bound(pc.x * sp, radius);
    vstd::arithmetic::div_mod::lemma_mod_bound(pc.y * sp, radius);
    vstd::arithmetic::div_mod::lemma_mod_bound(pc.z * sp, radius);
    let gx = (pc.x * sp) % radius;
    let gy = (pc.y * sp) % radius;
    let gz = (pc.z * sp) % radius;
    assert(n.x == (pc.x * sp) / radius && n.y == (pc.y * sp) / radius && n.z == (pc.z * sp)
        / radius);
    lemma_normal_component_split(pc.x, radius, n.x, gx, b);
    lemma_normal_component_split(pc.y, radius, n.y, gy, b);
    lemma_normal_component_split(pc.z, radius, n.z, gz, b);
    assert((radius * radius) * dot_v(n, n) == (radius * radius) * (n.x * n.x) + (radius
        * radius) * (n.y * n.y) + (radius * radius) * (n.z * n.z)) by (nonlinear_arith)
        requires
            dot_v(n, n) == n.x * n.x + n.y * n.y + n.z * n.z,
    ;
    assert(s2 * dot_v(pc, pc) == s2 * (pc.x * pc.x) + s2 * (pc.y * pc.y) + s2 * (pc.z * pc.z))
        by (nonlinear_arith)
        requires
            dot_v(pc, pc) == pc.x * pc.x + pc.y * pc.y + pc.z * pc.z,
    ;
    assert((-n.x) * (-n.x) == n.x * n.x && (-n.y) * (-n.y) == n.y * n.y && (-n.z) * (-n.z)
        == n.z * n.z) by (nonlinear_arith);
}

/// One normal coordinate, scaled by the radius, splits off one division
/// remainder below the radius.
proof fn lemma_normal_component_split(pc_i: int, radius: int, n_i: int, g: int, b: int)
    requires
        pc_i * FP_ONE as int == radius * n_i + g,
        0 <= g < radius,
        n_i == (pc_i * FP_ONE as int) / radius,
        -b <= pc_i <= b,
        0 <= b,
        1 <= radius,
    ensures
        ({
            let s2 = FP_ONE as int * FP_ONE as int;
            -(2 * ((b * FP_ONE as int) * radius)) <= (radius * radius) * (n_i * n_i) - s2 * (
            pc_i * pc_i) <= 2 * ((b * FP_ONE as int) * radius) + radius * radius
        }),
{
    let sp = FP_ONE as int;
    let s2 = sp * sp;
    assert((radius * radius) * (n_i * n_i) == (pc_i * sp) * (pc_i * sp) - 2 * ((pc_i * sp) * g)
        + g * g) by (nonlinear_arith)
        requires
            pc_i * sp == radius * n_i + g,
    ;
    assert((pc_i * sp) * (pc_i * sp) == s2 * (pc_i * pc_i)) by (nonlinear_arith)
        requires
            s2 == sp * sp,
    ;
    assert(-((b * sp) * radius) <= (pc_i * sp) * g <= (b * sp) * radius) by (nonlinear_arith)
        requires
            -b <= pc_i <= b,
            0 <= g < radius,
            0 <= b,
            sp == 65536,
    ;
    assert(0 <= g * g <= radius * radius) by (nonlinear_arith)
        requires
            0 <= g < radius,
    ;
}

/// The smaller root is tried first and really is the smaller.
pub proof fn lemma_root_order(s: SphereModel, r: RayModel)
    requires
        sphere_a_v(r) >= 1,
        sphere_disc_v(s, r) >= 0,
    ensures
        sphere_root1_v(s, r) <= sphere_root2_v(s, r),
{
    let hb = sphere_half_b_v(s, r);
    let sd = sqrt_floor(sphere_disc_v(s, r) as nat) as int;
    assert((-hb - sd) * FP_ONE as int <= (-hb + sd) * FP_ONE as int) by (nonlinear_arith)
        requires
            sd >= 0,
            FP_ONE == 65536,
    ;
    vstd::arithmetic::div_mod::lemma_div_is_ordered(
        (-hb - sd) * FP_ONE as int,
        (-hb + sd) * FP_ONE as int,
        sphere_a_v(r),
    );
}

/// Law: when both roots exist, the nearer surface wins whenever its
/// parameter lies in the window; the farther root is only ever a fallback.
pub proof fn lemma_prefers_smaller_root(s: SphereModel, r: RayModel, t_min: int, t_max: int)
    requires
        sphere_a_v(r) >= 1,
        sphere_disc_v(s, r) >= 0,
        t_min < sphere_root1_v(s, r) < t_max,
    ensures
        sphere_root1_v(s, r) <= sphere_root2_v(s, r),
        sphere_root_v(s, r, t_min, t_max) == Some(sphere_root1_v(s, r)),
{
    lemma_root_order(s, r);
}

/// A reported intersection parameter lies strictly inside the open
/// search window.
pub proof fn lemma_sphere_hit_t_range(s: SphereModel, r: RayModel, t_min: int, t_max: int)
    ensures
        match sphere_hit_v(s, r, t_min, t_max) {
            Some(h) => t_min < h.t < t_max,
            None => true,
        },
{
}

/// Narrowing the top of the search window keeps a hit that still fits and
/// drops every other; it never conjures a new one. This is what lets the
/// scene scan test each sphere only against the best parameter so far.
pub proof fn lemma_sphere_hit_window(s: SphereModel, r: RayModel, t_min: int, w1: int, w2: int)
    requires
        w1 <= w2,
    ensures
        match sphere_hit_v(s, r, t_min, w2) {
            Some(h) => if h.t < w1 {
                sphere_hit_v(s, r, t_min, w1) == Some(h)
            } else {
                sphere_hit_v(s, r, t_min, w1) is None
            },
            None => sphere_hit_v(s, r, t_min, w1) is None,
        },
{
    let a = sphere_a_v(r);
    if a != 0 && sphere_disc_v(s, r) >= 0 {
        lemma_dot_self_nonneg(r.direction);
        lemma_root_order(s, r);
    }
}

/// Law: the stored normal always opposes the incoming ray: the record
/// keeps the outward normal exactly when the ray runs against it, and
/// flips it otherwise.
pub proof fn lemma_stored_normal_opposes_ray(s: SphereModel, r: RayModel, t: int)
    ensures
        match sphere_record_v(s, r, t) {
            Some(h) => dot_v(r.direction, h.normal) <= 0,
            None => true,
        },
{
    match sphere_record_v(s, r, t) {
        Some(h) => {
            let p = at_v(r, t);
            let outward = div_v(sub_v(p, s.center), s.radius);
            if dot_v(r.direction, outward) < 0 {
            } else {
                let d = r.direction;
                assert(d.x * (-outward.x) == -(d.x * outward.x)) by (nonlinear_arith);
                assert(d.y * (-outward.y) == -(d.y * outward.y)) by (nonlinear_arith);
                assert(d.z * (-outward.z) == -(d.z * outward.z)) by (nonlinear_arith);
            }
        },
        None => {},
    }
}

/// Negating the left argument negates a raw dot product.
pub proof fn lemma_dot_neg(a: Vec3, b: Vec3)
    ensures
        dot_v(neg_v(a), b) == -dot_v(a, b),
{
    assert((-a.x) * b.x == -(a.x * b.x)) by (nonlinear_arith);
    assert((-a.y) * b.y == -(a.y * b.y)) by (nonlinear_arith);
    assert((-a.z) * b.z == -(a.z * b.z)) by (nonlinear_arith);
}

} // verus!
