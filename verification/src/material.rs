//! Materials: the two scattering behaviours, as a tagged sum dispatched by
//! `match`, so the hot per-sample loop pays no virtual call.
//!
//! Scattering draws from the random source, so its contract states what
//! holds of every outcome; the deterministic part of each rule stands in a
//! function of its own with an exact contract.

use crate::fixed::{fp_mul, FP_ONE};
use crate::hit::HitData;
use crate::ray::{Ray, RayModel};
use crate::sphere::{random_vec_in_unit_sphere, RAY_BOUND};
use crate::vector3::{add_v, bounded, dot_v, reflect_v, Vec3, Vector3f, VEC_BOUND};
use vstd::prelude::*;

verus! {

/// Every channel of an albedo lies in the fixed-point interval `[0, 1]`.
pub open spec fn albedo01(a: Vec3) -> bool {
    &&& 0 <= a.x <= FP_ONE as int
    &&& 0 <= a.y <= FP_ONE as int
    &&& 0 <= a.z <= FP_ONE as int
}

/// A well-formed material: fractional reflectance, and a metal roughness
/// within `[0, 1]`.
pub open spec fn material_wf(m: Material) -> bool {
    match m {
        Material::Lambertian(l) => albedo01(l.albedo@),
        Material::Metal(mt) => albedo01(mt.albedo@) && 0 <= mt.roughness <= FP_ONE,
    }
}

/// What can come back as the scattered ray of a surface interaction,
/// whatever the random source produced: it starts at the hit point, and
/// its direction is the material's rule applied to some admissible draw.
pub open spec fn scatter_ray_outcome(
    m: Material,
    rin: RayModel,
    h: crate::hit::HitModel,
    scat: RayModel,
) -> bool {
    &&& scat.origin == h.at
    &&& match m {
        Material::Lambertian(_) => exists|v: Vec3|
            #![auto]
            bounded(v, FP_ONE as int) && dot_v(v, v) <= FP_ONE as int * FP_ONE as int
                && scat.direction == lambertian_dir_v(h.normal, v),
        Material::Metal(mt) => {
            let refl = reflect_v(rin.direction, h.normal);
            &&& 0 <= scat.direction.x - refl.x <= mt.roughness
            &&& 0 <= scat.direction.y - refl.y <= mt.roughness
            &&& 0 <= scat.direction.z - refl.z <= mt.roughness
            &&& mt.roughness > 0 ==> {
                &&& scat.direction.x - refl.x < mt.roughness
                &&& scat.direction.y - refl.y < mt.roughness
                &&& scat.direction.z - refl.z < mt.roughness
            }
            &&& mt.roughness == 0 ==> scat.direction == refl
        },
    }
}

impl Vector3f {
    /// All components below the near-zero tolerance. The tolerance of the
    /// scatter fallback is far below one fixed-point quantum, so only the
    /// exact zero vector qualifies.
    pub fn near_zero(&self) -> (r: bool)
        ensures
            r == (self@ == (Vec3 { x: 0, y: 0, z: 0 })),
    {
        self.x == 0 && self.y == 0 && self.z == 0
    }
}

/// An ideal diffuse surface.
#[derive(Clone, Copy)]
pub struct Lambertian {
    pub albedo: Vector3f,
}

impl Lambertian {
    pub fn new(albedo: Vector3f) -> (m: Lambertian)
        ensures
            m.albedo == albedo,
    {
        Lambertian { albedo }
    }
}

/// A reflective surface with an additive roughness perturbation.
#[derive(Clone, Copy)]
pub struct Metal {
    pub albedo: Vector3f,
    pub roughness: i64,
}

impl Metal {
    pub fn new(albedo: Vector3f, roughness: i64) -> (m: Metal)
        ensures
            m.albedo == albedo,
            m.roughness == roughness,
    {
        Metal { albedo, roughness }
    }

    /// A perfect mirror: no roughness.
    pub fn new_perfect(albedo: Vector3f) -> (m: Metal)
        ensures
            m.albedo == albedo,
            m.roughness == 0,
    {
        Metal { albedo, roughness: 0 }
    }
}

/// The closed set of material kinds.
#[derive(Clone, Copy)]
pub enum Material {
    Lambertian(Lambertian),
    Metal(Metal),
}

impl Material {
    /// The fractional reflectance of the surface, per channel.
    pub fn get_albedo(&self) -> (a: &Vector3f)
        ensures
            a == self.albedo_spec(),
    {
        match self {
            Material::Lambertian(m) => &m.albedo,
            Material::Metal(m) => &m.albedo,
        }
    }

    pub open spec fn albedo_spec(&self) -> Vector3f {
        match self {
            Material::Lambertian(m) => m.albedo,
            Material::Metal(m) => m.albedo,
        }
    }

    /// Compute the attenuation and the scattered ray for a surface
    /// interaction. Never fails: a degenerate diffuse direction falls back
    /// to the surface normal, and a mirror with zero roughness reflects
    /// exactly.
    pub fn scatter(
        &self,
        ray_in: &Ray,
        hit_data: &HitData,
        rng: &mut rand::rngs::StdRng,
    ) -> (out: (Vector3f, Ray))
        requires
            material_wf(*self),
            bounded(hit_data@.normal, 2 * FP_ONE as int),
            bounded(hit_data@.at, RAY_BOUND as int),
            bounded(ray_in@.direction, RAY_BOUND as int),
        ensures
            out.0 == self.albedo_spec(),
            scatter_ray_outcome(*self, ray_in@, hit_data@, out.1@),
            self is Lambertian && dot_v(hit_data@.normal, hit_data@.normal) == FP_ONE as int
                * FP_ONE as int ==> {
                &&& out.1@.direction != (Vec3 { x: 0, y: 0, z: 0 })
                &&& dot_v(out.1@.direction, hit_data@.normal) >= 0
            },
    {
        match self {
            Material::Lambertian(l) => {
                let sample = random_vec_in_unit_sphere(rng);
                let dir = lambertian_scatter_direction(&hit_data.normal, &sample);
                let scattered = Ray::new(hit_data.at, dir);
                proof {
                    assert(bounded(sample@, FP_ONE as int) && dot_v(sample@, sample@)
                        <= FP_ONE as int * FP_ONE as int && scattered@.direction
                        == lambertian_dir_v(hit_data@.normal, sample@));
                    if dot_v(hit_data@.normal, hit_data@.normal) == FP_ONE as int
                        * FP_ONE as int {
                        lemma_lambertian_dir_in_hemisphere(hit_data@.normal, sample@);
                    }
                }
                (l.albedo, scattered)
            },
            Material::Metal(m) => {
                let reflected = ray_in.direction().get_reflected(&hit_data.normal);
                proof {
                    lemma_reflect_bounded(ray_in@.direction, hit_data@.normal);
                }
                let px = perturb(rng, m.roughness);
                let py = perturb(rng, m.roughness);
                let pz = perturb(rng, m.roughness);
                let dir = Vector3f {
                    x: reflected.x + px,
                    y: reflected.y + py,
                    z: reflected.z + pz,
                };
                (m.albedo, Ray::new(hit_data.at, dir))
            },
        }
    }

    /// Runtime check of well-formedness, for use by constructors.
    pub fn is_wf(&self) -> (r: bool)
        ensures
            r == material_wf(*self),
    {
        let a = *self.get_albedo();
        let albedo_ok = 0 <= a.x && a.x <= FP_ONE && 0 <= a.y && a.y <= FP_ONE && 0 <= a.z
            && a.z <= FP_ONE;
        match self {
            Material::Lambertian(_) => albedo_ok,
            Material::Metal(m) => albedo_ok && 0 <= m.roughness && m.roughness <= FP_ONE,
        }
    }
}

/// The diffuse scatter direction for a given unit-sphere sample: the
/// normal plus the sample, or the normal alone when the sum vanishes.
pub open spec fn lambertian_dir_v(normal: Vec3, sample: Vec3) -> Vec3 {
    if add_v(normal, sample) == (Vec3 { x: 0, y: 0, z: 0 }) {
        normal
    } else {
        add_v(normal, sample)
    }
}

/// Law: against a unit-length normal, the diffuse scatter direction is
/// never the zero vector and never points into the surface, whatever
/// unit-sphere sample was drawn - degenerate sums fall back to the normal.
pub proof fn lemma_lambertian_dir_in_hemisphere(normal: Vec3, sample: Vec3)
    requires
        dot_v(normal, normal) == FP_ONE as int * FP_ONE as int,
        dot_v(sample, sample) <= FP_ONE as int * FP_ONE as int,
    ensures
        lambertian_dir_v(normal, sample) != (Vec3 { x: 0, y: 0, z: 0 }),
        dot_v(lambertian_dir_v(normal, sample), normal) >= 0,
{
    let d = lambertian_dir_v(normal, sample);
    let p = FP_ONE as int * FP_ONE as int;
    assert(p > 0) by (nonlinear_arith)
        requires
            p == FP_ONE as int * FP_ONE as int,
            FP_ONE == 65536,
    ;
    if add_v(normal, sample) == (Vec3 { x: 0, y: 0, z: 0 }) {
        assert(d == normal);
    } else {
        assert(d == add_v(normal, sample));
        assert(d.x * normal.x == normal.x * normal.x + sample.x * normal.x)
            by (nonlinear_arith)
            requires
                d.x == normal.x + sample.x,
        ;
        assert(d.y * normal.y == normal.y * normal.y + sample.y * normal.y)
            by (nonlinear_arith)
            requires
                d.y == normal.y + sample.y,
        ;
        assert(d.z * normal.z == normal.z * normal.z + sample.z * normal.z)
            by (nonlinear_arith)
            requires
                d.z == normal.z + sample.z,
        ;
        assert(dot_v(d, normal) == p + dot_v(sample, normal));
        crate::sphere::lemma_dot_cauchy(sample, normal);
        crate::vector3::lemma_dot_self_nonneg(sample);
        assert(dot_v(sample, normal) * dot_v(sample, normal) <= p * p) by (nonlinear_arith)
            requires
                dot_v(sample, normal) * dot_v(sample, normal) <= dot_v(sample, sample) * p,
                0 <= dot_v(sample, sample) <= p,
                p > 0,
        ;
        assert(-p <= dot_v(sample, normal)) by (nonlinear_arith)
            requires
                dot_v(sample, normal) * dot_v(sample, normal) <= p * p,
                p > 0,
        ;
    }
}

/// The deterministic part of the diffuse rule, split out so it can be
/// checked on chosen samples.
pub fn lambertian_scatter_direction(normal: &Vector3f, sample: &Vector3f) -> (d: Vector3f)
    requires
        bounded(normal@, VEC_BOUND as int),
        bounded(sample@, VEC_BOUND as int),
    ensures
        d@ == lambertian_dir_v(normal@, sample@),
{
    let s = normal.add(*sample);
    if s.near_zero() {
        *normal
    } else {
        s
    }
}

/// One additive roughness perturbation: a uniform draw in `[0, 1)` scaled
/// by the roughness, so it lies in `[0, roughness)` and vanishes for a
/// perfect mirror.
fn perturb(rng: &mut rand::rngs::StdRng, roughness: i64) -> (p: i64)
    requires
        0 <= roughness <= FP_ONE,
    ensures
        0 <= p <= roughness,
        roughness > 0 ==> p < roughness,
        roughness == 0 ==> p == 0,
{
    let u = crate::rng::rand_fp(rng);
    let p = fp_mul(u, roughness);
    proof {
        if roughness == 0 {
            assert(u as int * roughness as int == 0) by (nonlinear_arith)
                requires
                    roughness as int == 0,
            ;
        } else {
            crate::fixed::lemma_fpmul_fraction_strict(u as int, roughness as int);
        }
    }
    p
}

/// The reflection of a ray-bounded direction about a unit-scale normal
/// stays far inside the vector bounds.
pub proof fn lemma_reflect_bounded(d: Vec3, n: Vec3)
    requires
        bounded(d, RAY_BOUND as int),
        bounded(n, 2 * FP_ONE as int),
    ensures
        bounded(reflect_v(d, n), 0x8000_0000_0000),
{
    crate::vector3::lemma_dot_bounded(d, n, RAY_BOUND as int);
    assert(-0xC00_0000_0000_0000 <= dot_v(d, n) <= 0xC00_0000_0000_0000);
    lemma_reflect_component_bounded(d.x, dot_v(d, n), n.x);
    lemma_reflect_component_bounded(d.y, dot_v(d, n), n.y);
    lemma_reflect_component_bounded(d.z, dot_v(d, n), n.z);
}

/// One reflected component is the floored quotient of a numerator bounded
/// well inside `2^78`, so the quotient stays inside `2^47`.
proof fn lemma_reflect_component_bounded(v: int, d: int, n: int)
    requires
        -0x2000_0000 <= v <= 0x2000_0000,
        -0xC00_0000_0000_0000 <= d <= 0xC00_0000_0000_0000,
        -0x2_0000 <= n <= 0x2_0000,
    ensures
        -0x8000_0000_0000 <= (v * (FP_ONE * FP_ONE) - 2 * (d * n)) / (FP_ONE * FP_ONE)
            <= 0x8000_0000_0000,
{
    assert(-0x4000_0000_0000_0000_0000 <= v * (FP_ONE * FP_ONE) - 2 * (d * n)
        <= 0x4000_0000_0000_0000_0000) by (nonlinear_arith)
        requires
            -0x2000_0000 <= v <= 0x2000_0000,
            -0xC00_0000_0000_0000 <= d <= 0xC00_0000_0000_0000,
            -0x2_0000 <= n <= 0x2_0000,
            FP_ONE == 65536,
    ;
    assert(0x4000_0000_0000_0000_0000int / (FP_ONE * FP_ONE) == 0x4000_0000_0000)
        by (nonlinear_arith)
        requires
            FP_ONE == 65536,
    ;
    crate::fixed::lemma_div_bound_abs(
        v * (FP_ONE * FP_ONE) - 2 * (d * n),
        0x4000_0000_0000_0000_0000,
        (FP_ONE * FP_ONE) as int,
    );
}

} // verus!
