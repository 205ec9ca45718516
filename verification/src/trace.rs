//! The path-tracing recursion.
//!
//! A ray resolves to black once the bounce budget is spent, to the sky
//! gradient on a miss, and otherwise to the hit material's attenuation
//! times whatever the scattered ray gathers. All channels stay inside the
//! fixed-point interval `[0, 1]`.

use crate::fixed::{div_floor_i64, fpmul, FP_ONE};
use crate::hit::{list_hit_v, HitModel, HittableList};
use crate::material::scatter_ray_outcome;
use crate::ray::{Ray, RayModel};
use crate::sphere::{ray_wf, SphereModel, RAY_BOUND, T_CAP};
use crate::vector3::{bounded, hadamard_v, lerp_v, unit_v, Normalize, Vec3, Vector3f};
use vstd::prelude::*;

verus! {

/// The smallest accepted intersection parameter: a little above zero, so a
/// scattered ray does not immediately re-hit its own surface.
pub const SHADOW_ACNE_TOLERANCE: i64 = 7;

/// Fixed-point white.
pub open spec fn white_v() -> Vec3 {
    Vec3 { x: FP_ONE as int, y: FP_ONE as int, z: FP_ONE as int }
}

/// Fixed-point sky blue: `(0.5, 0.7, 1.0)`.
pub open spec fn sky_blue_v() -> Vec3 {
    Vec3 { x: 32768, y: 45875, z: FP_ONE as int }
}

/// The background: white blended toward sky blue by the height of the
/// ray's unit direction, mapped from `[-1, 1]` to `[0, 1]`.
pub open spec fn sky_color_v(direction: Vec3) -> Vec3 {
    let u = unit_v(direction);
    let t = (u.y + FP_ONE as int) / 2;
    lerp_v(white_v(), sky_blue_v(), t)
}

/// Every channel lies in the fixed-point interval `[0, 1]`.
pub open spec fn color01(v: Vec3) -> bool {
    &&& 0 <= v.x <= FP_ONE as int
    &&& 0 <= v.y <= FP_ONE as int
    &&& 0 <= v.z <= FP_ONE as int
}

/// The possible results of the recursion: black once the budget is spent;
/// the exact sky gradient on a miss; and on a hit, the material's albedo
/// times a possible result of tracing some admissible scattered ray with
/// one less bounce (or times black, for the rare scattered ray that
/// escapes the ray bounds and is dropped).
pub open spec fn trace_outcome(objs: Seq<SphereModel>, r: RayModel, bounces: nat, c: Vec3) -> bool
    decreases bounces,
{
    if bounces == 0 {
        c == (Vec3 { x: 0, y: 0, z: 0 })
    } else {
        match list_hit_v(objs, r, SHADOW_ACNE_TOLERANCE as int, T_CAP as int) {
            None => c == sky_color_v(r.direction),
            Some(h) => exists|scat: RayModel, sub: Vec3|
                #![auto]
                {
                    &&& scatter_ray_outcome(h.material, r, h, scat)
                    &&& color01(sub)
                    &&& if ray_wf(scat) {
                        trace_outcome(objs, scat, (bounces - 1) as nat, sub)
                    } else {
                        sub == (Vec3 { x: 0, y: 0, z: 0 })
                    }
                    &&& c == hadamard_v(h.material.albedo_spec()@, sub)
                },
        }
    }
}

/// A channel product of two unit-interval channels stays in the interval.
pub proof fn lemma_fpmul_unit_interval(a: int, b: int)
    requires
        0 <= a <= FP_ONE as int,
        0 <= b <= FP_ONE as int,
    ensures
        0 <= fpmul(a, b) <= FP_ONE as int,
{
    assert(0 <= a * b <= FP_ONE as int * FP_ONE as int) by (nonlinear_arith)
        requires
            0 <= a <= FP_ONE as int,
            0 <= b <= FP_ONE as int,
    ;
    crate::fixed::lemma_div_stays_in_range(a * b, FP_ONE as int);
    vstd::arithmetic::div_mod::lemma_div_is_ordered(
        a * b,
        FP_ONE as int * FP_ONE as int,
        FP_ONE as int,
    );
    vstd::arithmetic::div_mod::lemma_div_by_multiple(FP_ONE as int, FP_ONE as int);
}

/// The Hadamard product of two unit-interval colors stays in the interval.
pub proof fn lemma_hadamard_color01(a: Vec3, b: Vec3)
    requires
        color01(a),
        color01(b),
    ensures
        color01(hadamard_v(a, b)),
{
    lemma_fpmul_unit_interval(a.x, b.x);
    lemma_fpmul_unit_interval(a.y, b.y);
    lemma_fpmul_unit_interval(a.z, b.z);
}

/// Components of a normalized vector stay within one fixed-point unit
/// (plus one quantum below, from the floor).
pub proof fn lemma_unit_v_bounded(a: Vec3)
    requires
        bounded(a, crate::vector3::VEC_BOUND as int),
    ensures
        -(FP_ONE as int) - 1 <= unit_v(a).x <= FP_ONE as int,
        -(FP_ONE as int) - 1 <= unit_v(a).y <= FP_ONE as int,
        -(FP_ONE as int) - 1 <= unit_v(a).z <= FP_ONE as int,
{
    crate::vector3::lemma_dot_self_nonneg(a);
    let d = crate::vector3::dot_v(a, a);
    let m = crate::vector3::mag_v(a);
    if m == 0 {
    } else {
        crate::fixed::lemma_sqrt_floor(d as nat);
        lemma_unit_component(a.x, a.y, a.z, m);
        lemma_unit_component(a.y, a.x, a.z, m);
        lemma_unit_component(a.z, a.x, a.y, m);
        assert(unit_v(a).x == (a.x * FP_ONE as int) / m);
        assert(unit_v(a).y == (a.y * FP_ONE as int) / m);
        assert(unit_v(a).z == (a.z * FP_ONE as int) / m);
        assert(a.x * a.x + a.y * a.y + a.z * a.z == a.y * a.y + a.x * a.x + a.z * a.z)
            by (nonlinear_arith);
        assert(a.x * a.x + a.y * a.y + a.z * a.z == a.z * a.z + a.x * a.x + a.y * a.y)
            by (nonlinear_arith);
    }
}

/// One component of normalization: with `v^2` at most the squared
/// magnitude, the floored quotient `v * FP_ONE / m` stays within one unit.
proof fn lemma_unit_component(v: int, w1: int, w2: int, m: int)
    requires
        m >= 1,
        m * m <= v * v + w1 * w1 + w2 * w2,
        v * v + w1 * w1 + w2 * w2 < (m + 1) * (m + 1),
    ensures
        -(FP_ONE as int) - 1 <= (v * FP_ONE as int) / m <= FP_ONE as int,
{
    assert(-m <= v <= m) by (nonlinear_arith)
        requires
            m >= 1,
            v * v + w1 * w1 + w2 * w2 < (m + 1) * (m + 1),
    ;
    assert(-(FP_ONE as int * m) <= v * FP_ONE as int <= FP_ONE as int * m)
        by (nonlinear_arith)
        requires
            -m <= v <= m,
            FP_ONE == 65536,
    ;
    crate::fixed::lemma_div_bound_abs(v * FP_ONE as int, FP_ONE as int * m, m);
    vstd::arithmetic::div_mod::lemma_div_by_multiple(FP_ONE as int, m);
}

/// Resolve the radiance along `self` through the scene, with at most
/// `bounces_left` scattering events.
impl Ray {
    pub fn find_color_from_ray_in_world(
        &self,
        meshes: &HittableList,
        bounces_left: u16,
        rng: &mut rand::rngs::StdRng,
    ) -> (c: Vector3f)
        requires
            ray_wf(self@),
        ensures
            color01(c@),
            bounces_left == 0 ==> c@ == (Vec3 { x: 0, y: 0, z: 0 }),
            bounces_left > 0 && list_hit_v(
                meshes@,
                self@,
                SHADOW_ACNE_TOLERANCE as int,
                T_CAP as int,
            ) is None ==> c@ == sky_color_v(self@.direction),
            trace_outcome(meshes@, self@, bounces_left as nat, c@),
        decreases bounces_left,
    {
        if bounces_left < 1 {
            // The budget is spent: no further light contribution.
            return Vector3f::zero();
        }

        let maybe_hit = meshes.hit(self, SHADOW_ACNE_TOLERANCE, T_CAP);
        match maybe_hit {
            Some(hit) => {
                let attenuation_and_scattered_ray = hit.material.scatter(self, &hit, rng);
                let attenuation = attenuation_and_scattered_ray.0;
                let scattered_ray = attenuation_and_scattered_ray.1;

                // Integer rounding cannot push a scattered direction out of
                // the ray bounds for genuine scene geometry, but the type
                // system does not know that: a degenerate ray contributes
                // no light.
                let rec = if ray_in_bounds(&scattered_ray) {
                    scattered_ray.find_color_from_ray_in_world(meshes, bounces_left - 1, rng)
                } else {
                    Vector3f::zero()
                };
                let out = attenuation.multiply_element_wise(&rec);
                proof {
                    lemma_hadamard_color01(attenuation@, rec@);
                    assert(color01(rec@) && out@ == hadamard_v(attenuation@, rec@));
                    let ghost h: HitModel = hit@;
                    assert(scatter_ray_outcome(h.material, self@, h, scattered_ray@));
                    assert(if ray_wf(scattered_ray@) {
                        trace_outcome(meshes@, scattered_ray@, (bounces_left - 1) as nat, rec@)
                    } else {
                        rec@ == (Vec3 { x: 0, y: 0, z: 0 })
                    });
                    assert(out@ == hadamard_v(h.material.albedo_spec()@, rec@));
                    assert(trace_outcome(meshes@, self@, bounces_left as nat, out@));
                }
                out
            },
            None => {
                // Nothing hit: the naturally emissive background.
                let unit_direction = self.direction().unit_vector();
                proof {
                    lemma_unit_v_bounded(self@.direction);
                }
                let t = div_floor_i64(unit_direction.y + FP_ONE, 2);
                let white = Vector3f::new(FP_ONE, FP_ONE, FP_ONE);
                let sky_blue = Vector3f::new(32768, 45875, FP_ONE);
                let c = Vector3f::lerp(&white, &sky_blue, t);
                proof {
                    lemma_sky_color01(self@.direction);
                }
                c
            },
        }
    }
}

/// Runtime check that a ray lies within the ray bounds.
fn ray_in_bounds(r: &Ray) -> (b: bool)
    ensures
        b == ray_wf(r@),
{
    let o = *r.origin();
    let d = *r.direction();
    o.x >= -RAY_BOUND && o.x <= RAY_BOUND && o.y >= -RAY_BOUND && o.y <= RAY_BOUND && o.z
        >= -RAY_BOUND && o.z <= RAY_BOUND && d.x >= -RAY_BOUND && d.x <= RAY_BOUND && d.y
        >= -RAY_BOUND && d.y <= RAY_BOUND && d.z >= -RAY_BOUND && d.z <= RAY_BOUND
}

/// The sky gradient is a unit-interval color, and never black: its blue
/// channel is always full.
pub proof fn lemma_sky_color01(direction: Vec3)
    requires
        bounded(direction, RAY_BOUND as int),
    ensures
        color01(sky_color_v(direction)),
        sky_color_v(direction).z == FP_ONE as int,
{
    lemma_unit_v_bounded(direction);
    let u = unit_v(direction);
    let t = (u.y + FP_ONE as int) / 2;
    vstd::arithmetic::div_mod::lemma_div_is_ordered(-1, u.y + FP_ONE as int, 2);
    vstd::arithmetic::div_mod::lemma_div_is_ordered(u.y + FP_ONE as int, 131072, 2);
    assert((-1int) / 2 == -1 && 131072int / 2 == 65536);
    assert(-1 <= t <= FP_ONE as int);
    lemma_sky_channel(-32768, t);
    lemma_sky_channel(-19661, t);
    lemma_sky_channel(0, t);
}

/// One sky channel: `FP_ONE + (diff * t) / FP_ONE` stays within
/// `[FP_ONE + diff, FP_ONE]` for a blend factor in `[-1, FP_ONE]` and a
/// nonpositive difference.
proof fn lemma_sky_channel(diff: int, t: int)
    requires
        -32768 <= diff <= 0,
        -1 <= t <= 65536,
    ensures
        diff <= fpmul(diff, t) <= 0,
{
    assert(diff * 65536 <= diff * t <= -diff) by (nonlinear_arith)
        requires
            -32768 <= diff <= 0,
            -1 <= t <= 65536,
    ;
    vstd::arithmetic::div_mod::lemma_div_is_ordered(diff * 65536, diff * t, 65536);
    vstd::arithmetic::div_mod::lemma_div_is_ordered(diff * t, 32768, 65536);
    vstd::arithmetic::div_mod::lemma_fundamental_div_mod_converse(diff * 65536, 65536, diff, 0);
    assert(32768int / 65536 == 0);
}

} // verus!
