//! Hit records and the scene aggregate.
//!
//! The aggregate scans its spheres with a strictly narrowing open search
//! window, so the reported intersection is the closest one; a later sphere
//! whose root merely equals the current best is not taken.

use crate::fixed::FP_ONE;
use crate::material::{material_wf, Material};
use crate::ray::{Point3, Ray, RayModel};
use crate::sphere::{ray_wf, sphere_hit_v, Sphere, SphereModel, RAY_BOUND, T_CAP};
use crate::vector3::{bounded, dot_v, neg_v, DotProduct, Vec3, Vector3f, VEC_BOUND};
use vstd::prelude::*;

verus! {

/// The result of a successful ray-geometry intersection.
#[derive(Clone, Copy)]
pub struct HitData {
    pub at: Point3,
    pub normal: Vector3f,
    pub t: i64,
    pub hit_front_face: bool,
    pub material: Material,
}

/// The model of a hit record.
pub ghost struct HitModel {
    pub at: Vec3,
    pub normal: Vec3,
    pub t: int,
    pub hit_front_face: bool,
    pub material: Material,
}

impl View for HitData {
    type V = HitModel;

    open spec fn view(&self) -> HitModel {
        HitModel {
            at: self.at@,
            normal: self.normal@,
            t: self.t as int,
            hit_front_face: self.hit_front_face,
            material: self.material,
        }
    }
}

/// The model of an optional hit record.
pub open spec fn hit_view(h: Option<HitData>) -> Option<HitModel> {
    match h {
        Some(x) => Some(x@),
        None => None,
    }
}

impl HitData {
    /// Assemble a record, orienting the stored normal against the incoming
    /// ray: the front face was hit exactly when the ray runs against the
    /// outward normal.
    pub fn new(
        t: i64,
        hit_at: Point3,
        ray_direction: &Vector3f,
        outward_normal: &Vector3f,
        material: Material,
    ) -> (r: HitData)
        requires
            bounded(ray_direction@, VEC_BOUND as int),
            bounded(outward_normal@, VEC_BOUND as int),
        ensures
            r@.t == t,
            r@.at == hit_at@,
            r@.hit_front_face == (dot_v(ray_direction@, outward_normal@) < 0),
            r@.normal == if dot_v(ray_direction@, outward_normal@) < 0 {
                outward_normal@
            } else {
                neg_v(outward_normal@)
            },
            r@.material == material,
    {
        let hit_front_face = ray_direction.dot(outward_normal) < 0;
        let oriented = if hit_front_face {
            *outward_normal
        } else {
            outward_normal.neg()
        };
        HitData { at: hit_at, normal: oriented, t, hit_front_face, material }
    }
}

/// The scan from index `i` with the best record so far and its narrowed
/// window bound; mirrors the search loop exactly.
pub open spec fn list_hit_from(
    objs: Seq<SphereModel>,
    r: RayModel,
    t_min: int,
    best: Option<HitModel>,
    closest: int,
    i: int,
) -> Option<HitModel>
    decreases objs.len() - i,
{
    if i < 0 || i >= objs.len() {
        best
    } else {
        match sphere_hit_v(objs[i], r, t_min, closest) {
            Some(h) => if h.t < closest {
                list_hit_from(objs, r, t_min, Some(h), h.t, i + 1)
            } else {
                list_hit_from(objs, r, t_min, best, closest, i + 1)
            },
            None => list_hit_from(objs, r, t_min, best, closest, i + 1),
        }
    }
}

/// What the aggregate's search returns over the open window
/// `(t_min, t_max)`.
pub open spec fn list_hit_v(
    objs: Seq<SphereModel>,
    r: RayModel,
    t_min: int,
    t_max: int,
) -> Option<HitModel> {
    list_hit_from(objs, r, t_min, None, t_max, 0)
}

/// The scene aggregate: an ordered sequence of owned spheres.
pub struct HittableList {
    objects: Vec<Sphere>,
}

impl View for HittableList {
    type V = Seq<SphereModel>;

    closed spec fn view(&self) -> Seq<SphereModel> {
        self.objects@.map_values(|s: Sphere| s@)
    }
}

impl HittableList {
    pub fn new() -> (l: HittableList)
        ensures
            l@ == Seq::<SphereModel>::empty(),
    {
        let l = HittableList { objects: Vec::new() };
        proof {
            assert(l@ =~= Seq::<SphereModel>::empty());
        }
        l
    }

    /// Append an owned object to the scene.
    pub fn add(&mut self, object: Sphere)
        ensures
            final(self)@ == old(self)@.push(object@),
    {
        self.objects.push(object);
        proof {
            assert(self@ =~= old(self)@.push(object@));
        }
    }

    /// Empty the scene.
    pub fn clear_all(&mut self)
        ensures
            final(self)@ == Seq::<SphereModel>::empty(),
    {
        self.objects.clear();
        proof {
            assert(self@ =~= Seq::<SphereModel>::empty());
        }
    }

    /// The closest valid hit across all members: each object is tested
    /// against a window narrowed to the best parameter found so far.
    pub fn hit(&self, ray: &Ray, t_min: i64, t_max: i64) -> (h: Option<HitData>)
        requires
            ray_wf(ray@),
            0 <= t_min,
            t_max <= T_CAP,
        ensures
            hit_view(h) == list_hit_v(self@, ray@, t_min as int, t_max as int),
            h is Some ==> {
                &&& bounded(h->0@.at, RAY_BOUND as int)
                &&& bounded(h->0@.normal, 2 * FP_ONE as int)
                &&& t_min < h->0@.t < t_max
                &&& material_wf(h->0@.material)
            },
    {
        let mut closest_hit: Option<HitData> = None;
        let mut closest_t: i64 = t_max;
        let n = self.objects.len();
        let mut i: usize = 0;
        while i < n
            invariant
                n == self.objects@.len(),
                0 <= i <= n,
                ray_wf(ray@),
                0 <= t_min,
                closest_t <= t_max <= T_CAP,
                list_hit_from(
                    self@,
                    ray@,
                    t_min as int,
                    hit_view(closest_hit),
                    closest_t as int,
                    i as int,
                ) == list_hit_v(self@, ray@, t_min as int, t_max as int),
                closest_hit is None ==> closest_t == t_max,
                closest_hit is Some ==> {
                    &&& bounded(closest_hit->0@.at, RAY_BOUND as int)
                    &&& bounded(closest_hit->0@.normal, 2 * FP_ONE as int)
                    &&& t_min < closest_hit->0@.t < t_max
                    &&& material_wf(closest_hit->0@.material)
                    &&& closest_t == closest_hit->0@.t
                },
            decreases n - i,
        {
            let object = &self.objects[i];
            let hit = object.hit(ray, t_min, closest_t);
            proof {
                assert(self@[i as int] == self.objects@[i as int]@);
            }
            match hit {
                Some(hd) => {
                    if hd.t < closest_t {
                        closest_hit = Some(hd);
                        closest_t = hd.t;
                    }
                },
                None => {},
            }
            i = i + 1;
        }
        closest_hit
    }
}

/// The full-window intersection of the `j`-th scene object.
pub open spec fn hit_at(
    objs: Seq<SphereModel>,
    r: RayModel,
    t_min: int,
    t_max: int,
    j: int,
) -> Option<HitModel> {
    sphere_hit_v(objs[j], r, t_min, t_max)
}

/// The induction behind the closest-hit law: the scan state always
/// describes the best full-window hit over the prefix already visited.
proof fn lemma_list_hit_from_props(
    objs: Seq<SphereModel>,
    r: RayModel,
    t_min: int,
    t_max: int,
    best: Option<HitModel>,
    closest: int,
    i: int,
)
    requires
        0 <= i <= objs.len(),
        closest <= t_max,
        match best {
            None => closest == t_max && forall|j: int|
                0 <= j < i ==> #[trigger] hit_at(objs, r, t_min, t_max, j) is None,
            Some(h) => {
                &&& h.t == closest
                &&& t_min < h.t < t_max
                &&& exists|k: int|
                    0 <= k < i && #[trigger] hit_at(objs, r, t_min, t_max, k) == Some(h)
                &&& forall|j: int|
                    #![trigger hit_at(objs, r, t_min, t_max, j)]
                    0 <= j < i ==> match hit_at(objs, r, t_min, t_max, j) {
                        Some(g) => h.t <= g.t,
                        None => true,
                    }
            },
        },
    ensures
        match list_hit_from(objs, r, t_min, best, closest, i) {
            None => forall|j: int|
                0 <= j < objs.len() ==> #[trigger] hit_at(objs, r, t_min, t_max, j) is None,
            Some(h) => {
                &&& t_min < h.t < t_max
                &&& exists|k: int|
                    0 <= k < objs.len() && #[trigger] hit_at(objs, r, t_min, t_max, k) == Some(
                        h,
                    )
                &&& forall|j: int|
                    #![trigger hit_at(objs, r, t_min, t_max, j)]
                    0 <= j < objs.len() ==> match hit_at(objs, r, t_min, t_max, j) {
                        Some(g) => h.t <= g.t,
                        None => true,
                    }
            },
        },
    decreases objs.len() - i,
{
    if i < objs.len() {
        crate::sphere::lemma_sphere_hit_window(objs[i], r, t_min, closest, t_max);
        crate::sphere::lemma_sphere_hit_t_range(objs[i], r, t_min, closest);
        crate::sphere::lemma_sphere_hit_t_range(objs[i], r, t_min, t_max);
        assert(hit_at(objs, r, t_min, t_max, i) == sphere_hit_v(objs[i], r, t_min, t_max));
        match sphere_hit_v(objs[i], r, t_min, closest) {
            Some(h) => {
                if h.t < closest {
                    lemma_list_hit_from_props(objs, r, t_min, t_max, Some(h), h.t, i + 1);
                } else {
                    lemma_list_hit_from_props(objs, r, t_min, t_max, best, closest, i + 1);
                }
            },
            None => {
                lemma_list_hit_from_props(objs, r, t_min, t_max, best, closest, i + 1);
            },
        }
    }
}

/// Law: the scene aggregate reports the closest hit. When the search over
/// the open window `(t_min, t_max)` returns a record, it is one some
/// member reports over the full window, and no member reports a strictly
/// closer one, regardless of insertion order; when it returns nothing, no
/// member hits the window at all.
pub proof fn lemma_closest_hit(objs: Seq<SphereModel>, r: RayModel, t_min: int, t_max: int)
    ensures
        match list_hit_v(objs, r, t_min, t_max) {
            None => forall|j: int|
                0 <= j < objs.len() ==> #[trigger] hit_at(objs, r, t_min, t_max, j) is None,
            Some(h) => {
                &&& t_min < h.t < t_max
                &&& exists|k: int|
                    0 <= k < objs.len() && #[trigger] hit_at(objs, r, t_min, t_max, k) == Some(
                        h,
                    )
                &&& forall|j: int|
                    #![trigger hit_at(objs, r, t_min, t_max, j)]
                    0 <= j < objs.len() ==> match hit_at(objs, r, t_min, t_max, j) {
                        Some(g) => h.t <= g.t,
                        None => true,
                    }
            },
        },
{
    lemma_list_hit_from_props(objs, r, t_min, t_max, None, t_max, 0);
}

/// Law: an empty scene never reports a hit, so a traced ray there always
/// resolves to the sky gradient while any bounce budget remains.
pub proof fn lemma_empty_scene_misses(r: RayModel, t_min: int, t_max: int)
    ensures
        list_hit_v(Seq::<SphereModel>::empty(), r, t_min, t_max) is None,
{
}

} // verus!
