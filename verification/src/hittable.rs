//! Hit records, the closed set of primitives, and the nearest-hit search
//! over a scene's primitive list.

use vstd::prelude::*;
use crate::material::{Material, material_wf, material_albedo_unit};
use crate::ray::Ray;
use crate::sphere::{Sphere, s_sphere_hit, lemma_sphere_hit_shrink};
use crate::util::Interval;
use crate::vector3::{Vec3, Point3, sv_dot, sv_neg, sv_lensq, dot};

verus! {

/// The result of a successful intersection: the hit point, the unit-ish
/// normal oriented against the incoming ray, the material at the point,
/// the ray parameter of the hit, and whether the ray came from outside.
#[derive(Clone, Copy, PartialEq, Eq, Structural, Debug)]
pub struct HitRecord {
    pub p: Point3,
    pub normal: Vec3,
    pub material: Material,
    pub t: i64,
    pub front_face: bool,
}

impl HitRecord {
    /// Orients the stored normal against the incoming ray: the outward
    /// normal is kept when the ray meets the surface from outside
    /// (dot < 0), and flipped otherwise.
    pub fn set_face_normal(&mut self, ray: &Ray, outward_normal: Vec3)
        ensures
            final(self).front_face == (sv_dot(ray.direction, outward_normal) < 0),
            final(self).normal == if sv_dot(ray.direction, outward_normal) < 0 {
                outward_normal
            } else {
                sv_neg(outward_normal)
            },
            final(self).p == old(self).p,
            final(self).t == old(self).t,
            final(self).material == old(self).material,
    {
        let front_face = dot(ray.direction(), &outward_normal) < 0;
        self.front_face = front_face;
        self.normal = if front_face {
            outward_normal
        } else {
            outward_normal.neg()
        };
    }

    pub fn update_as(&mut self, new_record: &HitRecord)
        ensures
            *final(self) == *new_record,
    {
        self.p = new_record.p;
        self.normal = new_record.normal;
        self.material = new_record.material;
        self.t = new_record.t;
        self.front_face = new_record.front_face;
    }
}

/// The closed set of primitives a scene may hold.
#[derive(Clone, Copy, PartialEq, Eq, Structural, Debug)]
pub enum Hittable {
    Sphere(Sphere),
}

/// What an intersection test of the primitive returns.
pub open spec fn s_hittable_hit(h: Hittable, ray: Ray, ray_t: Interval) -> Option<HitRecord> {
    match h {
        Hittable::Sphere(s) => s_sphere_hit(s, ray, ray_t),
    }
}

/// A primitive the intersection contracts can speak about: a sphere of
/// nonzero radius whose material is well formed.
pub open spec fn hittable_wf(h: Hittable) -> bool {
    match h {
        Hittable::Sphere(s) => s.radius != 0 && material_wf(s.material),
    }
}

impl Hittable {
    pub fn hit(&self, ray: &Ray, ray_t: Interval) -> (r: Option<HitRecord>)
        requires
            hittable_wf(*self),
            sv_lensq(ray.direction) > 0,
        ensures
            r == s_hittable_hit(*self, *ray, ray_t),
    {
        match self {
            Hittable::Sphere(s) => s.hit(ray, ray_t),
        }
    }
}

/// Every member of a scene list is well formed.
pub open spec fn list_wf(objs: Seq<Hittable>) -> bool {
    forall|i: int| 0 <= i < objs.len() ==> hittable_wf(#[trigger] objs[i])
}

/// The state of the nearest-hit search after the members before `i` have
/// been examined: the best record so far and the shrunken upper bound.
pub open spec fn s_list_hit_from(
    objs: Seq<Hittable>,
    i: int,
    ray: Ray,
    t_min: i64,
    closest: i64,
    best: Option<HitRecord>,
) -> Option<HitRecord>
    decreases objs.len() - i,
{
    if i < 0 || i >= objs.len() {
        best
    } else {
        match s_hittable_hit(objs[i], ray, Interval { min: t_min, max: closest }) {
            Option::Some(rec) => s_list_hit_from(objs, i + 1, ray, t_min, rec.t, Option::Some(rec)),
            Option::None => s_list_hit_from(objs, i + 1, ray, t_min, closest, best),
        }
    }
}

/// The nearest hit of the whole list inside `ray_t`: each member is
/// tested against an interval whose upper bound has shrunk to the best
/// parameter found so far, so the first member reaching the least t wins.
pub open spec fn s_list_hit(objs: Seq<Hittable>, ray: Ray, ray_t: Interval) -> Option<HitRecord> {
    s_list_hit_from(objs, 0, ray, ray_t.min, ray_t.max, Option::None)
}

proof fn lemma_list_hit_from_wf(
    objs: Seq<Hittable>,
    i: int,
    ray: Ray,
    t_min: i64,
    closest: i64,
    best: Option<HitRecord>,
)
    requires
        list_wf(objs),
        best matches Option::Some(b) ==> material_wf(b.material),
    ensures
        s_list_hit_from(objs, i, ray, t_min, closest, best) matches Option::Some(rec)
            ==> material_wf(rec.material),
    decreases objs.len() - i,
{
    if 0 <= i < objs.len() {
        match s_hittable_hit(objs[i], ray, Interval { min: t_min, max: closest }) {
            Option::Some(rec) => {
                lemma_list_hit_from_wf(objs, i + 1, ray, t_min, rec.t, Option::Some(rec));
            },
            Option::None => {
                lemma_list_hit_from_wf(objs, i + 1, ray, t_min, closest, best);
            },
        }
    }
}

/// A record the nearest-hit search returns carries the material of one of
/// the list's members, so of a well-formed list it is well formed too.
pub proof fn lemma_list_hit_wf(objs: Seq<Hittable>, ray: Ray, ray_t: Interval)
    requires
        list_wf(objs),
    ensures
        s_list_hit(objs, ray, ray_t) matches Option::Some(rec) ==> material_wf(rec.material),
{
    lemma_list_hit_from_wf(objs, 0, ray, ray_t.min, ray_t.max, Option::None);
}

/// An ordered scene: the list owns its primitives, and iteration order
/// only matters to break exact distance ties.
#[derive(Clone, Debug)]
pub struct HittableList {
    pub objects: Vec<Hittable>,
}

impl HittableList {
    pub fn new() -> (r: HittableList)
        ensures
            r.objects@ =~= Seq::<Hittable>::empty(),
    {
        HittableList { objects: Vec::new() }
    }

    pub fn add(&mut self, hittable_object: Hittable)
        ensures
            final(self).objects@ == old(self).objects@.push(hittable_object),
    {
        self.objects.push(hittable_object);
    }

    pub fn clear(&mut self)
        ensures
            final(self).objects@ =~= Seq::<Hittable>::empty(),
    {
        self.objects.clear();
    }

    /// The nearest intersection of the ray with any member, within `ray_t`.
    pub fn hit(&self, ray: &Ray, ray_t: Interval) -> (r: Option<HitRecord>)
        requires
            list_wf(self.objects@),
            sv_lensq(ray.direction) > 0,
        ensures
            r == s_list_hit(self.objects@, *ray, ray_t),
    {
        let mut best: Option<HitRecord> = None;
        let mut closest: i64 = ray_t.max;
        let mut i: usize = 0;
        while i < self.objects.len()
            invariant
                0 <= i <= self.objects.len(),
                list_wf(self.objects@),
                sv_lensq(ray.direction) > 0,
                s_list_hit(self.objects@, *ray, ray_t) == s_list_hit_from(
                    self.objects@,
                    i as int,
                    *ray,
                    ray_t.min,
                    closest,
                    best,
                ),
            decreases self.objects.len() - i,
        {
            match self.objects[i].hit(ray, Interval::new(ray_t.min, closest)) {
                Some(rec) => {
                    closest = rec.t;
                    best = Some(rec);
                },
                None => {},
            }
            i = i + 1;
        }
        best
    }
}

/// The nearest-hit law for two overlapping spheres on one ray: the
/// returned record's parameter is the least of the two spheres' own hit
/// parameters over the same interval, and the returned material is the
/// nearer sphere's (the first sphere wins an exact tie).
pub proof fn lemma_two_sphere_nearest(s1: Sphere, s2: Sphere, ray: Ray, itv: Interval)
    requires
        sv_lensq(ray.direction) > 0,
        s_sphere_hit(s1, ray, itv) is Some,
        s_sphere_hit(s2, ray, itv) is Some,
    ensures
        ({
            let r1 = s_sphere_hit(s1, ray, itv)->Some_0;
            let r2 = s_sphere_hit(s2, ray, itv)->Some_0;
            let res = s_list_hit(seq![Hittable::Sphere(s1), Hittable::Sphere(s2)], ray, itv);
            &&& res is Some
            &&& res->Some_0.t == if r2.t < r1.t {
                r2.t
            } else {
                r1.t
            }
            &&& res->Some_0.material == if r2.t < r1.t {
                s2.material
            } else {
                s1.material
            }
        }),
{
    let objs = seq![Hittable::Sphere(s1), Hittable::Sphere(s2)];
    let r1 = s_sphere_hit(s1, ray, itv)->Some_0;
    let r2 = s_sphere_hit(s2, ray, itv)->Some_0;
    assert(objs[0] == Hittable::Sphere(s1));
    assert(objs[1] == Hittable::Sphere(s2));
    assert(Interval { min: itv.min, max: itv.max } == itv);
    assert(r1.t < itv.max);
    lemma_sphere_hit_shrink(s2, ray, itv.min, itv.max, r1.t);
    assert(s_list_hit_from(objs, 0, ray, itv.min, itv.max, Option::None)
        == s_list_hit_from(objs, 1, ray, itv.min, r1.t, Option::Some(r1)));
    if r2.t < r1.t {
        assert(s_hittable_hit(objs[1], ray, Interval { min: itv.min, max: r1.t })
            == Option::Some(r2));
        assert(s_list_hit_from(objs, 1, ray, itv.min, r1.t, Option::Some(r1))
            == s_list_hit_from(objs, 2, ray, itv.min, r2.t, Option::Some(r2)));
    } else {
        assert(s_hittable_hit(objs[1], ray, Interval { min: itv.min, max: r1.t })
            is None);
        assert(s_list_hit_from(objs, 1, ray, itv.min, r1.t, Option::Some(r1))
            == s_list_hit_from(objs, 2, ray, itv.min, r1.t, Option::Some(r1)));
    }
}

/// Every member's albedo lies in the unit color cube.
pub open spec fn list_albedos_unit(objs: Seq<Hittable>) -> bool {
    forall|i: int|
        0 <= i < objs.len() ==> match #[trigger] objs[i] {
            Hittable::Sphere(sp) => material_albedo_unit(sp.material),
        }
}

proof fn lemma_list_hit_from_albedo(
    objs: Seq<Hittable>,
    i: int,
    ray: Ray,
    t_min: i64,
    closest: i64,
    best: Option<HitRecord>,
)
    requires
        list_albedos_unit(objs),
        best matches Option::Some(b) ==> material_albedo_unit(b.material),
    ensures
        s_list_hit_from(objs, i, ray, t_min, closest, best) matches Option::Some(rec)
            ==> material_albedo_unit(rec.material),
    decreases objs.len() - i,
{
    if 0 <= i < objs.len() {
        match s_hittable_hit(objs[i], ray, Interval { min: t_min, max: closest }) {
            Option::Some(rec) => {
                lemma_list_hit_from_albedo(objs, i + 1, ray, t_min, rec.t, Option::Some(rec));
            },
            Option::None => {
                lemma_list_hit_from_albedo(objs, i + 1, ray, t_min, closest, best);
            },
        }
    }
}

/// A record the nearest-hit search returns carries the material of one of
/// the list's members, so its albedo lies in the unit cube whenever every
/// member's does.
pub proof fn lemma_list_hit_albedo(objs: Seq<Hittable>, ray: Ray, ray_t: Interval)
    requires
        list_albedos_unit(objs),
    ensures
        s_list_hit(objs, ray, ray_t) matches Option::Some(rec) ==> material_albedo_unit(
            rec.material,
        ),
{
    lemma_list_hit_from_albedo(objs, 0, ray, ray_t.min, ray_t.max, Option::None);
}

} // verus!
