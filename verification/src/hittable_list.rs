//! The scene: an ordered list of primitives, itself intersectable.

use vstd::prelude::*;

verus! {

use crate::ray::Ray;
use crate::ray::DIR_LIMIT;
use crate::ray::POINT_LIMIT;
use crate::ray::T_LIMIT;
use crate::hittable::HitRecord;
use crate::hittable::Hittable;
use crate::hittable::hit_ok;
use crate::sphere::Sphere;
use crate::sphere::sphere_hit;

pub struct HittableList {
    pub objects: Vec<Sphere>,
}

/// The hit the scene reports: scan the primitives in order, keeping the
/// closest hit found so far and shrinking the upper end of the search
/// window to it.
pub open spec fn list_hit(objects: Seq<Sphere>, ray: Ray, t_min: i64, t_max: i64) -> Option<
    HitRecord,
>
    decreases objects.len(),
{
    if objects.len() == 0 {
        None
    } else {
        let prev = list_hit(objects.drop_last(), ray, t_min, t_max);
        let bound = match prev {
            Some(h) => h.t,
            None => t_max,
        };
        match sphere_hit(objects.last(), ray, t_min, bound) {
            Some(h) => Some(h),
            None => prev,
        }
    }
}

impl HittableList {
    pub fn new() -> (r: HittableList)
        ensures
            r.objects@ == Seq::<Sphere>::empty(),
    {
        HittableList { objects: Vec::new() }
    }

    pub fn add(&mut self, object: Sphere)
        ensures
            final(self).objects@ == old(self).objects@.push(object),
    {
        self.objects.push(object);
    }
}

impl Hittable for HittableList {
    /// A scene is usable when each of its primitives is.
    open spec fn wf(&self) -> bool {
        forall|i: int|
            0 <= i < self.objects@.len() ==> (#[trigger] self.objects@[i]).wf()
    }

    open spec fn hit_spec(&self, ray: Ray, t_min: i64, t_max: i64) -> Option<HitRecord> {
        list_hit(self.objects@, ray, t_min, t_max)
    }

    fn is_hit(&self, ray: &Ray, t_min: i64, t_max: i64) -> (r: Option<HitRecord>) {
        let mut hit_record: Option<HitRecord> = None;
        let mut closest_hit = t_max;
        let n = self.objects.len();
        let mut i: usize = 0;
        while i < n
            invariant
                0 <= i <= n,
                n == self.objects@.len(),
                self.wf(),
                ray.origin.bounded(POINT_LIMIT as int),
                ray.direction.bounded(DIR_LIMIT as int),
                0 <= t_min,
                t_max <= T_LIMIT,
                hit_record == list_hit(self.objects@.take(i as int), *ray, t_min, t_max),
                closest_hit == match hit_record {
                    Some(h) => h.t,
                    None => t_max,
                },
                hit_record matches Some(h) ==> {
                    &&& t_min <= h.t <= t_max
                    &&& h.point == ray.spec_at(h.t as int)
                    &&& hit_ok(h)
                },
            decreases n - i,
        {
            let object = &self.objects[i];
            if let Some(new_hit) = object.is_hit(ray, t_min, closest_hit) {
                closest_hit = new_hit.t;
                hit_record = Some(new_hit);
            }
            proof {
                assert(self.objects@.take(i + 1 as int).drop_last() =~= self.objects@.take(
                    i as int,
                ));
                assert(self.objects@.take(i + 1 as int).last() == self.objects@[i as int]);
            }
            i = i + 1;
        }
        proof {
            assert(self.objects@.take(n as int) =~= self.objects@);
        }
        hit_record
    }
}

/// A hit reported by a sphere lies inside the queried window.
proof fn lemma_sphere_hit_t(s: Sphere, ray: Ray, t_min: i64, t_max: i64)
    ensures
        sphere_hit(s, ray, t_min, t_max) matches Some(h) ==> t_min <= h.t <= t_max,
{
}

/// Shrinking the upper end of the window keeps exactly the hits that
/// fall at or under the new bound.
proof fn lemma_sphere_hit_window(s: Sphere, ray: Ray, t_min: i64, t1: i64, t2: i64)
    requires
        t1 <= t2,
    ensures
        sphere_hit(s, ray, t_min, t1) == match sphere_hit(s, ray, t_min, t2) {
            Some(h) => if h.t <= t1 {
                Some(h)
            } else {
                None
            },
            None => None::<HitRecord>,
        },
{
    let oc = ray.origin.spec_sub(s.center);
    let a = ray.direction.spec_length_squared();
    let half_b = oc.spec_dot(ray.direction);
    let c = oc.spec_length_squared() - crate::fixed::spec_fmul(s.radius as int, s.radius as int);
    let disc = crate::fixed::spec_fmul(half_b, half_b) - crate::fixed::spec_fmul(a, c);
    if a <= 0 || disc < 0 {
    } else {
        let sq = crate::fixed::spec_fsqrt(disc);
        crate::fixed::lemma_sqrt_floor_bounds((disc * (crate::fixed::SCALE as int)) as nat);
        assert((-half_b - sq) * (crate::fixed::SCALE as int) <= (-half_b + sq) * (
        crate::fixed::SCALE as int)) by (nonlinear_arith)
            requires sq >= 0;
        crate::fixed::lemma_tdiv_mono(
            (-half_b - sq) * (crate::fixed::SCALE as int),
            (-half_b + sq) * (crate::fixed::SCALE as int),
            a,
        );
    }
}

/// Scene aggregation is the brute-force minimum: the scan with a
/// shrinking window reports a hit exactly when some primitive hits
/// within the full window, and the reported hit is a primitive's own
/// full-window hit with the least parameter `t`.
pub proof fn lemma_scene_nearest(objects: Seq<Sphere>, ray: Ray, t_min: i64, t_max: i64)
    ensures
        list_hit(objects, ray, t_min, t_max) is None <==> (forall|i: int|
            0 <= i < objects.len() ==> (#[trigger] sphere_hit(objects[i], ray, t_min, t_max))
                is None),
        list_hit(objects, ray, t_min, t_max) matches Some(h) ==> exists|i: int|
            0 <= i < objects.len() && #[trigger] sphere_hit(objects[i], ray, t_min, t_max)
                == Some(h),
        list_hit(objects, ray, t_min, t_max) matches Some(h) ==> forall|i: int|
            0 <= i < objects.len() ==> ((#[trigger] sphere_hit(objects[i], ray, t_min, t_max))
                matches Some(g) ==> h.t <= g.t),
    decreases objects.len(),
{
    if objects.len() == 0 {
    } else {
        let prefix = objects.drop_last();
        let last = objects.last();
        lemma_scene_nearest(prefix, ray, t_min, t_max);
        let prev = list_hit(prefix, ray, t_min, t_max);
        let bound = match prev {
            Some(h) => h.t,
            None => t_max,
        };
        lemma_list_hit_t(prefix, ray, t_min, t_max);
        lemma_sphere_hit_window(last, ray, t_min, bound, t_max);
        assert(forall|i: int|
            0 <= i < prefix.len() ==> objects[i] == prefix[i]);
        assert(objects[objects.len() - 1] == last);
        match sphere_hit(last, ray, t_min, bound) {
            Some(h) => {
                assert(sphere_hit(objects[objects.len() - 1], ray, t_min, t_max) == Some(h));
            },
            None => {
                if prev is Some {
                    let h = prev->Some_0;
                    assert(exists|i: int|
                        0 <= i < prefix.len() && #[trigger] sphere_hit(prefix[i], ray, t_min, t_max)
                            == Some(h));
                    let w = choose|i: int|
                        0 <= i < prefix.len() && #[trigger] sphere_hit(prefix[i], ray, t_min, t_max)
                            == Some(h);
                    assert(sphere_hit(objects[w], ray, t_min, t_max) == Some(h));
                }
            },
        }
    }
}

/// A hit reported by the scan lies inside the queried window.
proof fn lemma_list_hit_t(objects: Seq<Sphere>, ray: Ray, t_min: i64, t_max: i64)
    ensures
        list_hit(objects, ray, t_min, t_max) matches Some(h) ==> t_min <= h.t <= t_max,
    decreases objects.len(),
{
    if objects.len() == 0 {
    } else {
        lemma_list_hit_t(objects.drop_last(), ray, t_min, t_max);
        let prev = list_hit(objects.drop_last(), ray, t_min, t_max);
        let bound = match prev {
            Some(h) => h.t,
            None => t_max,
        };
        lemma_sphere_hit_t(objects.last(), ray, t_min, bound);
    }
}

} // verus!
