//! The scene: a list of primitives, of which a ray hits the closest.

use vstd::prelude::*;
use crate::fixed::Fixed;
use crate::hittable::{HitRecord, Hittable};
use crate::ray::Ray;
use crate::sphere::strictly_between;

verus! {

/// A list of primitives, in the order in which they were added.
pub struct HittableList {
    pub objects: Vec<Hittable>,
}

/// The hit that a scan of `objects` from first to last reports for ray `r`:
/// each primitive is asked for a hit below the closest one found before it.
pub open spec fn spec_hit_among(objects: Seq<Hittable>, r: Ray, t_min: Fixed, t_max: Fixed) -> Option<
    HitRecord,
>
    decreases objects.len(),
{
    if objects.len() == 0 {
        None
    } else {
        let before = spec_hit_among(objects.drop_last(), r, t_min, t_max);
        let closest = match before {
            Some(h) => h.t,
            None => t_max,
        };
        match objects.last().spec_hit(r, t_min, closest) {
            Some(h) => Some(h),
            None => before,
        }
    }
}

/// Closest hit wins. A scan reports no hit exactly when no primitive is hit
/// between the bounds. Otherwise it reports the hit of one primitive between
/// those bounds, and no primitive has one with a smaller parameter, wherever
/// in the list it stands.
pub proof fn lemma_hit_is_closest(objects: Seq<Hittable>, r: Ray, t_min: Fixed, t_max: Fixed)
    ensures
        match spec_hit_among(objects, r, t_min, t_max) {
            None => forall|i: int|
                0 <= i < objects.len() ==> (#[trigger] objects[i]).spec_hit(r, t_min, t_max).is_none(),
            Some(h) => {
                &&& strictly_between(h.t, t_min, t_max)
                &&& exists|k: int|
                    0 <= k < objects.len() && (#[trigger] objects[k]).spec_hit(r, t_min, t_max)
                        == Some(h)
                &&& forall|i: int|
                    0 <= i < objects.len() ==> match (#[trigger] objects[i]).spec_hit(
                        r,
                        t_min,
                        t_max,
                    ) {
                        Some(g) => h.t.raw <= g.t.raw,
                        None => true,
                    }
            },
        },
    decreases objects.len(),
{
    if objects.len() > 0 {
        let init = objects.drop_last();
        let last = objects.last();
        lemma_hit_is_closest(init, r, t_min, t_max);
        let before = spec_hit_among(init, r, t_min, t_max);
        let closest = match before {
            Some(h) => h.t,
            None => t_max,
        };
        last.lemma_hit_narrowed(r, t_min, t_max, closest);
        last.lemma_hit_between(r, t_min, t_max);
        assert(objects[objects.len() - 1] == last);
        assert(forall|i: int| 0 <= i < init.len() ==> init[i] == objects[i]);
        match spec_hit_among(objects, r, t_min, t_max) {
            None => {
                assert forall|i: int| 0 <= i < objects.len() implies (#[trigger] objects[i]).spec_hit(
                    r,
                    t_min,
                    t_max,
                ).is_none() by {
                    if i < init.len() {
                        assert(init[i].spec_hit(r, t_min, t_max).is_none());
                    }
                }
            },
            Some(h) => {
                if last.spec_hit(r, t_min, closest).is_some() {
                    assert(objects[objects.len() - 1].spec_hit(r, t_min, t_max) == Some(h));
                } else {
                    let k = choose|k: int|
                        0 <= k < init.len() && (#[trigger] init[k]).spec_hit(r, t_min, t_max)
                            == Some(h);
                    assert(objects[k].spec_hit(r, t_min, t_max) == Some(h));
                }
                assert forall|i: int| 0 <= i < objects.len() implies match (#[trigger] objects[i]).spec_hit(
                    r,
                    t_min,
                    t_max,
                ) {
                    Some(g) => h.t.raw <= g.t.raw,
                    None => true,
                } by {
                    if i < init.len() {
                        assert(init[i] == objects[i]);
                        if before.is_some() {
                            assert(match init[i].spec_hit(r, t_min, t_max) {
                                Some(g) => before.unwrap().t.raw <= g.t.raw,
                                None => true,
                            });
                        } else {
                            assert(init[i].spec_hit(r, t_min, t_max).is_none());
                        }
                    }
                }
            },
        }
    }
}

impl HittableList {
    /// Whether the material of every primitive is well formed.
    pub open spec fn wf(&self) -> bool {
        forall|i: int| 0 <= i < self.objects@.len() ==> (#[trigger] self.objects@[i]).wf()
    }

    /// The closest hit of ray `r` on the scene with parameter strictly
    /// between `t_min` and `t_max`, if there is one.
    pub open spec fn spec_hit(&self, r: Ray, t_min: Fixed, t_max: Fixed) -> Option<HitRecord> {
        spec_hit_among(self.objects@, r, t_min, t_max)
    }

    /// The empty scene.
    pub fn new() -> (list: HittableList)
        ensures
            list.objects@ == Seq::<Hittable>::empty(),
    {
        HittableList { objects: Vec::new() }
    }

    /// Tests whether the material of every primitive is well formed.
    pub fn is_wf(&self) -> (b: bool)
        ensures
            b == self.wf(),
    {
        let mut i: usize = 0;
        while i < self.objects.len()
            invariant
                i <= self.objects.len(),
                forall|k: int| 0 <= k < i ==> (#[trigger] self.objects@[k]).wf(),
            decreases self.objects.len() - i,
        {
            if !self.objects[i].is_wf() {
                return false;
            }
            i += 1;
        }
        true
    }

    /// Appends a primitive to the scene.
    pub fn add(&mut self, object: Hittable)
        ensures
            final(self).objects@ == old(self).objects@.push(object),
            old(self).wf() && object.wf() ==> final(self).wf(),
    {
        self.objects.push(object);
    }

    /// Removes every primitive from the scene.
    pub fn clear(&mut self)
        ensures
            final(self).objects@ == Seq::<Hittable>::empty(),
    {
        self.objects.clear();
    }

    /// Finds the closest hit of ray `r` on the scene. On a hit the record is
    /// filled in; otherwise it is left as it was.
    pub fn hit(&self, r: Ray, t_min: Fixed, t_max: Fixed, rec: &mut HitRecord) -> (found: bool)
        ensures
            found == self.spec_hit(r, t_min, t_max).is_some(),
            found ==> *final(rec) == self.spec_hit(r, t_min, t_max).unwrap(),
            !found ==> *final(rec) == *old(rec),
    {
        let mut temp_rec = HitRecord::zero();
        let mut hit_anything = false;
        let mut closest_so_far = t_max;
        let mut i: usize = 0;
        while i < self.objects.len()
            invariant
                i <= self.objects.len(),
                hit_anything == spec_hit_among(self.objects@.take(i as int), r, t_min, t_max).is_some(),
                hit_anything ==> *rec == spec_hit_among(
                    self.objects@.take(i as int),
                    r,
                    t_min,
                    t_max,
                ).unwrap(),
                hit_anything ==> closest_so_far == rec.t,
                !hit_anything ==> *rec == *old(rec) && closest_so_far == t_max,
            decreases self.objects.len() - i,
        {
            assert(self.objects@.take(i + 1).drop_last() == self.objects@.take(i as int));
            if self.objects[i].hit(r, t_min, closest_so_far, &mut temp_rec) {
                hit_anything = true;
                closest_so_far = temp_rec.t;
                *rec = temp_rec;
            }
            i += 1;
        }
        assert(self.objects@.take(i as int) == self.objects@);
        hit_anything
    }
}

} // verus!
