//! What a ray can hit: the intersection record, the capability that every
//! scene node offers, and the list of nodes that is itself a node.

use crate::aabb::AABB;
use crate::numbering::count_up;
use crate::ray::Ray;
use crate::scalar::Scalar;
use crate::texture::TexturePoint;
use crate::vec3::{Point3, Vec3, F};
use vstd::prelude::*;

verus! {

/// A scene node: something a ray can be tested against.
pub trait Hittable {
    /// The material that this node's intersection records carry.
    type Material;

    /// The intersection of `ray` with the node that the node reports for the
    /// parameter interval `[t_min, t_max]`, if there is one.
    fn hit(&self, ray: &Ray, t_min: F, t_max: F) -> Option<HitRecord<Self::Material>>;

    /// A box around everything the node occupies between the two instants,
    /// or nothing where the node is unbounded.
    fn bounding_box(&self, time0: F, time1: F) -> Option<AABB>;
}

/// What `object.hit(ray, t_min, t_max)` may return.
pub open spec fn may_hit<H: Hittable>(
    object: &H,
    ray: &Ray,
    t_min: F,
    t_max: F,
    r: Option<HitRecord<H::Material>>,
) -> bool {
    call_ensures(H::hit, (object, ray, t_min, t_max), r)
}

/// What `object.bounding_box(time0, time1)` may return.
pub open spec fn may_bound<H: Hittable>(object: &H, time0: F, time1: F, r: Option<AABB>) -> bool {
    call_ensures(H::bounding_box, (object, time0, time1), r)
}

/// One intersection of a ray with a surface.
pub struct HitRecord<M> {
    /// The point hit.
    pub p: Point3,
    /// The surface normal there, turned against the incoming ray.
    pub n: Vec3,
    /// The ray parameter of the point.
    pub t: F,
    /// The surface coordinates of the point.
    pub tp: TexturePoint,
    /// Whether the ray came from outside.
    pub front_face: bool,
    /// The material of the surface.
    pub material: M,
}

impl<M> HitRecord<M> {
    pub fn new(p: Point3, n: Vec3, t: F, tp: TexturePoint, front_face: bool, material: M) -> (r:
        HitRecord<M>)
        ensures
            r == (HitRecord { p, n, t, tp, front_face, material }),
    {
        HitRecord { p, n, t, tp, front_face, material }
    }

    pub fn p(&self) -> (r: Point3)
        ensures
            r == self.p,
    {
        self.p
    }

    pub fn n(&self) -> (r: Vec3)
        ensures
            r == self.n,
    {
        self.n
    }

    pub fn t(&self) -> (r: F)
        ensures
            r == self.t,
    {
        self.t
    }

    pub fn tp(&self) -> (r: TexturePoint)
        ensures
            r == self.tp,
    {
        self.tp
    }

    pub fn front_face(&self) -> (r: bool)
        ensures
            r == self.front_face,
    {
        self.front_face
    }

    pub fn material(&self) -> (r: &M)
        ensures
            *r == self.material,
    {
        &self.material
    }

    /// Orients the record. `facing` is the dot product of the ray's direction
    /// and `outward_normal`: where it is negative the ray came from outside
    /// and the normal is kept, else the normal is turned round.
    pub fn set_face_normal(&mut self, facing: F, outward_normal: Vec3)
        ensures
            final(self).front_face == facing.spec_lt(Scalar { bits: 0 }),
            final(self).n == if facing.spec_lt(Scalar { bits: 0 }) {
                outward_normal
            } else {
                outward_normal.spec_neg()
            },
            final(self).p == old(self).p,
            final(self).t == old(self).t,
            final(self).tp == old(self).tp,
            final(self).material == old(self).material,
    {
        self.front_face = facing.lt(Scalar::zero());
        self.n = if self.front_face {
            outward_normal
        } else {
            outward_normal.neg()
        };
    }

    pub fn set_p(&mut self, new_p: Point3)
        ensures
            final(self).p == new_p,
            final(self).n == old(self).n,
            final(self).t == old(self).t,
            final(self).tp == old(self).tp,
            final(self).front_face == old(self).front_face,
            final(self).material == old(self).material,
    {
        self.p = new_p;
    }

    pub fn set_n(&mut self, new_n: Vec3)
        ensures
            final(self).n == new_n,
            final(self).p == old(self).p,
            final(self).t == old(self).t,
            final(self).tp == old(self).tp,
            final(self).front_face == old(self).front_face,
            final(self).material == old(self).material,
    {
        self.n = new_n;
    }

    pub fn set_t(&mut self, new_t: F)
        ensures
            final(self).t == new_t,
            final(self).p == old(self).p,
            final(self).n == old(self).n,
            final(self).tp == old(self).tp,
            final(self).front_face == old(self).front_face,
            final(self).material == old(self).material,
    {
        self.t = new_t;
    }
}

/// The upper end of the interval in which a hit can still improve on `best`.
pub open spec fn upper_bound<M>(best: Option<HitRecord<M>>, t_max: F) -> F {
    match best {
        Some(h) => h.t,
        None => t_max,
    }
}

/// The later of two answers where it is a hit, else the earlier.
pub open spec fn spec_latest<M>(best: Option<HitRecord<M>>, found: Option<HitRecord<M>>) -> Option<
    HitRecord<M>,
> {
    if found is Some {
        found
    } else {
        best
    }
}

/// Keeps `found` where it is a hit, else `best`. A sweep that asks each node
/// only for hits no farther than `best` keeps the nearest hit this way.
pub fn latest<M>(best: Option<HitRecord<M>>, found: Option<HitRecord<M>>) -> (r: Option<HitRecord<M>>)
    ensures
        r == spec_latest(best, found),
{
    match found {
        Some(h) => Some(h),
        None => best,
    }
}

/// The hit that a sweep holds after the given answers: the last of them that
/// is a hit.
pub open spec fn last_hit<M>(answers: Seq<Option<HitRecord<M>>>) -> Option<HitRecord<M>>
    decreases answers.len(),
{
    if answers.len() == 0 {
        None
    } else {
        spec_latest(last_hit(answers.drop_last()), answers.last())
    }
}

/// `answers[k]` is what node `k` may answer when it is asked for a hit in
/// `[t_min, bound]`, where `bound` is `t_max` until the first hit among the
/// answers before it and the last such hit's parameter from then on.
pub open spec fn asked_in_turn<H: Hittable>(
    objects: Seq<H>,
    ray: Ray,
    t_min: F,
    t_max: F,
    answers: Seq<Option<HitRecord<H::Material>>>,
) -> bool {
    &&& answers.len() <= objects.len()
    &&& forall|k: int|
        0 <= k < answers.len() ==> may_hit(
            &objects[k],
            &ray,
            t_min,
            upper_bound(last_hit(answers.take(k)), t_max),
            #[trigger] answers[k],
        )
}

/// `best` is what a sweep over all the nodes may end with.
pub open spec fn swept<H: Hittable>(
    objects: Seq<H>,
    ray: Ray,
    t_min: F,
    t_max: F,
    best: Option<HitRecord<H::Material>>,
) -> bool {
    exists|answers: Seq<Option<HitRecord<H::Material>>>|
        answers.len() == objects.len() && #[trigger] asked_in_turn(
            objects,
            ray,
            t_min,
            t_max,
            answers,
        ) && best == last_hit(answers)
}

/// The union of a sequence of boxes, taken from the left.
pub open spec fn union_all(boxes: Seq<AABB>) -> AABB
    decreases boxes.len(),
{
    if boxes.len() <= 1 {
        boxes[0]
    } else {
        union_all(boxes.drop_last()).spec_union(boxes.last())
    }
}

/// `boxes[i]` is a box that node `start + i` may report for the two instants.
pub open spec fn boxes_of<H: Hittable>(
    objects: Seq<H>,
    start: int,
    time0: F,
    time1: F,
    boxes: Seq<AABB>,
) -> bool {
    forall|i: int|
        0 <= i < boxes.len() ==> may_bound(&objects[start + i], time0, time1, Some(#[trigger] boxes[i]))
}

/// Asks the nodes `start..end` for their boxes, in order. Returns the boxes,
/// or the index of the first node that has none.
pub fn bounding_boxes<H: Hittable>(
    objects: &Vec<H>,
    start: usize,
    end: usize,
    time0: F,
    time1: F,
) -> (r: Result<Vec<AABB>, usize>)
    requires
        start <= end <= objects@.len(),
    ensures
        match r {
            Ok(boxes) => boxes@.len() == end - start && boxes_of(
                objects@,
                start as int,
                time0,
                time1,
                boxes@,
            ),
            Err(k) => start <= k < end && may_bound(&objects@[k as int], time0, time1, None)
                && exists|boxes: Seq<AABB>|
                boxes.len() == k - start && #[trigger] boxes_of(
                    objects@,
                    start as int,
                    time0,
                    time1,
                    boxes,
                ),
        },
{
    let mut boxes: Vec<AABB> = Vec::new();
    let mut i: usize = start;
    while i < end
        invariant
            start <= i <= end,
            end <= objects@.len(),
            boxes@.len() == i - start,
            boxes_of(objects@, start as int, time0, time1, boxes@),
        decreases end - i,
    {
        match objects[i].bounding_box(time0, time1) {
            Some(b) => {
                boxes.push(b);
            },
            None => {
                return Err(i);
            },
        }
        i += 1;
    }
    Ok(boxes)
}

/// The union of the given boxes, or nothing where there are none.
pub fn surrounding_all(boxes: &Vec<AABB>) -> (r: Option<AABB>)
    ensures
        r == if boxes@.len() == 0 {
            None
        } else {
            Some(union_all(boxes@))
        },
{
    if boxes.len() == 0 {
        return None;
    }
    let mut out = boxes[0];
    let mut i: usize = 1;
    while i < boxes.len()
        invariant
            1 <= i <= boxes@.len(),
            out == union_all(boxes@.take(i as int)),
        decreases boxes@.len() - i,
    {
        proof {
            assert(boxes@.take(i + 1).drop_last() =~= boxes@.take(i as int));
        }
        out = AABB::surrounding_box(out, boxes[i]);
        i += 1;
    }
    proof {
        assert(boxes@.take(i as int) =~= boxes@);
    }
    Some(out)
}

/// Whether `bbox` is the smallest box around the boxes that `picks` names, as
/// far as `axis` goes: it starts where the first of them starts and ends where
/// the last of them ends.
pub open spec fn tight_around(bbox: AABB, picks: Seq<usize>, boxes: Seq<AABB>, axis: int) -> bool {
    &&& bbox.valid()
    &&& forall|k: int|
        0 <= k < picks.len() ==> bbox.min.spec_ix(axis).ord() <= boxes[(#[trigger] picks[k]) as int].min.spec_ix(
            axis,
        ).ord() && boxes[picks[k] as int].max.spec_ix(axis).ord() <= bbox.max.spec_ix(axis).ord()
    &&& exists|k: int|
        0 <= k < picks.len() && bbox.min.spec_ix(axis).ord() == boxes[(#[trigger] picks[k]) as int].min.spec_ix(
            axis,
        ).ord()
    &&& exists|k: int|
        0 <= k < picks.len() && bbox.max.spec_ix(axis).ord() == boxes[(#[trigger] picks[k]) as int].max.spec_ix(
            axis,
        ).ord()
}

/// Whether every box has its corners in order.
pub open spec fn all_valid(boxes: Seq<AABB>) -> bool {
    forall|i: int| 0 <= i < boxes.len() ==> (#[trigger] boxes[i]).valid()
}

/// The union of two tight boxes is tight around what both are around.
pub proof fn lemma_union_stays_tight(
    a: AABB,
    b: AABB,
    first: Seq<usize>,
    second: Seq<usize>,
    boxes: Seq<AABB>,
    axis: int,
)
    requires
        0 <= axis < 3,
        tight_around(a, first, boxes, axis),
        tight_around(b, second, boxes, axis),
    ensures
        tight_around(a.spec_union(b), first + second, boxes, axis),
{
    let both = first + second;
    let u = a.spec_union(b);
    crate::aabb::lemma_union_is_tight(a, b, axis);
    let a_lo = choose|k: int|
        0 <= k < first.len() && a.min.spec_ix(axis).ord() == boxes[(#[trigger] first[k]) as int].min.spec_ix(
            axis,
        ).ord();
    let a_hi = choose|k: int|
        0 <= k < first.len() && a.max.spec_ix(axis).ord() == boxes[(#[trigger] first[k]) as int].max.spec_ix(
            axis,
        ).ord();
    let b_lo = choose|k: int|
        0 <= k < second.len() && b.min.spec_ix(axis).ord() == boxes[(#[trigger] second[k]) as int].min.spec_ix(
            axis,
        ).ord();
    let b_hi = choose|k: int|
        0 <= k < second.len() && b.max.spec_ix(axis).ord() == boxes[(#[trigger] second[k]) as int].max.spec_ix(
            axis,
        ).ord();
    assert(both[a_lo] == first[a_lo]);
    assert(both[a_hi] == first[a_hi]);
    assert(both[b_lo + first.len()] == second[b_lo]);
    assert(both[b_hi + first.len()] == second[b_hi]);
    assert forall|k: int| 0 <= k < both.len() implies u.min.spec_ix(axis).ord() <= boxes[(
    #[trigger] both[k]) as int].min.spec_ix(axis).ord() && boxes[both[k] as int].max.spec_ix(
        axis,
    ).ord() <= u.max.spec_ix(axis).ord() by {
        if k < first.len() {
            assert(both[k] == first[k]);
        } else {
            assert(both[k] == second[k - first.len()]);
        }
    }
    if b.min.spec_ix(axis).ord() < a.min.spec_ix(axis).ord() {
        assert(u.min.spec_ix(axis).ord() == boxes[both[b_lo + first.len()] as int].min.spec_ix(
            axis,
        ).ord());
    } else {
        assert(u.min.spec_ix(axis).ord() == boxes[both[a_lo] as int].min.spec_ix(axis).ord());
    }
    if a.max.spec_ix(axis).ord() < b.max.spec_ix(axis).ord() {
        assert(u.max.spec_ix(axis).ord() == boxes[both[b_hi + first.len()] as int].max.spec_ix(
            axis,
        ).ord());
    } else {
        assert(u.max.spec_ix(axis).ord() == boxes[both[a_hi] as int].max.spec_ix(axis).ord());
    }
}

/// Two boxes that are tight around the same boxes, in whatever order, start
/// and end at the same places.
pub proof fn lemma_tight_boxes_agree(
    a: AABB,
    b: AABB,
    first: Seq<usize>,
    second: Seq<usize>,
    boxes: Seq<AABB>,
    axis: int,
)
    requires
        tight_around(a, first, boxes, axis),
        tight_around(b, second, boxes, axis),
        first.to_multiset() == second.to_multiset(),
    ensures
        a.min.spec_ix(axis).spec_equals(b.min.spec_ix(axis)),
        a.max.spec_ix(axis).spec_equals(b.max.spec_ix(axis)),
{
    first.to_multiset_ensures();
    second.to_multiset_ensures();
    let a_lo = choose|k: int|
        0 <= k < first.len() && a.min.spec_ix(axis).ord() == boxes[(#[trigger] first[k]) as int].min.spec_ix(
            axis,
        ).ord();
    let a_hi = choose|k: int|
        0 <= k < first.len() && a.max.spec_ix(axis).ord() == boxes[(#[trigger] first[k]) as int].max.spec_ix(
            axis,
        ).ord();
    let b_lo = choose|k: int|
        0 <= k < second.len() && b.min.spec_ix(axis).ord() == boxes[(#[trigger] second[k]) as int].min.spec_ix(
            axis,
        ).ord();
    let b_hi = choose|k: int|
        0 <= k < second.len() && b.max.spec_ix(axis).ord() == boxes[(#[trigger] second[k]) as int].max.spec_ix(
            axis,
        ).ord();
    assert(first.contains(first[a_lo]) && first.contains(first[a_hi]));
    assert(second.contains(second[b_lo]) && second.contains(second[b_hi]));
    assert(first.to_multiset().count(first[a_lo]) > 0);
    assert(first.to_multiset().count(first[a_hi]) > 0);
    assert(second.to_multiset().count(second[b_lo]) > 0);
    assert(second.to_multiset().count(second[b_hi]) > 0);
    assert(second.contains(first[a_lo]) && second.contains(first[a_hi]));
    assert(first.contains(second[b_lo]) && first.contains(second[b_hi]));
    let i0 = choose|i: int| 0 <= i < second.len() && second[i] == first[a_lo];
    let i1 = choose|i: int| 0 <= i < second.len() && second[i] == first[a_hi];
    let j0 = choose|i: int| 0 <= i < first.len() && first[i] == second[b_lo];
    let j1 = choose|i: int| 0 <= i < first.len() && first[i] == second[b_hi];
    assert(b.min.spec_ix(axis).ord() <= boxes[second[i0] as int].min.spec_ix(axis).ord());
    assert(boxes[second[i1] as int].max.spec_ix(axis).ord() <= b.max.spec_ix(axis).ord());
    assert(a.min.spec_ix(axis).ord() <= boxes[first[j0] as int].min.spec_ix(axis).ord());
    assert(boxes[first[j1] as int].max.spec_ix(axis).ord() <= a.max.spec_ix(axis).ord());
}

/// The union of a sequence of boxes with ordered corners is tight around
/// all of them.
pub proof fn lemma_union_all_is_tight(boxes: Seq<AABB>, axis: int)
    requires
        0 < boxes.len() <= usize::MAX,
        all_valid(boxes),
        0 <= axis < 3,
    ensures
        tight_around(union_all(boxes), count_up(boxes.len() as int), boxes, axis),
    decreases boxes.len(),
{
    let n = boxes.len() as int;
    let picks = count_up(n);
    if n == 1 {
        assert(boxes[0].valid());
        assert(picks[0] == 0);
        assert(tight_around(boxes[0], picks, boxes, axis));
    } else {
        let head = boxes.drop_last();
        assert forall|i: int| 0 <= i < head.len() implies (#[trigger] head[i]).valid() by {
            assert(head[i] == boxes[i]);
        }
        lemma_union_all_is_tight(head, axis);
        let head_picks = count_up(n - 1);
        let part = union_all(head);
        assert(tight_around(part, head_picks, boxes, axis)) by {
            let lo = choose|k: int|
                0 <= k < head_picks.len() && part.min.spec_ix(axis).ord() == head[(
                #[trigger] head_picks[k]) as int].min.spec_ix(axis).ord();
            let hi = choose|k: int|
                0 <= k < head_picks.len() && part.max.spec_ix(axis).ord() == head[(
                #[trigger] head_picks[k]) as int].max.spec_ix(axis).ord();
            assert(head[head_picks[lo] as int] == boxes[head_picks[lo] as int]);
            assert(head[head_picks[hi] as int] == boxes[head_picks[hi] as int]);
            assert forall|k: int| 0 <= k < head_picks.len() implies part.min.spec_ix(axis).ord()
                <= boxes[(#[trigger] head_picks[k]) as int].min.spec_ix(axis).ord() && boxes[head_picks[k] as int].max.spec_ix(
                axis,
            ).ord() <= part.max.spec_ix(axis).ord() by {
                assert(head[head_picks[k] as int] == boxes[head_picks[k] as int]);
            }
        }
        let last_pick = seq![(n - 1) as usize];
        assert(boxes[n - 1].valid());
        assert(last_pick[0] == n - 1);
        assert(tight_around(boxes[n - 1], last_pick, boxes, axis));
        lemma_union_stays_tight(part, boxes[n - 1], head_picks, last_pick, boxes, axis);
        assert(head_picks + last_pick =~= picks);
    }
}

/// What a list's `bounding_box` returns: nothing for the empty list and for a
/// list with a node that has no box, else the union of the nodes' boxes.
pub open spec fn list_bounds<H: Hittable>(objects: Seq<H>, time0: F, time1: F, r: Option<AABB>) -> bool {
    exists|boxes: Seq<AABB>|
        #![trigger boxes_of(objects, 0, time0, time1, boxes)]
        boxes.len() <= objects.len() && boxes_of(objects, 0, time0, time1, boxes) && if boxes.len()
            == objects.len() {
            r == if boxes.len() == 0 {
                None
            } else {
                Some(union_all(boxes))
            }
        } else {
            r is None && may_bound(&objects[boxes.len() as int], time0, time1, None)
        }
}

/// Nodes in the order in which they were added.
pub struct HittableList<H> {
    pub objects: Vec<H>,
}

impl<H> HittableList<H> {
    /// The empty list.
    pub fn new() -> (r: HittableList<H>)
        ensures
            r.objects@.len() == 0,
    {
        HittableList { objects: Vec::new() }
    }

    /// Appends a node.
    pub fn add(&mut self, object: H)
        ensures
            final(self).objects@ == old(self).objects@.push(object),
    {
        self.objects.push(object)
    }

    /// Removes every node.
    pub fn _clear(&mut self)
        ensures
            final(self).objects@.len() == 0,
    {
        self.objects.clear()
    }

    /// The number of nodes.
    pub fn len(&self) -> (r: usize)
        ensures
            r == self.objects@.len(),
    {
        self.objects.len()
    }

    /// The node at `index`.
    pub fn ix(&self, index: usize) -> (r: &H)
        requires
            index < self.objects@.len(),
        ensures
            *r == self.objects@[index as int],
    {
        &self.objects[index]
    }
}

impl<H: Hittable> Hittable for HittableList<H> {
    type Material = H::Material;

    /// Sweeps the nodes in order and keeps the nearest hit: each node is
    /// asked only for hits no farther than the nearest found before it.
    fn hit(&self, ray: &Ray, t_min: F, t_max: F) -> (r: Option<HitRecord<H::Material>>)
        ensures
            swept(self.objects@, *ray, t_min, t_max, r),
    {
        let mut hit_record: Option<HitRecord<H::Material>> = None;
        let mut closest = t_max;
        let ghost mut answers: Seq<Option<HitRecord<H::Material>>> = Seq::empty();
        let mut i: usize = 0;
        while i < self.objects.len()
            invariant
                i <= self.objects@.len(),
                answers.len() == i,
                asked_in_turn(self.objects@, *ray, t_min, t_max, answers),
                hit_record == last_hit(answers),
                closest == upper_bound(hit_record, t_max),
            decreases self.objects@.len() - i,
        {
            let found = self.objects[i].hit(ray, t_min, closest);
            proof {
                let longer = answers.push(found);
                assert(longer.drop_last() =~= answers);
                assert forall|k: int| 0 <= k < longer.len() implies may_hit(
                    &self.objects@[k],
                    ray,
                    t_min,
                    upper_bound(last_hit(longer.take(k)), t_max),
                    #[trigger] longer[k],
                ) by {
                    if k < i {
                        assert(longer.take(k) =~= answers.take(k));
                        assert(longer[k] == answers[k]);
                    } else {
                        assert(longer.take(k) =~= answers);
                    }
                }
                answers = longer;
            }
            if let Some(ref temp_record) = found {
                closest = temp_record.t;
            }
            hit_record = latest(hit_record, found);
            i += 1;
        }
        hit_record
    }

    /// The union of the nodes' boxes. Nothing for an empty list, and nothing
    /// as soon as one node has no box.
    fn bounding_box(&self, time0: F, time1: F) -> (r: Option<AABB>)
        ensures
            list_bounds(self.objects@, time0, time1, r),
    {
        match bounding_boxes(&self.objects, 0, self.objects.len(), time0, time1) {
            Ok(boxes) => {
                let out = surrounding_all(&boxes);
                proof {
                    assert(boxes_of(self.objects@, 0, time0, time1, boxes@));
                }
                out
            },
            Err(k) => {
                proof {
                    let boxes = choose|boxes: Seq<AABB>|
                        boxes.len() == k - 0 && #[trigger] boxes_of(
                            self.objects@,
                            0,
                            time0,
                            time1,
                            boxes,
                        );
                    assert(boxes_of(self.objects@, 0, time0, time1, boxes));
                }
                None
            },
        }
    }
}

/// Whether `c` lies in `[low, high]`.
pub open spec fn in_range(c: F, low: F, high: F) -> bool {
    low.spec_le(c) && c.spec_le(high)
}

/// Whether `r` is the answer of something that crosses the ray at the
/// parameters `crossings` and reports the nearest crossing in `[low, high]`:
/// nothing where no crossing lies in the interval, else a record at a
/// crossing in the interval that no other crossing in it precedes.
pub open spec fn answers_nearest<M>(crossings: Set<F>, low: F, high: F, r: Option<HitRecord<M>>) -> bool {
    match r {
        None => forall|c: F| crossings.contains(c) ==> !in_range(c, low, high),
        Some(h) => crossings.contains(h.t) && in_range(h.t, low, high) && forall|c: F|
            crossings.contains(c) && in_range(c, low, high) ==> h.t.spec_le(c),
    }
}

/// Whether `object`, asked about `ray` from `t_min` up to any bound that is a
/// number, reports its nearest crossing in that interval.
pub open spec fn reports_nearest<H: Hittable>(object: &H, ray: Ray, crossings: Set<F>, t_min: F) -> bool {
    forall|high: F, r: Option<HitRecord<H::Material>>|
        !high.nan() && #[trigger] may_hit(object, &ray, t_min, high, r) ==> answers_nearest(
            crossings,
            t_min,
            high,
            r,
        )
}

/// The crossings of the first `n` of a family of crossing sets.
pub open spec fn crossings_upto(crossings: spec_fn(int) -> Set<F>, n: int) -> Set<F> {
    Set::new(|c: F| exists|i: int| 0 <= i < n && #[trigger] crossings(i).contains(c))
}

/// The crossings of the first `n` sets are those of the first `n - 1`
/// together with those of the last.
pub proof fn lemma_crossings_grow_by_one(crossings: spec_fn(int) -> Set<F>, n: int)
    requires
        n > 0,
    ensures
        crossings_upto(crossings, n) == crossings_upto(crossings, n - 1).union(crossings(n - 1)),
{
    let all = crossings_upto(crossings, n);
    let before = crossings_upto(crossings, n - 1);
    let own = crossings(n - 1);
    assert forall|c: F| all.contains(c) implies before.union(own).contains(c) by {
        let i = choose|i: int| 0 <= i < n && #[trigger] crossings(i).contains(c);
        if i < n - 1 {
            assert(before.contains(c));
        }
    }
    assert forall|c: F| before.union(own).contains(c) implies all.contains(c) by {
        if before.contains(c) {
            let i = choose|i: int| 0 <= i < n - 1 && #[trigger] crossings(i).contains(c);
            assert(crossings(i).contains(c));
        } else {
            assert(crossings(n - 1).contains(c));
        }
    }
    assert(all =~= before.union(own));
}

/// Two nearest answers over the same crossings and interval agree: both are
/// misses, or both are hits at the same parameter.
pub proof fn lemma_nearest_is_unique<M>(
    crossings: Set<F>,
    low: F,
    high: F,
    a: Option<HitRecord<M>>,
    b: Option<HitRecord<M>>,
)
    requires
        answers_nearest(crossings, low, high, a),
        answers_nearest(crossings, low, high, b),
    ensures
        a is Some == b is Some,
        a is Some ==> a->0.t.spec_equals(b->0.t),
{
}

/// Asking a second thing only about the interval up to the first thing's hit,
/// and preferring its hit, gives the nearest hit of both.
pub proof fn lemma_nearest_of_both<M>(
    first: Set<F>,
    second: Set<F>,
    t_min: F,
    t_max: F,
    before: Option<HitRecord<M>>,
    found: Option<HitRecord<M>>,
)
    requires
        !t_min.nan(),
        !t_max.nan(),
        answers_nearest(first, t_min, t_max, before),
        answers_nearest(second, t_min, upper_bound(before, t_max), found),
    ensures
        answers_nearest(first.union(second), t_min, t_max, spec_latest(before, found)),
{
    let both = first.union(second);
    assert forall|c: F| both.contains(c) implies first.contains(c) || second.contains(c) by {}
    match found {
        Some(f) => {
            assert(both.contains(f.t));
        },
        None => {
            match before {
                Some(p) => {
                    assert(both.contains(p.t));
                },
                None => {},
            }
        },
    }
}

/// What a sweep holds after a prefix of the answers is the nearest hit of
/// the nodes asked so far.
proof fn lemma_prefix_holds_nearest<H: Hittable>(
    objects: Seq<H>,
    ray: Ray,
    t_min: F,
    t_max: F,
    answers: Seq<Option<HitRecord<H::Material>>>,
    crossings: spec_fn(int) -> Set<F>,
)
    requires
        !t_min.nan(),
        !t_max.nan(),
        asked_in_turn(objects, ray, t_min, t_max, answers),
        forall|i: int|
            0 <= i < answers.len() ==> reports_nearest(&objects[i], ray, #[trigger] crossings(i), t_min),
    ensures
        answers_nearest(
            crossings_upto(crossings, answers.len() as int),
            t_min,
            t_max,
            last_hit(answers),
        ),
    decreases answers.len(),
{
    let n = answers.len() as int;
    if n > 0 {
        let head = answers.drop_last();
        let found = answers.last();
        let prev = last_hit(head);
        assert forall|k: int| 0 <= k < head.len() implies may_hit(
            &objects[k],
            &ray,
            t_min,
            upper_bound(last_hit(head.take(k)), t_max),
            #[trigger] head[k],
        ) by {
            assert(head.take(k) =~= answers.take(k));
            assert(head[k] == answers[k]);
        }
        lemma_prefix_holds_nearest(objects, ray, t_min, t_max, head, crossings);
        let before = crossings_upto(crossings, n - 1);
        let own = crossings(n - 1);
        let bound = upper_bound(prev, t_max);
        assert(!bound.nan());
        assert(answers.take(n - 1) =~= head);
        assert(may_hit(&objects[n - 1], &ray, t_min, bound, answers[n - 1]));
        assert(reports_nearest(&objects[n - 1], ray, own, t_min));
        lemma_nearest_of_both(before, own, t_min, t_max, prev, found);
        lemma_crossings_grow_by_one(crossings, n);
    }
}

/// The sweep of a list returns the nearest hit of the whole list.
///
/// Where every node reports its own nearest crossing in whatever interval it
/// is asked about, the record that the sweep ends with lies at the nearest
/// crossing of all the nodes together in `[t_min, t_max]`, and the sweep
/// returns nothing exactly where none of them has a crossing there. A scan
/// that asks every node about the whole interval and keeps the least
/// parameter arrives at the same parameter.
pub proof fn lemma_sweep_returns_nearest<H: Hittable>(
    objects: Seq<H>,
    ray: Ray,
    t_min: F,
    t_max: F,
    best: Option<HitRecord<H::Material>>,
    crossings: spec_fn(int) -> Set<F>,
)
    requires
        !t_min.nan(),
        !t_max.nan(),
        swept(objects, ray, t_min, t_max, best),
        forall|i: int|
            0 <= i < objects.len() ==> reports_nearest(&objects[i], ray, #[trigger] crossings(i), t_min),
    ensures
        answers_nearest(crossings_upto(crossings, objects.len() as int), t_min, t_max, best),
{
    let answers = choose|answers: Seq<Option<HitRecord<H::Material>>>|
        answers.len() == objects.len() && #[trigger] asked_in_turn(
            objects,
            ray,
            t_min,
            t_max,
            answers,
        ) && best == last_hit(answers);
    lemma_prefix_holds_nearest(objects, ray, t_min, t_max, answers, crossings);
}

/// The nearer of two answers: a hit rather than a miss, and of two hits the
/// one with the smaller parameter, the first where they are equal.
pub open spec fn nearer<M>(a: Option<HitRecord<M>>, b: Option<HitRecord<M>>) -> Option<HitRecord<M>> {
    if a is None {
        b
    } else if b is None {
        a
    } else if b->0.t.spec_lt(a->0.t) {
        b
    } else {
        a
    }
}

/// What a scan keeps of the given answers: the nearest of them.
pub open spec fn nearest_answer<M>(answers: Seq<Option<HitRecord<M>>>) -> Option<HitRecord<M>>
    decreases answers.len(),
{
    if answers.len() == 0 {
        None
    } else {
        nearer(nearest_answer(answers.drop_last()), answers.last())
    }
}

/// `answers[k]` is what node `k` may answer when it is asked for a hit in the
/// whole of `[t_min, t_max]`.
pub open spec fn asked_in_full<H: Hittable>(
    objects: Seq<H>,
    ray: Ray,
    t_min: F,
    t_max: F,
    answers: Seq<Option<HitRecord<H::Material>>>,
) -> bool {
    &&& answers.len() <= objects.len()
    &&& forall|k: int|
        0 <= k < answers.len() ==> may_hit(&objects[k], &ray, t_min, t_max, #[trigger] answers[k])
}

/// The nearer of the nearest hits of two things is the nearest hit of both.
pub proof fn lemma_nearer_of_both<M>(
    first: Set<F>,
    second: Set<F>,
    t_min: F,
    t_max: F,
    a: Option<HitRecord<M>>,
    b: Option<HitRecord<M>>,
)
    requires
        answers_nearest(first, t_min, t_max, a),
        answers_nearest(second, t_min, t_max, b),
    ensures
        answers_nearest(first.union(second), t_min, t_max, nearer(a, b)),
{
    let both = first.union(second);
    assert forall|c: F| both.contains(c) implies first.contains(c) || second.contains(c) by {}
    match nearer(a, b) {
        Some(h) => {
            assert(both.contains(h.t));
        },
        None => {},
    }
}

/// A scan that asks every node about the whole interval and keeps the
/// nearest answer ends with the nearest hit of all the nodes, where every
/// node reports its own nearest crossing.
pub proof fn lemma_scan_returns_nearest<H: Hittable>(
    objects: Seq<H>,
    ray: Ray,
    t_min: F,
    t_max: F,
    answers: Seq<Option<HitRecord<H::Material>>>,
    crossings: spec_fn(int) -> Set<F>,
)
    requires
        !t_max.nan(),
        asked_in_full(objects, ray, t_min, t_max, answers),
        forall|i: int|
            0 <= i < answers.len() ==> reports_nearest(&objects[i], ray, #[trigger] crossings(i), t_min),
    ensures
        answers_nearest(
            crossings_upto(crossings, answers.len() as int),
            t_min,
            t_max,
            nearest_answer(answers),
        ),
    decreases answers.len(),
{
    let n = answers.len() as int;
    if n > 0 {
        let head = answers.drop_last();
        assert forall|k: int| 0 <= k < head.len() implies may_hit(
            &objects[k],
            &ray,
            t_min,
            t_max,
            #[trigger] head[k],
        ) by {
            assert(head[k] == answers[k]);
        }
        lemma_scan_returns_nearest(objects, ray, t_min, t_max, head, crossings);
        let before = crossings_upto(crossings, n - 1);
        let own = crossings(n - 1);
        assert(may_hit(&objects[n - 1], &ray, t_min, t_max, answers[n - 1]));
        assert(reports_nearest(&objects[n - 1], ray, own, t_min));
        lemma_nearer_of_both(before, own, t_min, t_max, nearest_answer(head), answers.last());
        lemma_crossings_grow_by_one(crossings, n);
    }
}

/// The sweep of a list and a scan of it agree.
///
/// Where every node reports its own nearest crossing in whatever interval it
/// is asked about, the sweep, which asks each node only about what is left of
/// the interval, and the scan, which asks every node about all of it, both
/// miss or both hit, and then at the same parameter.
pub proof fn lemma_sweep_agrees_with_scan<H: Hittable>(
    objects: Seq<H>,
    ray: Ray,
    t_min: F,
    t_max: F,
    best: Option<HitRecord<H::Material>>,
    answers: Seq<Option<HitRecord<H::Material>>>,
    crossings: spec_fn(int) -> Set<F>,
)
    requires
        !t_min.nan(),
        !t_max.nan(),
        swept(objects, ray, t_min, t_max, best),
        answers.len() == objects.len(),
        asked_in_full(objects, ray, t_min, t_max, answers),
        forall|i: int|
            0 <= i < objects.len() ==> reports_nearest(&objects[i], ray, #[trigger] crossings(i), t_min),
    ensures
        best is Some == nearest_answer(answers) is Some,
        best is Some ==> best->0.t.spec_equals(nearest_answer(answers)->0.t),
{
    lemma_sweep_returns_nearest(objects, ray, t_min, t_max, best, crossings);
    lemma_scan_returns_nearest(objects, ray, t_min, t_max, answers, crossings);
    lemma_nearest_is_unique(
        crossings_upto(crossings, objects.len() as int),
        t_min,
        t_max,
        best,
        nearest_answer(answers),
    );
}

/// Whether `object`, asked about `ray` from `t_min` up to whatever bound,
/// answers with `record` or with nothing.
pub open spec fn answers_only<H: Hittable>(
    object: &H,
    ray: Ray,
    t_min: F,
    record: Option<HitRecord<H::Material>>,
) -> bool {
    forall|high: F, r: Option<HitRecord<H::Material>>|
        #[trigger] may_hit(object, &ray, t_min, high, r) ==> r is None || r == record
}

/// The crossings of a family of nodes of which only node `only` crosses the
/// ray, at the parameter `t`.
pub open spec fn one_crossing(only: int, t: F) -> spec_fn(int) -> Set<F> {
    |i: int|
        if i == only {
            set![t]
        } else {
            Set::empty()
        }
}

/// The hit that a sweep holds is one of the answers.
proof fn lemma_last_hit_is_an_answer<M>(answers: Seq<Option<HitRecord<M>>>)
    requires
        last_hit(answers) is Some,
    ensures
        exists|k: int| 0 <= k < answers.len() && #[trigger] answers[k] == last_hit(answers),
    decreases answers.len(),
{
    let n = answers.len() as int;
    if answers.last() is Some {
        assert(answers[n - 1] == last_hit(answers));
    } else {
        let head = answers.drop_last();
        lemma_last_hit_is_an_answer(head);
        let k = choose|k: int| 0 <= k < head.len() && #[trigger] head[k] == last_hit(head);
        assert(answers[k] == head[k]);
    }
}

/// The record that a sweep returns is the record of one of the nodes: what
/// that node answered when the sweep asked it.
pub proof fn lemma_sweep_returns_an_answer<H: Hittable>(
    objects: Seq<H>,
    ray: Ray,
    t_min: F,
    t_max: F,
    best: Option<HitRecord<H::Material>>,
)
    requires
        swept(objects, ray, t_min, t_max, best),
        best is Some,
    ensures
        exists|k: int, bound: F|
            0 <= k < objects.len() && #[trigger] may_hit(&objects[k], &ray, t_min, bound, best),
{
    let answers = choose|answers: Seq<Option<HitRecord<H::Material>>>|
        answers.len() == objects.len() && #[trigger] asked_in_turn(
            objects,
            ray,
            t_min,
            t_max,
            answers,
        ) && best == last_hit(answers);
    lemma_last_hit_is_an_answer(answers);
    let k = choose|k: int| 0 <= k < answers.len() && #[trigger] answers[k] == last_hit(answers);
    let bound = upper_bound(last_hit(answers.take(k)), t_max);
    assert(may_hit(&objects[k], &ray, t_min, bound, answers[k]));
}

/// Where the ray meets one node of a list and no other, the sweep returns
/// that node's record.
///
/// Node `only` crosses the ray at the parameter of `record`, within the
/// interval, reports that crossing whenever the bound lets it, and answers
/// with `record` whenever it answers; every other node answers with nothing.
/// Then the sweep returns `record`, whole: point, normal, side and material.
pub proof fn lemma_sweep_returns_the_one_hit<H: Hittable>(
    objects: Seq<H>,
    ray: Ray,
    t_min: F,
    t_max: F,
    best: Option<HitRecord<H::Material>>,
    only: int,
    record: HitRecord<H::Material>,
)
    requires
        !t_min.nan(),
        !t_max.nan(),
        swept(objects, ray, t_min, t_max, best),
        0 <= only < objects.len(),
        in_range(record.t, t_min, t_max),
        reports_nearest(&objects[only], ray, set![record.t], t_min),
        answers_only(&objects[only], ray, t_min, Some(record)),
        forall|k: int|
            0 <= k < objects.len() && k != only ==> answers_only(
                &(#[trigger] objects[k]),
                ray,
                t_min,
                None,
            ),
    ensures
        best == Some(record),
{
    let crossings = one_crossing(only, record.t);
    assert forall|i: int| 0 <= i < objects.len() implies reports_nearest(
        &objects[i],
        ray,
        #[trigger] crossings(i),
        t_min,
    ) by {
        if i != only {
            assert(answers_only(&objects[i], ray, t_min, None));
        }
    }
    lemma_sweep_returns_nearest(objects, ray, t_min, t_max, best, crossings);
    let all = crossings_upto(crossings, objects.len() as int);
    assert(crossings(only).contains(record.t));
    assert(all.contains(record.t));
    assert(best is Some);
    lemma_sweep_returns_an_answer(objects, ray, t_min, t_max, best);
    let (k, bound) = choose|k: int, bound: F|
        0 <= k < objects.len() && #[trigger] may_hit(&objects[k], &ray, t_min, bound, best);
    if k != only {
        assert(answers_only(&objects[k], ray, t_min, None));
    }
}

} // verus!
