//! Axis-aligned bounding boxes: union, enclosure and the slab test.

use crate::scalar::Scalar;
use crate::vec3::{Point3, F};
use vstd::prelude::*;

verus! {

/// A box between two corners.
#[derive(Clone, Copy, Debug, PartialEq, Eq, Structural)]
pub struct AABB {
    pub min: Point3,
    pub max: Point3,
}

/// Where a ray meets the two planes that bound a box on one axis.
///
/// `inv` is the reciprocal of the ray's direction on that axis, `t0` the ray
/// parameter at the plane through the box's minimum corner, `t1` the one at
/// the plane through its maximum corner.
#[derive(Clone, Copy, Debug, PartialEq, Eq, Structural)]
pub struct Slab {
    pub inv: F,
    pub t0: F,
    pub t1: F,
}

impl Slab {
    /// The parameter at which the ray enters the slab: `t0`, or `t1` where
    /// the ray runs against the axis.
    pub open spec fn entry(self) -> F {
        if self.inv.spec_lt(Scalar { bits: 0 }) {
            self.t1
        } else {
            self.t0
        }
    }

    /// The parameter at which the ray leaves the slab.
    pub open spec fn exit(self) -> F {
        if self.inv.spec_lt(Scalar { bits: 0 }) {
            self.t0
        } else {
            self.t1
        }
    }

    /// Whether both crossings are numbers.
    pub open spec fn is_number(self) -> bool {
        !self.t0.nan() && !self.t1.nan()
    }

    pub fn new(inv: F, t0: F, t1: F) -> (r: Slab)
        ensures
            r == (Slab { inv, t0, t1 }),
    {
        Slab { inv, t0, t1 }
    }
}

/// The slab test as it runs: axis by axis the interval `[t_min, t_max]` is cut
/// down to the part inside the slab, and the test fails as soon as nothing of
/// positive length is left.
pub open spec fn slabs_hit(slabs: Seq<Slab>, t_min: F, t_max: F) -> bool
    decreases slabs.len(),
{
    if slabs.len() == 0 {
        true
    } else {
        let low = t_min.spec_max(slabs[0].entry());
        let high = t_max.spec_min(slabs[0].exit());
        !high.spec_le(low) && slabs_hit(slabs.drop_first(), low, high)
    }
}

/// The slab test by brute force: every lower bound (of the interval, of each
/// slab) lies strictly below every upper bound.
pub open spec fn intervals_overlap(slabs: Seq<Slab>, t_min: F, t_max: F) -> bool {
    &&& t_min.spec_lt(t_max)
    &&& forall|i: int|
        0 <= i < slabs.len() ==> t_min.spec_lt((#[trigger] slabs[i]).exit()) && slabs[i].entry().spec_lt(
            t_max,
        )
    &&& forall|i: int, j: int|
        0 <= i < slabs.len() && 0 <= j < slabs.len() ==> (#[trigger] slabs[i]).entry().spec_lt(
            (#[trigger] slabs[j]).exit(),
        )
}

/// Whether every crossing of every slab is a number.
pub open spec fn slabs_are_numbers(slabs: Seq<Slab>) -> bool {
    forall|i: int| 0 <= i < slabs.len() ==> (#[trigger] slabs[i]).is_number()
}

/// On numbers, and with at least one slab, the running test and the brute
/// force test agree.
pub proof fn lemma_slab_test_is_interval_check(slabs: Seq<Slab>, t_min: F, t_max: F)
    requires
        slabs.len() > 0,
        slabs_are_numbers(slabs),
        !t_min.nan(),
        !t_max.nan(),
    ensures
        slabs_hit(slabs, t_min, t_max) == intervals_overlap(slabs, t_min, t_max),
    decreases slabs.len(),
{
    let low = t_min.spec_max(slabs[0].entry());
    let high = t_max.spec_min(slabs[0].exit());
    let rest = slabs.drop_first();
    if rest.len() == 0 {
        assert(slabs_hit(rest, low, high));
    } else {
        lemma_slab_test_is_interval_check(rest, low, high);
        if slabs_hit(slabs, t_min, t_max) {
            assert forall|i: int| 0 <= i < slabs.len() implies t_min.spec_lt(
                (#[trigger] slabs[i]).exit(),
            ) && slabs[i].entry().spec_lt(t_max) by {
                if i > 0 {
                    assert(rest[i - 1] == slabs[i]);
                }
            }
            assert forall|i: int, j: int|
                0 <= i < slabs.len() && 0 <= j < slabs.len() implies (#[trigger] slabs[i]).entry().spec_lt(
                (#[trigger] slabs[j]).exit(),
            ) by {
                if i > 0 {
                    assert(rest[i - 1] == slabs[i]);
                }
                if j > 0 {
                    assert(rest[j - 1] == slabs[j]);
                }
            }
        }
    }
}

impl Slab {
    /// Whether the slab is open to the whole line: the ray never enters it and
    /// never leaves it. This is the slab of a ray that runs parallel to the
    /// planes and between them, where the crossings come out as the two
    /// infinities, or as a NaN where the ray runs in one of the planes.
    pub open spec fn holds_the_line(self) -> bool {
        &&& self.entry().nan() || self.entry() == (Scalar {
            bits: (crate::scalar::SIGN_BIT + crate::scalar::INFINITY_BITS) as u64,
        })
        &&& self.exit().nan() || self.exit() == (Scalar { bits: crate::scalar::INFINITY_BITS })
    }

    /// Whether the slab is closed to the whole line: the ray enters it only
    /// at positive infinity or has left it at negative infinity. This is the
    /// slab of a ray that runs parallel to the planes and beside them.
    pub open spec fn misses_the_line(self) -> bool {
        ||| self.entry() == (Scalar { bits: crate::scalar::INFINITY_BITS })
        ||| self.exit() == (Scalar {
            bits: (crate::scalar::SIGN_BIT + crate::scalar::INFINITY_BITS) as u64,
        })
    }
}

/// A slab that holds the whole line does not change the outcome of the test:
/// with it in front, the test passes exactly where the interval has positive
/// length and the test on the other slabs passes.
pub proof fn lemma_parallel_inside_cuts_nothing(slabs: Seq<Slab>, t_min: F, t_max: F)
    requires
        slabs.len() > 0,
        slabs[0].holds_the_line(),
        !t_min.nan(),
        !t_max.nan(),
    ensures
        slabs_hit(slabs, t_min, t_max) == (t_min.spec_lt(t_max) && slabs_hit(
            slabs.drop_first(),
            t_min,
            t_max,
        )),
{
}

/// A slab that misses the whole line fails the test, wherever among the
/// slabs it stands.
pub proof fn lemma_parallel_outside_misses(slabs: Seq<Slab>, t_min: F, t_max: F, k: int)
    requires
        0 <= k < slabs.len(),
        slabs[k].misses_the_line(),
        !t_min.nan(),
        !t_max.nan(),
    ensures
        !slabs_hit(slabs, t_min, t_max),
    decreases slabs.len(),
{
    if k > 0 {
        lemma_parallel_outside_misses(
            slabs.drop_first(),
            t_min.spec_max(slabs[0].entry()),
            t_max.spec_min(slabs[0].exit()),
            k - 1,
        );
    }
}

impl AABB {
    /// Whether the corners are in order on every axis. This is what a box
    /// computed from a real shape satisfies; it makes every corner a number.
    pub open spec fn valid(self) -> bool {
        &&& self.min.x.spec_le(self.max.x)
        &&& self.min.y.spec_le(self.max.y)
        &&& self.min.z.spec_le(self.max.z)
    }

    /// The smallest box around two boxes: the lesser minimum and the greater
    /// maximum on every axis.
    pub open spec fn spec_union(self, other: AABB) -> AABB {
        AABB {
            min: Point3 {
                x: self.min.x.spec_min(other.min.x),
                y: self.min.y.spec_min(other.min.y),
                z: self.min.z.spec_min(other.min.z),
            },
            max: Point3 {
                x: self.max.x.spec_max(other.max.x),
                y: self.max.y.spec_max(other.max.y),
                z: self.max.z.spec_max(other.max.z),
            },
        }
    }

    /// The box stretched to hold a point.
    pub open spec fn spec_extend(self, p: Point3) -> AABB {
        self.spec_union(AABB { min: p, max: p })
    }

    /// The box that holds nothing: from positive to negative infinity.
    pub open spec fn spec_nothing() -> AABB {
        let high = Scalar { bits: crate::scalar::INFINITY_BITS };
        let low = Scalar { bits: (crate::scalar::SIGN_BIT + crate::scalar::INFINITY_BITS) as u64 };
        AABB {
            min: Point3 { x: high, y: high, z: high },
            max: Point3 { x: low, y: low, z: low },
        }
    }

    /// The box around a sequence of points, grown from nothing point by point.
    pub open spec fn spec_enclosing(points: Seq<Point3>) -> AABB
        decreases points.len(),
    {
        if points.len() == 0 {
            AABB::spec_nothing()
        } else {
            AABB::spec_enclosing(points.drop_last()).spec_extend(points.last())
        }
    }

    /// The corner that takes its coordinate from `max` on the axes where the
    /// matching bit of `which` is set (4 for x, 2 for y, 1 for z), else from
    /// `min`.
    pub open spec fn spec_corner(self, which: int) -> Point3 {
        Point3 {
            x: if which / 4 % 2 == 1 {
                self.max.x
            } else {
                self.min.x
            },
            y: if which / 2 % 2 == 1 {
                self.max.y
            } else {
                self.min.y
            },
            z: if which % 2 == 1 {
                self.max.z
            } else {
                self.min.z
            },
        }
    }

    pub fn new(min: Point3, max: Point3) -> (r: AABB)
        ensures
            r == (AABB { min, max }),
    {
        AABB { min, max }
    }

    pub fn min(&self) -> (r: Point3)
        ensures
            r == self.min,
    {
        self.min
    }

    pub fn max(&self) -> (r: Point3)
        ensures
            r == self.max,
    {
        self.max
    }

    /// Whether the corners are in order on every axis.
    pub fn is_valid(&self) -> (r: bool)
        ensures
            r == self.valid(),
    {
        self.min.x.le(self.max.x) && self.min.y.le(self.max.y) && self.min.z.le(self.max.z)
    }

    /// The smallest box that holds both boxes.
    pub fn surrounding_box(box0: AABB, box1: AABB) -> (r: AABB)
        ensures
            r == box0.spec_union(box1),
            box0.valid() && box1.valid() ==> r.valid(),
    {
        let min_point = Point3::new(
            box0.min.x.min(box1.min.x),
            box0.min.y.min(box1.min.y),
            box0.min.z.min(box1.min.z),
        );
        let max_point = Point3::new(
            box0.max.x.max(box1.max.x),
            box0.max.y.max(box1.max.y),
            box0.max.z.max(box1.max.z),
        );
        AABB { min: min_point, max: max_point }
    }

    /// Whether `a` starts before `b` on `axis`: the order in which a
    /// hierarchy places two boxes.
    pub fn box_compare(a: &AABB, b: &AABB, axis: usize) -> (r: bool)
        requires
            axis < 3,
        ensures
            r == a.min.spec_ix(axis as int).spec_lt(b.min.spec_ix(axis as int)),
    {
        a.min.ix(axis).lt(b.min.ix(axis))
    }

    /// The slab test: whether the ray whose crossings with the box's three
    /// pairs of planes are `slabs` passes through the box somewhere in
    /// `[t_min, t_max]`.
    ///
    /// A crossing that is a NaN, as it comes out for a ray that runs inside
    /// one of the planes, does not cut the interval.
    pub fn hit(slabs: &[Slab; 3], t_min: F, t_max: F) -> (r: bool)
        ensures
            r == slabs_hit(slabs@, t_min, t_max),
            slabs_are_numbers(slabs@) && !t_min.nan() && !t_max.nan() ==> r == intervals_overlap(
                slabs@,
                t_min,
                t_max,
            ),
    {
        let mut low = t_min;
        let mut high = t_max;
        let mut i: usize = 0;
        proof {
            assert(slabs@.skip(0) =~= slabs@);
        }
        while i < 3
            invariant
                i <= 3,
                slabs@.len() == 3,
                slabs_hit(slabs@, t_min, t_max) == slabs_hit(slabs@.skip(i as int), low, high),
            ensures
                i == 3 || (i < 3 && !slabs_hit(slabs@, t_min, t_max)),
                i == 3 ==> slabs_hit(slabs@, t_min, t_max),
            decreases 3 - i,
        {
            let slab = slabs[i];
            let backwards = slab.inv.lt(Scalar::zero());
            let (t0, t1) = if backwards {
                (slab.t1, slab.t0)
            } else {
                (slab.t0, slab.t1)
            };
            proof {
                assert(slabs@.skip(i as int).drop_first() =~= slabs@.skip(i + 1));
            }
            low = low.max(t0);
            high = high.min(t1);
            if high.le(low) {
                break ;
            }
            i += 1;
        }
        proof {
            if slabs_are_numbers(slabs@) && !t_min.nan() && !t_max.nan() {
                lemma_slab_test_is_interval_check(slabs@, t_min, t_max);
            }
        }
        i == 3
    }

    /// The eight corners, in the order of [`AABB::spec_corner`].
    pub fn corners(&self) -> (r: Vec<Point3>)
        ensures
            r@.len() == 8,
            forall|c: int| 0 <= c < 8 ==> r@[c] == self.spec_corner(c),
    {
        let mut out: Vec<Point3> = Vec::new();
        let mut c: usize = 0;
        while c < 8
            invariant
                c <= 8,
                out@.len() == c,
                forall|d: int| 0 <= d < c ==> out@[d] == self.spec_corner(d),
            decreases 8 - c,
        {
            let x = if c / 4 % 2 == 1 {
                self.max.x
            } else {
                self.min.x
            };
            let y = if c / 2 % 2 == 1 {
                self.max.y
            } else {
                self.min.y
            };
            let z = if c % 2 == 1 {
                self.max.z
            } else {
                self.min.z
            };
            out.push(Point3::new(x, y, z));
            c += 1;
        }
        out
    }

    /// The box stretched to hold `p`.
    pub fn extend(&self, p: Point3) -> (r: AABB)
        ensures
            r == self.spec_extend(p),
    {
        AABB::surrounding_box(*self, AABB { min: p, max: p })
    }

    /// The smallest box around the given points. Of no points it is the box
    /// that holds nothing.
    pub fn enclosing(points: &Vec<Point3>) -> (r: AABB)
        ensures
            r == AABB::spec_enclosing(points@),
            points@.len() > 0 && points_are_numbers(points@) ==> tight_around_points(r, points@, 0)
                && tight_around_points(r, points@, 1) && tight_around_points(r, points@, 2),
    {
        let mut out = AABB {
            min: Point3::new(Scalar::infinity(), Scalar::infinity(), Scalar::infinity()),
            max: Point3::new(
                Scalar::neg_infinity(),
                Scalar::neg_infinity(),
                Scalar::neg_infinity(),
            ),
        };
        let mut i: usize = 0;
        while i < points.len()
            invariant
                i <= points@.len(),
                out == AABB::spec_enclosing(points@.take(i as int)),
            decreases points@.len() - i,
        {
            proof {
                assert(points@.take(i + 1).drop_last() =~= points@.take(i as int));
            }
            out = out.extend(points[i]);
            i += 1;
        }
        proof {
            assert(points@.take(i as int) =~= points@);
            if points@.len() > 0 && points_are_numbers(points@) {
                lemma_enclosing_is_tight(points@, 0);
                lemma_enclosing_is_tight(points@, 1);
                lemma_enclosing_is_tight(points@, 2);
            }
        }
        out
    }
}

/// The union of two boxes with ordered corners starts, on every axis, where
/// the earlier of the two starts, and ends where the later ends.
pub proof fn lemma_union_is_tight(a: AABB, b: AABB, axis: int)
    requires
        a.valid(),
        b.valid(),
        0 <= axis < 3,
    ensures
        a.spec_union(b).valid(),
        a.spec_union(b).min.spec_ix(axis).ord() == if b.min.spec_ix(axis).ord() < a.min.spec_ix(
            axis,
        ).ord() {
            b.min.spec_ix(axis).ord()
        } else {
            a.min.spec_ix(axis).ord()
        },
        a.spec_union(b).max.spec_ix(axis).ord() == if a.max.spec_ix(axis).ord() < b.max.spec_ix(
            axis,
        ).ord() {
            b.max.spec_ix(axis).ord()
        } else {
            a.max.spec_ix(axis).ord()
        },
{
}

/// Whether `bbox` is the smallest box around `points` as far as `axis` goes:
/// it bounds every point, and each of its two faces on that axis passes
/// through one of them.
pub open spec fn tight_around_points(bbox: AABB, points: Seq<Point3>, axis: int) -> bool {
    &&& bbox.valid()
    &&& forall|i: int|
        0 <= i < points.len() ==> bbox.min.spec_ix(axis).spec_le((#[trigger] points[i]).spec_ix(axis))
            && points[i].spec_ix(axis).spec_le(bbox.max.spec_ix(axis))
    &&& exists|i: int|
        0 <= i < points.len() && bbox.min.spec_ix(axis).ord() == (#[trigger] points[i]).spec_ix(
            axis,
        ).ord()
    &&& exists|i: int|
        0 <= i < points.len() && bbox.max.spec_ix(axis).ord() == (#[trigger] points[i]).spec_ix(
            axis,
        ).ord()
}

/// Whether every coordinate of every point is a number.
pub open spec fn points_are_numbers(points: Seq<Point3>) -> bool {
    forall|i: int| 0 <= i < points.len() ==> (#[trigger] points[i]).is_number()
}

/// The box around points that are numbers is the smallest box around them.
pub proof fn lemma_enclosing_is_tight(points: Seq<Point3>, axis: int)
    requires
        points.len() > 0,
        points_are_numbers(points),
        0 <= axis < 3,
    ensures
        tight_around_points(AABB::spec_enclosing(points), points, axis),
    decreases points.len(),
{
    let head = points.drop_last();
    let whole = AABB::spec_enclosing(points);
    if head.len() == 0 {
        assert(AABB::spec_enclosing(head) == AABB::spec_nothing());
    } else {
        lemma_enclosing_is_tight(head, 0);
        lemma_enclosing_is_tight(head, 1);
        lemma_enclosing_is_tight(head, 2);
        assert forall|i: int| 0 <= i < points.len() implies whole.min.spec_ix(axis).spec_le(
            (#[trigger] points[i]).spec_ix(axis),
        ) && points[i].spec_ix(axis).spec_le(whole.max.spec_ix(axis)) by {
            if i < head.len() {
                assert(head[i] == points[i]);
            }
        }
    }
}

} // verus!
