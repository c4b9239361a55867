//! Bounding volume hierarchies: a binary tree of boxes over the nodes of a
//! list, built by median splits along random axes.

use crate::aabb::{slabs_hit, Slab, AABB};
use crate::hittable::{
    all_valid, answers_nearest, answers_only, bounding_boxes, boxes_of, crossings_upto, in_range,
    latest, lemma_nearest_is_unique, lemma_nearest_of_both, lemma_scan_returns_nearest,
    lemma_tight_boxes_agree, lemma_union_all_is_tight, lemma_union_stays_tight, may_hit,
    nearest_answer, one_crossing, reports_nearest, spec_latest, tight_around, union_all,
    upper_bound, HitRecord, Hittable, HittableList,
};
use crate::numbering::{
    count_up, lemma_same_items_contains, lemma_same_items_no_duplicates, lemma_swap_keeps_items,
    numbered, same_items,
};
use crate::ray::Ray;
use crate::scalar::Scalar;
use crate::vec3::F;
use rand::Rng;
use vstd::prelude::*;

verus! {

/// Why a hierarchy could not be built.
#[derive(Clone, Copy, Debug, PartialEq, Eq, Structural)]
pub enum BvhError {
    /// The span holds no node.
    EmptySpan,
    /// The span ends behind the end of the list.
    SpanOutOfRange,
    /// The node at this index of the list has no bounding box.
    MissingBox(usize),
}

/// One side of an inner node.
pub enum BvhChild {
    /// A node of the list, by its place in the span that the hierarchy covers.
    Leaf(usize),
    /// A subtree.
    Tree(Box<BvhNode>),
}

/// An inner node: a box and what lies in it.
pub struct BvhNode {
    pub bbox: AABB,
    pub left: BvhChild,
    pub right: BvhChild,
}

impl BvhChild {
    /// The leaves below this child, from left to right.
    pub open spec fn leaves(self) -> Seq<usize>
        decreases self,
    {
        match self {
            BvhChild::Leaf(i) => seq![i],
            BvhChild::Tree(n) => n.leaves(),
        }
    }

    /// The box of this child: a leaf's box is looked up, a subtree has its own.
    pub open spec fn bounds(self, boxes: Seq<AABB>) -> AABB {
        match self {
            BvhChild::Leaf(i) => boxes[i as int],
            BvhChild::Tree(n) => n.bbox,
        }
    }

    /// Whether every leaf below this child is less than `n`.
    pub open spec fn fits(self, n: int) -> bool
        decreases self,
    {
        match self {
            BvhChild::Leaf(i) => i < n,
            BvhChild::Tree(node) => node.fits(n),
        }
    }

    /// See [`BvhNode::well_built`].
    pub open spec fn well_built(self, keys: Seq<AABB>, boxes: Seq<AABB>) -> bool
        decreases self,
    {
        match self {
            BvhChild::Leaf(i) => true,
            BvhChild::Tree(n) => n.well_built(keys, boxes),
        }
    }

    /// The box of this child.
    pub fn bounding_box(&self, boxes: &Vec<AABB>) -> (r: AABB)
        requires
            self.fits(boxes@.len() as int),
        ensures
            r == self.bounds(boxes@),
    {
        match self {
            BvhChild::Leaf(i) => boxes[*i],
            BvhChild::Tree(node) => node.bbox,
        }
    }
}

impl BvhNode {
    /// Whether both sides are one and the same leaf: the node over a single
    /// item.
    pub open spec fn is_twin(self) -> bool {
        self.left is Leaf && self.right is Leaf && self.left->Leaf_0 == self.right->Leaf_0
    }

    /// The leaves below this node, from left to right. The leaf of a twin
    /// counts once.
    pub open spec fn leaves(self) -> Seq<usize>
        decreases self,
    {
        if self.is_twin() {
            self.left.leaves()
        } else {
            self.left.leaves() + self.right.leaves()
        }
    }

    /// Whether every leaf below this node is less than `n`.
    pub open spec fn fits(self, n: int) -> bool
        decreases self,
    {
        self.left.fits(n) && self.right.fits(n)
    }

    /// Whether no leaf on the right starts before a leaf on the left along
    /// `axis`, going by the minimum corners of `keys`.
    pub open spec fn split_along(self, keys: Seq<AABB>, axis: int) -> bool {
        forall|a: int, b: int|
            0 <= a < self.left.leaves().len() && 0 <= b < self.right.leaves().len() ==> !start_of(
                keys,
                #[trigger] self.right.leaves()[b],
                axis,
            ).spec_lt(start_of(keys, #[trigger] self.left.leaves()[a], axis))
    }

    /// What construction establishes of every node of the tree.
    ///
    /// - The sides are two leaves or two subtrees: leaves where the node has
    ///   no more than two leaves below it, subtrees where it has more.
    /// - Unless the node is a twin, the left side holds half of the node's
    ///   leaves, rounded down, and there is an axis along which no leaf on
    ///   the right starts before a leaf on the left.
    /// - The node's box is the union of the boxes of its sides.
    pub open spec fn well_built(self, keys: Seq<AABB>, boxes: Seq<AABB>) -> bool
        decreases self,
    {
        &&& self.left.well_built(keys, boxes)
        &&& self.right.well_built(keys, boxes)
        &&& self.left is Leaf <==> self.right is Leaf
        &&& self.leaves().len() <= 2 <==> self.left is Leaf
        &&& self.bbox == self.left.bounds(boxes).spec_union(self.right.bounds(boxes))
        &&& !self.is_twin() ==> {
            &&& self.left.leaves().len() == self.leaves().len() / 2
            &&& exists|axis: int| 0 <= axis < 3 && #[trigger] self.split_along(keys, axis)
        }
    }
}

/// Where the box of `item` starts on `axis`.
pub open spec fn start_of(keys: Seq<AABB>, item: usize, axis: int) -> F {
    keys[item as int].min.spec_ix(axis)
}

/// Whether the items are in the order of their boxes' starts on `axis`, by
/// rank: numbers ascending, a NaN beyond the infinities on the side of its
/// sign.
pub open spec fn sorted_by_start(items: Seq<usize>, keys: Seq<AABB>, axis: int) -> bool {
    forall|i: int, j: int|
        0 <= i <= j < items.len() ==> start_of(keys, #[trigger] items[i], axis).ord() <= start_of(
            keys,
            #[trigger] items[j],
            axis,
        ).ord()
}

/// Whether every item names one of `n` boxes.
pub open spec fn items_below(items: Seq<usize>, n: int) -> bool {
    forall|i: int| 0 <= i < items.len() ==> #[trigger] items[i] < n
}

/// The rank of the start of `item`'s box on `axis`.
fn start_rank(keys: &Vec<AABB>, item: usize, axis: usize) -> (r: i64)
    requires
        item < keys@.len(),
        axis < 3,
    ensures
        r == start_of(keys@, item, axis as int).ord(),
{
    keys[item].min.ix(axis).rank()
}

/// Sorts the items by where their boxes start on `axis`.
pub fn sort_by_start(items: &mut Vec<usize>, keys: &Vec<AABB>, axis: usize)
    requires
        axis < 3,
        items_below(old(items)@, keys@.len() as int),
    ensures
        final(items)@.len() == old(items)@.len(),
        same_items(final(items)@, old(items)@),
        sorted_by_start(final(items)@, keys@, axis as int),
        items_below(final(items)@, keys@.len() as int),
{
    let n = items.len();
    if n == 0 {
        return ;
    }
    let mut i: usize = 1;
    while i < n
        invariant
            axis < 3,
            items@.len() == n,
            1 <= i <= n,
            same_items(items@, old(items)@),
            items_below(items@, keys@.len() as int),
            sorted_by_start(items@.take(i as int), keys@, axis as int),
        decreases n - i,
    {
        let mut j: usize = i;
        proof {
            let head = items@.take(i as int);
            assert forall|a: int, b: int| 0 <= a <= b <= i && a != j && b != j implies start_of(
                keys@,
                #[trigger] items@[a],
                axis as int,
            ).ord() <= start_of(keys@, #[trigger] items@[b], axis as int).ord() by {
                assert(head[a] == items@[a]);
                assert(head[b] == items@[b]);
            }
        }
        loop
            invariant
                axis < 3,
                i < n,
                items@.len() == n,
                j <= i,
                same_items(items@, old(items)@),
                items_below(items@, keys@.len() as int),
                forall|a: int, b: int|
                    0 <= a <= b <= i && a != j && b != j ==> start_of(
                        keys@,
                        #[trigger] items@[a],
                        axis as int,
                    ).ord() <= start_of(keys@, #[trigger] items@[b], axis as int).ord(),
                forall|b: int|
                    j < b <= i ==> start_of(keys@, items@[j as int], axis as int).ord() < start_of(
                        keys@,
                        #[trigger] items@[b],
                        axis as int,
                    ).ord(),
            ensures
                items@.len() == n,
                same_items(items@, old(items)@),
                items_below(items@, keys@.len() as int),
                sorted_by_start(items@.take(i + 1), keys@, axis as int),
            decreases j,
        {
            if j == 0 {
                break ;
            }
            let before = items[j - 1];
            let moving = items[j];
            if start_rank(keys, before, axis) <= start_rank(keys, moving, axis) {
                break ;
            }
            proof {
                lemma_swap_keeps_items(items@, j - 1, j as int);
            }
            items.set(j - 1, moving);
            items.set(j, before);
            j -= 1;
        }
        i += 1;
    }
    proof {
        assert(items@.take(i as int) =~= items@);
    }
}

/// The first `mid` items and the rest, each in a vector of its own.
fn halves(items: &Vec<usize>, mid: usize) -> (r: (Vec<usize>, Vec<usize>))
    requires
        mid <= items@.len(),
    ensures
        r.0@ == items@.take(mid as int),
        r.1@ == items@.skip(mid as int),
{
    let mut left: Vec<usize> = Vec::new();
    let mut right: Vec<usize> = Vec::new();
    let mut i: usize = 0;
    while i < items.len()
        invariant
            i <= items@.len(),
            mid <= items@.len(),
            left@ == items@.take(if i < mid {
                i as int
            } else {
                mid as int
            }),
            right@ == items@.subrange(mid as int, if i < mid {
                mid as int
            } else {
                i as int
            }),
        decreases items@.len() - i,
    {
        if i < mid {
            left.push(items[i]);
        } else {
            right.push(items[i]);
        }
        i += 1;
    }
    (left, right)
}

/// Splits a span of items in two along `axis`.
///
/// Of one item both halves are that item. Of two, the one whose box starts
/// first is the left half; where neither starts before the other, the second
/// is. Of more, the items are sorted by where their boxes start and cut at
/// the midpoint, the left half being the smaller where the count is odd.
pub fn partition(items: Vec<usize>, keys: &Vec<AABB>, axis: usize) -> (r: (Vec<usize>, Vec<usize>))
    requires
        axis < 3,
        items@.len() > 0,
        items_below(items@, keys@.len() as int),
    ensures
        items_below(r.0@, keys@.len() as int),
        items_below(r.1@, keys@.len() as int),
        items@.len() == 1 ==> r.0@ == items@ && r.1@ == items@,
        items@.len() == 2 ==> r.0@.len() == 1 && r.1@.len() == 1 && (r.0@[0], r.1@[0]) == (if start_of(
            keys@,
            items@[0],
            axis as int,
        ).spec_lt(start_of(keys@, items@[1], axis as int)) {
            (items@[0], items@[1])
        } else {
            (items@[1], items@[0])
        }),
        items@.len() > 2 ==> r.0@.len() == items@.len() / 2 && r.0@.len() + r.1@.len()
            == items@.len() && same_items(r.0@ + r.1@, items@) && sorted_by_start(
            r.0@ + r.1@,
            keys@,
            axis as int,
        ),
{
    let n = items.len();
    if n == 1 {
        let only = items[0];
        let mut twin: Vec<usize> = Vec::new();
        twin.push(only);
        (items, twin)
    } else if n == 2 {
        let first = items[0];
        let second = items[1];
        let mut left: Vec<usize> = Vec::new();
        let mut right: Vec<usize> = Vec::new();
        if AABB::box_compare(&keys[first], &keys[second], axis) {
            left.push(first);
            right.push(second);
        } else {
            left.push(second);
            right.push(first);
        }
        (left, right)
    } else {
        let mut sorted = items;
        sort_by_start(&mut sorted, keys, axis);
        let r = halves(&sorted, n / 2);
        proof {
            assert(r.0@ + r.1@ =~= sorted@);
        }
        r
    }
}

/// A random number from `low` up to, but not including, `high`.
///
/// Calls `rand::Rng::gen_range(low, high)` on the generator of the current
/// thread, `rand::thread_rng()`. The call returns a value that is at least
/// its first argument and less than its second, and panics where the first
/// is not less than the second; nothing else is claimed of the value. The
/// generator itself panics where the system gives it no seed.
#[verifier::external_body]
fn random_between(low: usize, high: usize) -> (r: usize)
    requires
        low < high,
    ensures
        low <= r < high,
{
    rand::thread_rng().gen_range(low, high)
}

/// A tree whose leaves are below `n` has them below any greater number.
proof fn lemma_fits_more(node: BvhNode, n: int, m: int)
    requires
        node.fits(n),
        n <= m,
    ensures
        node.fits(m),
    decreases node,
{
    match node.left {
        BvhChild::Leaf(_) => {},
        BvhChild::Tree(l) => {
            lemma_fits_more(*l, n, m);
        },
    }
    match node.right {
        BvhChild::Leaf(_) => {},
        BvhChild::Tree(r) => {
            lemma_fits_more(*r, n, m);
        },
    }
}

/// Builds the tree over `items`, which name boxes in `keys` and `boxes`.
fn build(items: Vec<usize>, keys: &Vec<AABB>, boxes: &Vec<AABB>) -> (node: BvhNode)
    requires
        items@.len() > 0,
        items@.no_duplicates(),
        items_below(items@, keys@.len() as int),
        keys@.len() == boxes@.len(),
    ensures
        node.well_built(keys@, boxes@),
        node.fits(boxes@.len() as int),
        same_items(node.leaves(), items@),
    decreases items@.len(),
{
    let axis = random_between(0, 3);
    let n = items.len();
    let ghost all = items@;
    let (left_items, right_items) = partition(items, keys, axis);
    proof {
        if n > 2 {
            lemma_same_items_no_duplicates(left_items@ + right_items@, all);
            let joined = left_items@ + right_items@;
            assert forall|i: int, j: int|
                0 <= i < left_items@.len() && 0 <= j < left_items@.len() && i != j implies left_items@[i]
                != left_items@[j] by {
                assert(joined[i] == left_items@[i]);
                assert(joined[j] == left_items@[j]);
            }
            assert forall|i: int, j: int|
                0 <= i < right_items@.len() && 0 <= j < right_items@.len() && i != j implies right_items@[i]
                != right_items@[j] by {
                assert(joined[i + left_items@.len()] == right_items@[i]);
                assert(joined[j + left_items@.len()] == right_items@[j]);
            }
        }
    }
    let ghost left_seq = left_items@;
    let ghost right_seq = right_items@;
    let (left, right) = if n <= 2 {
        (BvhChild::Leaf(left_items[0]), BvhChild::Leaf(right_items[0]))
    } else {
        let l = build(left_items, keys, boxes);
        let r = build(right_items, keys, boxes);
        (BvhChild::Tree(Box::new(l)), BvhChild::Tree(Box::new(r)))
    };
    let bbox = AABB::surrounding_box(left.bounding_box(boxes), right.bounding_box(boxes));
    let node = BvhNode { bbox, left, right };
    proof {
        if n == 1 {
            assert(node.is_twin());
            assert(node.leaves() =~= all);
        } else if n == 2 {
            assert(all[0] != all[1]);
            assert(!node.is_twin());
            assert(node.leaves() =~= seq![left_seq[0], right_seq[0]]);
            assert(node.split_along(keys@, axis as int));
            if start_of(keys@, all[0], axis as int).spec_lt(start_of(keys@, all[1], axis as int)) {
                assert(node.leaves() =~= all);
            } else {
                lemma_swap_keeps_items(all, 0, 1);
                assert(node.leaves() =~= all.update(0, all[1]).update(1, all[0]));
            }
        } else {
            let joined = left_seq + right_seq;
            vstd::seq_lib::lemma_multiset_commutative(left_seq, right_seq);
            vstd::seq_lib::lemma_multiset_commutative(node.left.leaves(), node.right.leaves());
            node.left.leaves().to_multiset_ensures();
            node.right.leaves().to_multiset_ensures();
            left_seq.to_multiset_ensures();
            right_seq.to_multiset_ensures();
            node.leaves().to_multiset_ensures();
            all.to_multiset_ensures();
            assert forall|a: int, b: int|
                0 <= a < node.left.leaves().len() && 0 <= b < node.right.leaves().len() implies !start_of(
                keys@,
                #[trigger] node.right.leaves()[b],
                axis as int,
            ).spec_lt(start_of(keys@, #[trigger] node.left.leaves()[a], axis as int)) by {
                let x = node.left.leaves()[a];
                let y = node.right.leaves()[b];
                assert(node.left.leaves().contains(x));
                assert(node.right.leaves().contains(y));
                lemma_same_items_contains(node.left.leaves(), left_seq, x);
                lemma_same_items_contains(node.right.leaves(), right_seq, y);
                let i = choose|i: int| 0 <= i < left_seq.len() && left_seq[i] == x;
                let j = choose|j: int| 0 <= j < right_seq.len() && right_seq[j] == y;
                assert(joined[i] == x);
                assert(joined[j + left_seq.len()] == y);
            }
            assert(node.split_along(keys@, axis as int));
        }
    }
    node
}

/// A bounding volume hierarchy over a span of a list.
///
/// The hierarchy owns the list. Its leaves are numbered within the span: leaf
/// `i` is the list's node `start + i`.
pub struct BVH<H> {
    objects: HittableList<H>,
    start: usize,
    root: BvhNode,
}

impl<H> BVH<H> {
    #[verifier::type_invariant]
    spec fn leaves_in_list(self) -> bool {
        self.start <= self.objects.objects@.len() && self.root.fits(
            self.objects.objects@.len() - self.start,
        )
    }

    /// The list that the hierarchy was built over.
    pub closed spec fn spec_objects(self) -> HittableList<H> {
        self.objects
    }

    /// The index in the list at which the span starts.
    pub closed spec fn spec_start(self) -> usize {
        self.start
    }

    /// The root of the tree.
    pub closed spec fn spec_root(self) -> BvhNode {
        self.root
    }

    /// The list that the hierarchy was built over.
    #[verifier::when_used_as_spec(spec_objects_ref)]
    pub fn objects(&self) -> (r: &HittableList<H>)
        ensures
            *r == self.spec_objects(),
    {
        &self.objects
    }

    pub open spec fn spec_objects_ref(&self) -> &HittableList<H> {
        &self.spec_objects()
    }

    /// The index in the list at which the span starts.
    #[verifier::when_used_as_spec(spec_start_ref)]
    pub fn start(&self) -> (r: usize)
        ensures
            r == self.spec_start(),
    {
        self.start
    }

    pub open spec fn spec_start_ref(&self) -> usize {
        self.spec_start()
    }

    /// The root of the tree.
    #[verifier::when_used_as_spec(spec_root_ref)]
    pub fn root(&self) -> (r: &BvhNode)
        ensures
            *r == self.spec_root(),
    {
        &self.root
    }

    pub open spec fn spec_root_ref(&self) -> &BvhNode {
        &self.spec_root()
    }
}

/// What [`BVH::new`] establishes of the tree it returns over the nodes
/// `start..end` of `objects`: there are boxes of those nodes, `keys` for the
/// instant zero and `boxes` for the two instants given, such that the tree is
/// well built on them and its leaves are the nodes of the span, each once.
pub open spec fn built_over<H: Hittable>(
    root: BvhNode,
    objects: Seq<H>,
    start: int,
    end: int,
    time0: F,
    time1: F,
) -> bool {
    exists|keys: Seq<AABB>, boxes: Seq<AABB>|
        #![trigger root.well_built(keys, boxes)]
        {
            &&& keys.len() == end - start
            &&& boxes.len() == end - start
            &&& boxes_of(objects, start, Scalar { bits: 0 }, Scalar { bits: 0 }, keys)
            &&& boxes_of(objects, start, time0, time1, boxes)
            &&& root.well_built(keys, boxes)
            &&& root.fits(end - start)
            &&& same_items(root.leaves(), count_up(end - start))
        }
}

impl<H: Hittable> BVH<H> {
    /// Builds the hierarchy over the nodes `start..end` of the list.
    ///
    /// Each node of the tree is split along an axis drawn at random: the
    /// nodes of its span are ordered by where their boxes for the instant
    /// zero start on that axis, and the halves go to the two sides. The boxes
    /// of the tree are those of the nodes between `time0` and `time1`.
    ///
    /// Fails where the span is empty or leaves the list, and where a node of
    /// the span reports no box for either pair of instants.
    pub fn new(src_objects: HittableList<H>, start: usize, end: usize, time0: F, time1: F) -> (r:
        Result<BVH<H>, BvhError>)
        ensures
            match r {
                Ok(bvh) => {
                    &&& start < end <= src_objects.objects@.len()
                    &&& bvh.spec_objects() == src_objects
                    &&& bvh.spec_start() == start
                    &&& built_over(
                        bvh.spec_root(),
                        src_objects.objects@,
                        start as int,
                        end as int,
                        time0,
                        time1,
                    )
                },
                Err(BvhError::SpanOutOfRange) => end > src_objects.objects@.len(),
                Err(BvhError::EmptySpan) => end <= src_objects.objects@.len() && start >= end,
                Err(BvhError::MissingBox(k)) => {
                    &&& start <= k < end <= src_objects.objects@.len()
                    &&& crate::hittable::may_bound(
                        &src_objects.objects@[k as int],
                        Scalar { bits: 0 },
                        Scalar { bits: 0 },
                        None,
                    ) || crate::hittable::may_bound(
                        &src_objects.objects@[k as int],
                        time0,
                        time1,
                        None,
                    )
                },
            },
    {
        if end > src_objects.len() {
            return Err(BvhError::SpanOutOfRange);
        }
        if start >= end {
            return Err(BvhError::EmptySpan);
        }
        let keys = match bounding_boxes(
            &src_objects.objects,
            start,
            end,
            Scalar::zero(),
            Scalar::zero(),
        ) {
            Ok(found) => found,
            Err(k) => {
                return Err(BvhError::MissingBox(k));
            },
        };
        let boxes = match bounding_boxes(&src_objects.objects, start, end, time0, time1) {
            Ok(found) => found,
            Err(k) => {
                return Err(BvhError::MissingBox(k));
            },
        };
        let items = numbered(end - start);
        let root = build(items, &keys, &boxes);
        proof {
            lemma_fits_more(root, end - start, src_objects.objects@.len() - start);
        }
        Ok(BVH { objects: src_objects, start, root })
    }
}


/// The box of a side is tight around the boxes of the leaves below it.
proof fn lemma_child_box_is_tight(child: BvhChild, keys: Seq<AABB>, boxes: Seq<AABB>, axis: int)
    requires
        child.well_built(keys, boxes),
        child.fits(boxes.len() as int),
        all_valid(boxes),
        0 <= axis < 3,
    ensures
        tight_around(child.bounds(boxes), child.leaves(), boxes, axis),
    decreases child, 0int,
{
    match child {
        BvhChild::Leaf(i) => {
            assert(boxes[i as int].valid());
            assert(child.leaves()[0] == i);
        },
        BvhChild::Tree(node) => {
            lemma_node_box_is_tight(*node, keys, boxes, axis);
        },
    }
}

/// The box of a node is tight around the boxes of the leaves below it.
pub proof fn lemma_node_box_is_tight(node: BvhNode, keys: Seq<AABB>, boxes: Seq<AABB>, axis: int)
    requires
        node.well_built(keys, boxes),
        node.fits(boxes.len() as int),
        all_valid(boxes),
        0 <= axis < 3,
    ensures
        tight_around(node.bbox, node.leaves(), boxes, axis),
    decreases node, 1int,
{
    lemma_child_box_is_tight(node.left, keys, boxes, axis);
    lemma_child_box_is_tight(node.right, keys, boxes, axis);
    lemma_union_stays_tight(
        node.left.bounds(boxes),
        node.right.bounds(boxes),
        node.left.leaves(),
        node.right.leaves(),
        boxes,
        axis,
    );
    if node.is_twin() {
        let i = node.left->Leaf_0;
        let b = boxes[i as int];
        assert(b.valid());
        crate::aabb::lemma_union_is_tight(b, b, axis);
        assert(node.leaves()[0] == i);
    }
}

/// The box at the root of a hierarchy is the union of the boxes of all the
/// nodes it was built over.
///
/// Where the boxes have their corners in order, the root's box starts and
/// ends on every axis where the union of the boxes, taken in the order of
/// the list, starts and ends.
pub proof fn lemma_root_box_is_union(root: BvhNode, keys: Seq<AABB>, boxes: Seq<AABB>, axis: int)
    requires
        0 < boxes.len() <= usize::MAX,
        root.well_built(keys, boxes),
        root.fits(boxes.len() as int),
        same_items(root.leaves(), count_up(boxes.len() as int)),
        all_valid(boxes),
        0 <= axis < 3,
    ensures
        root.bbox.valid(),
        root.bbox.min.spec_ix(axis).spec_equals(union_all(boxes).min.spec_ix(axis)),
        root.bbox.max.spec_ix(axis).spec_equals(union_all(boxes).max.spec_ix(axis)),
{
    lemma_node_box_is_tight(root, keys, boxes, axis);
    lemma_union_all_is_tight(boxes, axis);
    lemma_tight_boxes_agree(
        root.bbox,
        union_all(boxes),
        root.leaves(),
        count_up(boxes.len() as int),
        boxes,
        axis,
    );
}

/// What a walk of one side may return: a leaf answers for itself, a subtree
/// is walked.
pub open spec fn child_walked<H: Hittable, S: Fn(AABB) -> [Slab; 3]>(
    objects: Seq<H>,
    start: int,
    child: BvhChild,
    ray: Ray,
    t_min: F,
    t_max: F,
    slabs: S,
    r: Option<HitRecord<H::Material>>,
) -> bool
    decreases child, 0int,
{
    match child {
        BvhChild::Leaf(i) => may_hit(&objects[start + i], &ray, t_min, t_max, r),
        BvhChild::Tree(node) => walked(objects, start, *node, ray, t_min, t_max, slabs, r),
    }
}

/// What a walk of the tree below `node` may return.
///
/// With `crossings` being what `slabs` gave for the node's box: where the
/// slab test on them fails, nothing. Else, with `left` being what the left
/// side returned for `[t_min, t_max]` and `right` what the right side
/// returned for the interval cut down to `left`'s parameter: `right` where
/// that is a hit, else `left`.
pub open spec fn walked<H: Hittable, S: Fn(AABB) -> [Slab; 3]>(
    objects: Seq<H>,
    start: int,
    node: BvhNode,
    ray: Ray,
    t_min: F,
    t_max: F,
    slabs: S,
    r: Option<HitRecord<H::Material>>,
) -> bool
    decreases node, 1int,
{
    exists|crossings: [Slab; 3]|
        #[trigger] call_ensures(slabs, (node.bbox,), crossings) && if slabs_hit(
            crossings@,
            t_min,
            t_max,
        ) {
            exists|left: Option<HitRecord<H::Material>>, right: Option<HitRecord<H::Material>>|
                r == #[trigger] spec_latest(left, right) && child_walked(
                    objects,
                    start,
                    node.left,
                    ray,
                    t_min,
                    t_max,
                    slabs,
                    left,
                ) && child_walked(
                    objects,
                    start,
                    node.right,
                    ray,
                    t_min,
                    upper_bound(left, t_max),
                    slabs,
                    right,
                )
        } else {
            r is None
        }
}

fn walk_child<H: Hittable, S: Fn(AABB) -> [Slab; 3]>(
    objects: &Vec<H>,
    start: usize,
    child: &BvhChild,
    ray: &Ray,
    t_min: F,
    t_max: F,
    slabs: &S,
) -> (r: Option<HitRecord<H::Material>>)
    requires
        start <= objects@.len(),
        child.fits(objects@.len() - start),
        forall|b: AABB| call_requires(*slabs, (b,)),
    ensures
        child_walked(objects@, start as int, *child, *ray, t_min, t_max, *slabs, r),
    decreases child, 0int,
{
    match child {
        BvhChild::Leaf(i) => {
            let n = objects.len();
            objects[start + *i].hit(ray, t_min, t_max)
        },
        BvhChild::Tree(node) => walk(objects, start, node, ray, t_min, t_max, slabs),
    }
}

fn walk<H: Hittable, S: Fn(AABB) -> [Slab; 3]>(
    objects: &Vec<H>,
    start: usize,
    node: &BvhNode,
    ray: &Ray,
    t_min: F,
    t_max: F,
    slabs: &S,
) -> (r: Option<HitRecord<H::Material>>)
    requires
        start <= objects@.len(),
        node.fits(objects@.len() - start),
        forall|b: AABB| call_requires(*slabs, (b,)),
    ensures
        walked(objects@, start as int, *node, *ray, t_min, t_max, *slabs, r),
    decreases node, 1int,
{
    let crossings = slabs(node.bbox);
    if AABB::hit(&crossings, t_min, t_max) {
        let left = walk_child(objects, start, &node.left, ray, t_min, t_max, slabs);
        let bound = match &left {
            Some(record) => record.t,
            None => t_max,
        };
        let right = walk_child(objects, start, &node.right, ray, t_min, bound, slabs);
        latest(left, right)
    } else {
        None
    }
}

impl<H: Hittable> BVH<H> {
    /// The nearest hit of the ray with the nodes of the span.
    ///
    /// `slabs` gives, for a box, the crossings of the ray with the box's three
    /// pairs of planes. A subtree whose box fails the slab test on them is
    /// passed over. Else the left side is asked about `[t_min, t_max]`, then
    /// the right side about the interval cut down to the left side's hit,
    /// and a hit on the right takes the place of the one on the left.
    pub fn hit<S: Fn(AABB) -> [Slab; 3]>(&self, ray: &Ray, t_min: F, t_max: F, slabs: &S) -> (r:
        Option<HitRecord<H::Material>>)
        requires
            forall|b: AABB| call_requires(*slabs, (b,)),
        ensures
            walked(
                self.spec_objects().objects@,
                self.spec_start() as int,
                self.spec_root(),
                *ray,
                t_min,
                t_max,
                *slabs,
                r,
            ),
    {
        proof {
            use_type_invariant(self);
        }
        walk(&self.objects.objects, self.start, &self.root, ray, t_min, t_max, slabs)
    }

    /// The box of the root, whatever the instants.
    pub fn bounding_box(&self, _time0: F, _time1: F) -> (r: Option<AABB>)
        ensures
            r == Some(self.spec_root().bbox),
    {
        Some(self.root.bbox)
    }
}

/// The crossings of the named leaves, taken together.
pub open spec fn crossings_of(leaves: Seq<usize>, crossings: spec_fn(int) -> Set<F>) -> Set<F> {
    Set::new(
        |c: F| exists|k: int| 0 <= k < leaves.len() && crossings((#[trigger] leaves[k]) as int).contains(c),
    )
}

/// Whether each of the named leaves reports its nearest crossing.
pub open spec fn leaves_report_nearest<H: Hittable>(
    objects: Seq<H>,
    start: int,
    leaves: Seq<usize>,
    ray: Ray,
    t_min: F,
    crossings: spec_fn(int) -> Set<F>,
) -> bool {
    forall|k: int|
        0 <= k < leaves.len() ==> reports_nearest(
            &objects[start + (#[trigger] leaves[k])],
            ray,
            crossings(leaves[k] as int),
            t_min,
        )
}

/// Whether the slab test on `bbox` never fails for an interval in which one
/// of the named leaves has a crossing.
pub open spec fn box_is_sound<S: Fn(AABB) -> [Slab; 3]>(
    bbox: AABB,
    leaves: Seq<usize>,
    t_min: F,
    slabs: S,
    crossings: spec_fn(int) -> Set<F>,
) -> bool {
    forall|high: F, found: [Slab; 3], c: F|
        !high.nan() && #[trigger] call_ensures(slabs, (bbox,), found) && !slabs_hit(
            found@,
            t_min,
            high,
        ) && crossings_of(leaves, crossings).contains(c) ==> !#[trigger] in_range(c, t_min, high)
}

impl BvhChild {
    /// See [`BvhNode::boxes_are_sound`].
    pub open spec fn boxes_are_sound<S: Fn(AABB) -> [Slab; 3]>(
        self,
        t_min: F,
        slabs: S,
        crossings: spec_fn(int) -> Set<F>,
    ) -> bool
        decreases self, 0int,
    {
        match self {
            BvhChild::Leaf(_) => true,
            BvhChild::Tree(node) => node.boxes_are_sound(t_min, slabs, crossings),
        }
    }
}

impl BvhNode {
    /// Whether every box of the tree is sound for the leaves below it.
    pub open spec fn boxes_are_sound<S: Fn(AABB) -> [Slab; 3]>(
        self,
        t_min: F,
        slabs: S,
        crossings: spec_fn(int) -> Set<F>,
    ) -> bool
        decreases self, 1int,
    {
        &&& box_is_sound(self.bbox, self.leaves(), t_min, slabs, crossings)
        &&& self.left.boxes_are_sound(t_min, slabs, crossings)
        &&& self.right.boxes_are_sound(t_min, slabs, crossings)
    }
}

proof fn lemma_child_walk_returns_nearest<H: Hittable, S: Fn(AABB) -> [Slab; 3]>(
    objects: Seq<H>,
    start: int,
    child: BvhChild,
    ray: Ray,
    t_min: F,
    t_max: F,
    slabs: S,
    r: Option<HitRecord<H::Material>>,
    crossings: spec_fn(int) -> Set<F>,
)
    requires
        !t_min.nan(),
        !t_max.nan(),
        child_walked(objects, start, child, ray, t_min, t_max, slabs, r),
        leaves_report_nearest(objects, start, child.leaves(), ray, t_min, crossings),
        child.boxes_are_sound(t_min, slabs, crossings),
    ensures
        answers_nearest(crossings_of(child.leaves(), crossings), t_min, t_max, r),
    decreases child, 0int,
{
    match child {
        BvhChild::Leaf(i) => {
            let leaves = child.leaves();
            assert(leaves[0] == i);
            assert(reports_nearest(&objects[start + leaves[0]], ray, crossings(i as int), t_min));
            assert(answers_nearest(crossings(i as int), t_min, t_max, r));
            assert(crossings_of(leaves, crossings) =~= crossings(i as int)) by {
                assert forall|c: F| crossings(i as int).contains(c) implies crossings_of(
                    leaves,
                    crossings,
                ).contains(c) by {
                    assert(crossings(leaves[0] as int).contains(c));
                }
            }
        },
        BvhChild::Tree(node) => {
            lemma_walk_returns_nearest(objects, start, *node, ray, t_min, t_max, slabs, r, crossings);
        },
    }
}

/// The walk of a hierarchy returns the nearest hit of the nodes below it.
///
/// Where every leaf reports its own nearest crossing in whatever interval it
/// is asked about, and no box fails the slab test for an interval in which a
/// leaf below it has a crossing, the record that the walk returns lies at the
/// nearest crossing of all the leaves together in `[t_min, t_max]`, and the
/// walk returns nothing exactly where none of them has a crossing there: the
/// same parameter as a scan of every leaf over the whole interval.
pub proof fn lemma_walk_returns_nearest<H: Hittable, S: Fn(AABB) -> [Slab; 3]>(
    objects: Seq<H>,
    start: int,
    node: BvhNode,
    ray: Ray,
    t_min: F,
    t_max: F,
    slabs: S,
    r: Option<HitRecord<H::Material>>,
    crossings: spec_fn(int) -> Set<F>,
)
    requires
        !t_min.nan(),
        !t_max.nan(),
        walked(objects, start, node, ray, t_min, t_max, slabs, r),
        leaves_report_nearest(objects, start, node.leaves(), ray, t_min, crossings),
        node.boxes_are_sound(t_min, slabs, crossings),
    ensures
        answers_nearest(crossings_of(node.leaves(), crossings), t_min, t_max, r),
    decreases node, 1int,
{
    let all = crossings_of(node.leaves(), crossings);
    let found = choose|found: [Slab; 3]|
        #[trigger] call_ensures(slabs, (node.bbox,), found) && if slabs_hit(found@, t_min, t_max) {
            exists|left: Option<HitRecord<H::Material>>, right: Option<HitRecord<H::Material>>|
                r == #[trigger] spec_latest(left, right) && child_walked(
                    objects,
                    start,
                    node.left,
                    ray,
                    t_min,
                    t_max,
                    slabs,
                    left,
                ) && child_walked(
                    objects,
                    start,
                    node.right,
                    ray,
                    t_min,
                    upper_bound(left, t_max),
                    slabs,
                    right,
                )
        } else {
            r is None
        };
    if slabs_hit(found@, t_min, t_max) {
        let (left, right) = choose|
            left: Option<HitRecord<H::Material>>,
            right: Option<HitRecord<H::Material>>,
        |
            r == #[trigger] spec_latest(left, right) && child_walked(
                objects,
                start,
                node.left,
                ray,
                t_min,
                t_max,
                slabs,
                left,
            ) && child_walked(
                objects,
                start,
                node.right,
                ray,
                t_min,
                upper_bound(left, t_max),
                slabs,
                right,
            );
        let l = node.left.leaves();
        let rr = node.right.leaves();
        assert forall|k: int| 0 <= k < l.len() implies reports_nearest(
            &objects[start + (#[trigger] l[k])],
            ray,
            crossings(l[k] as int),
            t_min,
        ) by {
            assert(node.leaves()[k] == l[k]);
        }
        assert forall|k: int| 0 <= k < rr.len() implies reports_nearest(
            &objects[start + (#[trigger] rr[k])],
            ray,
            crossings(rr[k] as int),
            t_min,
        ) by {
            if node.is_twin() {
                assert(node.leaves()[k] == rr[k]);
            } else {
                assert(node.leaves()[k + l.len()] == rr[k]);
            }
        }
        lemma_child_walk_returns_nearest(
            objects,
            start,
            node.left,
            ray,
            t_min,
            t_max,
            slabs,
            left,
            crossings,
        );
        let bound = upper_bound(left, t_max);
        assert(!bound.nan());
        lemma_child_walk_returns_nearest(
            objects,
            start,
            node.right,
            ray,
            t_min,
            bound,
            slabs,
            right,
            crossings,
        );
        let first = crossings_of(l, crossings);
        let second = crossings_of(rr, crossings);
        lemma_nearest_of_both(first, second, t_min, t_max, left, right);
        assert forall|c: F| all.contains(c) implies first.union(second).contains(c) by {
            let k = choose|k: int|
                0 <= k < node.leaves().len() && crossings(
                    (#[trigger] node.leaves()[k]) as int,
                ).contains(c);
            if node.is_twin() || k < l.len() {
                assert(crossings(l[k] as int).contains(c));
            } else {
                assert(crossings(rr[k - l.len()] as int).contains(c));
            }
        }
        assert forall|c: F| first.union(second).contains(c) implies all.contains(c) by {
            if first.contains(c) {
                let k = choose|k: int|
                    0 <= k < l.len() && crossings((#[trigger] l[k]) as int).contains(c);
                assert(crossings(node.leaves()[k] as int).contains(c));
            } else {
                let k = choose|k: int|
                    0 <= k < rr.len() && crossings((#[trigger] rr[k]) as int).contains(c);
                if node.is_twin() {
                    assert(crossings(node.leaves()[k] as int).contains(c));
                } else {
                    assert(crossings(node.leaves()[k + l.len()] as int).contains(c));
                }
            }
        }
        assert(all =~= first.union(second));
    } else {
        assert(box_is_sound(node.bbox, node.leaves(), t_min, slabs, crossings));
        assert forall|c: F| all.contains(c) implies !in_range(c, t_min, t_max) by {
            if in_range(c, t_min, t_max) {
                assert(call_ensures(slabs, (node.bbox,), found));
                assert(false);
            }
        }
    }
}

/// The walk of a hierarchy and a scan of the nodes it was built over agree.
///
/// Where the leaves of the tree are the nodes of the span, each once, every
/// node reports its own nearest crossing in whatever interval it is asked
/// about, and no box fails the slab test for an interval in which a leaf
/// below it has a crossing: the walk, and a scan that asks every node of the
/// span about the whole interval and keeps the nearest answer, both miss or
/// both hit, and then at the same parameter.
pub proof fn lemma_walk_agrees_with_scan<H: Hittable, S: Fn(AABB) -> [Slab; 3]>(
    objects: Seq<H>,
    start: int,
    root: BvhNode,
    ray: Ray,
    t_min: F,
    t_max: F,
    slabs: S,
    r: Option<HitRecord<H::Material>>,
    answers: Seq<Option<HitRecord<H::Material>>>,
    crossings: spec_fn(int) -> Set<F>,
)
    requires
        !t_min.nan(),
        !t_max.nan(),
        0 <= start,
        start + answers.len() <= objects.len(),
        answers.len() <= usize::MAX,
        walked(objects, start, root, ray, t_min, t_max, slabs, r),
        same_items(root.leaves(), count_up(answers.len() as int)),
        forall|k: int|
            0 <= k < answers.len() ==> may_hit(
                &objects[start + k],
                &ray,
                t_min,
                t_max,
                #[trigger] answers[k],
            ),
        forall|k: int|
            0 <= k < answers.len() ==> reports_nearest(
                &objects[start + k],
                ray,
                #[trigger] crossings(k),
                t_min,
            ),
        root.boxes_are_sound(t_min, slabs, crossings),
    ensures
        r is Some == nearest_answer(answers) is Some,
        r is Some ==> r->0.t.spec_equals(nearest_answer(answers)->0.t),
{
    let n = answers.len() as int;
    let leaves = root.leaves();
    let span = objects.subrange(start, start + n);
    let by_leaf = crossings_of(leaves, crossings);
    let by_node = crossings_upto(crossings, n);
    assert forall|k: int| 0 <= k < leaves.len() implies reports_nearest(
        &objects[start + (#[trigger] leaves[k])],
        ray,
        crossings(leaves[k] as int),
        t_min,
    ) by {
        assert(leaves.contains(leaves[k]));
        lemma_same_items_contains(leaves, count_up(n), leaves[k]);
        let i = choose|i: int| 0 <= i < n && count_up(n)[i] == leaves[k];
        assert(count_up(n)[i] == i);
    }
    lemma_walk_returns_nearest(objects, start, root, ray, t_min, t_max, slabs, r, crossings);
    assert forall|k: int| 0 <= k < answers.len() implies may_hit(
        &span[k],
        &ray,
        t_min,
        t_max,
        #[trigger] answers[k],
    ) by {
        assert(span[k] == objects[start + k]);
    }
    assert forall|i: int| 0 <= i < answers.len() implies reports_nearest(
        &span[i],
        ray,
        #[trigger] crossings(i),
        t_min,
    ) by {
        assert(span[i] == objects[start + i]);
    }
    lemma_scan_returns_nearest(span, ray, t_min, t_max, answers, crossings);
    assert forall|c: F| by_leaf.contains(c) implies by_node.contains(c) by {
        let k = choose|k: int|
            0 <= k < leaves.len() && crossings((#[trigger] leaves[k]) as int).contains(c);
        assert(leaves.contains(leaves[k]));
        lemma_same_items_contains(leaves, count_up(n), leaves[k]);
        let i = choose|i: int| 0 <= i < n && count_up(n)[i] == leaves[k];
        assert(count_up(n)[i] == i);
        assert(crossings(i).contains(c));
    }
    assert forall|c: F| by_node.contains(c) implies by_leaf.contains(c) by {
        let i = choose|i: int| 0 <= i < n && #[trigger] crossings(i).contains(c);
        assert(count_up(n)[i] == i);
        assert(count_up(n).contains(i as usize));
        lemma_same_items_contains(count_up(n), leaves, i as usize);
        let k = choose|k: int| 0 <= k < leaves.len() && leaves[k] == i as usize;
        assert(crossings(leaves[k] as int).contains(c));
    }
    assert(by_leaf =~= by_node);
    lemma_nearest_is_unique(by_node, t_min, t_max, r, nearest_answer(answers));
}

/// What leaf `leaf` of a hierarchy over the nodes from `start` on may answer
/// when it is asked about `[t_min, bound]`.
pub open spec fn leaf_may_hit<H: Hittable>(
    objects: Seq<H>,
    start: int,
    leaf: usize,
    ray: Ray,
    t_min: F,
    bound: F,
    r: Option<HitRecord<H::Material>>,
) -> bool {
    may_hit(&objects[start + leaf], &ray, t_min, bound, r)
}

proof fn lemma_child_walk_returns_an_answer<H: Hittable, S: Fn(AABB) -> [Slab; 3]>(
    objects: Seq<H>,
    start: int,
    child: BvhChild,
    ray: Ray,
    t_min: F,
    t_max: F,
    slabs: S,
    r: Option<HitRecord<H::Material>>,
)
    requires
        child_walked(objects, start, child, ray, t_min, t_max, slabs, r),
        r is Some,
    ensures
        exists|k: int, bound: F|
            0 <= k < child.leaves().len() && #[trigger] leaf_may_hit(
                objects,
                start,
                child.leaves()[k],
                ray,
                t_min,
                bound,
                r,
            ),
    decreases child, 0int,
{
    match child {
        BvhChild::Leaf(i) => {
            let leaves = child.leaves();
            assert(leaves.len() == 1 && leaves[0] == i);
            assert(leaf_may_hit(objects, start, leaves[0], ray, t_min, t_max, r));
        },
        BvhChild::Tree(node) => {
            lemma_walk_returns_an_answer(objects, start, *node, ray, t_min, t_max, slabs, r);
            assert(child.leaves() == node.leaves());
        },
    }
}

/// The record that a walk returns is the record of one of the leaves: what
/// that leaf answered when the walk asked it.
pub proof fn lemma_walk_returns_an_answer<H: Hittable, S: Fn(AABB) -> [Slab; 3]>(
    objects: Seq<H>,
    start: int,
    node: BvhNode,
    ray: Ray,
    t_min: F,
    t_max: F,
    slabs: S,
    r: Option<HitRecord<H::Material>>,
)
    requires
        walked(objects, start, node, ray, t_min, t_max, slabs, r),
        r is Some,
    ensures
        exists|k: int, bound: F|
            0 <= k < node.leaves().len() && #[trigger] leaf_may_hit(
                objects,
                start,
                node.leaves()[k],
                ray,
                t_min,
                bound,
                r,
            ),
    decreases node, 1int,
{
    let found = choose|found: [Slab; 3]|
        #[trigger] call_ensures(slabs, (node.bbox,), found) && if slabs_hit(found@, t_min, t_max) {
            exists|left: Option<HitRecord<H::Material>>, right: Option<HitRecord<H::Material>>|
                r == #[trigger] spec_latest(left, right) && child_walked(
                    objects,
                    start,
                    node.left,
                    ray,
                    t_min,
                    t_max,
                    slabs,
                    left,
                ) && child_walked(
                    objects,
                    start,
                    node.right,
                    ray,
                    t_min,
                    upper_bound(left, t_max),
                    slabs,
                    right,
                )
        } else {
            r is None
        };
    let (left, right) = choose|
        left: Option<HitRecord<H::Material>>,
        right: Option<HitRecord<H::Material>>,
    |
        r == #[trigger] spec_latest(left, right) && child_walked(
            objects,
            start,
            node.left,
            ray,
            t_min,
            t_max,
            slabs,
            left,
        ) && child_walked(
            objects,
            start,
            node.right,
            ray,
            t_min,
            upper_bound(left, t_max),
            slabs,
            right,
        );
    let l = node.left.leaves();
    let rr = node.right.leaves();
    if right is Some {
        lemma_child_walk_returns_an_answer(
            objects,
            start,
            node.right,
            ray,
            t_min,
            upper_bound(left, t_max),
            slabs,
            right,
        );
        let (k, bound) = choose|k: int, bound: F|
            0 <= k < rr.len() && #[trigger] leaf_may_hit(objects, start, rr[k], ray, t_min, bound, r);
        if node.is_twin() {
            assert(node.leaves()[k] == rr[k]);
            assert(leaf_may_hit(objects, start, node.leaves()[k], ray, t_min, bound, r));
        } else {
            assert(node.leaves()[k + l.len()] == rr[k]);
            assert(leaf_may_hit(objects, start, node.leaves()[k + l.len()], ray, t_min, bound, r));
        }
    } else {
        lemma_child_walk_returns_an_answer(
            objects,
            start,
            node.left,
            ray,
            t_min,
            t_max,
            slabs,
            left,
        );
        let (k, bound) = choose|k: int, bound: F|
            0 <= k < l.len() && #[trigger] leaf_may_hit(objects, start, l[k], ray, t_min, bound, r);
        assert(node.leaves()[k] == l[k]);
        assert(leaf_may_hit(objects, start, node.leaves()[k], ray, t_min, bound, r));
    }
}

/// Where the ray meets one node of a hierarchy and no other, the walk returns
/// that node's record, whatever the shape of the tree.
///
/// Leaf `only` crosses the ray at the parameter of `record`, within the
/// interval, reports that crossing whenever the bound lets it, and answers
/// with `record` whenever it answers; every other leaf answers with nothing;
/// and no box above `only` fails the slab test for an interval that holds the
/// crossing. Then the walk returns `record`, whole: point, normal, side and
/// material.
pub proof fn lemma_walk_returns_the_one_hit<H: Hittable, S: Fn(AABB) -> [Slab; 3]>(
    objects: Seq<H>,
    start: int,
    root: BvhNode,
    ray: Ray,
    t_min: F,
    t_max: F,
    slabs: S,
    r: Option<HitRecord<H::Material>>,
    only: usize,
    record: HitRecord<H::Material>,
)
    requires
        !t_min.nan(),
        !t_max.nan(),
        walked(objects, start, root, ray, t_min, t_max, slabs, r),
        root.leaves().contains(only),
        in_range(record.t, t_min, t_max),
        reports_nearest(&objects[start + only], ray, set![record.t], t_min),
        answers_only(&objects[start + only], ray, t_min, Some(record)),
        forall|k: int|
            0 <= k < root.leaves().len() && root.leaves()[k] != only ==> answers_only(
                &objects[start + (#[trigger] root.leaves()[k])],
                ray,
                t_min,
                None,
            ),
        root.boxes_are_sound(t_min, slabs, one_crossing(only as int, record.t)),
    ensures
        r == Some(record),
{
    let crossings = one_crossing(only as int, record.t);
    let leaves = root.leaves();
    assert forall|k: int| 0 <= k < leaves.len() implies reports_nearest(
        &objects[start + (#[trigger] leaves[k])],
        ray,
        crossings(leaves[k] as int),
        t_min,
    ) by {
        if leaves[k] != only {
            assert(answers_only(&objects[start + leaves[k]], ray, t_min, None));
        }
    }
    lemma_walk_returns_nearest(objects, start, root, ray, t_min, t_max, slabs, r, crossings);
    let at = choose|k: int| 0 <= k < leaves.len() && leaves[k] == only;
    assert(crossings(leaves[at] as int).contains(record.t));
    assert(crossings_of(leaves, crossings).contains(record.t));
    assert(r is Some);
    lemma_walk_returns_an_answer(objects, start, root, ray, t_min, t_max, slabs, r);
    let (k, bound) = choose|k: int, bound: F|
        0 <= k < leaves.len() && #[trigger] leaf_may_hit(
            objects,
            start,
            leaves[k],
            ray,
            t_min,
            bound,
            r,
        );
    if leaves[k] != only {
        assert(answers_only(&objects[start + leaves[k]], ray, t_min, None));
    }
}

} // verus!
