//! The bounding-volume hierarchy: a binary tree of boxes over the primitives
//! of a scene.

use vstd::prelude::*;
use crate::aabb::{AxisAlignedBoundingBox, Slabs};
use crate::hittables::{Candidate, HitRecord, RayView, Window};
use crate::random::random_below;
use crate::scalar::Scalar;

verus! {

/// What hangs below a node: a primitive of the scene, by its number, or
/// another node of the same tree, by its place in `nodes`.
#[derive(Clone, Copy, Debug, PartialEq, Eq, Structural)]
pub enum Child {
    Primitive(usize),
    Node(usize),
}

/// A node of the tree: two children and the box around both.
#[derive(Clone, Copy, Debug, PartialEq, Eq, Structural)]
pub struct Node {
    pub left: Child,
    pub right: Child,
    pub bounding_box: AxisAlignedBoundingBox,
}

/// The tree. Children come before their parents in `nodes`, so the root is
/// the last node.
pub struct BoundedVolumeHierarchy {
    pub nodes: Vec<Node>,
}

/// How far up in `nodes` a child reaches: 0 for a primitive, one more than
/// its place for a node.
pub open spec fn rank(child: Child) -> int {
    match child {
        Child::Primitive(_) => 0,
        Child::Node(j) => j + 1,
    }
}

/// The box of a child: that of the primitive, or that of the node.
pub open spec fn child_box(
    nodes: Seq<Node>,
    boxes: Seq<AxisAlignedBoundingBox>,
    child: Child,
) -> AxisAlignedBoundingBox {
    match child {
        Child::Primitive(p) => boxes[p as int],
        Child::Node(j) => nodes[j as int].bounding_box,
    }
}

/// Whether `child` may hang below node `j`: a primitive must exist, a node
/// must come before `j`.
pub open spec fn child_ok(child: Child, j: int, count: int) -> bool {
    match child {
        Child::Primitive(p) => p < count,
        Child::Node(k) => k < j,
    }
}

/// Node `j` has two proper children, and its box is the union of theirs.
pub open spec fn node_ok(nodes: Seq<Node>, boxes: Seq<AxisAlignedBoundingBox>, j: int) -> bool {
    &&& child_ok(nodes[j].left, j, boxes.len() as int)
    &&& child_ok(nodes[j].right, j, boxes.len() as int)
    &&& nodes[j].bounding_box == child_box(nodes, boxes, nodes[j].left).union(
        child_box(nodes, boxes, nodes[j].right),
    )
}

/// Every node is in order.
pub open spec fn nodes_ok(nodes: Seq<Node>, boxes: Seq<AxisAlignedBoundingBox>) -> bool {
    forall|j: int| 0 <= j < nodes.len() ==> #[trigger] node_ok(nodes, boxes, j)
}

/// The primitives below `child`, from left to right.
pub open spec fn leaves(nodes: Seq<Node>, child: Child) -> Seq<usize>
    decreases rank(child),
{
    match child {
        Child::Primitive(p) => seq![p],
        Child::Node(j) => if j < nodes.len() && rank(nodes[j as int].left) <= j && rank(
            nodes[j as int].right,
        ) <= j {
            leaves(nodes, nodes[j as int].left) + leaves(nodes, nodes[j as int].right)
        } else {
            Seq::empty()
        },
    }
}

/// Where the search of what hangs at `child` leaves the window, if every
/// primitive answers as `view` says and the ray crosses the box of node `j`
/// as `crossings[j]` says.
///
/// A primitive is asked for a meeting inside the window. A node whose box
/// the ray misses inside the window is passed over; otherwise its left child
/// is searched, and then its right child in what the left has left of the
/// window.
pub open spec fn probe(
    nodes: Seq<Node>,
    view: RayView,
    crossings: Seq<Slabs>,
    child: Child,
    window: Window,
) -> Window
    decreases rank(child),
{
    match child {
        Child::Primitive(p) => window.offered(p, view.answer(p, window.upper())),
        Child::Node(j) => if j < nodes.len() && rank(nodes[j as int].left) <= j && rank(
            nodes[j as int].right,
        ) <= j {
            if crossings[j as int].overlap(window.min_value as int, window.upper() as int) {
                probe(
                    nodes,
                    view,
                    crossings,
                    nodes[j as int].right,
                    probe(nodes, view, crossings, nodes[j as int].left, window),
                )
            } else {
                window
            }
        } else {
            window
        },
    }
}

/// Where a search ends that still has `pending` to go through, last entry
/// first.
pub open spec fn unwind(
    nodes: Seq<Node>,
    view: RayView,
    crossings: Seq<Slabs>,
    pending: Seq<Child>,
    window: Window,
) -> Window
    decreases pending.len(),
{
    if pending.len() == 0 {
        window
    } else {
        unwind(
            nodes,
            view,
            crossings,
            pending.drop_last(),
            probe(nodes, view, crossings, pending.last(), window),
        )
    }
}

/// Children come before their parents: no child of a node reaches up to the
/// node's own place.
pub open spec fn ranked(nodes: Seq<Node>) -> bool {
    forall|j: int|
        0 <= j < nodes.len() ==> rank((#[trigger] nodes[j]).left) <= j && rank(nodes[j].right) <= j
}

/// The number of nodes and primitives at `child` and below it.
pub open spec fn weight(nodes: Seq<Node>, child: Child) -> nat
    decreases rank(child),
{
    match child {
        Child::Primitive(_) => 1,
        Child::Node(j) => if j < nodes.len() && rank(nodes[j as int].left) <= j && rank(
            nodes[j as int].right,
        ) <= j {
            1 + weight(nodes, nodes[j as int].left) + weight(nodes, nodes[j as int].right)
        } else {
            1
        },
    }
}

/// The number of nodes and primitives that a search with `pending` to go
/// through may still have to ask about.
pub open spec fn work_left(nodes: Seq<Node>, pending: Seq<Child>) -> nat
    decreases pending.len(),
{
    if pending.len() == 0 {
        0
    } else {
        work_left(nodes, pending.drop_last()) + weight(nodes, pending.last())
    }
}

/// The coordinate by which primitive `order[i]` is sorted along `axis`: the
/// minimum of its box.
pub open spec fn key_of(
    boxes: Seq<AxisAlignedBoundingBox>,
    order: Seq<usize>,
    axis: int,
    i: int,
) -> Scalar {
    boxes[order[i] as int].minimum.at(axis)
}

/// From `lo` up to `hi`, `order` lists primitives by ascending key.
pub open spec fn sorted_by_axis(
    boxes: Seq<AxisAlignedBoundingBox>,
    order: Seq<usize>,
    axis: int,
    lo: int,
    hi: int,
) -> bool {
    forall|a: int, b: int|
        lo <= a <= b < hi ==> #[trigger] key_of(boxes, order, axis, a) <= #[trigger] key_of(
            boxes,
            order,
            axis,
            b,
        )
}

/// Along `axis`, no primitive of `near` starts after one of `far`.
pub open spec fn in_order(
    boxes: Seq<AxisAlignedBoundingBox>,
    near: Seq<usize>,
    far: Seq<usize>,
    axis: int,
) -> bool {
    forall|a: int, b: int|
        0 <= a < near.len() && 0 <= b < far.len() ==> #[trigger] key_of(boxes, near, axis, a)
            <= #[trigger] key_of(boxes, far, axis, b)
}

/// Two lists hold the same primitives.
pub open spec fn same_members(first: Seq<usize>, second: Seq<usize>) -> bool {
    forall|p: usize| first.contains(p) <==> second.contains(p)
}

/// Along `axis`, no primitive below the left child of node `j` starts after
/// one below its right child.
pub open spec fn separated(
    nodes: Seq<Node>,
    boxes: Seq<AxisAlignedBoundingBox>,
    j: int,
    axis: int,
) -> bool {
    in_order(boxes, leaves(nodes, nodes[j].left), leaves(nodes, nodes[j].right), axis)
}

/// Node `j` was made by median splits from `count` primitives.
///
/// One primitive hangs below it twice. Two hang side by side. More are split
/// into a first half of `count / 2` below the left child and the rest below
/// the right child, each half split in the same way. There always is an
/// axis along which the left side does not start after the right side.
pub open spec fn median_split(
    nodes: Seq<Node>,
    boxes: Seq<AxisAlignedBoundingBox>,
    j: int,
    count: int,
) -> bool
    decreases j,
{
    &&& 0 <= j < nodes.len()
    &&& exists|axis: int| 0 <= axis < 3 && #[trigger] separated(nodes, boxes, j, axis)
    &&& if count <= 1 {
        nodes[j].left is Primitive && nodes[j].right == nodes[j].left
    } else if count == 2 {
        nodes[j].left is Primitive && nodes[j].right is Primitive
    } else {
        &&& nodes[j].left matches Child::Node(l)
        &&& nodes[j].right matches Child::Node(r)
        &&& l < j
        &&& r < j
        &&& median_split(nodes, boxes, l as int, count / 2)
        &&& median_split(nodes, boxes, r as int, count - count / 2)
    }
}

/// Nodes added behind a tree change nothing below the children that were
/// there before.
pub proof fn lemma_leaves_extend(nodes: Seq<Node>, longer: Seq<Node>, child: Child)
    requires
        nodes.len() <= longer.len(),
        longer.take(nodes.len() as int) == nodes,
        rank(child) <= nodes.len(),
    ensures
        leaves(longer, child) == leaves(nodes, child),
    decreases rank(child),
{
    match child {
        Child::Primitive(_) => {},
        Child::Node(j) => {
            assert(longer[j as int] == longer.take(nodes.len() as int)[j as int]);
            if rank(nodes[j as int].left) <= j && rank(nodes[j as int].right) <= j {
                lemma_leaves_extend(nodes, longer, nodes[j as int].left);
                lemma_leaves_extend(nodes, longer, nodes[j as int].right);
            }
        },
    }
}

/// Nodes added behind a tree leave the nodes before them in order.
pub proof fn lemma_node_ok_extend(
    nodes: Seq<Node>,
    longer: Seq<Node>,
    boxes: Seq<AxisAlignedBoundingBox>,
    j: int,
)
    requires
        nodes.len() <= longer.len(),
        longer.take(nodes.len() as int) == nodes,
        0 <= j < nodes.len(),
        node_ok(nodes, boxes, j),
    ensures
        node_ok(longer, boxes, j),
{
    assert(longer[j] == longer.take(nodes.len() as int)[j]);
    match nodes[j].left {
        Child::Primitive(_) => {},
        Child::Node(k) => {
            assert(longer[k as int] == longer.take(nodes.len() as int)[k as int]);
        },
    }
    match nodes[j].right {
        Child::Primitive(_) => {},
        Child::Node(k) => {
            assert(longer[k as int] == longer.take(nodes.len() as int)[k as int]);
        },
    }
}

/// Nodes added behind a tree leave the median splits before them as they
/// are.
pub proof fn lemma_median_split_extend(
    nodes: Seq<Node>,
    longer: Seq<Node>,
    boxes: Seq<AxisAlignedBoundingBox>,
    j: int,
    count: int,
)
    requires
        nodes.len() <= longer.len(),
        longer.take(nodes.len() as int) == nodes,
        median_split(nodes, boxes, j, count),
    ensures
        median_split(longer, boxes, j, count),
    decreases j,
{
    assert(longer[j] == longer.take(nodes.len() as int)[j]);
    let axis = choose|axis: int| 0 <= axis < 3 && #[trigger] separated(nodes, boxes, j, axis);
    if count >= 3 {
        let l = nodes[j].left->Node_0;
        let r = nodes[j].right->Node_0;
        lemma_median_split_extend(nodes, longer, boxes, l as int, count / 2);
        lemma_median_split_extend(nodes, longer, boxes, r as int, count - count / 2);
        lemma_leaves_extend(nodes, longer, nodes[j].left);
        lemma_leaves_extend(nodes, longer, nodes[j].right);
    } else {
        lemma_leaves_extend(nodes, longer, nodes[j].left);
        lemma_leaves_extend(nodes, longer, nodes[j].right);
    }
    assert(separated(longer, boxes, j, axis));
}

/// `origin` says where the entries of a stretch came from: the entry at
/// place `k` of `after` stood at place `origin[k - lo]` of `before`, and no
/// two entries came from the same place.
pub open spec fn arranged(
    before: Seq<usize>,
    after: Seq<usize>,
    origin: Seq<int>,
    lo: int,
    hi: int,
) -> bool {
    &&& origin.len() == hi - lo
    &&& forall|k: int|
        lo <= k < hi ==> lo <= #[trigger] origin[k - lo] < hi && after[k] == before[origin[k - lo]]
    &&& forall|a: int, b: int|
        0 <= a < b < hi - lo ==> #[trigger] origin[a] != #[trigger] origin[b]
}

/// The entry at place `a` belongs before the entry at place `b`: its key is
/// smaller, or the keys are equal and it came from an earlier place.
pub open spec fn precedes(
    boxes: Seq<AxisAlignedBoundingBox>,
    order: Seq<usize>,
    origin: Seq<int>,
    axis: int,
    lo: int,
    a: int,
    b: int,
) -> bool {
    key_of(boxes, order, axis, a) < key_of(boxes, order, axis, b) || (key_of(
        boxes,
        order,
        axis,
        a,
    ) == key_of(boxes, order, axis, b) && origin[a - lo] < origin[b - lo])
}

/// From `lo` up to `hi`, `after` holds the entries of `before` sorted by
/// key, entries with equal keys in the order they had.
pub open spec fn stably_sorted(
    boxes: Seq<AxisAlignedBoundingBox>,
    before: Seq<usize>,
    after: Seq<usize>,
    origin: Seq<int>,
    axis: int,
    lo: int,
    hi: int,
) -> bool {
    &&& arranged(before, after, origin, lo, hi)
    &&& forall|a: int, b: int|
        lo <= a < b < hi ==> #[trigger] precedes(boxes, after, origin, axis, lo, a, b)
}

/// The state of the sort between insertions: the entries before place `i`
/// are sorted among themselves and came from places before `i`; the others
/// have not moved.
spec fn sorted_upto(
    boxes: Seq<AxisAlignedBoundingBox>,
    start: Seq<usize>,
    order: Seq<usize>,
    origin: Seq<int>,
    axis: int,
    lo: int,
    hi: int,
    i: int,
) -> bool {
    &&& arranged(start, order, origin, lo, hi)
    &&& forall|a: int, b: int|
        lo <= a < b < i ==> #[trigger] precedes(boxes, order, origin, axis, lo, a, b)
    &&& forall|a: int| lo <= a < i ==> #[trigger] origin[a - lo] < i
    &&& forall|k: int| i <= k < hi ==> #[trigger] origin[k - lo] == k
}

/// The state of the sort during an insertion: the entry that stood at place
/// `i` has moved down to place `j`, past entries with greater keys only.
spec fn inserting(
    boxes: Seq<AxisAlignedBoundingBox>,
    start: Seq<usize>,
    order: Seq<usize>,
    origin: Seq<int>,
    axis: int,
    lo: int,
    hi: int,
    i: int,
    j: int,
) -> bool {
    &&& arranged(start, order, origin, lo, hi)
    &&& forall|a: int, b: int|
        lo <= a < b <= i && a != j && b != j ==> #[trigger] precedes(
            boxes,
            order,
            origin,
            axis,
            lo,
            a,
            b,
        )
    &&& forall|b: int|
        j < b <= i ==> key_of(boxes, order, axis, j) < #[trigger] key_of(boxes, order, axis, b)
    &&& origin[j - lo] == i
    &&& forall|a: int| lo <= a <= i && a != j ==> #[trigger] origin[a - lo] < i
    &&& forall|k: int| i < k < hi ==> #[trigger] origin[k - lo] == k
}

/// A stretch of fewer than two entries is sorted as it stands.
proof fn lemma_short_is_sorted(
    boxes: Seq<AxisAlignedBoundingBox>,
    start: Seq<usize>,
    origin: Seq<int>,
    axis: int,
    lo: int,
    hi: int,
)
    requires
        0 <= lo <= hi <= start.len(),
        hi - lo < 2,
        origin == Seq::new((hi - lo) as nat, |k: int| lo + k),
    ensures
        stably_sorted(boxes, start, start, origin, axis, lo, hi),
        sorted_by_axis(boxes, start, axis, lo, hi),
{
}

/// Before the first insertion the first entry is sorted by itself.
proof fn lemma_first_is_sorted(
    boxes: Seq<AxisAlignedBoundingBox>,
    start: Seq<usize>,
    origin: Seq<int>,
    axis: int,
    lo: int,
    hi: int,
)
    requires
        0 <= lo < hi <= start.len(),
        origin == Seq::new((hi - lo) as nat, |k: int| lo + k),
    ensures
        sorted_upto(boxes, start, start, origin, axis, lo, hi, lo + 1),
{
}

/// An insertion begins with the entry at place `i` where it stands.
proof fn lemma_begin_insert(
    boxes: Seq<AxisAlignedBoundingBox>,
    start: Seq<usize>,
    order: Seq<usize>,
    origin: Seq<int>,
    axis: int,
    lo: int,
    hi: int,
    i: int,
)
    requires
        0 <= lo < i < hi,
        sorted_upto(boxes, start, order, origin, axis, lo, hi, i),
    ensures
        inserting(boxes, start, order, origin, axis, lo, hi, i, i),
{
    assert(origin[i - lo] == i);
}

/// One step of an insertion: the moving entry changes places with its
/// neighbour below, whose key is greater.
proof fn lemma_swap_step(
    boxes: Seq<AxisAlignedBoundingBox>,
    start: Seq<usize>,
    before: Seq<usize>,
    after: Seq<usize>,
    came_from: Seq<int>,
    origin: Seq<int>,
    axis: int,
    lo: int,
    hi: int,
    i: int,
    j: int,
)
    requires
        0 <= lo < j <= i < hi <= before.len(),
        inserting(boxes, start, before, came_from, axis, lo, hi, i, j),
        key_of(boxes, before, axis, j) < key_of(boxes, before, axis, j - 1),
        after == before.update(j, before[j - 1]).update(j - 1, before[j]),
        origin == came_from.update(j - lo, came_from[j - lo - 1]).update(
            j - lo - 1,
            came_from[j - lo],
        ),
    ensures
        inserting(boxes, start, after, origin, axis, lo, hi, i, j - 1),
{
    let at = |k: int|
        if k == j {
            j - 1
        } else if k == j - 1 {
            j
        } else {
            k
        };
    assert forall|k: int| lo <= k < hi implies lo <= #[trigger] origin[k - lo] < hi && after[k]
        == start[origin[k - lo]] by {
        assert(origin[k - lo] == came_from[at(k) - lo]);
        assert(after[k] == before[at(k)]);
    }
    assert forall|a: int, b: int| 0 <= a < b < hi - lo implies #[trigger] origin[a]
        != #[trigger] origin[b] by {
        let pa = at(a + lo) - lo;
        let pb = at(b + lo) - lo;
        assert(origin[a] == came_from[pa]);
        assert(origin[b] == came_from[pb]);
        if pa < pb {
            assert(came_from[pa] != came_from[pb]);
        } else {
            assert(came_from[pb] != came_from[pa]);
        }
    }
    assert forall|a: int, b: int|
        lo <= a < b <= i && a != j - 1 && b != j - 1 implies #[trigger] precedes(
        boxes,
        after,
        origin,
        axis,
        lo,
        a,
        b,
    ) by {
        assert(key_of(boxes, after, axis, a) == key_of(boxes, before, axis, at(a)));
        assert(key_of(boxes, after, axis, b) == key_of(boxes, before, axis, at(b)));
        assert(origin[a - lo] == came_from[at(a) - lo]);
        assert(origin[b - lo] == came_from[at(b) - lo]);
        assert(at(a) < at(b));
        assert(precedes(boxes, before, came_from, axis, lo, at(a), at(b)));
    }
    assert forall|b: int| j - 1 < b <= i implies key_of(boxes, after, axis, j - 1) < #[trigger] key_of(
        boxes,
        after,
        axis,
        b,
    ) by {
        assert(key_of(boxes, after, axis, j - 1) == key_of(boxes, before, axis, j));
        assert(key_of(boxes, after, axis, b) == key_of(boxes, before, axis, at(b)));
    }
    assert forall|a: int| lo <= a <= i && a != j - 1 implies #[trigger] origin[a - lo] < i by {
        assert(origin[a - lo] == came_from[at(a) - lo]);
    }
    assert forall|k: int| i < k < hi implies #[trigger] origin[k - lo] == k by {
        assert(origin[k - lo] == came_from[k - lo]);
    }
}

/// An insertion ends when the moving entry has reached the bottom or a
/// neighbour below whose key is not greater: the entries up to place `i` are
/// then sorted.
proof fn lemma_end_insert(
    boxes: Seq<AxisAlignedBoundingBox>,
    start: Seq<usize>,
    order: Seq<usize>,
    origin: Seq<int>,
    axis: int,
    lo: int,
    hi: int,
    i: int,
    j: int,
)
    requires
        0 <= lo <= j <= i < hi,
        inserting(boxes, start, order, origin, axis, lo, hi, i, j),
        j > lo ==> key_of(boxes, order, axis, j) >= key_of(boxes, order, axis, j - 1),
    ensures
        sorted_upto(boxes, start, order, origin, axis, lo, hi, i + 1),
{
    assert forall|a: int, b: int| lo <= a < b < i + 1 implies #[trigger] precedes(
        boxes,
        order,
        origin,
        axis,
        lo,
        a,
        b,
    ) by {
        if b == j {
            assert(origin[a - lo] < i);
            if a < j - 1 {
                assert(precedes(boxes, order, origin, axis, lo, a, j - 1));
            }
        } else if a == j {
        } else {
        }
    }
    assert forall|a: int| lo <= a < i + 1 implies #[trigger] origin[a - lo] < i + 1 by {
        if a != j {
            assert(origin[a - lo] < i);
        }
    }
}

/// When the last entry has been inserted the whole stretch is sorted.
proof fn lemma_sorted_at_last(
    boxes: Seq<AxisAlignedBoundingBox>,
    start: Seq<usize>,
    order: Seq<usize>,
    origin: Seq<int>,
    axis: int,
    lo: int,
    hi: int,
)
    requires
        0 <= lo < hi,
        sorted_upto(boxes, start, order, origin, axis, lo, hi, hi),
    ensures
        stably_sorted(boxes, start, order, origin, axis, lo, hi),
        sorted_by_axis(boxes, order, axis, lo, hi),
{
    assert forall|a: int, b: int| lo <= a <= b < hi implies #[trigger] key_of(
        boxes,
        order,
        axis,
        a,
    ) <= #[trigger] key_of(boxes, order, axis, b) by {
        if a < b {
            assert(precedes(boxes, order, origin, axis, lo, a, b));
        }
    }
}

/// Exchanging two neighbours in a list keeps what the list holds, and how
/// often.
proof fn lemma_swap_neighbours(before: Seq<usize>, after: Seq<usize>, j: int)
    requires
        0 < j < before.len(),
        after == before.update(j - 1, before[j]).update(j, before[j - 1]),
    ensures
        after.to_multiset() == before.to_multiset(),
{
    let head = before.subrange(0, j - 1);
    let tail = before.subrange(j + 1, before.len() as int);
    let x = before[j - 1];
    let y = before[j];
    assert(before =~= head + seq![x] + seq![y] + tail);
    assert(after =~= head + seq![y] + seq![x] + tail);
    vstd::seq_lib::lemma_multiset_commutative(head + seq![x] + seq![y], tail);
    vstd::seq_lib::lemma_multiset_commutative(head + seq![y] + seq![x], tail);
    vstd::seq_lib::lemma_multiset_commutative(head + seq![x], seq![y]);
    vstd::seq_lib::lemma_multiset_commutative(head + seq![y], seq![x]);
    vstd::seq_lib::lemma_multiset_commutative(head, seq![x]);
    vstd::seq_lib::lemma_multiset_commutative(head, seq![y]);
    assert(head.to_multiset().add(seq![x].to_multiset()).add(seq![y].to_multiset())
        =~= head.to_multiset().add(seq![y].to_multiset()).add(seq![x].to_multiset()));
}

/// A list made of two holds what either of them holds.
proof fn lemma_concat_members(first: Seq<usize>, second: Seq<usize>, p: usize)
    ensures
        (first + second).contains(p) <==> first.contains(p) || second.contains(p),
{
    let both = first + second;
    if both.contains(p) {
        let i = choose|i: int| 0 <= i < both.len() && both[i] == p;
        if i < first.len() {
            assert(first[i] == p);
        } else {
            assert(second[i - first.len()] == p);
        }
    }
    if first.contains(p) {
        let i = choose|i: int| 0 <= i < first.len() && first[i] == p;
        assert(both[i] == p);
    }
    if second.contains(p) {
        let i = choose|i: int| 0 <= i < second.len() && second[i] == p;
        assert(both[i + first.len()] == p);
    }
}

/// Lists made of parts that hold the same primitives hold the same
/// primitives.
proof fn lemma_concat_same_members(
    near: Seq<usize>,
    far: Seq<usize>,
    front: Seq<usize>,
    back: Seq<usize>,
)
    requires
        same_members(near, front),
        same_members(far, back),
    ensures
        same_members(near + far, front + back),
{
    assert forall|p: usize| (near + far).contains(p) <==> (front + back).contains(p) by {
        lemma_concat_members(near, far, p);
        lemma_concat_members(front, back, p);
        assert(near.contains(p) <==> front.contains(p));
        assert(far.contains(p) <==> back.contains(p));
    }
}

/// Holding the same primitives carries over from list to list.
proof fn lemma_same_members_chain(first: Seq<usize>, second: Seq<usize>, third: Seq<usize>)
    requires
        same_members(first, second),
        same_members(second, third) || same_members(third, second),
    ensures
        same_members(first, third),
{
    assert forall|p: usize| first.contains(p) <==> third.contains(p) by {
        assert(first.contains(p) <==> second.contains(p));
        assert(second.contains(p) <==> third.contains(p));
    }
}

/// Two lists that hold the same things equally often hold the same things.
proof fn lemma_same_members(first: Seq<usize>, second: Seq<usize>)
    requires
        first.to_multiset() == second.to_multiset(),
    ensures
        same_members(first, second),
{
    assert forall|p: usize| first.contains(p) <==> second.contains(p) by {
        vstd::seq_lib::to_multiset_contains(first, p);
        vstd::seq_lib::to_multiset_contains(second, p);
    }
}

/// A node hung behind a tree that is in order, over children of that tree,
/// leaves the tree in order; below it are the primitives below its children.
proof fn lemma_push_node(grown: Seq<Node>, node: Node, boxes: Seq<AxisAlignedBoundingBox>)
    requires
        grown.len() <= usize::MAX,
        nodes_ok(grown, boxes),
        child_ok(node.left, grown.len() as int, boxes.len() as int),
        child_ok(node.right, grown.len() as int, boxes.len() as int),
        node.bounding_box == child_box(grown, boxes, node.left).union(
            child_box(grown, boxes, node.right),
        ),
    ensures
        nodes_ok(grown.push(node), boxes),
        grown.push(node).take(grown.len() as int) == grown,
        leaves(grown.push(node), node.left) == leaves(grown, node.left),
        leaves(grown.push(node), node.right) == leaves(grown, node.right),
        leaves(grown.push(node), Child::Node(grown.len() as usize)) == leaves(grown, node.left)
            + leaves(grown, node.right),
{
    let longer = grown.push(node);
    assert(longer.take(grown.len() as int) =~= grown);
    assert forall|j: int| 0 <= j < longer.len() implies #[trigger] node_ok(longer, boxes, j) by {
        if j < grown.len() {
            lemma_node_ok_extend(grown, longer, boxes, j);
        } else {
            assert(longer[j] == node);
            match node.left {
                Child::Primitive(_) => {},
                Child::Node(k) => {
                    assert(longer[k as int] == grown[k as int]);
                },
            }
            match node.right {
                Child::Primitive(_) => {},
                Child::Node(k) => {
                    assert(longer[k as int] == grown[k as int]);
                },
            }
        }
    }
    lemma_leaves_extend(grown, longer, node.left);
    lemma_leaves_extend(grown, longer, node.right);
    assert(longer[grown.len() as int] == node);
}

/// After a sort along `axis`, the primitives of the first part of the sorted
/// stretch do not start after those of the rest.
proof fn lemma_halves_separated(
    boxes: Seq<AxisAlignedBoundingBox>,
    sorted: Seq<usize>,
    axis: int,
    lo: int,
    mid: int,
    hi: int,
    near: Seq<usize>,
    far: Seq<usize>,
)
    requires
        0 <= lo <= mid <= hi <= sorted.len(),
        sorted_by_axis(boxes, sorted, axis, lo, hi),
        same_members(near, sorted.subrange(lo, mid)),
        same_members(far, sorted.subrange(mid, hi)),
    ensures
        in_order(boxes, near, far, axis),
        same_members(near + far, sorted.subrange(lo, hi)),
{
    assert(sorted.subrange(lo, hi) =~= sorted.subrange(lo, mid) + sorted.subrange(mid, hi));
    lemma_concat_same_members(near, far, sorted.subrange(lo, mid), sorted.subrange(mid, hi));
    assert forall|a: int, b: int| 0 <= a < near.len() && 0 <= b < far.len() implies #[trigger] key_of(
        boxes,
        near,
        axis,
        a,
    ) <= #[trigger] key_of(boxes, far, axis, b) by {
        let front = sorted.subrange(lo, mid);
        let back = sorted.subrange(mid, hi);
        assert(near.contains(near[a]));
        assert(far.contains(far[b]));
        let i = choose|i: int| 0 <= i < front.len() && front[i] == near[a];
        let k = choose|k: int| 0 <= k < back.len() && back[k] == far[b];
        assert(sorted[lo + i] == near[a]);
        assert(sorted[mid + k] == far[b]);
        assert(key_of(boxes, sorted, axis, lo + i) <= key_of(boxes, sorted, axis, mid + k));
    }
}

/// The box of a child that is in its place.
fn box_of(boxes: &Vec<AxisAlignedBoundingBox>, nodes: &Vec<Node>, child: Child) -> (around:
    AxisAlignedBoundingBox)
    requires
        child_ok(child, nodes@.len() as int, boxes@.len() as int),
    ensures
        around == child_box(nodes@, boxes@, child),
{
    match child {
        Child::Primitive(p) => boxes[p],
        Child::Node(j) => nodes[j].bounding_box,
    }
}

/// Builds the subtree over the primitives that `order` lists from `lo` up to
/// `hi`, behind the nodes that are there, and returns the place of its root.
fn build(
    boxes: &Vec<AxisAlignedBoundingBox>,
    order: &mut Vec<usize>,
    lo: usize,
    hi: usize,
    nodes: &mut Vec<Node>,
) -> (made: usize)
    requires
        lo < hi <= old(order)@.len(),
        forall|i: int| lo <= i < hi ==> #[trigger] old(order)@[i] < boxes@.len(),
        nodes_ok(old(nodes)@, boxes@),
    ensures
        final(order)@.len() == old(order)@.len(),
        forall|i: int|
            0 <= i < lo || hi <= i < old(order)@.len() ==> #[trigger] final(order)@[i] == old(
                order,
            )@[i],
        old(nodes)@.len() < final(nodes)@.len(),
        final(nodes)@.take(old(nodes)@.len() as int) == old(nodes)@,
        made == final(nodes)@.len() - 1,
        nodes_ok(final(nodes)@, boxes@),
        median_split(final(nodes)@, boxes@, made as int, hi - lo),
        same_members(
            leaves(final(nodes)@, Child::Node(made)),
            old(order)@.subrange(lo as int, hi as int),
        ),
    decreases hi - lo,
{
    let ghost start = order@;
    let ghost before = nodes@;
    let ghost whole = start.subrange(lo as int, hi as int);
    let axis = random_below(3);
    let left: Child;
    let right: Child;
    if hi - lo == 1 {
        left = Child::Primitive(order[lo]);
        right = Child::Primitive(order[lo]);
        proof {
            let ghost ll = leaves(nodes@, left);
            assert(ll =~= seq![start[lo as int]]);
            assert(whole =~= ll);
            assert forall|p: usize| (ll + ll).contains(p) <==> whole.contains(p) by {
                lemma_concat_members(ll, ll, p);
            }
            assert(in_order(boxes@, ll, ll, axis as int));
        }
    } else if hi - lo == 2 {
        let (first, second) = BoundedVolumeHierarchy::order_pair(
            boxes,
            order[lo],
            order[lo + 1],
            axis,
        );
        left = Child::Primitive(first);
        right = Child::Primitive(second);
        proof {
            let ghost ll = leaves(nodes@, left);
            let ghost rr = leaves(nodes@, right);
            assert(ll =~= seq![first]);
            assert(rr =~= seq![second]);
            let ghost one = seq![start[lo as int]];
            let ghost two = seq![start[lo + 1]];
            assert(whole =~= one + two);
            assert forall|p: usize| (ll + rr).contains(p) <==> whole.contains(p) by {
                lemma_concat_members(ll, rr, p);
                lemma_concat_members(one, two, p);
                assert(one[0] == start[lo as int]);
                assert(two[0] == start[lo + 1]);
                assert(ll[0] == first);
                assert(rr[0] == second);
            }
            assert(in_order(boxes@, ll, rr, axis as int));
        }
    } else {
        BoundedVolumeHierarchy::sort_by_axis(boxes, order, lo, hi, axis);
        let mid = lo + (hi - lo) / 2;
        let ghost sorted = order@;
        let l = build(boxes, order, lo, mid, nodes);
        let ghost halfway = nodes@;
        let ghost between = order@;
        assert(between.subrange(mid as int, hi as int) =~= sorted.subrange(mid as int, hi as int));
        let r = build(boxes, order, mid, hi, nodes);
        left = Child::Node(l);
        right = Child::Node(r);
        proof {
            lemma_leaves_extend(halfway, nodes@, left);
            lemma_median_split_extend(halfway, nodes@, boxes@, l as int, mid - lo);
            assert(nodes@.take(before.len() as int) =~= halfway.take(before.len() as int));
            let ghost ll = leaves(nodes@, left);
            let ghost rr = leaves(nodes@, right);
            lemma_same_members(whole, sorted.subrange(lo as int, hi as int));
            lemma_halves_separated(
                boxes@,
                sorted,
                axis as int,
                lo as int,
                mid as int,
                hi as int,
                ll,
                rr,
            );
            lemma_same_members_chain(ll + rr, sorted.subrange(lo as int, hi as int), whole);
            assert(in_order(boxes@, ll, rr, axis as int));
        }
    }
    let ghost ll = leaves(nodes@, left);
    let ghost rr = leaves(nodes@, right);
    assert(same_members(ll + rr, whole));
    assert(in_order(boxes@, ll, rr, axis as int));
    let left_box = box_of(boxes, nodes, left);
    let right_box = box_of(boxes, nodes, right);
    let ghost grown = nodes@;
    let node = Node { left, right, bounding_box: left_box.surrounding_box_with(&right_box) };
    nodes.push(node);
    let made = nodes.len() - 1;
    proof {
        lemma_push_node(grown, node, boxes@);
        assert(nodes@.take(before.len() as int) =~= before);
        if hi - lo >= 3 {
            lemma_median_split_extend(grown, nodes@, boxes@, left->Node_0 as int, (hi - lo) / 2);
            lemma_median_split_extend(
                grown,
                nodes@,
                boxes@,
                right->Node_0 as int,
                (hi - lo) - (hi - lo) / 2,
            );
        }
        assert(nodes@[made as int] == node);
        assert(leaves(nodes@, Child::Node(made)) == ll + rr);
        assert(separated(nodes@, boxes@, made as int, axis as int));
    }
    made
}

impl BoundedVolumeHierarchy {
    /// The tree is in order over the primitives with these `boxes`.
    pub open spec fn wf(self, boxes: Seq<AxisAlignedBoundingBox>) -> bool {
        self.nodes@.len() > 0 && nodes_ok(self.nodes@, boxes)
    }

    /// The root: the node made last.
    pub open spec fn root(self) -> Child {
        Child::Node((self.nodes@.len() - 1) as usize)
    }

    /// Builds the hierarchy over the primitives whose bounding boxes are
    /// `boxes`, primitive `p` being the one with box `boxes[p]`.
    ///
    /// There must be a primitive, and every coordinate of every box must be
    /// a number. An axis is drawn anew for every node. Along it two
    /// primitives are put side by side as [`Self::order_pair`] says, and
    /// more are sorted as [`Self::sort_by_axis`] says and split in the
    /// middle. So two calls need not give the same tree; but every tree that
    /// can come back is in order, is made by median splits, and has exactly
    /// the primitives of the scene below its root.
    pub fn create_bvh(boxes: &Vec<AxisAlignedBoundingBox>) -> (bvh: BoundedVolumeHierarchy)
        requires
            boxes@.len() > 0,
            forall|p: int| 0 <= p < boxes@.len() ==> (#[trigger] boxes@[p]).numeric(),
        ensures
            bvh.wf(boxes@),
            median_split(bvh.nodes@, boxes@, bvh.nodes@.len() - 1, boxes@.len() as int),
            forall|p: usize| leaves(bvh.nodes@, bvh.root()).contains(p) <==> p < boxes@.len(),
    {
        let mut order: Vec<usize> = Vec::new();
        let mut next: usize = 0;
        while next < boxes.len()
            invariant
                next <= boxes@.len(),
                order@.len() == next,
                forall|i: int| 0 <= i < next ==> #[trigger] order@[i] == i,
            decreases boxes@.len() - next,
        {
            order.push(next);
            next = next + 1;
        }
        let mut nodes: Vec<Node> = Vec::new();
        let ghost listed = order@;
        build(boxes, &mut order, 0, boxes.len(), &mut nodes);
        proof {
            let ghost whole = listed.subrange(0, boxes@.len() as int);
            assert(whole =~= listed);
            assert forall|p: usize| whole.contains(p) <==> p < boxes@.len() by {
                if p < boxes@.len() {
                    assert(whole[p as int] == p);
                }
            }
        }
        BoundedVolumeHierarchy { nodes }
    }

    /// The box around the whole tree: that of the root. A tree without
    /// nodes has none.
    pub fn bounding_box(&self) -> (around: Option<AxisAlignedBoundingBox>)
        ensures
            around == if self.nodes@.len() > 0 {
                Some(self.nodes@[self.nodes@.len() - 1].bounding_box)
            } else {
                None::<AxisAlignedBoundingBox>
            },
    {
        if self.nodes.len() > 0 {
            Some(self.nodes[self.nodes.len() - 1].bounding_box)
        } else {
            None
        }
    }

    /// Starts the search of the hierarchy for the nearest meeting of a ray
    /// strictly between `min_value` and `max_value`: only the root is
    /// pending.
    pub fn is_hit_by(&self, min_value: Scalar, max_value: Scalar) -> (search: Traversal<'_>)
        ensures
            search.bvh == self,
            search.window == (Window { min_value, max_value, winner: None }),
            self.nodes@.len() > 0 ==> search.pending@ == seq![self.root()],
            self.nodes@.len() == 0 ==> search.pending@.len() == 0,
    {
        let mut pending: Vec<Child> = Vec::new();
        if self.nodes.len() > 0 {
            pending.push(Child::Node(self.nodes.len() - 1));
        }
        Traversal { bvh: self, window: Window::new(min_value, max_value), pending }
    }

    /// Orders two primitives along `axis`, for the left and the right of a
    /// node: the first comes left only if its box starts before that of the
    /// second.
    pub fn order_pair(
        boxes: &Vec<AxisAlignedBoundingBox>,
        first: usize,
        second: usize,
        axis: usize,
    ) -> (pair: (usize, usize))
        requires
            first < boxes@.len(),
            second < boxes@.len(),
            axis < 3,
        ensures
            pair == if boxes@[first as int].minimum.at(axis as int) < boxes@[second as int].minimum.at(
                axis as int,
            ) {
                (first, second)
            } else {
                (second, first)
            },
    {
        if boxes[first].minimum.get(axis) < boxes[second].minimum.get(axis) {
            (first, second)
        } else {
            (second, first)
        }
    }

    /// Sorts the stretch of `order` from `lo` up to `hi` by the minimum that
    /// each primitive's box has along `axis`, smallest first. Entries with
    /// equal minima keep the order they had.
    pub fn sort_by_axis(
        boxes: &Vec<AxisAlignedBoundingBox>,
        order: &mut Vec<usize>,
        lo: usize,
        hi: usize,
        axis: usize,
    )
        requires
            lo <= hi <= old(order)@.len(),
            axis < 3,
            forall|i: int| lo <= i < hi ==> #[trigger] old(order)@[i] < boxes@.len(),
        ensures
            final(order)@.len() == old(order)@.len(),
            forall|i: int|
                0 <= i < lo || hi <= i < old(order)@.len() ==> #[trigger] final(order)@[i] == old(
                    order,
                )@[i],
            forall|i: int| lo <= i < hi ==> #[trigger] final(order)@[i] < boxes@.len(),
            sorted_by_axis(boxes@, final(order)@, axis as int, lo as int, hi as int),
            final(order)@.subrange(lo as int, hi as int).to_multiset() == old(order)@.subrange(
                lo as int,
                hi as int,
            ).to_multiset(),
            exists|origin: Seq<int>|
                stably_sorted(
                    boxes@,
                    old(order)@,
                    final(order)@,
                    origin,
                    axis as int,
                    lo as int,
                    hi as int,
                ),
    {
        let ghost start = order@;
        let ghost mut origin: Seq<int> = Seq::new((hi - lo) as nat, |k: int| lo + k);
        if hi - lo < 2 {
            proof {
                lemma_short_is_sorted(boxes@, start, origin, axis as int, lo as int, hi as int);
            }
            return ;
        }
        let mut i: usize = lo + 1;
        proof {
            lemma_first_is_sorted(boxes@, start, origin, axis as int, lo as int, hi as int);
        }
        while i < hi
            invariant
                lo < i <= hi <= order@.len(),
                axis < 3,
                order@.len() == start.len(),
                forall|k: int|
                    0 <= k < lo || hi <= k < start.len() ==> #[trigger] order@[k] == start[k],
                forall|k: int| lo <= k < hi ==> #[trigger] order@[k] < boxes@.len(),
                sorted_upto(boxes@, start, order@, origin, axis as int, lo as int, hi as int, i as int),
                order@.subrange(lo as int, hi as int).to_multiset() == start.subrange(
                    lo as int,
                    hi as int,
                ).to_multiset(),
            decreases hi - i,
        {
            let mut j: usize = i;
            proof {
                lemma_begin_insert(
                    boxes@,
                    start,
                    order@,
                    origin,
                    axis as int,
                    lo as int,
                    hi as int,
                    i as int,
                );
            }
            while j > lo && boxes[order[j]].minimum.get(axis) < boxes[order[j - 1]].minimum.get(
                axis,
            )
                invariant
                    lo <= j <= i < hi <= order@.len(),
                    axis < 3,
                    order@.len() == start.len(),
                    forall|k: int|
                        0 <= k < lo || hi <= k < start.len() ==> #[trigger] order@[k] == start[k],
                    forall|k: int| lo <= k < hi ==> #[trigger] order@[k] < boxes@.len(),
                    inserting(
                        boxes@,
                        start,
                        order@,
                        origin,
                        axis as int,
                        lo as int,
                        hi as int,
                        i as int,
                        j as int,
                    ),
                    order@.subrange(lo as int, hi as int).to_multiset() == start.subrange(
                        lo as int,
                        hi as int,
                    ).to_multiset(),
                decreases j,
            {
                let ghost before = order@;
                let ghost came_from = origin;
                let moved = order[j];
                let other = order[j - 1];
                order.set(j, other);
                order.set(j - 1, moved);
                proof {
                    let ghost jj = j as int;
                    origin = came_from.update(jj - lo, came_from[jj - lo - 1]).update(
                        jj - lo - 1,
                        came_from[jj - lo],
                    );
                    assert(order@ == before.update(jj, before[jj - 1]).update(jj - 1, before[jj]));
                    assert(order@.subrange(lo as int, hi as int) =~= before.subrange(
                        lo as int,
                        hi as int,
                    ).update(jj - lo - 1, before.subrange(lo as int, hi as int)[jj - lo]).update(
                        jj - lo,
                        before.subrange(lo as int, hi as int)[jj - lo - 1],
                    ));
                    lemma_swap_neighbours(
                        before.subrange(lo as int, hi as int),
                        order@.subrange(lo as int, hi as int),
                        jj - lo,
                    );
                    assert(key_of(boxes@, before, axis as int, jj) < key_of(
                        boxes@,
                        before,
                        axis as int,
                        jj - 1,
                    ));
                    lemma_swap_step(
                        boxes@,
                        start,
                        before,
                        order@,
                        came_from,
                        origin,
                        axis as int,
                        lo as int,
                        hi as int,
                        i as int,
                        jj,
                    );
                }
                j = j - 1;
            }
            proof {
                if j > lo {
                    assert(key_of(boxes@, order@, axis as int, j as int) >= key_of(
                        boxes@,
                        order@,
                        axis as int,
                        j - 1,
                    ));
                }
                lemma_end_insert(
                    boxes@,
                    start,
                    order@,
                    origin,
                    axis as int,
                    lo as int,
                    hi as int,
                    i as int,
                    j as int,
                );
            }
            i = i + 1;
        }
        proof {
            lemma_sorted_at_last(boxes@, start, order@, origin, axis as int, lo as int, hi as int);
        }
    }
}

/// What a search of the hierarchy wants to know next.
#[derive(Clone, Copy, Debug, PartialEq, Eq, Structural)]
pub enum Probe {
    /// Nothing: the search is over.
    Done,
    /// Where the ray crosses the box of the node at this place.
    Bounds(usize),
    /// The nearest meeting of the ray with the primitive of this number,
    /// inside the window.
    Primitive(usize),
}

/// A search of a hierarchy in progress.
///
/// Whoever runs the search takes from [`Traversal::next`] what it wants to
/// know, finds that out, and hands it to [`Traversal::bounds_answer`] or to
/// [`Traversal::primitive_answer`], until the search is over.
pub struct Traversal<'a> {
    pub bvh: &'a BoundedVolumeHierarchy,
    pub window: Window,
    pub pending: Vec<Child>,
}

impl<'a> Traversal<'a> {
    /// What the search wants to know next: about the last entry of
    /// `pending`.
    pub open spec fn wanted(self) -> Probe {
        if self.pending@.len() == 0 {
            Probe::Done
        } else {
            match self.pending@.last() {
                Child::Node(j) => Probe::Bounds(j),
                Child::Primitive(p) => Probe::Primitive(p),
            }
        }
    }

    /// What is pending once the ray is known to cross the box of the pending
    /// node as `slabs` says: the node goes, and if the ray is inside its box
    /// somewhere in the window, its children come, the left one to be
    /// searched first.
    pub open spec fn pending_after_bounds(self, slabs: Slabs) -> Seq<Child> {
        match self.wanted() {
            Probe::Bounds(j) => if j < self.bvh.nodes@.len() && slabs.overlap(
                self.window.min_value as int,
                self.window.upper() as int,
            ) {
                self.pending@.drop_last().push(self.bvh.nodes@[j as int].right).push(
                    self.bvh.nodes@[j as int].left,
                )
            } else {
                self.pending@.drop_last()
            },
            _ => self.pending@,
        }
    }

    /// Where the search ends if every primitive answers as `view` says and
    /// the ray crosses the boxes as `crossings` says.
    pub open spec fn outcome(self, view: RayView, crossings: Seq<Slabs>) -> Window {
        unwind(self.bvh.nodes@, view, crossings, self.pending@, self.window)
    }

    /// What the search wants to know next.
    pub fn next(&self) -> (probe: Probe)
        ensures
            probe == self.wanted(),
    {
        if self.pending.len() == 0 {
            Probe::Done
        } else {
            match self.pending[self.pending.len() - 1] {
                Child::Node(j) => Probe::Bounds(j),
                Child::Primitive(p) => Probe::Primitive(p),
            }
        }
    }

    /// The start of the window, which a meeting must lie beyond.
    pub fn min_value(&self) -> (start: Scalar)
        ensures
            start == self.window.min_value,
    {
        self.window.min_value
    }

    /// The end of the window, which a meeting must lie before.
    pub fn max_value(&self) -> (end: Scalar)
        ensures
            end == self.window.upper(),
    {
        self.window.upper_bound()
    }

    /// The nearest meeting found so far.
    pub fn winner(&self) -> (winner: Option<Candidate>)
        ensures
            winner == self.window.winner,
    {
        self.window.winner
    }

    /// Takes the crossings of the ray with the box of the pending node. If
    /// the slab test finds the ray inside the box within the window, the
    /// node's children become pending, else the node is passed over. When no
    /// node is pending the answer is dropped.
    pub fn bounds_answer(&mut self, slabs: &Slabs)
        ensures
            final(self).bvh == old(self).bvh,
            final(self).window == old(self).window,
            final(self).pending@ == old(self).pending_after_bounds(*slabs),
    {
        if self.pending.len() == 0 {
            return ;
        }
        match self.pending[self.pending.len() - 1] {
            Child::Node(j) => {
                self.pending.pop();
                if j < self.bvh.nodes.len() && AxisAlignedBoundingBox::is_hit_by(
                    slabs,
                    self.window.min_value,
                    self.window.upper_bound(),
                ) {
                    let node = self.bvh.nodes[j];
                    self.pending.push(node.right);
                    self.pending.push(node.left);
                }
            },
            Child::Primitive(_) => {},
        }
    }

    /// Takes the answer of the pending primitive: a meeting becomes the new
    /// winner. When no primitive is pending the answer is dropped.
    pub fn primitive_answer(&mut self, result: Option<HitRecord>)
        ensures
            final(self).bvh == old(self).bvh,
            final(self).window == match old(self).wanted() {
                Probe::Primitive(p) => old(self).window.offered(p, result),
                _ => old(self).window,
            },
            final(self).pending@ == match old(self).wanted() {
                Probe::Primitive(_) => old(self).pending@.drop_last(),
                _ => old(self).pending@,
            },
    {
        if self.pending.len() == 0 {
            return ;
        }
        match self.pending[self.pending.len() - 1] {
            Child::Primitive(p) => {
                self.pending.pop();
                self.window.offer(p, result);
            },
            Child::Node(_) => {},
        }
    }
}

} // verus!
