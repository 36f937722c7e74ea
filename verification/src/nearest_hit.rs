//! The hierarchy finds what the list finds.
//!
//! A search of the hierarchy passes over every subtree whose box the ray
//! misses. This module shows that nothing is lost by it: as long as a ray
//! that meets a primitive also passes through every box around that
//! primitive, the hierarchy and a plain walk through the list end with the
//! same nearest meeting.

use vstd::prelude::*;
use crate::aabb::Slabs;
use crate::bounded_volume_hierarchy::{
    leaves, nodes_ok, probe, rank, ranked, same_members, unwind, weight, work_left,
    BoundedVolumeHierarchy, Child, Node, Probe, Traversal,
};
use crate::hittable_vec::{span, Scan};
use crate::hittables::{
    lemma_sweep_concat, lemma_sweep_shrinks, sweep, Candidate, RayView, Window,
};
use crate::scalar::Scalar;

verus! {

/// Every box is around what hangs below it, as far as the ray can tell: a ray
/// that meets a primitive before some end of the window is, before that end,
/// also inside the box of every node above the primitive.
pub open spec fn boxes_enclose(
    nodes: Seq<Node>,
    view: RayView,
    crossings: Seq<Slabs>,
    min_value: Scalar,
) -> bool {
    forall|j: usize, i: int, upper: Scalar|
        j < nodes.len() && 0 <= i < leaves(nodes, Child::Node(j)).len() && #[trigger] view.meets_before(
            leaves(nodes, Child::Node(j))[i],
            upper,
        ) ==> crossings[j as int].overlap(min_value as int, upper as int)
}

/// What a walk through `order` has come to when it ends with `after`, having
/// begun with `before`: the window has the same start and no later end, no
/// primitive of `order` meets the ray before that end, and the winner either
/// is the old one or is a primitive of `order` with its nearest meeting.
pub open spec fn settled(view: RayView, order: Seq<usize>, before: Window, after: Window) -> bool {
    &&& after.min_value == before.min_value
    &&& after.max_value == before.max_value
    &&& after.upper() <= before.upper()
    &&& forall|i: int| 0 <= i < order.len() ==> !view.meets_before(#[trigger] order[i], after.upper())
    &&& (after.winner == before.winner || exists|i: int|
        0 <= i < order.len() && view.meets_before(#[trigger] order[i], before.upper())
            && after.winner == Some(
            Candidate { primitive: order[i], record: view.nearest[order[i] as int]->0 },
        ))
}

/// No two primitives have their nearest meeting with the ray at parameter
/// `value`.
pub open spec fn unrivalled(view: RayView, value: Scalar) -> bool {
    forall|p: int, q: int|
        0 <= p < view.nearest.len() && 0 <= q < view.nearest.len() && (
        #[trigger] view.nearest[p]) is Some && (#[trigger] view.nearest[q]) is Some
            && view.nearest[p]->0.value == value && view.nearest[q]->0.value == value ==> p == q
}

/// A walk through primitives of which none meets the ray inside the window
/// leaves the window as it is.
pub proof fn lemma_sweep_nothing(view: RayView, order: Seq<usize>, window: Window)
    requires
        forall|i: int| 0 <= i < order.len() ==> !view.meets_before(#[trigger] order[i], window.upper()),
    ensures
        sweep(view, order, window) == window,
    decreases order.len(),
{
    if order.len() > 0 {
        assert(!view.meets_before(order[0], window.upper()));
        assert forall|i: int| 0 <= i < order.drop_first().len() implies !view.meets_before(
            #[trigger] order.drop_first()[i],
            window.upper(),
        ) by {
            assert(order.drop_first()[i] == order[i + 1]);
        }
        lemma_sweep_nothing(view, order.drop_first(), window);
    }
}

/// Where the boxes enclose what hangs below them, the search of a subtree
/// ends where a walk through all the primitives below it ends.
pub proof fn lemma_probe_is_sweep(
    nodes: Seq<Node>,
    view: RayView,
    crossings: Seq<Slabs>,
    child: Child,
    window: Window,
)
    requires
        boxes_enclose(nodes, view, crossings, window.min_value),
    ensures
        probe(nodes, view, crossings, child, window) == sweep(view, leaves(nodes, child), window),
    decreases rank(child),
{
    match child {
        Child::Primitive(p) => {
            let order = leaves(nodes, child);
            let next = window.offered(p, view.answer(p, window.upper()));
            assert(order.len() == 1 && order[0] == p);
            assert(order.drop_first().len() == 0);
            assert(sweep(view, order.drop_first(), next) == next);
        },
        Child::Node(j) => {
            if j < nodes.len() && rank(nodes[j as int].left) <= j && rank(nodes[j as int].right)
                <= j {
                let near = leaves(nodes, nodes[j as int].left);
                let far = leaves(nodes, nodes[j as int].right);
                if crossings[j as int].overlap(window.min_value as int, window.upper() as int) {
                    let halfway = probe(nodes, view, crossings, nodes[j as int].left, window);
                    lemma_probe_is_sweep(nodes, view, crossings, nodes[j as int].left, window);
                    lemma_sweep_shrinks(view, near, window);
                    lemma_probe_is_sweep(nodes, view, crossings, nodes[j as int].right, halfway);
                    lemma_sweep_concat(view, near, far, window);
                } else {
                    let order = leaves(nodes, child);
                    assert forall|i: int| 0 <= i < order.len() implies !view.meets_before(
                        #[trigger] order[i],
                        window.upper(),
                    ) by {
                        if view.meets_before(order[i], window.upper()) {
                            assert(view.meets_before(
                                leaves(nodes, Child::Node(j))[i],
                                window.upper(),
                            ));
                        }
                    }
                    lemma_sweep_nothing(view, order, window);
                }
            } else {
                assert(leaves(nodes, child).len() == 0);
            }
        },
    }
}

/// A walk through `order` ends settled.
pub proof fn lemma_sweep_settles(view: RayView, order: Seq<usize>, window: Window)
    ensures
        settled(view, order, window, sweep(view, order, window)),
    decreases order.len(),
{
    if order.len() > 0 {
        let p = order[0];
        let rest = order.drop_first();
        let next = window.offered(p, view.answer(p, window.upper()));
        let last = sweep(view, rest, next);
        lemma_sweep_settles(view, rest, next);
        assert forall|i: int| 0 <= i < order.len() implies !view.meets_before(
            #[trigger] order[i],
            last.upper(),
        ) by {
            if i > 0 {
                assert(order[i] == rest[i - 1]);
            }
        }
        if last.winner != window.winner {
            if last.winner == next.winner {
                assert(view.meets_before(order[0], window.upper()));
            } else {
                let i = choose|i: int|
                    0 <= i < rest.len() && view.meets_before(#[trigger] rest[i], next.upper())
                        && last.winner == Some(
                        Candidate { primitive: rest[i], record: view.nearest[rest[i] as int]->0 },
                    );
                assert(order[i + 1] == rest[i]);
                assert(view.meets_before(order[i + 1], window.upper()));
            }
        }
    }
}

/// Two walks that begin alike and go through the same primitives, in
/// whatever order and however often, end with the window's end at the same
/// place, and either both with a meeting or both without. Where no two
/// primitives have their nearest meeting at that place, they end alike.
pub proof fn lemma_order_is_immaterial(
    view: RayView,
    first: Seq<usize>,
    second: Seq<usize>,
    window: Window,
)
    requires
        same_members(first, second),
    ensures
        sweep(view, first, window).upper() == sweep(view, second, window).upper(),
        sweep(view, first, window).winner is Some <==> sweep(view, second, window).winner is Some,
        unrivalled(view, sweep(view, first, window).upper()) ==> sweep(view, first, window)
            == sweep(view, second, window),
{
    let a = sweep(view, first, window);
    let b = sweep(view, second, window);
    lemma_sweep_settles(view, first, window);
    lemma_sweep_settles(view, second, window);
    lemma_winner_is_member(view, first, second, window, a, b);
    lemma_winner_is_member(view, second, first, window, b, a);
    if unrivalled(view, a.upper()) && a.winner != window.winner {
        let i = choose|i: int|
            0 <= i < first.len() && view.meets_before(#[trigger] first[i], window.upper())
                && a.winner == Some(
                Candidate { primitive: first[i], record: view.nearest[first[i] as int]->0 },
            );
        let k = choose|k: int|
            0 <= k < second.len() && view.meets_before(#[trigger] second[k], window.upper())
                && b.winner == Some(
                Candidate { primitive: second[k], record: view.nearest[second[k] as int]->0 },
            );
        assert(view.nearest[first[i] as int] is Some);
        assert(view.nearest[second[k] as int] is Some);
        assert(first[i] == second[k]);
    }
}

/// Of two settled walks through the same primitives, the second ends no
/// later than the first, and has changed its winner if the first has.
proof fn lemma_winner_is_member(
    view: RayView,
    first: Seq<usize>,
    second: Seq<usize>,
    window: Window,
    a: Window,
    b: Window,
)
    requires
        same_members(first, second),
        settled(view, first, window, a),
        settled(view, second, window, b),
    ensures
        b.upper() <= a.upper(),
        a.winner != window.winner ==> b.winner != window.winner,
        a.winner is Some ==> b.winner is Some,
{
    if a.winner != window.winner {
        let i = choose|i: int|
            0 <= i < first.len() && view.meets_before(#[trigger] first[i], window.upper())
                && a.winner == Some(
                Candidate { primitive: first[i], record: view.nearest[first[i] as int]->0 },
            );
        assert(first.contains(first[i]));
        assert(second.contains(first[i]));
        let k = choose|k: int| 0 <= k < second.len() && second[k] == first[i];
        assert(!view.meets_before(second[k], b.upper()));
    }
}

impl Scan {
    /// A walk through the whole list finds the nearest meeting: when it is
    /// over, no primitive of the list meets the ray before the end of the
    /// window, and the winner, if there is one, is a primitive of the list
    /// with its nearest meeting, which lies before `max_value`.
    pub proof fn lemma_scan_finds_nearest(
        view: RayView,
        count: usize,
        min_value: Scalar,
        max_value: Scalar,
    )
        ensures
            ({
                let found = Scan::start(count, min_value, max_value).outcome(view);
                &&& forall|p: usize| p < count ==> !view.meets_before(p, found.upper())
                &&& found.winner matches Some(candidate) ==> {
                    &&& candidate.primitive < count
                    &&& view.nearest[candidate.primitive as int] == Some(candidate.record)
                    &&& candidate.record.value < max_value
                }
                &&& found.winner is None ==> forall|p: usize|
                    p < count ==> !view.meets_before(p, max_value)
            }),
    {
        let start = Window { min_value, max_value, winner: None };
        let listed = span(0, count);
        let found = sweep(view, listed, start);
        lemma_sweep_settles(view, listed, start);
        if count == 0 {
            assert(found == start);
        }
        assert forall|p: usize| p < count implies !view.meets_before(p, found.upper()) by {
            assert(listed[p as int] == p);
        }
        if found.winner is Some {
            let i = choose|i: int|
                0 <= i < listed.len() && view.meets_before(#[trigger] listed[i], start.upper())
                    && found.winner == Some(
                    Candidate { primitive: listed[i], record: view.nearest[listed[i] as int]->0 },
                );
            assert(listed[i] == i);
        }
    }
}

impl BoundedVolumeHierarchy {
    /// The hierarchy finds what the list finds.
    ///
    /// Take a scene of `count` primitives, a hierarchy with exactly these
    /// primitives below its root, and a ray that passes through every box
    /// around each primitive it meets. Then the search of the hierarchy and
    /// the walk through the list in order end with the same parameter of the
    /// nearest meeting, and either both with a meeting or both without. If
    /// no two primitives have their nearest meeting at that parameter, both
    /// end with the same primitive and the same record.
    pub proof fn lemma_hierarchy_matches_list(
        self,
        view: RayView,
        crossings: Seq<Slabs>,
        count: usize,
        min_value: Scalar,
        max_value: Scalar,
    )
        requires
            self.nodes@.len() > 0,
            forall|p: usize| leaves(self.nodes@, self.root()).contains(p) <==> p < count,
            boxes_enclose(self.nodes@, view, crossings, min_value),
        ensures
            ({
                let start = Window { min_value, max_value, winner: None };
                let by_tree = probe(self.nodes@, view, crossings, self.root(), start);
                let by_list = Scan::start(count, min_value, max_value).outcome(view);
                &&& by_tree.upper() == by_list.upper()
                &&& by_tree.winner is Some <==> by_list.winner is Some
                &&& unrivalled(view, by_list.upper()) ==> by_tree == by_list
            }),
    {
        let start = Window { min_value, max_value, winner: None };
        let below = leaves(self.nodes@, self.root());
        let listed = span(0, count);
        lemma_probe_is_sweep(self.nodes@, view, crossings, self.root(), start);
        assert forall|p: usize| below.contains(p) <==> listed.contains(p) by {
            if p < count {
                assert(listed[p as int] == p);
            }
        }
        lemma_order_is_immaterial(view, below, listed, start);
        if count == 0 {
            assert(sweep(view, listed, start) == start);
        }
    }
}

/// In a tree that is in order over well-formed boxes, every node's box is
/// well-formed and is around the box of every primitive below the node.
pub proof fn lemma_boxes_around_leaves(
    nodes: Seq<Node>,
    boxes: Seq<crate::aabb::AxisAlignedBoundingBox>,
    j: usize,
)
    requires
        nodes_ok(nodes, boxes),
        forall|p: int| 0 <= p < boxes.len() ==> (#[trigger] boxes[p]).wf(),
        j < nodes.len(),
    ensures
        nodes[j as int].bounding_box.wf(),
        forall|i: int|
            0 <= i < leaves(nodes, Child::Node(j)).len() ==> {
                &&& (#[trigger] leaves(nodes, Child::Node(j))[i]) < boxes.len()
                &&& nodes[j as int].bounding_box.encloses(
                    boxes[leaves(nodes, Child::Node(j))[i] as int],
                )
            },
    decreases j,
{
    assert(crate::bounded_volume_hierarchy::node_ok(nodes, boxes, j as int));
    let left = nodes[j as int].left;
    let right = nodes[j as int].right;
    let near = leaves(nodes, left);
    let far = leaves(nodes, right);
    let left_box = crate::bounded_volume_hierarchy::child_box(nodes, boxes, left);
    let right_box = crate::bounded_volume_hierarchy::child_box(nodes, boxes, right);
    match left {
        Child::Primitive(p) => {
            assert(near.len() == 1 && near[0] == p);
            assert(left_box.encloses(boxes[p as int]));
        },
        Child::Node(k) => {
            lemma_boxes_around_leaves(nodes, boxes, k);
        },
    }
    match right {
        Child::Primitive(p) => {
            assert(far.len() == 1 && far[0] == p);
            assert(right_box.encloses(boxes[p as int]));
        },
        Child::Node(k) => {
            lemma_boxes_around_leaves(nodes, boxes, k);
        },
    }
    left_box.lemma_union_is_least(right_box, left_box);
    let around = nodes[j as int].bounding_box;
    assert(around.encloses(left_box) && around.encloses(right_box));
    assert(rank(left) <= j && rank(right) <= j);
    assert(leaves(nodes, Child::Node(j)) == near + far);
    assert forall|i: int| 0 <= i < (near + far).len() implies {
        &&& (#[trigger] (near + far)[i]) < boxes.len()
        &&& around.encloses(boxes[(near + far)[i] as int])
    } by {
        if i < near.len() {
            assert((near + far)[i] == near[i]);
            assert(near[i] < boxes.len());
            assert(left_box.encloses(boxes[near[i] as int]));
        } else {
            let k = i - near.len();
            assert((near + far)[i] == far[k]);
            assert(far[k] < boxes.len());
            assert(right_box.encloses(boxes[far[k] as int]));
        }
    }
}

/// In a tree that is in order, children come before their parents.
pub proof fn lemma_ok_is_ranked(nodes: Seq<Node>, boxes: Seq<crate::aabb::AxisAlignedBoundingBox>)
    requires
        nodes_ok(nodes, boxes),
    ensures
        ranked(nodes),
{
    assert forall|j: int| 0 <= j < nodes.len() implies rank((#[trigger] nodes[j]).left) <= j
        && rank(nodes[j].right) <= j by {
        assert(crate::bounded_volume_hierarchy::node_ok(nodes, boxes, j));
    }
}

impl<'a> Traversal<'a> {
    /// Every answer brings the search nearer its end: in a tree whose
    /// children come before their parents, whatever the answer is, less is
    /// left to ask about after it than before. So a search of a tree of `n`
    /// nodes and primitives is over after `n` answers at most.
    pub proof fn lemma_search_ends(self, slabs: Slabs)
        requires
            ranked(self.bvh.nodes@),
            self.wanted() != Probe::Done,
        ensures
            self.wanted() is Bounds ==> work_left(
                self.bvh.nodes@,
                self.pending_after_bounds(slabs),
            ) < work_left(self.bvh.nodes@, self.pending@),
            self.wanted() is Primitive ==> work_left(self.bvh.nodes@, self.pending@.drop_last())
                < work_left(self.bvh.nodes@, self.pending@),
    {
        let nodes = self.bvh.nodes@;
        let rest = self.pending@.drop_last();
        match self.pending@.last() {
            Child::Primitive(_) => {},
            Child::Node(j) => {
                if j < nodes.len() && slabs.overlap(
                    self.window.min_value as int,
                    self.window.upper() as int,
                ) {
                    let left = nodes[j as int].left;
                    let right = nodes[j as int].right;
                    let with_right = rest.push(right);
                    let with_both = with_right.push(left);
                    assert(with_both.drop_last() =~= with_right);
                    assert(with_right.drop_last() =~= rest);
                    assert(with_both.last() == left);
                    assert(with_right.last() == right);
                    assert(work_left(nodes, with_right) == work_left(nodes, rest) + weight(
                        nodes,
                        right,
                    ));
                    assert(work_left(nodes, with_both) == work_left(nodes, with_right) + weight(
                        nodes,
                        left,
                    ));
                    assert(rank(left) <= j && rank(right) <= j);
                    assert(weight(nodes, Child::Node(j)) == 1 + weight(nodes, left) + weight(
                        nodes,
                        right,
                    ));
                }
            },
        }
    }

    /// A search that has just begun ends where the search of the root ends.
    pub proof fn lemma_begun(self, view: RayView, crossings: Seq<Slabs>)
        requires
            self.bvh.nodes@.len() > 0,
            self.pending@ == seq![self.bvh.root()],
        ensures
            self.outcome(view, crossings) == probe(
                self.bvh.nodes@,
                view,
                crossings,
                self.bvh.root(),
                self.window,
            ),
    {
        let after = probe(self.bvh.nodes@, view, crossings, self.bvh.root(), self.window);
        assert(self.pending@.drop_last().len() == 0);
        assert(self.pending@.last() == self.bvh.root());
        assert(unwind(self.bvh.nodes@, view, crossings, self.pending@.drop_last(), after) == after);
    }

    /// A search with nothing pending has ended where it stands.
    pub proof fn lemma_done(self, view: RayView, crossings: Seq<Slabs>)
        requires
            self.wanted() == Probe::Done,
        ensures
            self.outcome(view, crossings) == self.window,
    {
    }

    /// Taking the answer that `view` gives for the pending primitive does
    /// not change where the search ends.
    pub proof fn lemma_primitive_answer_keeps_outcome(
        self,
        after: Traversal<'a>,
        view: RayView,
        crossings: Seq<Slabs>,
    )
        requires
            self.wanted() matches Probe::Primitive(p) && after.window == self.window.offered(
                p,
                view.answer(p, self.window.upper()),
            ),
            after.bvh == self.bvh,
            after.pending@ == self.pending@.drop_last(),
        ensures
            after.outcome(view, crossings) == self.outcome(view, crossings),
    {
    }

    /// Taking the crossings that `crossings` gives for the pending node does
    /// not change where the search ends, in a tree whose children come
    /// before their parents.
    pub proof fn lemma_bounds_answer_keeps_outcome(
        self,
        after: Traversal<'a>,
        view: RayView,
        crossings: Seq<Slabs>,
    )
        requires
            self.wanted() matches Probe::Bounds(j) && j < self.bvh.nodes@.len() && j
                < crossings.len() && rank(self.bvh.nodes@[j as int].left) <= j && rank(
                self.bvh.nodes@[j as int].right,
            ) <= j && after.pending@ == self.pending_after_bounds(crossings[j as int]),
            after.bvh == self.bvh,
            after.window == self.window,
        ensures
            after.outcome(view, crossings) == self.outcome(view, crossings),
    {
        let nodes = self.bvh.nodes@;
        let j = self.wanted()->Bounds_0;
        let rest = self.pending@.drop_last();
        assert(self.pending@.last() == Child::Node(j));
        if crossings[j as int].overlap(self.window.min_value as int, self.window.upper() as int) {
            let left = nodes[j as int].left;
            let right = nodes[j as int].right;
            let with_right = rest.push(right);
            let with_both = with_right.push(left);
            assert(with_both.drop_last() =~= with_right);
            assert(with_both.last() == left);
            assert(with_right.drop_last() =~= rest);
            assert(with_right.last() == right);
            let halfway = probe(nodes, view, crossings, left, self.window);
            assert(unwind(nodes, view, crossings, with_both, self.window) == unwind(
                nodes,
                view,
                crossings,
                with_right,
                halfway,
            ));
        }
    }
}

} // verus!
