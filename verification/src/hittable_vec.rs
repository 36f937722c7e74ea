//! The list aggregate: a primitive made of primitives, searched one by one.

use vstd::prelude::*;
use crate::aabb::AxisAlignedBoundingBox;
use crate::hittables::{sweep, Candidate, HitRecord, RayView, Window};
use crate::scalar::Scalar;

verus! {

/// A list of primitives, each known by its bounding box, or by `None` where
/// it has none because it is unbounded.
pub struct HittableVec {
    pub hittables: Vec<Option<AxisAlignedBoundingBox>>,
}

/// The union of all the boxes, or nothing where the list is empty or a box is
/// missing.
pub open spec fn union_all(boxes: Seq<Option<AxisAlignedBoundingBox>>) -> Option<
    AxisAlignedBoundingBox,
>
    decreases boxes.len(),
{
    if boxes.len() == 0 {
        None
    } else if boxes.len() == 1 {
        boxes[0]
    } else {
        match (union_all(boxes.drop_last()), boxes.last()) {
            (Some(around), Some(last)) => Some(around.union(last)),
            _ => None,
        }
    }
}

/// The numbers from `start` up to, but not including, `end`, in order.
pub open spec fn span(start: usize, end: usize) -> Seq<usize> {
    Seq::new((end - start) as nat, |i: int| (start + i) as usize)
}

impl HittableVec {
    /// The box around the whole list: the union of the children's boxes. There
    /// is none where the list is empty or a child is unbounded.
    pub fn bounding_box(&self) -> (around: Option<AxisAlignedBoundingBox>)
        ensures
            around == union_all(self.hittables@),
    {
        if self.hittables.len() == 0 {
            return None;
        }
        let mut around: Option<AxisAlignedBoundingBox> = self.hittables[0];
        let mut done: usize = 1;
        assert(self.hittables@.take(1) =~= seq![self.hittables@[0]]);
        while done < self.hittables.len()
            invariant
                1 <= done <= self.hittables.len(),
                around == union_all(self.hittables@.take(done as int)),
            decreases self.hittables.len() - done,
        {
            let ghost upto = self.hittables@.take(done + 1);
            assert(upto.drop_last() =~= self.hittables@.take(done as int));
            assert(upto.last() == self.hittables@[done as int]);
            around = match (around, self.hittables[done]) {
                (Some(so_far), Some(child)) => Some(so_far.surrounding_box_with(&child)),
                _ => None,
            };
            done = done + 1;
        }
        assert(self.hittables@.take(done as int) =~= self.hittables@);
        around
    }

    /// Starts the search of the list for the nearest meeting of a ray strictly
    /// between `min_value` and `max_value`.
    pub fn is_hit_by(&self, min_value: Scalar, max_value: Scalar) -> (scan: Scan)
        ensures
            scan == Scan::start(self.hittables@.len() as usize, min_value, max_value),
    {
        Scan::begin(self.hittables.len(), min_value, max_value)
    }

    /// The box around the list is there exactly if the list is not empty and
    /// every child has a box; where the children's boxes are well-formed, it
    /// is so too and contains every one of them.
    pub proof fn lemma_union_all_encloses(boxes: Seq<Option<AxisAlignedBoundingBox>>)
        requires
            forall|i: int|
                0 <= i < boxes.len() ==> ((#[trigger] boxes[i]) matches Some(child) ==> child.wf()),
        ensures
            union_all(boxes) is Some <==> boxes.len() > 0 && forall|i: int|
                0 <= i < boxes.len() ==> (#[trigger] boxes[i]) is Some,
            union_all(boxes) matches Some(around) ==> around.wf(),
            union_all(boxes) is Some ==> forall|i: int|
                0 <= i < boxes.len() ==> union_all(boxes)->0.encloses((#[trigger] boxes[i])->0),
        decreases boxes.len(),
    {
        if boxes.len() > 1 {
            let front = boxes.drop_last();
            Self::lemma_union_all_encloses(front);
            assert forall|i: int| 0 <= i < front.len() implies front[i] == boxes[i] by {}
            if union_all(front) is Some && boxes.last() is Some {
                union_all(front)->0.lemma_union_is_least(boxes.last()->0, boxes.last()->0);
                assert forall|i: int| 0 <= i < boxes.len() implies union_all(boxes)->0.encloses(
                    (#[trigger] boxes[i])->0,
                ) by {
                    if i < front.len() {
                        assert(union_all(front)->0.encloses(front[i]->0));
                    }
                }
            } else if union_all(front) is None {
                if front.len() > 0 {
                    let i = choose|i: int| 0 <= i < front.len() && !((#[trigger] front[i]) is Some);
                    assert(boxes[i] is None);
                }
            }
        }
    }
}

/// A search of a list in progress.
///
/// The search asks the primitives in the order of the list. Whoever runs it
/// takes the number of the primitive to ask from [`Scan::pending`], asks that
/// primitive for its nearest meeting with the ray inside the window, and
/// hands the answer to [`Scan::answer`], until nothing is pending.
#[derive(Clone, Copy, Debug, PartialEq, Eq, Structural)]
pub struct Scan {
    pub window: Window,
    pub count: usize,
    pub next: usize,
}

impl Scan {
    /// The search of `count` primitives with nothing asked yet.
    pub open spec fn start(count: usize, min_value: Scalar, max_value: Scalar) -> Scan {
        Scan { window: Window { min_value, max_value, winner: None }, count, next: 0 }
    }

    /// The search after the pending primitive has answered with `result`.
    pub open spec fn answered(self, result: Option<HitRecord>) -> Scan {
        if self.next < self.count {
            Scan {
                window: self.window.offered(self.next, result),
                next: (self.next + 1) as usize,
                ..self
            }
        } else {
            self
        }
    }

    /// Where the search ends if every primitive still to be asked answers as
    /// `view` says.
    pub open spec fn outcome(self, view: RayView) -> Window {
        if self.next < self.count {
            sweep(view, span(self.next, self.count), self.window)
        } else {
            self.window
        }
    }

    pub fn begin(count: usize, min_value: Scalar, max_value: Scalar) -> (scan: Scan)
        ensures
            scan == Scan::start(count, min_value, max_value),
    {
        Scan { window: Window::new(min_value, max_value), count, next: 0 }
    }

    /// The number of the primitive to ask next, or nothing when the search is
    /// over.
    pub fn pending(&self) -> (primitive: Option<usize>)
        ensures
            primitive == if self.next < self.count {
                Some(self.next)
            } else {
                None::<usize>
            },
    {
        if self.next < self.count {
            Some(self.next)
        } else {
            None
        }
    }

    /// The start of the window, which a meeting must lie beyond.
    pub fn min_value(&self) -> (start: Scalar)
        ensures
            start == self.window.min_value,
    {
        self.window.min_value
    }

    /// The end of the window, which a meeting must lie before.
    pub fn max_value(&self) -> (end: Scalar)
        ensures
            end == self.window.upper(),
    {
        self.window.upper_bound()
    }

    /// Takes the answer of the pending primitive and moves on to the next.
    /// When nothing is pending the answer is dropped.
    pub fn answer(&mut self, result: Option<HitRecord>)
        ensures
            *final(self) == old(self).answered(result),
    {
        if self.next < self.count {
            self.window.offer(self.next, result);
            self.next = self.next + 1;
        }
    }

    /// The nearest meeting found so far.
    pub fn winner(&self) -> (winner: Option<Candidate>)
        ensures
            winner == self.window.winner,
    {
        self.window.winner
    }

    /// A step of the search that is fed the answer `view` gives does not
    /// change where the search ends; and a search with nothing pending has
    /// ended where it stands.
    pub proof fn lemma_answer_keeps_outcome(self, view: RayView)
        ensures
            self.next < self.count ==> self.answered(
                view.answer(self.next, self.window.upper()),
            ).outcome(view) == self.outcome(view),
            self.next >= self.count ==> self.outcome(view) == self.window,
    {
        if self.next < self.count {
            let order = span(self.next, self.count);
            let after = self.answered(view.answer(self.next, self.window.upper()));
            assert(order.len() > 0 && order[0] == self.next);
            assert(self.outcome(view) == sweep(view, order.drop_first(), after.window));
            if after.next < after.count {
                assert(order.drop_first() =~= span(after.next, after.count));
            } else {
                assert(order.drop_first().len() == 0);
                assert(sweep(view, order.drop_first(), after.window) == after.window);
            }
        }
    }
}

} // verus!
