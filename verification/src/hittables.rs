//! What a ray learns when it meets a surface, and how the nearest of several
//! meetings is kept.

use vstd::prelude::*;
use crate::point64::Point64;
use crate::scalar::{is_less, less, Scalar, ZERO};

verus! {

/// One meeting of a ray with a surface.
///
/// `value` is the ray parameter of the meeting, `u` and `v` place it on the
/// surface, `location` places it in space. `normal` is the surface normal
/// turned against the incoming ray, and `front_face` records that it did not
/// have to be turned. `material` is the number of the struck material in the
/// scene's table of materials.
#[derive(Clone, Copy, Debug, PartialEq, Eq, Structural)]
pub struct HitRecord {
    pub value: Scalar,
    pub u: Scalar,
    pub v: Scalar,
    pub location: Point64,
    pub normal: Point64,
    pub front_face: bool,
    pub material: usize,
}

impl HitRecord {
    /// The record of a meeting at parameter `value` and place `location`.
    ///
    /// `facing` is the dot product of the ray's direction with
    /// `outward_normal`. Where it is less than nothing the ray comes from
    /// outside and the normal stays; otherwise, and where it is no number,
    /// the normal is reversed.
    pub fn new(
        value: Scalar,
        facing: Scalar,
        location: Point64,
        outward_normal: Point64,
        material: usize,
        uv: (Scalar, Scalar),
    ) -> (record: HitRecord)
        requires
            outward_normal.reversible(),
        ensures
            record.value == value,
            record.u == uv.0,
            record.v == uv.1,
            record.location == location,
            record.material == material,
            record.front_face == less(facing as int, ZERO as int),
            record.normal == if less(facing as int, ZERO as int) {
                outward_normal
            } else {
                outward_normal.opposite()
            },
    {
        let front_face = is_less(facing, ZERO);
        let normal = if front_face {
            outward_normal
        } else {
            outward_normal.neg()
        };
        HitRecord { value, u: uv.0, v: uv.1, location, normal, front_face, material }
    }
}

/// A meeting together with the number of the primitive that reported it.
#[derive(Clone, Copy, Debug, PartialEq, Eq, Structural)]
pub struct Candidate {
    pub primitive: usize,
    pub record: HitRecord,
}

/// The search window of one ray, and the nearest meeting found in it so far.
///
/// A search asks one primitive after the other for its nearest meeting with
/// the ray strictly between `min_value` and [`Window::upper`]. Each meeting
/// reported replaces the winner, so the window only ever shrinks.
#[derive(Clone, Copy, Debug, PartialEq, Eq, Structural)]
pub struct Window {
    pub min_value: Scalar,
    pub max_value: Scalar,
    pub winner: Option<Candidate>,
}

impl Window {
    /// The end of the window: the winner's parameter, or `max_value` while
    /// there is no winner.
    pub open spec fn upper(self) -> Scalar {
        match self.winner {
            Some(candidate) => candidate.record.value,
            None => self.max_value,
        }
    }

    /// The window after `primitive` has answered with `result`.
    pub open spec fn offered(self, primitive: usize, result: Option<HitRecord>) -> Window {
        match result {
            Some(record) => Window { winner: Some(Candidate { primitive, record }), ..self },
            None => self,
        }
    }

    /// The window from `min_value` to `max_value`, with no winner yet.
    pub fn new(min_value: Scalar, max_value: Scalar) -> (window: Window)
        ensures
            window == (Window { min_value, max_value, winner: None }),
    {
        Window { min_value, max_value, winner: None }
    }

    /// The end of the window as it stands.
    pub fn upper_bound(&self) -> (end: Scalar)
        ensures
            end == self.upper(),
    {
        match self.winner {
            Some(candidate) => candidate.record.value,
            None => self.max_value,
        }
    }

    /// Takes the answer of `primitive`: a meeting becomes the new winner, no
    /// meeting leaves the window as it is.
    pub fn offer(&mut self, primitive: usize, result: Option<HitRecord>)
        ensures
            *final(self) == old(self).offered(primitive, result),
    {
        match result {
            Some(record) => {
                self.winner = Some(Candidate { primitive, record });
            },
            None => {},
        }
    }
}

/// What one ray meets in a scene, primitive by primitive: for each primitive
/// its nearest meeting with the ray beyond the start of the search window, if
/// there is one.
pub struct RayView {
    pub nearest: Seq<Option<HitRecord>>,
}

impl RayView {
    /// What `primitive` answers when asked for a meeting before `upper`: its
    /// nearest meeting if that comes before `upper`, else nothing.
    pub open spec fn answer(self, primitive: usize, upper: Scalar) -> Option<HitRecord> {
        if 0 <= primitive < self.nearest.len() {
            match self.nearest[primitive as int] {
                Some(record) => if record.value < upper {
                    Some(record)
                } else {
                    None
                },
                None => None,
            }
        } else {
            None
        }
    }

    /// Whether `primitive` meets the ray before `upper`.
    pub open spec fn meets_before(self, primitive: usize, upper: Scalar) -> bool {
        self.answer(primitive, upper) is Some
    }
}

/// The window after the primitives of `order` have been asked one after the
/// other, each for a meeting inside the window as it stood at its turn.
pub open spec fn sweep(view: RayView, order: Seq<usize>, window: Window) -> Window
    decreases order.len(),
{
    if order.len() == 0 {
        window
    } else {
        let primitive = order[0];
        sweep(
            view,
            order.drop_first(),
            window.offered(primitive, view.answer(primitive, window.upper())),
        )
    }
}

/// Asking the primitives of `first` and then those of `second` is asking
/// those of `first + second`.
pub proof fn lemma_sweep_concat(view: RayView, first: Seq<usize>, second: Seq<usize>, window: Window)
    ensures
        sweep(view, first + second, window) == sweep(view, second, sweep(view, first, window)),
    decreases first.len(),
{
    if first.len() == 0 {
        assert(first + second =~= second);
    } else {
        let primitive = first[0];
        let next = window.offered(primitive, view.answer(primitive, window.upper()));
        assert((first + second).drop_first() =~= first.drop_first() + second);
        assert((first + second)[0] == primitive);
        lemma_sweep_concat(view, first.drop_first(), second, next);
    }
}

/// A sweep keeps the start of the window and never moves its end outward.
pub proof fn lemma_sweep_shrinks(view: RayView, order: Seq<usize>, window: Window)
    ensures
        sweep(view, order, window).min_value == window.min_value,
        sweep(view, order, window).max_value == window.max_value,
        sweep(view, order, window).upper() <= window.upper(),
        window.winner is Some ==> sweep(view, order, window).winner is Some,
    decreases order.len(),
{
    if order.len() > 0 {
        let primitive = order[0];
        let next = window.offered(primitive, view.answer(primitive, window.upper()));
        lemma_sweep_shrinks(view, order.drop_first(), next);
    }
}

} // verus!
