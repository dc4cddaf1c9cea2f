//! The problem description: room and stage, emitters (musicians), listeners
//! (attendees), obstacles (pillars), and a candidate solution, together with
//! the placement-validity rules.

use vstd::prelude::*;

use crate::geometry::{coord_ok, dist_sq, Point, CLEARANCE, MAX_COORD};

verus! {

/// Largest number of musicians, attendees or pillars the library accepts.
/// Together with the coordinate and taste bounds this keeps every score
/// computation inside `i128`.
pub const MAX_COUNT: usize = 10_000;

/// Largest magnitude of a preference (taste) value.
pub const MAX_TASTE: i64 = 100_000;

/// Volumes are scaled by 1000; the allowed range is 0.0 to 10.0.
pub const MAX_VOLUME: i64 = 10_000;

/// Default volume (1.0 in scaled units).
pub const DEFAULT_VOLUME: i64 = 1_000;

/// The error taxonomy of the library.
#[derive(Clone, Copy, Debug, PartialEq, Eq, Structural)]
pub enum SolverError {
    /// A placement array whose length differs from the number of musicians.
    StructuralMismatch,
    /// A musician outside the stage or room clearance, or two musicians
    /// closer than the clearance radius.
    ConstraintViolation,
    /// A solver invoked outside its documented precondition.
    PreconditionViolation,
}

/// A listener: a fixed point with one preference weight per instrument.
#[derive(Clone, Debug)]
pub struct Attendee {
    pub x: i64,
    pub y: i64,
    pub tastes: Vec<i64>,
}

impl Attendee {
    /// The attendee's position as a point.
    pub open spec fn pos_spec(&self) -> Point {
        Point { x: self.x, y: self.y }
    }

    /// Returns the attendee's position.
    pub fn pos(&self) -> (p: Point)
        ensures
            p == self.pos_spec(),
    {
        Point { x: self.x, y: self.y }
    }
}

/// A static blocking circle.
#[derive(Clone, Copy, Debug)]
pub struct Pillar {
    pub center: Point,
    pub radius: i64,
}

/// The immutable scene: room and stage geometry, instrument assignment,
/// listeners and obstacles.
#[derive(Clone, Debug)]
pub struct Input {
    pub room_width: i64,
    pub room_height: i64,
    pub stage_width: i64,
    pub stage_height: i64,
    pub stage_bottom_left: Point,
    pub musicians: Vec<usize>,
    pub attendees: Vec<Attendee>,
    pub pillars: Vec<Pillar>,
}

impl Input {
    /// Well-formedness of a scene: geometry nested and bounded, counts
    /// bounded, every instrument tag within every attendee's taste vector,
    /// and tastes bounded.
    pub open spec fn wf(&self) -> bool {
        &&& 0 < self.room_width <= MAX_COORD
        &&& 0 < self.room_height <= MAX_COORD
        &&& 0 <= self.stage_width <= MAX_COORD
        &&& 0 <= self.stage_height <= MAX_COORD
        &&& 0 <= self.stage_bottom_left.x
        &&& 0 <= self.stage_bottom_left.y
        &&& self.stage_bottom_left.x + self.stage_width <= self.room_width
        &&& self.stage_bottom_left.y + self.stage_height <= self.room_height
        &&& 1 <= self.musicians@.len() <= MAX_COUNT
        &&& self.attendees@.len() <= MAX_COUNT
        &&& self.pillars@.len() <= MAX_COUNT
        &&& (forall|a: int, m: int|
            0 <= a < self.attendees@.len() && 0 <= m < self.musicians@.len()
                ==> (#[trigger] self.musicians@[m])
                    < (#[trigger] self.attendees@[a]).tastes@.len())
        &&& (forall|a: int|
            0 <= a < self.attendees@.len() ==> coord_ok((#[trigger] self.attendees@[a]).pos_spec()))
        &&& (forall|a: int, t: int|
            0 <= a < self.attendees@.len() && 0 <= t < self.attendees@[a].tastes@.len()
                ==> -MAX_TASTE <= (#[trigger] self.attendees@[a].tastes@[t]) <= MAX_TASTE)
        &&& (forall|p: int|
            0 <= p < self.pillars@.len()
                ==> coord_ok((#[trigger] self.pillars@[p]).center)
                    && 0 <= self.pillars@[p].radius <= MAX_COORD)
    }

    /// Whether a point is on the stage with the required clearance from the
    /// stage border.
    pub open spec fn in_stage_spec(&self, p: Point) -> bool {
        &&& p.x >= self.stage_bottom_left.x + CLEARANCE
        &&& p.x <= self.stage_bottom_left.x + self.stage_width - CLEARANCE
        &&& p.y >= self.stage_bottom_left.y + CLEARANCE
        &&& p.y <= self.stage_bottom_left.y + self.stage_height - CLEARANCE
    }

    /// Whether a point keeps the required clearance from the room walls.
    pub open spec fn room_clear_spec(&self, p: Point) -> bool {
        &&& CLEARANCE <= p.x <= self.room_width - CLEARANCE
        &&& CLEARANCE <= p.y <= self.room_height - CLEARANCE
    }

    /// A placement is valid when it has one point per musician, every point
    /// is on the stage and clear of the room walls, and no two points are
    /// closer than the clearance radius (the boundary itself is allowed).
    pub open spec fn placements_ok(&self, pls: Seq<Point>) -> bool {
        &&& pls.len() == self.musicians@.len()
        &&& (forall|i: int| 0 <= i < pls.len() ==> self.in_stage_spec(#[trigger] pls[i]))
        &&& (forall|i: int| 0 <= i < pls.len() ==> self.room_clear_spec(#[trigger] pls[i]))
        &&& (forall|i: int, j: int|
            0 <= i < pls.len() && 0 <= j < pls.len() && i != j
                ==> #[trigger] dist_sq(pls[i], pls[j]) >= CLEARANCE * CLEARANCE)
    }

    /// Because the stage fits in the room, a point on the stage also keeps
    /// the clearance from the room walls.
    pub proof fn lemma_in_stage_room_clear(&self, p: Point)
        requires
            self.wf(),
            self.in_stage_spec(p),
        ensures
            self.room_clear_spec(p),
    {
    }

    /// A point that is on the stage is inside the accepted coordinate range.
    pub proof fn lemma_in_stage_coord_ok(&self, p: Point)
        requires
            self.wf(),
            self.in_stage_spec(p),
        ensures
            coord_ok(p),
    {
    }

    /// Decides whether a point is on the stage with border clearance.
    pub fn in_stage(&self, p: &Point) -> (b: bool)
        requires
            self.wf(),
        ensures
            b == self.in_stage_spec(*p),
    {
        p.x >= self.stage_bottom_left.x + CLEARANCE
            && p.x <= self.stage_bottom_left.x + self.stage_width - CLEARANCE
            && p.y >= self.stage_bottom_left.y + CLEARANCE
            && p.y <= self.stage_bottom_left.y + self.stage_height - CLEARANCE
    }

    /// Decides whether a point keeps clearance from the room walls.
    pub fn room_clear(&self, p: &Point) -> (b: bool)
        requires
            self.wf(),
        ensures
            b == self.room_clear_spec(*p),
    {
        CLEARANCE <= p.x && p.x <= self.room_width - CLEARANCE
            && CLEARANCE <= p.y && p.y <= self.room_height - CLEARANCE
    }

    /// Checks a placement against all validity rules.
    ///
    /// Returns `Ok` exactly on valid placements; a wrong array length is a
    /// `StructuralMismatch`, any geometric violation a `ConstraintViolation`.
    pub fn is_valid_placements(&self, placements: &Vec<Point>) -> (r: Result<(), SolverError>)
        requires
            self.wf(),
        ensures
            r is Ok <==> self.placements_ok(placements@),
            r == Err::<(), SolverError>(SolverError::StructuralMismatch)
                <==> placements@.len() != self.musicians@.len(),
            r == Err::<(), SolverError>(SolverError::ConstraintViolation)
                <==> (placements@.len() == self.musicians@.len()
                    && !self.placements_ok(placements@)),
    {
        let n = placements.len();
        if n != self.musicians.len() {
            return Err(SolverError::StructuralMismatch);
        }
        let mut i: usize = 0;
        while i < n
            invariant
                self.wf(),
                n == placements@.len(),
                n == self.musicians@.len(),
                i <= n,
                forall|k: int| 0 <= k < i ==> self.in_stage_spec(#[trigger] placements@[k]),
                forall|k: int| 0 <= k < i ==> self.room_clear_spec(#[trigger] placements@[k]),
            decreases n - i,
        {
            if !self.in_stage(&placements[i]) {
                return Err(SolverError::ConstraintViolation);
            }
            if !self.room_clear(&placements[i]) {
                return Err(SolverError::ConstraintViolation);
            }
            i = i + 1;
        }
        let mut i: usize = 0;
        while i < n
            invariant
                self.wf(),
                n == placements@.len(),
                n == self.musicians@.len(),
                i <= n,
                forall|k: int| 0 <= k < n ==> self.in_stage_spec(#[trigger] placements@[k]),
                forall|k: int| 0 <= k < n ==> self.room_clear_spec(#[trigger] placements@[k]),
                forall|a: int, b: int|
                    0 <= a < i && a < b < n
                        ==> #[trigger] dist_sq(placements@[a], placements@[b])
                            >= CLEARANCE * CLEARANCE,
            decreases n - i,
        {
            let mut j: usize = i + 1;
            while j < n
                invariant
                    self.wf(),
                    n == placements@.len(),
                    n == self.musicians@.len(),
                    i < n,
                    i < j <= n,
                    forall|k: int| 0 <= k < n ==> self.in_stage_spec(#[trigger] placements@[k]),
                    forall|b: int|
                        i < b < j
                            ==> #[trigger] dist_sq(placements@[i as int], placements@[b])
                                >= CLEARANCE * CLEARANCE,
                decreases n - j,
            {
                proof {
                    self.lemma_in_stage_coord_ok(placements@[i as int]);
                    self.lemma_in_stage_coord_ok(placements@[j as int]);
                }
                let d2 = crate::geometry::dist_sq_i128(&placements[i], &placements[j]);
                if d2 < (CLEARANCE as i128) * (CLEARANCE as i128) {
                    proof {
                        crate::geometry::lemma_abs_mul_bound(
                            CLEARANCE as int,
                            CLEARANCE as int,
                            CLEARANCE as int,
                            CLEARANCE as int,
                        );
                    }
                    return Err(SolverError::ConstraintViolation);
                }
                j = j + 1;
            }
            i = i + 1;
        }
        proof {
            assert forall|a: int, b: int|
                0 <= a < n && 0 <= b < n && a != b
                implies #[trigger] dist_sq(placements@[a], placements@[b])
                    >= CLEARANCE * CLEARANCE by {
                if a < b {
                } else {
                    assert(dist_sq(placements@[b], placements@[a]) >= CLEARANCE * CLEARANCE);
                    assert(dist_sq(placements@[a], placements@[b])
                        == dist_sq(placements@[b], placements@[a]))
                        by (nonlinear_arith);
                }
            }
        }
        Ok(())
    }
}

/// Whether every volume is in the accepted `[0, 10]` scaled range.
pub open spec fn volumes_ok(vols: Seq<i64>) -> bool {
    forall|i: int| 0 <= i < vols.len() ==> 0 <= #[trigger] vols[i] <= MAX_VOLUME
}

/// A candidate solution: one point per musician and optional volumes.
#[derive(Clone, Debug)]
pub struct Solution {
    pub placements: Vec<Point>,
    pub volumes: Option<Vec<i64>>,
}

} // verus!
