//! The incremental scoring index: the one mutable structure of the library.
//!
//! For every musician it keeps the raw impact on each attendee, a cover
//! count per attendee (how many musicians and pillars currently block that
//! sightline), and the aggregate impact over the attendees whose count is
//! zero. Moving one musician updates the other musicians' cover counts
//! incrementally and rebuilds only the moved musician's own table, and the
//! synergy multipliers are maintained the same way.

use vstd::prelude::*;

use crate::geometry::{
    all_coords_ok, ceil_div, ceil_div_i128, coord_ok, dist_sq, dist_sq_i128, isqrt_u128,
    seg_within, Point, Segment, BLOCK_RADIUS, MAX_COORD,
};
use crate::problem::{Input, Pillar, MAX_COUNT, MAX_VOLUME};
use crate::scoring::{
    effective_syn, inv_dist_q, pair_raw, raw_impact_spec, syn_sum, taste_of, INV_NUM,
    RAW_BOUND, SYN_BOUND, SYN_ONE,
};

verus! {

/// Bound on the magnitude of one musician's aggregate impact.
pub const IMPACT_BOUND: i128 = 1_000_000_000_000_000_000_000;

/// Sum of `tastes` over the indices below `upto` whose cover count is zero.
pub open spec fn visible_sum(tastes: Seq<i128>, counts: Seq<u32>, upto: int) -> int
    decreases upto,
{
    if upto <= 0 {
        0
    } else {
        visible_sum(tastes, counts, upto - 1) + (
        if counts[upto - 1] == 0 {
            tastes[upto - 1] as int
        } else {
            0
        })
    }
}

/// `visible_sum` only reads the entries below `upto`.
proof fn lemma_visible_sum_prefix(t1: Seq<i128>, c1: Seq<u32>, t2: Seq<i128>, c2: Seq<u32>, upto: int)
    requires
        forall|a: int| 0 <= a < upto ==> t1[a] == t2[a] && c1[a] == c2[a],
    ensures
        visible_sum(t1, c1, upto) == visible_sum(t2, c2, upto),
    decreases upto,
{
    if upto > 0 {
        lemma_visible_sum_prefix(t1, c1, t2, c2, upto - 1);
    }
}

/// Changing one cover count moves `visible_sum` by that entry's taste, in
/// or out, according to the zero transitions.
proof fn lemma_visible_sum_update(tastes: Seq<i128>, counts: Seq<u32>, a: int, v: u32, upto: int)
    requires
        0 <= a < counts.len(),
        tastes.len() == counts.len(),
        upto <= counts.len(),
    ensures
        visible_sum(tastes, counts.update(a, v), upto) == visible_sum(tastes, counts, upto) + (
        if a < upto {
            (if v == 0 { tastes[a] as int } else { 0 }) - (
            if counts[a] == 0 { tastes[a] as int } else { 0 })
        } else {
            0
        }),
    decreases upto,
{
    if upto > 0 {
        lemma_visible_sum_update(tastes, counts, a, v, upto - 1);
    }
}

/// `visible_sum` is bounded by `upto` times the taste bound.
proof fn lemma_visible_sum_bound(tastes: Seq<i128>, counts: Seq<u32>, upto: int)
    requires
        0 <= upto <= tastes.len(),
        forall|a: int| 0 <= a < tastes.len() ==> -RAW_BOUND <= #[trigger] tastes[a] <= RAW_BOUND,
    ensures
        -upto * RAW_BOUND <= visible_sum(tastes, counts, upto) <= upto * RAW_BOUND,
    decreases upto,
{
    if upto > 0 {
        lemma_visible_sum_bound(tastes, counts, upto - 1);
        assert(upto * RAW_BOUND == (upto - 1) * RAW_BOUND + RAW_BOUND) by (nonlinear_arith);
    }
}

/// Per-musician table: raw impact and cover count per attendee, and the
/// aggregate impact over the unblocked attendees.
struct AttendeeIndex {
    musician_point: Point,
    tastes: Vec<i128>,
    attendee_points: Vec<Point>,
    cover_counts: Vec<u32>,
    impact: i128,
}

impl AttendeeIndex {
    /// Internal consistency: parallel lengths, bounded entries, and the
    /// aggregate equal to the sum over unblocked attendees.
    closed spec fn shape_ok(self) -> bool {
        &&& self.tastes@.len() == self.attendee_points@.len()
        &&& self.cover_counts@.len() == self.attendee_points@.len()
        &&& self.attendee_points@.len() <= MAX_COUNT
        &&& coord_ok(self.musician_point)
        &&& all_coords_ok(self.attendee_points@)
        &&& (forall|a: int|
            0 <= a < self.tastes@.len() ==> -RAW_BOUND <= #[trigger] self.tastes@[a] <= RAW_BOUND)
        &&& self.impact == visible_sum(self.tastes@, self.cover_counts@,
            self.tastes@.len() as int)
    }

    /// Ties the table to a scene: the point is musician `m`'s, the attendee
    /// points are the scene's, and each taste is the exact raw impact.
    closed spec fn models(self, input: Input, m: int) -> bool {
        &&& self.shape_ok()
        &&& self.attendee_points@.len() == input.attendees@.len()
        &&& (forall|a: int|
            0 <= a < input.attendees@.len() ==> #[trigger] self.attendee_points@[a]
                == input.attendees@[a].pos_spec())
        &&& (forall|a: int|
            0 <= a < input.attendees@.len() ==> #[trigger] self.tastes@[a] as int
                == raw_impact_spec(taste_of(input, a, m),
                dist_sq(input.attendees@[a].pos_spec(), self.musician_point)))
    }

    /// The musician's point this table was built for.
    closed spec fn point(self) -> Point {
        self.musician_point
    }

    /// The cover counts, for stating blocking invariants.
    closed spec fn counts(self) -> Seq<u32> {
        self.cover_counts@
    }

    /// Builds the table for a musician standing at `musician_point`, with
    /// every cover count zero.
    fn create(musician_id: usize, musician_point: Point, input: &Input) -> (r: AttendeeIndex)
        requires
            input.wf(),
            musician_id < input.musicians@.len(),
            coord_ok(musician_point),
            forall|a: int|
                0 <= a < input.attendees@.len() ==> #[trigger] dist_sq(
                    input.attendees@[a].pos_spec(), musician_point) >= 1,
        ensures
            r.models(*input, musician_id as int),
            r.point() == musician_point,
            forall|a: int| 0 <= a < r.counts().len() ==> #[trigger] r.counts()[a] == 0,
    {
        let la = input.attendees.len();
        let mut tastes: Vec<i128> = Vec::new();
        let mut attendee_points: Vec<Point> = Vec::new();
        let mut cover_counts: Vec<u32> = Vec::new();
        let mut impact: i128 = 0;
        let mut a: usize = 0;
        while a < la
            invariant
                input.wf(),
                musician_id < input.musicians@.len(),
                coord_ok(musician_point),
                la == input.attendees@.len(),
                forall|k: int|
                    0 <= k < input.attendees@.len() ==> #[trigger] dist_sq(
                        input.attendees@[k].pos_spec(), musician_point) >= 1,
                a <= la,
                tastes@.len() == a,
                attendee_points@.len() == a,
                cover_counts@.len() == a,
                forall|k: int|
                    0 <= k < a ==> #[trigger] attendee_points@[k]
                        == input.attendees@[k].pos_spec(),
                forall|k: int|
                    0 <= k < a ==> #[trigger] tastes@[k] as int == raw_impact_spec(
                        taste_of(*input, k, musician_id as int),
                        dist_sq(input.attendees@[k].pos_spec(), musician_point)),
                forall|k: int| 0 <= k < a ==> -RAW_BOUND <= #[trigger] tastes@[k] <= RAW_BOUND,
                forall|k: int| 0 <= k < a ==> #[trigger] cover_counts@[k] == 0,
                impact == visible_sum(tastes@, cover_counts@, a as int),
                -(a as int) * RAW_BOUND <= impact <= (a as int) * RAW_BOUND,
            decreases la - a,
        {
            let raw = input.raw_impact(a, musician_id, &musician_point);
            let apos = input.attendees[a].pos();
            proof {
                assert((a + 1) * RAW_BOUND == (a as int) * RAW_BOUND + RAW_BOUND)
                    by (nonlinear_arith);
                assert((a as int) * RAW_BOUND <= 10_000 * RAW_BOUND) by (nonlinear_arith)
                    requires a as int <= 10_000
                ;
                lemma_visible_sum_prefix(tastes@.push(raw), cover_counts@.push(0u32), tastes@,
                    cover_counts@, a as int);
            }
            tastes.push(raw);
            attendee_points.push(apos);
            cover_counts.push(0u32);
            impact = impact + raw;
            a = a + 1;
        }
        AttendeeIndex { musician_point, tastes, attendee_points, cover_counts, impact }
    }

    /// The aggregate impact over the attendees whose sightline is clear.
    fn get_impact(&self) -> (r: i128)
        ensures
            r == self.impact_value(),
    {
        self.impact
    }

    /// The cached aggregate impact.
    closed spec fn impact_value(self) -> int {
        self.impact as int
    }

    /// Records a new blocking disk at `point` with the given radius: every
    /// attendee whose sightline passes within the disk gains one cover, and
    /// an attendee newly covered leaves the aggregate impact.
    fn add_blocker(&mut self, point: Point, radius: i64)
        requires
            old(self).shape_ok(),
            coord_ok(point),
            0 <= radius <= MAX_COORD,
            forall|a: int|
                0 <= a < old(self).counts().len() ==> #[trigger] old(self).counts()[a] < 100_000,
        ensures
            final(self).shape_ok(),
            final(self).musician_point == old(self).musician_point,
            final(self).tastes@ == old(self).tastes@,
            final(self).attendee_points@ == old(self).attendee_points@,
            final(self).counts().len() == old(self).counts().len(),
            forall|a: int|
                0 <= a < final(self).counts().len() ==> #[trigger] final(self).counts()[a] as int
                    == old(self).counts()[a] + (
                if seg_within(old(self).attendee_points@[a], old(self).musician_point, point,
                    radius as int) {
                    1int
                } else {
                    0int
                }),
    {
        let la = self.attendee_points.len();
        let seg_p2 = self.musician_point;
        let mut a: usize = 0;
        while a < la
            invariant
                self.shape_ok(),
                coord_ok(point),
                0 <= radius <= MAX_COORD,
                la == self.attendee_points@.len(),
                a <= la,
                self.musician_point == old(self).musician_point,
                seg_p2 == self.musician_point,
                self.tastes@ == old(self).tastes@,
                self.attendee_points@ == old(self).attendee_points@,
                self.counts().len() == old(self).counts().len(),
                forall|k: int|
                    0 <= k < a ==> #[trigger] self.counts()[k] as int == old(self).counts()[k] + (
                    if seg_within(self.attendee_points@[k], self.musician_point, point,
                        radius as int) {
                        1int
                    } else {
                        0int
                    }),
                forall|k: int|
                    a <= k < la ==> #[trigger] self.counts()[k] == old(self).counts()[k],
                forall|k: int|
                    0 <= k < old(self).counts().len() ==> #[trigger] old(self).counts()[k]
                        < 100_000,
            decreases la - a,
        {
            let seg = Segment { p1: self.attendee_points[a], p2: seg_p2 };
            if seg.dist_within(&point, radius) {
                let c = self.cover_counts[a];
                proof {
                    lemma_visible_sum_update(self.tastes@, self.cover_counts@, a as int,
                        (c + 1) as u32, la as int);
                    lemma_visible_sum_bound(self.tastes@, self.cover_counts@, la as int);
                    assert((la as int) * RAW_BOUND <= 10_000 * RAW_BOUND) by (nonlinear_arith)
                        requires la as int <= 10_000
                    ;
                }
                self.cover_counts[a] = c + 1;
                if c == 0 {
                    let t = self.tastes[a];
                    self.impact = self.impact - t;
                }
            }
            a = a + 1;
        }
    }

    /// Removes a blocking disk at `point` with the given radius: the inverse
    /// of `add_blocker`. An attendee whose last cover disappears re-enters
    /// the aggregate impact.
    fn remove_blocker(&mut self, point: Point, radius: i64)
        requires
            old(self).shape_ok(),
            coord_ok(point),
            0 <= radius <= MAX_COORD,
            forall|a: int|
                0 <= a < old(self).counts().len() && seg_within(
                    old(self).attendee_points@[a], old(self).musician_point, point,
                    radius as int) ==> #[trigger] old(self).counts()[a] >= 1,
        ensures
            final(self).shape_ok(),
            final(self).musician_point == old(self).musician_point,
            final(self).tastes@ == old(self).tastes@,
            final(self).attendee_points@ == old(self).attendee_points@,
            final(self).counts().len() == old(self).counts().len(),
            forall|a: int|
                0 <= a < final(self).counts().len() ==> #[trigger] final(self).counts()[a] as int
                    == old(self).counts()[a] - (
                if seg_within(old(self).attendee_points@[a], old(self).musician_point, point,
                    radius as int) {
                    1int
                } else {
                    0int
                }),
    {
        let la = self.attendee_points.len();
        let seg_p2 = self.musician_point;
        let mut a: usize = 0;
        while a < la
            invariant
                self.shape_ok(),
                coord_ok(point),
                0 <= radius <= MAX_COORD,
                la == self.attendee_points@.len(),
                a <= la,
                self.musician_point == old(self).musician_point,
                seg_p2 == self.musician_point,
                self.tastes@ == old(self).tastes@,
                self.attendee_points@ == old(self).attendee_points@,
                self.counts().len() == old(self).counts().len(),
                forall|k: int|
                    0 <= k < a ==> #[trigger] self.counts()[k] as int == old(self).counts()[k] - (
                    if seg_within(self.attendee_points@[k], self.musician_point, point,
                        radius as int) {
                        1int
                    } else {
                        0int
                    }),
                forall|k: int|
                    a <= k < la ==> #[trigger] self.counts()[k] == old(self).counts()[k],
                forall|k: int|
                    0 <= k < old(self).counts().len() && seg_within(
                        old(self).attendee_points@[k], old(self).musician_point, point,
                        radius as int) ==> #[trigger] old(self).counts()[k] >= 1,
            decreases la - a,
        {
            let seg = Segment { p1: self.attendee_points[a], p2: seg_p2 };
            if seg.dist_within(&point, radius) {
                let c = self.cover_counts[a];
                proof {
                    lemma_visible_sum_update(self.tastes@, self.cover_counts@, a as int,
                        (c - 1) as u32, la as int);
                    lemma_visible_sum_bound(self.tastes@, self.cover_counts@, la as int);
                    assert((la as int) * RAW_BOUND <= 10_000 * RAW_BOUND) by (nonlinear_arith)
                        requires la as int <= 10_000
                    ;
                }
                self.cover_counts[a] = c - 1;
                if c == 1 {
                    let t = self.tastes[a];
                    self.impact = self.impact + t;
                }
            }
            a = a + 1;
        }
    }
}

/// One where the disk at `c` with radius `r` meets the sightline, else zero.
pub open spec fn ind_within(a_pos: Point, m_pos: Point, c: Point, r: int) -> int {
    if seg_within(a_pos, m_pos, c, r) {
        1
    } else {
        0
    }
}

/// How many musicians below `upto` (other than `m`) block the sightline
/// from `a_pos` to `m_pos`.
pub open spec fn mus_cover_count(
    a_pos: Point,
    m_pos: Point,
    pls: Seq<Point>,
    m: int,
    upto: int,
) -> int
    decreases upto,
{
    if upto <= 0 {
        0
    } else {
        mus_cover_count(a_pos, m_pos, pls, m, upto - 1) + (
        if upto - 1 == m {
            0
        } else {
            ind_within(a_pos, m_pos, pls[upto - 1], BLOCK_RADIUS as int)
        })
    }
}

/// How many pillars below `upto` block the sightline from `a_pos` to
/// `m_pos`.
pub open spec fn pil_cover_count(a_pos: Point, m_pos: Point, pillars: Seq<Pillar>, upto: int) -> int
    decreases upto,
{
    if upto <= 0 {
        0
    } else {
        pil_cover_count(a_pos, m_pos, pillars, upto - 1) + ind_within(a_pos, m_pos,
            pillars[upto - 1].center, pillars[upto - 1].radius as int)
    }
}

/// The total number of blockers currently covering the sightline from
/// attendee `a` to musician `m`.
pub open spec fn cover_count(input: Input, pls: Seq<Point>, m: int, a: int) -> int {
    mus_cover_count(input.attendees@[a].pos_spec(), pls[m], pls, m, pls.len() as int)
        + pil_cover_count(input.attendees@[a].pos_spec(), pls[m], input.pillars@,
        input.pillars@.len() as int)
}

/// Musician cover counts are between zero and `upto`.
pub proof fn lemma_mus_cover_count_range(a_pos: Point, m_pos: Point, pls: Seq<Point>, m: int, upto: int)
    requires
        upto <= pls.len(),
    ensures
        0 <= mus_cover_count(a_pos, m_pos, pls, m, upto) <= if upto >= 0 { upto } else { 0 },
    decreases upto,
{
    if upto > 0 {
        lemma_mus_cover_count_range(a_pos, m_pos, pls, m, upto - 1);
    }
}

/// Pillar cover counts are between zero and `upto`.
pub proof fn lemma_pil_cover_count_range(
    a_pos: Point,
    m_pos: Point,
    pillars: Seq<Pillar>,
    upto: int,
)
    requires
        upto <= pillars.len(),
    ensures
        0 <= pil_cover_count(a_pos, m_pos, pillars, upto) <= if upto >= 0 { upto } else { 0 },
    decreases upto,
{
    if upto > 0 {
        lemma_pil_cover_count_range(a_pos, m_pos, pillars, upto - 1);
    }
}

/// The musician cover count is zero exactly when no other musician blocks.
pub proof fn lemma_mus_cover_count_zero(a_pos: Point, pls: Seq<Point>, m: int, upto: int)
    requires
        0 <= m < pls.len(),
        0 <= upto <= pls.len(),
    ensures
        (mus_cover_count(a_pos, pls[m], pls, m, upto) == 0) <==> (forall|j: int|
            0 <= j < upto && j != m ==> !seg_within(a_pos, pls[m], #[trigger] pls[j],
                BLOCK_RADIUS as int)),
    decreases upto,
{
    if upto > 0 {
        lemma_mus_cover_count_zero(a_pos, pls, m, upto - 1);
        lemma_mus_cover_count_range(a_pos, pls[m], pls, m, upto - 1);
    }
}

/// The pillar cover count is zero exactly when no pillar blocks.
pub proof fn lemma_pil_cover_count_zero(
    a_pos: Point,
    m_pos: Point,
    pillars: Seq<Pillar>,
    upto: int,
)
    requires
        0 <= upto <= pillars.len(),
    ensures
        (pil_cover_count(a_pos, m_pos, pillars, upto) == 0) <==> (forall|p: int|
            0 <= p < upto ==> !seg_within(a_pos, m_pos, (#[trigger] pillars[p]).center,
                pillars[p].radius as int)),
    decreases upto,
{
    if upto > 0 {
        lemma_pil_cover_count_zero(a_pos, m_pos, pillars, upto - 1);
        lemma_pil_cover_count_range(a_pos, m_pos, pillars, upto - 1);
    }
}

/// The cover count is zero exactly when the pair is visible.
pub proof fn lemma_cover_count_zero_iff_visible(input: Input, pls: Seq<Point>, m: int, a: int)
    requires
        0 <= m < pls.len(),
        0 <= a < input.attendees@.len(),
    ensures
        (cover_count(input, pls, m, a) == 0) <==> crate::occlusion::visible(
            input.attendees@[a].pos_spec(), pls, m, input.pillars@),
{
    let a_pos = input.attendees@[a].pos_spec();
    lemma_mus_cover_count_zero(a_pos, pls, m, pls.len() as int);
    lemma_pil_cover_count_zero(a_pos, pls[m], input.pillars@, input.pillars@.len() as int);
    lemma_mus_cover_count_range(a_pos, pls[m], pls, m, pls.len() as int);
    lemma_pil_cover_count_range(a_pos, pls[m], input.pillars@, input.pillars@.len() as int);
}

/// Moving musician `i` changes another musician's cover count by the two
/// indicator terms of the old and the new point.
pub proof fn lemma_mus_cover_count_update(
    a_pos: Point,
    m_pos: Point,
    pls: Seq<Point>,
    m: int,
    i: int,
    p: Point,
    upto: int,
)
    requires
        0 <= i < pls.len(),
        m != i,
        upto <= pls.len(),
    ensures
        mus_cover_count(a_pos, m_pos, pls.update(i, p), m, upto) == mus_cover_count(a_pos, m_pos,
            pls, m, upto) + (
        if i < upto {
            ind_within(a_pos, m_pos, p, BLOCK_RADIUS as int) - ind_within(a_pos, m_pos, pls[i],
                BLOCK_RADIUS as int)
        } else {
            0
        }),
    decreases upto,
{
    if upto > 0 {
        lemma_mus_cover_count_update(a_pos, m_pos, pls, m, i, p, upto - 1);
    }
}

/// The term for musician `i` is part of the cover count: if `i`'s disk
/// meets the sightline, the count is at least one.
pub proof fn lemma_mus_cover_count_has_term(
    a_pos: Point,
    m_pos: Point,
    pls: Seq<Point>,
    m: int,
    i: int,
    upto: int,
)
    requires
        0 <= i < upto <= pls.len(),
        i != m,
        seg_within(a_pos, m_pos, pls[i], BLOCK_RADIUS as int),
    ensures
        mus_cover_count(a_pos, m_pos, pls, m, upto) >= 1,
    decreases upto,
{
    lemma_mus_cover_count_range(a_pos, m_pos, pls, m, upto - 1);
    if i < upto - 1 {
        lemma_mus_cover_count_has_term(a_pos, m_pos, pls, m, i, upto - 1);
        lemma_mus_cover_count_range(a_pos, m_pos, pls, m, upto);
        assert(mus_cover_count(a_pos, m_pos, pls, m, upto) >= mus_cover_count(a_pos, m_pos, pls,
            m, upto - 1));
    }
}

/// A cover-count table and `visible_sum` that both model the same scene
/// give back exactly the musician's aggregate impact.
proof fn lemma_visible_sum_matches(
    input: Input,
    pls: Seq<Point>,
    m: int,
    tastes: Seq<i128>,
    counts: Seq<u32>,
    upto: int,
)
    requires
        0 <= m < pls.len(),
        upto <= input.attendees@.len(),
        tastes.len() == input.attendees@.len(),
        counts.len() == input.attendees@.len(),
        forall|a: int|
            0 <= a < input.attendees@.len() ==> #[trigger] tastes[a] as int == pair_raw(input,
                pls, a, m),
        forall|a: int|
            0 <= a < input.attendees@.len() ==> #[trigger] counts[a] as int == cover_count(input,
                pls, m, a),
    ensures
        visible_sum(tastes, counts, upto) == crate::scoring::musician_raw_sum(input, pls, m, upto),
    decreases upto,
{
    if upto > 0 {
        lemma_visible_sum_matches(input, pls, m, tastes, counts, upto - 1);
        lemma_cover_count_zero_iff_visible(input, pls, m, upto - 1);
    }
}

/// Copies a vector of points.
fn copy_points(v: &Vec<Point>) -> (r: Vec<Point>)
    ensures
        r@ == v@,
{
    let mut r: Vec<Point> = Vec::new();
    let mut k: usize = 0;
    while k < v.len()
        invariant
            k <= v@.len(),
            r@ == v@.take(k as int),
        decreases v@.len() - k,
    {
        r.push(v[k]);
        proof {
            assert(r@ =~= v@.take(k + 1));
        }
        k = k + 1;
    }
    proof {
        assert(v@.take(v@.len() as int) =~= v@);
    }
    r
}

/// Per-musician impact tables for a whole placement. The scene itself is
/// borrowed by every operation rather than stored, so the well-formedness
/// predicate is parameterized by it.
pub struct ImpactIndex {
    placements: Vec<Point>,
    attendee_indexes: Vec<AttendeeIndex>,
}

impl ImpactIndex {
    /// The current placement the index describes.
    pub closed spec fn pls(self) -> Seq<Point> {
        self.placements@
    }

    /// The index models the scene: one table per musician, each tied to the
    /// musician's current point, with cover counts equal to the actual
    /// number of blockers.
    pub closed spec fn wf(self, input: Input) -> bool {
        &&& input.wf()
        &&& self.placements@.len() == input.musicians@.len()
        &&& all_coords_ok(self.placements@)
        &&& crate::scoring::attendees_clear(input, self.placements@)
        &&& self.attendee_indexes@.len() == self.placements@.len()
        &&& (forall|i: int|
            0 <= i < self.placements@.len() ==> (#[trigger] self.attendee_indexes@[i]).models(
                input, i))
        &&& (forall|i: int|
            0 <= i < self.placements@.len() ==> (#[trigger] self.attendee_indexes@[i]).point()
                == self.placements@[i])
        &&& (forall|i: int, a: int|
            0 <= i < self.placements@.len() && 0 <= a < input.attendees@.len()
                ==> (#[trigger] self.attendee_indexes@[i].counts()[a]) as int == cover_count(
                input, self.placements@, i, a))
    }

    /// Builds one musician's table against the placement `pls`, with the
    /// musician at `m_point` (which is `pls[musician_id]` on construction,
    /// or the landing point during a move).
    fn build_table(
        input: &Input,
        musician_id: usize,
        m_point: Point,
        placements: &Vec<Point>,
    ) -> (r: AttendeeIndex)
        requires
            input.wf(),
            musician_id < input.musicians@.len(),
            placements@.len() == input.musicians@.len(),
            all_coords_ok(placements@),
            coord_ok(m_point),
            placements@[musician_id as int] == m_point,
            forall|a: int|
                0 <= a < input.attendees@.len() ==> #[trigger] dist_sq(
                    input.attendees@[a].pos_spec(), m_point) >= 1,
        ensures
            r.models(*input, musician_id as int),
            r.point() == m_point,
            forall|a: int|
                0 <= a < input.attendees@.len() ==> (#[trigger] r.counts()[a]) as int
                    == cover_count(*input, placements@, musician_id as int, a),
    {
        let n = placements.len();
        let la = input.attendees.len();
        let mut ai = AttendeeIndex::create(musician_id, m_point, input);
        let mut j: usize = 0;
        while j < n
            invariant
                input.wf(),
                musician_id < n,
                n == input.musicians@.len(),
                placements@.len() == n,
                la == input.attendees@.len(),
                all_coords_ok(placements@),
                coord_ok(m_point),
                placements@[musician_id as int] == m_point,
                j <= n,
                ai.models(*input, musician_id as int),
                ai.point() == m_point,
                ai.counts().len() == la,
                forall|a: int|
                    0 <= a < la ==> (#[trigger] ai.counts()[a]) as int == mus_cover_count(
                        input.attendees@[a].pos_spec(), m_point, placements@, musician_id as int,
                        j as int),
            decreases n - j,
        {
            proof {
                assert forall|a: int| 0 <= a < la implies (#[trigger] ai.counts()[a])
                    < 100_000 by {
                    lemma_mus_cover_count_range(input.attendees@[a].pos_spec(), m_point,
                        placements@, musician_id as int, j as int);
                }
            }
            if j != musician_id {
                ai.add_blocker(placements[j], BLOCK_RADIUS);
            }
            j = j + 1;
        }
        let lp = input.pillars.len();
        let mut p: usize = 0;
        while p < lp
            invariant
                input.wf(),
                musician_id < n,
                n == input.musicians@.len(),
                placements@.len() == n,
                la == input.attendees@.len(),
                lp == input.pillars@.len(),
                coord_ok(m_point),
                placements@[musician_id as int] == m_point,
                p <= lp,
                ai.models(*input, musician_id as int),
                ai.point() == m_point,
                ai.counts().len() == la,
                forall|a: int|
                    0 <= a < la ==> (#[trigger] ai.counts()[a]) as int == mus_cover_count(
                        input.attendees@[a].pos_spec(), m_point, placements@, musician_id as int,
                        n as int) + pil_cover_count(input.attendees@[a].pos_spec(), m_point,
                        input.pillars@, p as int),
            decreases lp - p,
        {
            proof {
                assert forall|a: int| 0 <= a < la implies (#[trigger] ai.counts()[a])
                    < 100_000 by {
                    lemma_mus_cover_count_range(input.attendees@[a].pos_spec(), m_point,
                        placements@, musician_id as int, n as int);
                    lemma_pil_cover_count_range(input.attendees@[a].pos_spec(), m_point,
                        input.pillars@, p as int);
                }
            }
            ai.add_blocker(input.pillars[p].center, input.pillars[p].radius);
            p = p + 1;
        }
        ai
    }

    /// Builds the index for a placement: every musician's table, with the
    /// cover counts of all current blockers applied.
    pub fn new(input: &Input, placements: &Vec<Point>) -> (r: ImpactIndex)
        requires
            input.wf(),
            placements@.len() == input.musicians@.len(),
            all_coords_ok(placements@),
            crate::scoring::attendees_clear(*input, placements@),
        ensures
            r.wf(*input),
            r.pls() == placements@,
    {
        let n = placements.len();
        let mut attendee_indexes: Vec<AttendeeIndex> = Vec::new();
        let mut i: usize = 0;
        while i < n
            invariant
                input.wf(),
                n == input.musicians@.len(),
                placements@.len() == n,
                all_coords_ok(placements@),
                crate::scoring::attendees_clear(*input, placements@),
                i <= n,
                attendee_indexes@.len() == i,
                forall|k: int|
                    0 <= k < i ==> (#[trigger] attendee_indexes@[k]).models(*input, k),
                forall|k: int|
                    0 <= k < i ==> (#[trigger] attendee_indexes@[k]).point() == placements@[k],
                forall|k: int, a: int|
                    0 <= k < i && 0 <= a < input.attendees@.len()
                        ==> (#[trigger] attendee_indexes@[k].counts()[a]) as int == cover_count(
                        *input, placements@, k, a),
            decreases n - i,
        {
            let ai = Self::build_table(input, i, placements[i], placements);
            attendee_indexes.push(ai);
            i = i + 1;
        }
        ImpactIndex { placements: copy_points(placements), attendee_indexes }
    }

    /// The aggregate impact of musician `i` over the attendees that
    /// currently see it.
    pub fn get(&self, input: &Input, i: usize) -> (r: i128)
        requires
            self.wf(*input),
            i < self.pls().len(),
        ensures
            r == crate::scoring::musician_impact(*input, self.pls(), i as int),
            -IMPACT_BOUND <= r <= IMPACT_BOUND,
    {
        let r = self.attendee_indexes[i].get_impact();
        proof {
            let ai = self.attendee_indexes@[i as int];
            assert forall|a: int| 0 <= a < input.attendees@.len() implies #[trigger] ai.cover_counts@[
                a] as int == cover_count(*input, self.placements@, i as int, a) by {
                assert(self.attendee_indexes@[i as int].counts()[a] == ai.cover_counts@[a]);
            }
            assert forall|a: int| 0 <= a < input.attendees@.len() implies #[trigger] ai.tastes@[a]
                as int == crate::scoring::pair_raw(*input, self.placements@, a, i as int) by {
                assert(ai.models(*input, i as int));
                assert(ai.point() == self.placements@[i as int]);
            }
            lemma_visible_sum_matches(*input, self.placements@, i as int, ai.tastes@,
                ai.cover_counts@, input.attendees@.len() as int);
            lemma_visible_sum_bound(ai.tastes@, ai.cover_counts@,
                input.attendees@.len() as int);
            assert((input.attendees@.len() as int) * RAW_BOUND <= 10_000 * RAW_BOUND)
                by (nonlinear_arith)
                requires input.attendees@.len() <= 10_000
            ;
        }
        r
    }

    /// Moves musician `musician_i` to `new_point`: every other musician's
    /// cover counts lose the old disk and gain the new one, and the moved
    /// musician's own table is rebuilt at the new point.
    pub fn move_musician(&mut self, input: &Input, musician_i: usize, new_point: Point)
        requires
            old(self).wf(*input),
            musician_i < old(self).pls().len(),
            coord_ok(new_point),
            forall|a: int|
                0 <= a < input.attendees@.len() ==> #[trigger] dist_sq(
                    input.attendees@[a].pos_spec(), new_point) >= 1,
        ensures
            final(self).wf(*input),
            final(self).pls() == old(self).pls().update(musician_i as int, new_point),
    {
        let ghost pls0 = self.placements@;
        let ghost pls1 = pls0.update(musician_i as int, new_point);
        let old_point = self.placements[musician_i];
        let n = self.placements.len();
        let la = input.attendees.len();
        let mut j: usize = 0;
        while j < n
            invariant
                input.wf(),
                n == pls0.len(),
                pls0.len() == input.musicians@.len(),
                la == input.attendees@.len(),
                musician_i < n,
                self.placements@ == pls0,
                pls1 == pls0.update(musician_i as int, new_point),
                all_coords_ok(pls0),
                coord_ok(new_point),
                crate::scoring::attendees_clear(*input, pls0),
                old_point == pls0[musician_i as int],
                self.attendee_indexes@.len() == n,
                j <= n,
                forall|k: int|
                    0 <= k < n ==> (#[trigger] self.attendee_indexes@[k]).models(*input, k),
                forall|k: int|
                    0 <= k < n ==> (#[trigger] self.attendee_indexes@[k]).point() == pls0[k],
                forall|k: int, a: int|
                    0 <= k < n && 0 <= a < la && (k >= j || k == musician_i)
                        ==> (#[trigger] self.attendee_indexes@[k].counts()[a]) as int
                            == cover_count(*input, pls0, k, a),
                forall|k: int, a: int|
                    0 <= k < j && k != musician_i && 0 <= a < la
                        ==> (#[trigger] self.attendee_indexes@[k].counts()[a]) as int
                            == cover_count(*input, pls1, k, a),
            decreases n - j,
        {
            if j != musician_i {
                proof {
                    let a_len = input.attendees@.len() as int;
                    assert forall|a: int|
                        0 <= a < la && seg_within(input.attendees@[a].pos_spec(), pls0[j as int],
                            old_point, BLOCK_RADIUS as int)
                        implies (#[trigger] self.attendee_indexes@[j as int].counts()[a])
                            >= 1 by {
                        lemma_mus_cover_count_has_term(input.attendees@[a].pos_spec(),
                            pls0[j as int], pls0, j as int, musician_i as int, n as int);
                        lemma_pil_cover_count_range(input.attendees@[a].pos_spec(),
                            pls0[j as int], input.pillars@, input.pillars@.len() as int);
                    }
                    assert forall|a: int| 0 <= a < la implies (
                        #[trigger] self.attendee_indexes@[j as int].counts()[a]) < 100_000 by {
                        lemma_mus_cover_count_range(input.attendees@[a].pos_spec(),
                            pls0[j as int], pls0, j as int, n as int);
                        lemma_pil_cover_count_range(input.attendees@[a].pos_spec(),
                            pls0[j as int], input.pillars@, input.pillars@.len() as int);
                    }
                }
                self.attendee_indexes[j].remove_blocker(old_point, BLOCK_RADIUS);
                proof {
                    assert forall|a: int| 0 <= a < la implies (
                        #[trigger] self.attendee_indexes@[j as int].counts()[a]) < 100_000 by {
                        lemma_mus_cover_count_range(input.attendees@[a].pos_spec(),
                            pls0[j as int], pls0, j as int, n as int);
                        lemma_pil_cover_count_range(input.attendees@[a].pos_spec(),
                            pls0[j as int], input.pillars@, input.pillars@.len() as int);
                    }
                }
                self.attendee_indexes[j].add_blocker(new_point, BLOCK_RADIUS);
                proof {
                    assert forall|a: int| 0 <= a < la implies (
                        #[trigger] self.attendee_indexes@[j as int].counts()[a]) as int
                        == cover_count(*input, pls1, j as int, a) by {
                        lemma_mus_cover_count_update(input.attendees@[a].pos_spec(),
                            pls0[j as int], pls0, j as int, musician_i as int, new_point,
                            n as int);
                        assert(pls1[j as int] == pls0[j as int]);
                    }
                }
            }
            j = j + 1;
        }
        self.placements[musician_i] = new_point;
        proof {
            assert(self.placements@ =~= pls1);
            assert forall|a: int, m: int|
                0 <= a < input.attendees@.len() && 0 <= m < pls1.len()
                implies #[trigger] dist_sq(input.attendees@[a].pos_spec(), pls1[m]) >= 1 by {
                if m != musician_i {
                    assert(pls1[m] == pls0[m]);
                }
            }
        }
        let ai = Self::build_table(input, musician_i, new_point, &self.placements);
        self.attendee_indexes[musician_i] = ai;
    }
}

/// Moving musician `i` changes another musician's synergy sum by the two
/// inverse-distance terms of the old and the new point (when instruments
/// match), and by nothing otherwise.
pub proof fn lemma_syn_sum_update(
    insts: Seq<usize>,
    pls: Seq<Point>,
    j: int,
    i: int,
    p: Point,
    upto: int,
)
    requires
        0 <= i < pls.len(),
        0 <= j < pls.len(),
        j != i,
        upto <= pls.len(),
        insts.len() == pls.len(),
    ensures
        syn_sum(insts, pls.update(i, p), j, upto) == syn_sum(insts, pls, j, upto) + (
        if i < upto && insts[i] == insts[j] {
            inv_dist_q(dist_sq(pls[j], p)) - inv_dist_q(dist_sq(pls[j], pls[i]))
        } else {
            0
        }),
    decreases upto,
{
    if upto > 0 {
        lemma_syn_sum_update(insts, pls, j, i, p, upto - 1);
    }
}

/// Per-musician synergy multipliers, maintained under single moves.
pub struct PlayTogetherIndex {
    enabled: bool,
    placements: Vec<Point>,
    scores: Vec<i64>,
}

impl PlayTogetherIndex {
    /// The current placement the index describes.
    pub closed spec fn pls(self) -> Seq<Point> {
        self.placements@
    }

    /// The cached synergy of musician `i`, in millionths.
    pub closed spec fn syn_at(self, i: int) -> i64 {
        self.scores@[i]
    }

    /// How many synergy entries the index holds.
    pub closed spec fn syn_len(self) -> nat {
        self.scores@.len()
    }

    /// The index models the scene: the multiplier mode matches the presence
    /// of pillars, and every cached value is the synergy in effect.
    pub closed spec fn wf(self, input: Input) -> bool {
        &&& input.wf()
        &&& self.placements@.len() == input.musicians@.len()
        &&& all_coords_ok(self.placements@)
        &&& crate::scoring::same_type_separated(input.musicians@, self.placements@)
        &&& self.enabled == (input.pillars@.len() > 0)
        &&& self.scores@.len() == self.placements@.len()
        &&& (forall|i: int|
            0 <= i < self.scores@.len() ==> (#[trigger] self.scores@[i]) as int == effective_syn(
                input, self.placements@, i))
        &&& (forall|i: int|
            0 <= i < self.scores@.len() ==> SYN_ONE <= (#[trigger] self.scores@[i]) <= SYN_BOUND)
    }

    /// Builds the synergy table for a placement.
    pub fn new(input: &Input, placements: &Vec<Point>) -> (r: PlayTogetherIndex)
        requires
            input.wf(),
            placements@.len() == input.musicians@.len(),
            all_coords_ok(placements@),
            crate::scoring::same_type_separated(input.musicians@, placements@),
        ensures
            r.wf(*input),
            r.pls() == placements@,
    {
        let enabled = input.pillars.len() > 0;
        let scores = if enabled {
            input.calc_playing_together(placements)
        } else {
            crate::scoring::repeat_value(input.musicians.len(), SYN_ONE)
        };
        PlayTogetherIndex { enabled, placements: copy_points(placements), scores }
    }

    /// The cached synergy multiplier of musician `i`.
    pub fn get(&self, i: usize) -> (r: i64)
        requires
            i < self.syn_len(),
        ensures
            r == self.syn_at(i as int),
    {
        self.scores[i]
    }

    /// Moves musician `musician_i` to `new_point`: the same-instrument
    /// musicians' multipliers trade the old inverse distance for the new
    /// one, and the moved musician's own multiplier is recomputed.
    pub fn move_musician(&mut self, input: &Input, musician_i: usize, new_point: Point)
        requires
            old(self).wf(*input),
            musician_i < old(self).pls().len(),
            coord_ok(new_point),
            crate::scoring::same_type_separated(input.musicians@,
                old(self).pls().update(musician_i as int, new_point)),
        ensures
            final(self).wf(*input),
            final(self).pls() == old(self).pls().update(musician_i as int, new_point),
    {
        let ghost pls0 = self.placements@;
        let ghost pls1 = pls0.update(musician_i as int, new_point);
        if !self.enabled {
            self.placements[musician_i] = new_point;
            proof {
                assert(self.placements@ =~= pls1);
            }
            return;
        }
        let old_point = self.placements[musician_i];
        let n = self.placements.len();
        let inst_i = input.musicians[musician_i];
        let mut j: usize = 0;
        while j < n
            invariant
                input.wf(),
                input.pillars@.len() > 0,
                self.enabled,
                n == pls0.len(),
                pls0.len() == input.musicians@.len(),
                musician_i < n,
                self.placements@ == pls0,
                pls1 == pls0.update(musician_i as int, new_point),
                all_coords_ok(pls0),
                coord_ok(new_point),
                crate::scoring::same_type_separated(input.musicians@, pls0),
                crate::scoring::same_type_separated(input.musicians@, pls1),
                old_point == pls0[musician_i as int],
                inst_i == input.musicians@[musician_i as int],
                self.scores@.len() == n,
                j <= n,
                forall|k: int|
                    j <= k < n ==> (#[trigger] self.scores@[k]) as int == effective_syn(*input,
                        pls0, k),
                forall|k: int|
                    0 <= k < j && k != musician_i ==> (#[trigger] self.scores@[k]) as int
                        == effective_syn(*input, pls1, k),
                self.scores@[musician_i as int] as int == effective_syn(*input, pls0,
                    musician_i as int),
                forall|k: int|
                    0 <= k < n ==> SYN_ONE <= (#[trigger] self.scores@[k]) <= SYN_BOUND,
            decreases n - j,
        {
            if j != musician_i && input.musicians[j] == inst_i {
                let d2_old = dist_sq_i128(&old_point, &self.placements[j]);
                let d2_new = dist_sq_i128(&new_point, &self.placements[j]);
                proof {
                    assert(dist_sq(pls0[musician_i as int], pls0[j as int]) >= 1);
                    assert(pls1[musician_i as int] == new_point && pls1[j as int]
                        == pls0[j as int]);
                    assert(dist_sq(pls1[musician_i as int], pls1[j as int]) >= 1);
                }
                let q_old = isqrt_u128(INV_NUM / (d2_old as u128)) as i64;
                let q_new = isqrt_u128(INV_NUM / (d2_new as u128)) as i64;
                proof {
                    crate::scoring::lemma_inv_dist_q_bound(d2_old as int);
                    crate::scoring::lemma_inv_dist_q_bound(d2_new as int);
                    assert(INV_NUM as int / (d2_old as int) == (INV_NUM / (
                    d2_old as u128)) as int);
                    assert(INV_NUM as int / (d2_new as int) == (INV_NUM / (
                    d2_new as u128)) as int);
                    crate::geometry::lemma_dist_sq_sym(pls0[musician_i as int], pls0[j as int]);
                    crate::geometry::lemma_dist_sq_sym(new_point, pls0[j as int]);
                    lemma_syn_sum_update(input.musicians@, pls0, j as int, musician_i as int,
                        new_point, n as int);
                    crate::scoring::lemma_syn_sum_bound(input.musicians@, pls1, j as int,
                        n as int);
                    assert((n as int) * (crate::scoring::Q_BOUND as int) <= 10_000
                        * (crate::scoring::Q_BOUND as int)) by (nonlinear_arith)
                        requires n as int <= 10_000
                    ;
                }
                let s_old = self.scores[j];
                self.scores[j] = s_old - q_old + q_new;
            } else {
                proof {
                    if j != musician_i {
                        lemma_syn_sum_update(input.musicians@, pls0, j as int, musician_i as int,
                            new_point, n as int);
                    }
                }
            }
            j = j + 1;
        }
        self.placements[musician_i] = new_point;
        proof {
            assert(self.placements@ =~= pls1);
        }
        let s = input.syn_for_musician(&self.placements, musician_i);
        self.scores[musician_i] = s;
    }
}

/// Bound on the magnitude of one musician's rounded score term.
pub const MUS_TERM_BOUND: i128 = 200_000_000_000_000_000_000_000_000_000;

/// Whether moving musician `i` to `p` keeps the placement valid: on stage,
/// clear of the room walls, and at clearance distance from every other
/// musician.
pub open spec fn move_ok(input: Input, pls: Seq<Point>, i: int, p: Point) -> bool {
    &&& input.in_stage_spec(p)
    &&& input.room_clear_spec(p)
    &&& forall|j: int|
        0 <= j < pls.len() && j != i ==> dist_sq(p, #[trigger] pls[j])
            >= crate::geometry::CLEARANCE * crate::geometry::CLEARANCE
}

/// The incremental scoring index: current placement, volumes, maintained
/// synergy multipliers and maintained per-musician impacts. Scores a scene
/// in one pass over the musicians, and accepts single-musician moves.
pub struct ScoringIndex {
    volumes: Vec<i64>,
    play_together_index: PlayTogetherIndex,
    impact_index: ImpactIndex,
}

impl ScoringIndex {
    /// The current placement the index describes.
    pub closed spec fn pls(self) -> Seq<Point> {
        self.impact_index.pls()
    }

    /// The volumes the index scores with.
    pub closed spec fn vols(self) -> Seq<i64> {
        self.volumes@
    }

    /// The index models the scene: both sub-indexes do, over the same
    /// placement, and the volumes are in range.
    pub closed spec fn wf(self, input: Input) -> bool {
        &&& self.impact_index.wf(input)
        &&& self.play_together_index.wf(input)
        &&& self.play_together_index.pls() == self.impact_index.pls()
        &&& self.volumes@.len() == input.musicians@.len()
        &&& crate::problem::volumes_ok(self.volumes@)
    }

    /// Builds the index from a placement snapshot and volumes.
    pub fn new(input: &Input, placements: &Vec<Point>, volumes: &Vec<i64>) -> (r: ScoringIndex)
        requires
            input.wf(),
            placements@.len() == input.musicians@.len(),
            all_coords_ok(placements@),
            crate::scoring::attendees_clear(*input, placements@),
            crate::scoring::same_type_separated(input.musicians@, placements@),
            volumes@.len() == input.musicians@.len(),
            crate::problem::volumes_ok(volumes@),
        ensures
            r.wf(*input),
            r.pls() == placements@,
            r.vols() == volumes@,
    {
        ScoringIndex {
            volumes: crate::scoring::copy_values(volumes),
            play_together_index: PlayTogetherIndex::new(input, placements),
            impact_index: ImpactIndex::new(input, placements),
        }
    }

    /// The current score: one rounded term per musician, from the cached
    /// impacts and synergies.
    pub fn get_score(&self, input: &Input) -> (r: i128)
        requires
            self.wf(*input),
        ensures
            r == crate::scoring::index_score(*input, self.pls(),
                crate::scoring::to_int_seq(self.vols())),
    {
        let ghost pls = self.pls();
        let ghost volsi = crate::scoring::to_int_seq(self.volumes@);
        let ghost syns = crate::scoring::effective_syns(*input, pls);
        let n = self.volumes.len();
        let mut total: i128 = 0;
        let mut i: usize = 0;
        while i < n
            invariant
                self.wf(*input),
                pls == self.pls(),
                volsi == crate::scoring::to_int_seq(self.volumes@),
                syns == crate::scoring::effective_syns(*input, pls),
                n == input.musicians@.len(),
                i <= n,
                total == crate::scoring::index_sum(*input, pls, volsi, syns, i as int),
                -(i as int) * MUS_TERM_BOUND <= total <= (i as int) * MUS_TERM_BOUND,
            decreases n - i,
        {
            let impact = self.impact_index.get(input, i);
            let syn = self.play_together_index.get(i);
            let vol = self.volumes[i];
            proof {
                crate::geometry::lemma_abs_mul_bound(vol as int, syn as int, MAX_VOLUME as int,
                    SYN_BOUND as int);
                crate::geometry::lemma_abs_mul_bound((vol as int) * (syn as int), impact as int,
                    MAX_VOLUME * SYN_BOUND, IMPACT_BOUND as int);
                assert((MAX_VOLUME * SYN_BOUND) as int * IMPACT_BOUND
                    == 100_010_000_000_000_000_000_000_000_000_000_000_000) by (nonlinear_arith);
            }
            let term = ceil_div_i128((vol as i128) * (syn as i128) * impact, crate::scoring::SCORE_DEN);
            proof {
                assert(syn as int == effective_syn(*input, pls, i as int));
                assert(syns[i as int] == effective_syn(*input, pls, i as int));
                assert(volsi[i as int] == vol as int);
                assert(term == crate::scoring::musician_term(*input, pls, vol as int, syn as int,
                    i as int));
                crate::geometry::lemma_ceil_div_bounds((vol as int) * (syn as int) * impact,
                    crate::scoring::SCORE_DEN as int);
                let c = crate::geometry::ceil_div((vol as int) * (syn as int) * impact,
                    crate::scoring::SCORE_DEN as int);
                assert(-MUS_TERM_BOUND <= c <= MUS_TERM_BOUND) by (nonlinear_arith)
                    requires
                        -100_010_000_000_000_000_000_000_000_000_000_000_000 <= (vol as int) * (
                        syn as int) * impact
                            <= 100_010_000_000_000_000_000_000_000_000_000_000_000,
                        1_000_000_000 * c >= (vol as int) * (syn as int) * impact,
                        1_000_000_000 * (c - 1) < (vol as int) * (syn as int) * impact,
                ;
                assert((i + 1) * MUS_TERM_BOUND == (i as int) * MUS_TERM_BOUND + MUS_TERM_BOUND)
                    by (nonlinear_arith);
                assert((i as int) * MUS_TERM_BOUND <= 10_000 * MUS_TERM_BOUND)
                    by (nonlinear_arith)
                    requires i as int <= 10_000
                ;
            }
            total = total + term;
            i = i + 1;
        }
        total
    }

    /// Decides whether moving musician `musician_i` to `new_point` keeps
    /// the placement valid.
    pub fn is_valid_move(&self, input: &Input, musician_i: usize, new_point: Point) -> (b: bool)
        requires
            self.wf(*input),
            musician_i < self.pls().len(),
        ensures
            b == move_ok(*input, self.pls(), musician_i as int, new_point),
    {
        if !input.in_stage(&new_point) {
            return false;
        }
        if !input.room_clear(&new_point) {
            return false;
        }
        proof {
            input.lemma_in_stage_coord_ok(new_point);
        }
        let n = self.volumes.len();
        let mut j: usize = 0;
        while j < n
            invariant
                self.wf(*input),
                n == input.musicians@.len(),
                n == self.pls().len(),
                musician_i < n,
                coord_ok(new_point),
                input.wf(),
                j <= n,
                input.in_stage_spec(new_point),
                input.room_clear_spec(new_point),
                forall|k: int|
                    0 <= k < j && k != musician_i ==> dist_sq(new_point, #[trigger] self.pls()[k])
                        >= crate::geometry::CLEARANCE * crate::geometry::CLEARANCE,
            decreases n - j,
        {
            if j != musician_i {
                proof {
                    assert(all_coords_ok(self.pls()));
                }
                let d2 = dist_sq_i128(&new_point, &self.impact_index.placements[j]);
                proof {
                    crate::geometry::lemma_abs_mul_bound(crate::geometry::CLEARANCE as int,
                        crate::geometry::CLEARANCE as int, crate::geometry::CLEARANCE as int,
                        crate::geometry::CLEARANCE as int);
                }
                if d2 < (crate::geometry::CLEARANCE as i128) * (crate::geometry::CLEARANCE as i128) {
                    return false;
                }
            }
            j = j + 1;
        }
        true
    }

    /// Attempts to move musician `musician_i` to `new_point`. A move that
    /// violates the stage, wall or clearance rules is rejected and leaves
    /// the index unchanged; an accepted move updates both sub-indexes
    /// incrementally.
    pub fn move_musician(&mut self, input: &Input, musician_i: usize, new_point: Point) -> (b:
        bool)
        requires
            old(self).wf(*input),
            musician_i < old(self).pls().len(),
            forall|a: int|
                0 <= a < input.attendees@.len() ==> #[trigger] dist_sq(
                    input.attendees@[a].pos_spec(), new_point) >= 1,
        ensures
            final(self).wf(*input),
            b == move_ok(*input, old(self).pls(), musician_i as int, new_point),
            b ==> final(self).pls() == old(self).pls().update(musician_i as int, new_point),
            !b ==> *final(self) == *old(self),
            final(self).vols() == old(self).vols(),
    {
        let ok = self.is_valid_move(input, musician_i, new_point);
        if !ok {
            return false;
        }
        proof {
            input.lemma_in_stage_coord_ok(new_point);
            let pls0 = self.pls();
            let pls1 = pls0.update(musician_i as int, new_point);
            assert forall|i: int, j: int|
                0 <= i < pls1.len() && 0 <= j < pls1.len() && i != j && input.musicians@[i]
                    == input.musicians@[j]
                implies #[trigger] dist_sq(pls1[i], pls1[j]) >= 1 by {
                if i == musician_i {
                    assert(dist_sq(new_point, pls0[j]) >= crate::geometry::CLEARANCE
                        * crate::geometry::CLEARANCE);
                } else if j == musician_i {
                    assert(dist_sq(new_point, pls0[i]) >= crate::geometry::CLEARANCE
                        * crate::geometry::CLEARANCE);
                    crate::geometry::lemma_dist_sq_sym(pls0[i], new_point);
                } else {
                    assert(crate::scoring::same_type_separated(input.musicians@, pls0));
                    assert(dist_sq(pls0[i], pls0[j]) >= 1);
                }
            }
        }
        self.play_together_index.move_musician(input, musician_i, new_point);
        self.impact_index.move_musician(input, musician_i, new_point);
        true
    }
}

/// Reverting a move restores the score exactly: the index's score is a
/// pure function of the placement and the volumes, and moving a musician
/// away and then back to its original point leaves the placement — and so
/// the score — exactly as it was.
pub proof fn lemma_move_revert(input: Input, pls: Seq<Point>, vols: Seq<int>, i: int, p: Point)
    requires
        0 <= i < pls.len(),
    ensures
        crate::scoring::index_score(input, pls.update(i, p).update(i, pls[i]), vols)
            == crate::scoring::index_score(input, pls, vols),
{
    assert(pls.update(i, p).update(i, pls[i]) =~= pls);
}

} // verus!
