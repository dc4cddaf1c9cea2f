//! Line-of-sight resolution: which emitters a listener can see, given that
//! every emitter carries a blocking disk of radius `BLOCK_RADIUS` and every
//! pillar blocks within its own radius.
//!
//! Blocking is inclusive: a sightline that touches a blocking disk exactly at
//! its boundary counts as blocked. All tests are exact integer comparisons.

use vstd::prelude::*;

use crate::geometry::{coord_ok, seg_within, Point, Segment, BLOCK_RADIUS, MAX_COORD};
use crate::problem::Pillar;

verus! {

/// Whether some other musician's blocking disk occludes the sightline from
/// `a_pos` to musician `m`.
pub open spec fn blocked_by_musician(a_pos: Point, pls: Seq<Point>, m: int) -> bool {
    exists|j: int|
        0 <= j < pls.len() && j != m
            && seg_within(a_pos, pls[m], #[trigger] pls[j], BLOCK_RADIUS as int)
}

/// Whether some pillar occludes the sightline from `a_pos` to `m_pos`.
pub open spec fn blocked_by_pillar(a_pos: Point, m_pos: Point, pillars: Seq<Pillar>) -> bool {
    exists|p: int|
        0 <= p < pillars.len()
            && seg_within(a_pos, m_pos, (#[trigger] pillars[p]).center, pillars[p].radius as int)
}

/// Whether the listener at `a_pos` sees musician `m`: no other musician and
/// no pillar blocks the sightline.
pub open spec fn visible(a_pos: Point, pls: Seq<Point>, m: int, pillars: Seq<Pillar>) -> bool {
    !blocked_by_musician(a_pos, pls, m) && !blocked_by_pillar(a_pos, pls[m], pillars)
}

/// The musician indices below `upto` that no other musician blocks, in
/// increasing order.
pub open spec fn non_blocked_ids(a_pos: Point, pls: Seq<Point>, upto: int) -> Seq<usize>
    decreases upto,
{
    if upto <= 0 {
        Seq::empty()
    } else {
        let rest = non_blocked_ids(a_pos, pls, upto - 1);
        if !blocked_by_musician(a_pos, pls, upto - 1) {
            rest.push((upto - 1) as usize)
        } else {
            rest
        }
    }
}

/// Every id in `non_blocked_ids` is in range and unblocked, and the sequence
/// is strictly increasing.
pub proof fn lemma_non_blocked_ids_sound(a_pos: Point, pls: Seq<Point>, upto: int)
    requires
        0 <= upto <= pls.len(),
        upto <= usize::MAX,
    ensures
        forall|k: int|
            0 <= k < non_blocked_ids(a_pos, pls, upto).len()
                ==> (#[trigger] non_blocked_ids(a_pos, pls, upto)[k]) < upto
                    && !blocked_by_musician(a_pos, pls, non_blocked_ids(a_pos, pls, upto)[k] as int),
        forall|k1: int, k2: int|
            0 <= k1 < k2 < non_blocked_ids(a_pos, pls, upto).len()
                ==> (#[trigger] non_blocked_ids(a_pos, pls, upto)[k1])
                    < (#[trigger] non_blocked_ids(a_pos, pls, upto)[k2]),
    decreases upto,
{
    if upto > 0 {
        lemma_non_blocked_ids_sound(a_pos, pls, upto - 1);
        let rest = non_blocked_ids(a_pos, pls, upto - 1);
        let whole = non_blocked_ids(a_pos, pls, upto);
        if !blocked_by_musician(a_pos, pls, upto - 1) {
            assert(whole == rest.push((upto - 1) as usize));
            assert forall|k: int|
                0 <= k < whole.len()
                implies (#[trigger] whole[k]) < upto
                    && !blocked_by_musician(a_pos, pls, whole[k] as int) by {
                if k < rest.len() {
                    assert(whole[k] == rest[k]);
                } else {
                    assert(whole[k] == (upto - 1) as usize);
                }
            }
            assert forall|k1: int, k2: int|
                0 <= k1 < k2 < whole.len()
                implies (#[trigger] whole[k1]) < (#[trigger] whole[k2]) by {
                if k2 < rest.len() {
                    assert(whole[k1] == rest[k1] && whole[k2] == rest[k2]);
                } else {
                    assert(whole[k1] == rest[k1]);
                    assert(whole[k2] == (upto - 1) as usize);
                    assert(rest[k1] < upto - 1);
                }
            }
        } else {
            assert(whole == rest);
        }
    }
}

/// A musician below `upto` appears in `non_blocked_ids` exactly when it is
/// not blocked by another musician.
pub proof fn lemma_non_blocked_ids_complete(a_pos: Point, pls: Seq<Point>, upto: int, m: int)
    requires
        0 <= m < upto <= pls.len(),
        upto <= usize::MAX,
    ensures
        non_blocked_ids(a_pos, pls, upto).contains(m as usize)
            <==> !blocked_by_musician(a_pos, pls, m),
    decreases upto,
{
    lemma_non_blocked_ids_sound(a_pos, pls, upto);
    if m < upto - 1 {
        lemma_non_blocked_ids_complete(a_pos, pls, upto - 1, m);
        let rest = non_blocked_ids(a_pos, pls, upto - 1);
        let whole = non_blocked_ids(a_pos, pls, upto);
        if rest.contains(m as usize) {
            let k = choose|k: int| 0 <= k < rest.len() && rest[k] == m as usize;
            assert(whole[k] == m as usize);
        }
        if whole.contains(m as usize) {
            let k = choose|k: int| 0 <= k < whole.len() && whole[k] == m as usize;
            if k < rest.len() {
                assert(rest[k] == m as usize);
            }
        }
    } else {
        let rest = non_blocked_ids(a_pos, pls, upto - 1);
        let whole = non_blocked_ids(a_pos, pls, upto);
        lemma_non_blocked_ids_sound(a_pos, pls, upto - 1);
        if !blocked_by_musician(a_pos, pls, m) {
            assert(whole[whole.len() - 1] == m as usize);
        } else {
            if whole.contains(m as usize) {
                let k = choose|k: int| 0 <= k < whole.len() && whole[k] == m as usize;
                assert(rest[k] == m as usize);
            }
        }
    }
}

/// Decides whether some other musician blocks the sightline from `a_pos` to
/// musician `m`.
pub fn musician_blocked(a_pos: &Point, placements: &Vec<Point>, m: usize) -> (b: bool)
    requires
        m < placements@.len(),
        coord_ok(*a_pos),
        forall|i: int| 0 <= i < placements@.len() ==> coord_ok(#[trigger] placements@[i]),
    ensures
        b == blocked_by_musician(*a_pos, placements@, m as int),
{
    let seg = Segment { p1: *a_pos, p2: placements[m] };
    let n = placements.len();
    let mut j: usize = 0;
    while j < n
        invariant
            m < n == placements@.len(),
            j <= n,
            coord_ok(*a_pos),
            forall|i: int| 0 <= i < placements@.len() ==> coord_ok(#[trigger] placements@[i]),
            seg == (Segment { p1: *a_pos, p2: placements@[m as int] }),
            forall|i: int|
                0 <= i < j && i != m
                    ==> !seg_within(*a_pos, placements@[m as int], #[trigger] placements@[i],
                        BLOCK_RADIUS as int),
        decreases n - j,
    {
        if j != m {
            if seg.dist_within(&placements[j], BLOCK_RADIUS) {
                return true;
            }
        }
        j = j + 1;
    }
    false
}

/// Decides whether some pillar blocks the sightline from `a_pos` to `m_pos`.
pub fn pillar_blocked(a_pos: &Point, m_pos: &Point, pillars: &Vec<Pillar>) -> (b: bool)
    requires
        coord_ok(*a_pos),
        coord_ok(*m_pos),
        forall|p: int|
            0 <= p < pillars@.len()
                ==> coord_ok((#[trigger] pillars@[p]).center)
                    && 0 <= pillars@[p].radius <= MAX_COORD,
    ensures
        b == blocked_by_pillar(*a_pos, *m_pos, pillars@),
{
    let seg = Segment { p1: *a_pos, p2: *m_pos };
    let n = pillars.len();
    let mut p: usize = 0;
    while p < n
        invariant
            n == pillars@.len(),
            p <= n,
            coord_ok(*a_pos),
            coord_ok(*m_pos),
            forall|q: int|
                0 <= q < pillars@.len()
                    ==> coord_ok((#[trigger] pillars@[q]).center)
                        && 0 <= pillars@[q].radius <= MAX_COORD,
            seg == (Segment { p1: *a_pos, p2: *m_pos }),
            forall|q: int|
                0 <= q < p
                    ==> !seg_within(*a_pos, *m_pos, (#[trigger] pillars@[q]).center,
                        pillars@[q].radius as int),
        decreases n - p,
    {
        if seg.dist_within(&pillars[p].center, pillars[p].radius) {
            return true;
        }
        p = p + 1;
    }
    false
}

/// Returns the musicians that no other musician blocks from the listener at
/// `attendee_pos`, as increasing indices. Pillars are not considered here;
/// see `filter_placements_blocked_by_pillars`.
pub fn get_non_blocked_placement_ids(attendee_pos: Point, placements: &Vec<Point>) -> (r: Vec<
    usize,
>)
    requires
        coord_ok(attendee_pos),
        forall|i: int| 0 <= i < placements@.len() ==> coord_ok(#[trigger] placements@[i]),
    ensures
        r@ == non_blocked_ids(attendee_pos, placements@, placements@.len() as int),
{
    let n = placements.len();
    let mut r: Vec<usize> = Vec::new();
    let mut m: usize = 0;
    while m < n
        invariant
            n == placements@.len(),
            m <= n,
            coord_ok(attendee_pos),
            forall|i: int| 0 <= i < placements@.len() ==> coord_ok(#[trigger] placements@[i]),
            r@ == non_blocked_ids(attendee_pos, placements@, m as int),
        decreases n - m,
    {
        if !musician_blocked(&attendee_pos, placements, m) {
            r.push(m);
        }
        m = m + 1;
    }
    r
}

/// The subsequence of `ids` whose sightline from `a_pos` to its placement
/// point no pillar blocks, in the original order.
pub open spec fn pillar_filtered(
    a_pos: Point,
    pls: Seq<Point>,
    pillars: Seq<Pillar>,
    ids: Seq<usize>,
) -> Seq<usize>
    decreases ids.len(),
{
    if ids.len() == 0 {
        Seq::empty()
    } else {
        let rest = pillar_filtered(a_pos, pls, pillars, ids.drop_last());
        if !blocked_by_pillar(a_pos, pls[ids.last() as int], pillars) {
            rest.push(ids.last())
        } else {
            rest
        }
    }
}

/// Keeps the prefiltered musicians whose sightline no pillar blocks.
pub fn filter_placements_blocked_by_pillars(
    attendee_pos: Point,
    placements: &Vec<Point>,
    pillars: &Vec<Pillar>,
    prefiltered_ids: &Vec<usize>,
) -> (r: Vec<usize>)
    requires
        coord_ok(attendee_pos),
        forall|i: int| 0 <= i < placements@.len() ==> coord_ok(#[trigger] placements@[i]),
        forall|p: int|
            0 <= p < pillars@.len()
                ==> coord_ok((#[trigger] pillars@[p]).center)
                    && 0 <= pillars@[p].radius <= MAX_COORD,
        forall|k: int|
            0 <= k < prefiltered_ids@.len()
                ==> (#[trigger] prefiltered_ids@[k]) < placements@.len(),
    ensures
        r@ == pillar_filtered(attendee_pos, placements@, pillars@, prefiltered_ids@),
{
    let n = prefiltered_ids.len();
    let mut r: Vec<usize> = Vec::new();
    let mut k: usize = 0;
    while k < n
        invariant
            n == prefiltered_ids@.len(),
            k <= n,
            coord_ok(attendee_pos),
            forall|i: int| 0 <= i < placements@.len() ==> coord_ok(#[trigger] placements@[i]),
            forall|p: int|
                0 <= p < pillars@.len()
                    ==> coord_ok((#[trigger] pillars@[p]).center)
                        && 0 <= pillars@[p].radius <= MAX_COORD,
            forall|kk: int|
                0 <= kk < prefiltered_ids@.len()
                    ==> (#[trigger] prefiltered_ids@[kk]) < placements@.len(),
            r@ == pillar_filtered(attendee_pos, placements@, pillars@,
                prefiltered_ids@.take(k as int)),
        decreases n - k,
    {
        let id = prefiltered_ids[k];
        proof {
            assert(prefiltered_ids@.take(k + 1).drop_last() =~= prefiltered_ids@.take(k as int));
            assert(prefiltered_ids@.take(k + 1).last() == prefiltered_ids@[k as int]);
        }
        if !pillar_blocked(&attendee_pos, &placements[id], pillars) {
            r.push(id);
        }
        k = k + 1;
    }
    proof {
        assert(prefiltered_ids@.take(n as int) =~= prefiltered_ids@);
    }
    r
}

/// Decides whether the listener at `a_pos` sees musician `m`.
pub fn visible_from(a_pos: &Point, placements: &Vec<Point>, m: usize, pillars: &Vec<Pillar>) -> (b:
    bool)
    requires
        m < placements@.len(),
        coord_ok(*a_pos),
        forall|i: int| 0 <= i < placements@.len() ==> coord_ok(#[trigger] placements@[i]),
        forall|p: int|
            0 <= p < pillars@.len()
                ==> coord_ok((#[trigger] pillars@[p]).center)
                    && 0 <= pillars@[p].radius <= MAX_COORD,
    ensures
        b == visible(*a_pos, placements@, m as int, pillars@),
{
    if musician_blocked(a_pos, placements, m) {
        false
    } else {
        !pillar_blocked(a_pos, &placements[m], pillars)
    }
}

/// Whether the attendee at `a_pos` can be seen from `point`: no pillar and
/// no placed musician's blocking disk meets the sightline.
pub open spec fn attendee_visible(
    point: Point,
    a_pos: Point,
    pls: Seq<Point>,
    pillars: Seq<Pillar>,
) -> bool {
    &&& !blocked_by_pillar(point, a_pos, pillars)
    &&& !(exists|j: int|
        0 <= j < pls.len() && seg_within(point, a_pos, #[trigger] pls[j], BLOCK_RADIUS as int))
}

/// The attendees below `upto` that can be seen from `point`, in increasing
/// order.
pub open spec fn visible_attendee_ids(
    input: crate::problem::Input,
    point: Point,
    pls: Seq<Point>,
    upto: int,
) -> Seq<usize>
    decreases upto,
{
    if upto <= 0 {
        Seq::empty()
    } else {
        let rest = visible_attendee_ids(input, point, pls, upto - 1);
        if attendee_visible(point, input.attendees@[upto - 1].pos_spec(), pls, input.pillars@) {
            rest.push((upto - 1) as usize)
        } else {
            rest
        }
    }
}

impl crate::problem::Input {
    /// Returns the attendees visible from `point`, as increasing indices:
    /// those whose sightline from the point neither a pillar nor any placed
    /// musician blocks.
    pub fn get_visible_attendees(&self, point: Point, placements: &Vec<Point>) -> (r: Vec<usize>)
        requires
            self.wf(),
            coord_ok(point),
            forall|i: int| 0 <= i < placements@.len() ==> coord_ok(#[trigger] placements@[i]),
        ensures
            r@ == visible_attendee_ids(*self, point, placements@, self.attendees@.len() as int),
    {
        let la = self.attendees.len();
        let np = placements.len();
        let mut r: Vec<usize> = Vec::new();
        let mut a: usize = 0;
        while a < la
            invariant
                self.wf(),
                la == self.attendees@.len(),
                np == placements@.len(),
                coord_ok(point),
                forall|i: int| 0 <= i < placements@.len() ==> coord_ok(#[trigger] placements@[i]),
                a <= la,
                r@ == visible_attendee_ids(*self, point, placements@, a as int),
            decreases la - a,
        {
            let apos = self.attendees[a].pos();
            let mut blocked = pillar_blocked(&point, &apos, &self.pillars);
            if !blocked {
                let seg = Segment { p1: point, p2: apos };
                let mut j: usize = 0;
                while j < np
                    invariant
                        np == placements@.len(),
                        coord_ok(point),
                        coord_ok(apos),
                        forall|i: int|
                            0 <= i < placements@.len() ==> coord_ok(#[trigger] placements@[i]),
                        j <= np,
                        seg == (Segment { p1: point, p2: apos }),
                        !blocked ==> forall|i: int|
                            0 <= i < j ==> !seg_within(point, apos, #[trigger] placements@[i],
                                BLOCK_RADIUS as int),
                        blocked ==> exists|i: int|
                            0 <= i < np && seg_within(point, apos, #[trigger] placements@[i],
                                BLOCK_RADIUS as int),
                    decreases np - j,
                {
                    if seg.dist_within(&placements[j], BLOCK_RADIUS) {
                        blocked = true;
                    }
                    j = j + 1;
                }
            }
            if !blocked {
                r.push(a);
            }
            a = a + 1;
        }
        r
    }
}

/// An obstruction within `BLOCK_RADIUS` of the sightline hides the musician:
/// once a point `q` that close to the segment joins the placements, the
/// musician is blocked, and the listener's visible set no longer contains it.
pub proof fn lemma_obstruction_blocks(a_pos: Point, pls: Seq<Point>, m: int, q: Point)
    requires
        0 <= m < pls.len(),
        pls.len() < usize::MAX,
        seg_within(a_pos, pls[m], q, BLOCK_RADIUS as int),
    ensures
        blocked_by_musician(a_pos, pls.push(q), m),
        !non_blocked_ids(a_pos, pls.push(q), pls.len() + 1 as int).contains(m as usize),
{
    let pls2 = pls.push(q);
    assert(pls2[pls.len() as int] == q);
    assert(pls2[m] == pls[m]);
    assert(blocked_by_musician(a_pos, pls2, m));
    lemma_non_blocked_ids_complete(a_pos, pls2, pls.len() + 1 as int, m);
}

/// Removing the obstruction restores the visible set exactly: visibility is
/// a pure function of the placements, so the set over the original
/// placements is what it was before the obstruction was added.
pub proof fn lemma_obstruction_roundtrip(a_pos: Point, pls: Seq<Point>, q: Point)
    requires
        pls.len() >= 0,
    ensures
        non_blocked_ids(a_pos, pls.push(q).drop_last(), pls.len() as int)
            == non_blocked_ids(a_pos, pls, pls.len() as int),
{
    assert(pls.push(q).drop_last() =~= pls);
}

} // verus!
