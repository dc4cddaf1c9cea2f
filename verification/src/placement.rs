//! Candidate placement generation: a square grid with double-clearance
//! spacing, and a denser honeycomb packing at exactly the clearance
//! spacing. Either list can seed the assignment solver or a random
//! restart; every site is on the stage and the sites are pairwise at least
//! the clearance apart.

use vstd::prelude::*;

use crate::geometry::{dist_sq, Point, CLEARANCE};
use crate::problem::{Input, MAX_COUNT};

verus! {

/// Vertical step between honeycomb rows, in scaled units: slightly more
/// than `sqrt(3)/2` times the clearance, so that neighbouring rows (offset
/// by half the clearance) stay at least the clearance apart:
/// `5000^2 + 8661^2 >= 10000^2`.
pub const HONEYCOMB_ROW_STEP: i64 = 8_661;

/// A usable candidate list: bounded, on the stage, pairwise clear.
pub open spec fn sites_ok(input: Input, s: Seq<Point>) -> bool {
    &&& s.len() <= MAX_COUNT
    &&& (forall|k: int| 0 <= k < s.len() ==> input.in_stage_spec(#[trigger] s[k]))
    &&& (forall|k: int, l: int|
        0 <= k < l < s.len() ==> dist_sq(#[trigger] s[k], #[trigger] s[l]) >= CLEARANCE
            * CLEARANCE)
}

/// Two nodes of a rectangular grid with both gaps at least the clearance
/// are at least the clearance apart when their indices differ.
proof fn lemma_rect_far(
    base: Point,
    xg: int,
    yg: int,
    i1: int,
    j1: int,
    i2: int,
    j2: int,
    p1: Point,
    p2: Point,
)
    requires
        xg >= CLEARANCE,
        yg >= CLEARANCE,
        (i1, j1) != ((i2, j2)),
        p1.x == base.x + i1 * xg,
        p1.y == base.y + j1 * yg,
        p2.x == base.x + i2 * xg,
        p2.y == base.y + j2 * yg,
    ensures
        dist_sq(p1, p2) >= CLEARANCE * CLEARANCE,
{
    assert(CLEARANCE * CLEARANCE == 100_000_000) by (nonlinear_arith);
    if i1 != i2 {
        assert((p1.x - p2.x) * (p1.x - p2.x) >= 100_000_000 && (p1.y - p2.y) * (p1.y - p2.y)
            >= 0) by (nonlinear_arith)
            requires
                p1.x == base.x + i1 * xg,
                p2.x == base.x + i2 * xg,
                i1 != i2,
                xg >= 10_000,
        ;
    } else {
        assert((p1.y - p2.y) * (p1.y - p2.y) >= 100_000_000 && (p1.x - p2.x) * (p1.x - p2.x)
            >= 0) by (nonlinear_arith)
            requires
                p1.y == base.y + j1 * yg,
                p2.y == base.y + j2 * yg,
                j1 != j2,
                yg >= 10_000,
        ;
    }
}

/// Two nodes of the honeycomb lattice are at least the clearance apart
/// when their (row, column) indices differ: same-row nodes are a full
/// clearance apart, adjacent rows are offset by half a clearance
/// horizontally and a row step vertically, and farther rows are more than
/// a clearance apart vertically.
proof fn lemma_honeycomb_far(
    base: Point,
    r1: int,
    k1: int,
    r2: int,
    k2: int,
    p1: Point,
    p2: Point,
)
    requires
        (r1, k1) != ((r2, k2)),
        r1 >= 0 && r2 >= 0,
        p1.x == base.x + (r1 % 2) * 5_000 + k1 * 10_000,
        p1.y == base.y + r1 * HONEYCOMB_ROW_STEP,
        p2.x == base.x + (r2 % 2) * 5_000 + k2 * 10_000,
        p2.y == base.y + r2 * HONEYCOMB_ROW_STEP,
    ensures
        dist_sq(p1, p2) >= CLEARANCE * CLEARANCE,
{
    assert(CLEARANCE * CLEARANCE == 100_000_000) by (nonlinear_arith);
    if r1 == r2 {
        assert((p1.x - p2.x) * (p1.x - p2.x) >= 100_000_000 && (p1.y - p2.y) * (p1.y - p2.y)
            >= 0) by (nonlinear_arith)
            requires
                p1.x == base.x + (r1 % 2) * 5_000 + k1 * 10_000,
                p2.x == base.x + (r1 % 2) * 5_000 + k2 * 10_000,
                k1 != k2,
        ;
    } else if r1 - r2 == 1 || r2 - r1 == 1 {
        assert((r1 % 2) * 5_000 - (r2 % 2) * 5_000 == 5_000 || (r1 % 2) * 5_000 - (r2 % 2)
            * 5_000 == -5_000) by (nonlinear_arith)
            requires
                r1 >= 0 && r2 >= 0,
                r1 - r2 == 1 || r2 - r1 == 1,
        ;
        assert((p1.x - p2.x) * (p1.x - p2.x) + (p1.y - p2.y) * (p1.y - p2.y) >= 100_000_000)
            by (nonlinear_arith)
            requires
                p1.x == base.x + (r1 % 2) * 5_000 + k1 * 10_000,
                p2.x == base.x + (r2 % 2) * 5_000 + k2 * 10_000,
                (r1 % 2) * 5_000 - (r2 % 2) * 5_000 == 5_000 || (r1 % 2) * 5_000 - (r2 % 2)
                    * 5_000 == -5_000,
                p1.y == base.y + r1 * 8_661,
                p2.y == base.y + r2 * 8_661,
                r1 - r2 == 1 || r2 - r1 == 1,
        ;
    } else {
        assert((p1.y - p2.y) * (p1.y - p2.y) >= 100_000_000 && (p1.x - p2.x) * (p1.x - p2.x)
            >= 0) by (nonlinear_arith)
            requires
                p1.y == base.y + r1 * 8_661,
                p2.y == base.y + r2 * 8_661,
                r1 - r2 >= 2 || r2 - r1 >= 2,
        ;
    }
}

/// Division fact: with `count = q / step + 1` for nonnegative `q` and
/// positive `step`, every index below `count` scaled by `step` stays at
/// most `q`.
proof fn lemma_count_fits(q: int, step: int, count: int, i: int)
    requires
        q >= 0,
        step >= 1,
        count == q / step + 1,
        0 <= i < count,
    ensures
        0 <= i * step <= q,
{
    vstd::arithmetic::div_mod::lemma_fundamental_div_mod(q, step);
    vstd::arithmetic::div_mod::lemma_mod_bound(q, step);
    assert(0 <= i * step <= q) by (nonlinear_arith)
        requires
            q == step * (q / step) + q % step,
            0 <= q % step < step,
            0 <= i <= q / step,
            step >= 1,
    ;
}

/// How many columns the double-clearance grid has on this stage.
pub open spec fn cart_cols(input: Input) -> int {
    if input.stage_width >= 2 * CLEARANCE {
        (input.stage_width - 2 * CLEARANCE) as int / (2 * CLEARANCE) + 1
    } else {
        0
    }
}

/// How many rows the double-clearance grid has on this stage.
pub open spec fn cart_rows(input: Input) -> int {
    if input.stage_height >= 2 * CLEARANCE {
        (input.stage_height - 2 * CLEARANCE) as int / (2 * CLEARANCE) + 1
    } else {
        0
    }
}

/// Pre-computed candidate sites for one scene: a sparse rectangular grid
/// and a dense honeycomb packing.
pub struct PlacementGenerator {
    pub cartesian_coordinate_candidates: Vec<Point>,
    pub honeycomb_candidates: Vec<Point>,
}

impl PlacementGenerator {
    /// Candidate sites on a square grid spaced two clearances apart: one
    /// per grid node (up to the global count bound), row by row from the
    /// near stage corner, so any two distinct sites differ by at least two
    /// clearances along an axis.
    pub fn cartesian_coordinate_candidates(input: &Input) -> (r: Vec<Point>)
        requires
            input.wf(),
        ensures
            sites_ok(*input, r@),
            r@.len() as int == (
            if cart_cols(*input) * cart_rows(*input) < MAX_COUNT {
                cart_cols(*input) * cart_rows(*input)
            } else {
                MAX_COUNT as int
            }),
            input.stage_width >= 2 * CLEARANCE && input.stage_height >= 2 * CLEARANCE
                ==> r@.len() >= 1,
            r@.len() >= 1 ==> r@[0].x == input.stage_bottom_left.x + CLEARANCE && r@[0].y
                == input.stage_bottom_left.y + CLEARANCE,
            forall|k: int, l: int|
                0 <= k < l < r@.len() ==> (#[trigger] r@[k]).x + 2 * CLEARANCE <= (
                #[trigger] r@[l]).x || r@[l].x + 2 * CLEARANCE <= r@[k].x || r@[k].y + 2
                    * CLEARANCE <= r@[l].y || r@[l].y + 2 * CLEARANCE <= r@[k].y,
    {
        let mut pts: Vec<Point> = Vec::new();
        let mut idxs: Vec<(i64, i64)> = Vec::new();
        if input.stage_width < 2 * CLEARANCE || input.stage_height < 2 * CLEARANCE {
            proof {
                assert(cart_cols(*input) * cart_rows(*input) == 0) by (nonlinear_arith)
                    requires cart_cols(*input) == 0 || cart_rows(*input) == 0
                ;
            }
            return pts;
        }
        let gap = 2 * CLEARANCE;
        let base_x = input.stage_bottom_left.x + CLEARANCE;
        let base_y = input.stage_bottom_left.y + CLEARANCE;
        let xcount = (input.stage_width - 2 * CLEARANCE) / gap + 1;
        let ycount = (input.stage_height - 2 * CLEARANCE) / gap + 1;
        let mut j: i64 = 0;
        while j < ycount
            invariant
                input.wf(),
                gap == 2 * CLEARANCE,
                base_x == input.stage_bottom_left.x + CLEARANCE,
                base_y == input.stage_bottom_left.y + CLEARANCE,
                input.stage_width >= 2 * CLEARANCE,
                input.stage_height >= 2 * CLEARANCE,
                xcount == (input.stage_width - 2 * CLEARANCE) as int / (gap as int) + 1,
                ycount == (input.stage_height - 2 * CLEARANCE) as int / (gap as int) + 1,
                xcount >= 1,
                ycount >= 1,
                0 <= j <= ycount,
                pts@.len() == idxs@.len(),
                pts@.len() as int == (
                if (j as int) * (xcount as int) < MAX_COUNT {
                    (j as int) * (xcount as int)
                } else {
                    MAX_COUNT as int
                }),
                idxs@.len() >= 1 ==> idxs@[0] == ((0i64, 0i64)),
                forall|k: int|
                    0 <= k < idxs@.len() ==> (#[trigger] pts@[k]).x == base_x + idxs@[k].0 * gap
                        && pts@[k].y == base_y + idxs@[k].1 * gap,
                forall|k: int| 0 <= k < pts@.len() ==> input.in_stage_spec(#[trigger] pts@[k]),
                forall|k: int|
                    0 <= k < idxs@.len() ==> 0 <= (#[trigger] idxs@[k]).0 < xcount && 0
                        <= idxs@[k].1 < j,
                forall|k: int, l: int|
                    0 <= k < l < idxs@.len() ==> (#[trigger] idxs@[k]) != (#[trigger] idxs@[l]),
            decreases ycount - j,
        {
            let mut i: i64 = 0;
            while i < xcount
                invariant
                    input.wf(),
                    gap == 2 * CLEARANCE,
                    base_x == input.stage_bottom_left.x + CLEARANCE,
                    base_y == input.stage_bottom_left.y + CLEARANCE,
                    input.stage_width >= 2 * CLEARANCE,
                    input.stage_height >= 2 * CLEARANCE,
                    xcount == (input.stage_width - 2 * CLEARANCE) as int / (gap as int) + 1,
                    ycount == (input.stage_height - 2 * CLEARANCE) as int / (gap as int) + 1,
                    xcount >= 1,
                    ycount >= 1,
                    0 <= j < ycount,
                    0 <= i <= xcount,
                    pts@.len() == idxs@.len(),
                    pts@.len() as int == (
                    if (j as int) * (xcount as int) + i < MAX_COUNT {
                        (j as int) * (xcount as int) + i
                    } else {
                        MAX_COUNT as int
                    }),
                    idxs@.len() >= 1 ==> idxs@[0] == ((0i64, 0i64)),
                    forall|k: int|
                        0 <= k < idxs@.len() ==> (#[trigger] pts@[k]).x == base_x + idxs@[k].0
                            * gap && pts@[k].y == base_y + idxs@[k].1 * gap,
                    forall|k: int|
                        0 <= k < pts@.len() ==> input.in_stage_spec(#[trigger] pts@[k]),
                    forall|k: int|
                        0 <= k < idxs@.len() ==> 0 <= (#[trigger] idxs@[k]).0 < xcount && 0
                            <= idxs@[k].1 && (idxs@[k].1 < j || (idxs@[k].1 == j && idxs@[k].0
                            < i)),
                    forall|k: int, l: int|
                        0 <= k < l < idxs@.len() ==> (#[trigger] idxs@[k]) != (
                        #[trigger] idxs@[l]),
                decreases xcount - i,
            {
                proof {
                    lemma_count_fits((input.stage_width - 2 * CLEARANCE) as int, gap as int,
                        xcount as int, i as int);
                    lemma_count_fits((input.stage_height - 2 * CLEARANCE) as int, gap as int,
                        ycount as int, j as int);
                    if pts@.len() == 0 {
                        assert(i == 0 && j == 0) by (nonlinear_arith)
                            requires
                                (j as int) * (xcount as int) + i == 0,
                                i >= 0,
                                j >= 0,
                                xcount >= 1,
                        ;
                    }
                }
                if pts.len() < MAX_COUNT {
                    let p = Point { x: base_x + i * gap, y: base_y + j * gap };
                    pts.push(p);
                    idxs.push((i, j));
                }
                i = i + 1;
            }
            proof {
                assert((j + 1) * (xcount as int) == (j as int) * (xcount as int) + xcount)
                    by (nonlinear_arith);
            }
            j = j + 1;
        }
        proof {
            assert(cart_cols(*input) == xcount as int && cart_rows(*input) == ycount as int);
            assert((ycount as int) * (xcount as int) == cart_cols(*input) * cart_rows(*input))
                by (nonlinear_arith)
                requires cart_cols(*input) == xcount as int && cart_rows(*input) == ycount as int
            ;
            assert(cart_cols(*input) * cart_rows(*input) >= 1) by (nonlinear_arith)
                requires cart_cols(*input) >= 1 && cart_rows(*input) >= 1
            ;
            if pts@.len() >= 1 {
                assert(idxs@[0].0 * (gap as int) == 0 && idxs@[0].1 * (gap as int) == 0)
                    by (nonlinear_arith)
                    requires idxs@[0].0 == 0 && idxs@[0].1 == 0
                ;
            }
            assert forall|k: int, l: int|
                0 <= k < l < pts@.len()
                implies dist_sq(#[trigger] pts@[k], #[trigger] pts@[l]) >= CLEARANCE
                    * CLEARANCE by {
                lemma_rect_far(Point { x: base_x, y: base_y }, gap as int, gap as int,
                    idxs@[k].0 as int, idxs@[k].1 as int, idxs@[l].0 as int, idxs@[l].1 as int,
                    pts@[k], pts@[l]);
            }
            assert forall|k: int, l: int|
                0 <= k < l < pts@.len()
                implies (#[trigger] pts@[k]).x + 2 * CLEARANCE <= (#[trigger] pts@[l]).x
                    || pts@[l].x + 2 * CLEARANCE <= pts@[k].x || pts@[k].y + 2 * CLEARANCE
                    <= pts@[l].y || pts@[l].y + 2 * CLEARANCE <= pts@[k].y by {
                if idxs@[k].0 != idxs@[l].0 {
                    assert(pts@[k].x + 2 * CLEARANCE <= pts@[l].x || pts@[l].x + 2 * CLEARANCE
                        <= pts@[k].x) by (nonlinear_arith)
                        requires
                            pts@[k].x == base_x + idxs@[k].0 * (gap as int),
                            pts@[l].x == base_x + idxs@[l].0 * (gap as int),
                            idxs@[k].0 != idxs@[l].0,
                            gap == 2 * CLEARANCE,
                            CLEARANCE == 10_000,
                    ;
                } else {
                    assert(pts@[k].y + 2 * CLEARANCE <= pts@[l].y || pts@[l].y + 2 * CLEARANCE
                        <= pts@[k].y) by (nonlinear_arith)
                        requires
                            pts@[k].y == base_y + idxs@[k].1 * (gap as int),
                            pts@[l].y == base_y + idxs@[l].1 * (gap as int),
                            idxs@[k].1 != idxs@[l].1,
                            gap == 2 * CLEARANCE,
                            CLEARANCE == 10_000,
                    ;
                }
            }
        }
        pts
    }

    /// Candidate sites on a honeycomb lattice: rows a row-step apart, full
    /// clearance between columns, and every other row offset by half the
    /// clearance. A stage that admits any site (both dimensions at least two
    /// clearances) yields at least one, starting at the near clearance
    /// corner.
    pub fn honeycomb_candidates(input: &Input) -> (r: Vec<Point>)
        requires
            input.wf(),
        ensures
            sites_ok(*input, r@),
            input.stage_width >= 2 * CLEARANCE && input.stage_height >= 2 * CLEARANCE
                ==> r@.len() >= 1,
            r@.len() >= 1 ==> r@[0].x == input.stage_bottom_left.x + CLEARANCE && r@[0].y
                == input.stage_bottom_left.y + CLEARANCE,
    {
        let mut pts: Vec<Point> = Vec::new();
        let mut idxs: Vec<(i64, i64)> = Vec::new();
        if input.stage_width < 2 * CLEARANCE || input.stage_height < 2 * CLEARANCE {
            return pts;
        }
        let base_x = input.stage_bottom_left.x + CLEARANCE;
        let base_y = input.stage_bottom_left.y + CLEARANCE;
        let rcount = (input.stage_height - 2 * CLEARANCE) / HONEYCOMB_ROW_STEP + 1;
        let mut row: i64 = 0;
        while row < rcount
            invariant
                input.wf(),
                base_x == input.stage_bottom_left.x + CLEARANCE,
                base_y == input.stage_bottom_left.y + CLEARANCE,
                input.stage_width >= 2 * CLEARANCE,
                input.stage_height >= 2 * CLEARANCE,
                rcount == (input.stage_height - 2 * CLEARANCE) as int / (HONEYCOMB_ROW_STEP as int) + 1,
                0 <= row <= rcount,
                row >= 1 ==> pts@.len() >= 1,
                pts@.len() >= 1 ==> pts@[0].x == base_x && pts@[0].y == base_y,
                pts@.len() == idxs@.len(),
                pts@.len() <= MAX_COUNT,
                forall|k: int|
                    0 <= k < idxs@.len() ==> (#[trigger] pts@[k]).x == base_x + (idxs@[k].0 % 2)
                        * 5_000 + idxs@[k].1 * 10_000 && pts@[k].y == base_y + idxs@[k].0
                        * HONEYCOMB_ROW_STEP,
                forall|k: int| 0 <= k < pts@.len() ==> input.in_stage_spec(#[trigger] pts@[k]),
                forall|k: int|
                    0 <= k < idxs@.len() ==> 0 <= (#[trigger] idxs@[k]).0 < row && 0
                        <= idxs@[k].1,
                forall|k: int, l: int|
                    0 <= k < l < idxs@.len() ==> (#[trigger] idxs@[k]) != (#[trigger] idxs@[l]),
            decreases rcount - row,
        {
            let offset: i64 = (row % 2) * 5_000;
            proof {
                lemma_count_fits((input.stage_height - 2 * CLEARANCE) as int,
                    HONEYCOMB_ROW_STEP as int, rcount as int, row as int);
            }
            if input.stage_width - 2 * CLEARANCE >= offset {
                let kcount = (input.stage_width - 2 * CLEARANCE - offset) / 10_000 + 1;
                let mut k: i64 = 0;
                while k < kcount
                    invariant
                        input.wf(),
                        base_x == input.stage_bottom_left.x + CLEARANCE,
                        base_y == input.stage_bottom_left.y + CLEARANCE,
                        input.stage_width >= 2 * CLEARANCE,
                        input.stage_height >= 2 * CLEARANCE,
                        0 <= row,
                        offset == (row % 2) * 5_000,
                        0 <= offset <= 5_000,
                        input.stage_width - 2 * CLEARANCE >= offset,
                        kcount == (input.stage_width - 2 * CLEARANCE - offset) as int / 10_000 + 1,
                        0 <= k <= kcount,
                        row * HONEYCOMB_ROW_STEP <= input.stage_height - 2 * CLEARANCE,
                        row >= 1 ==> pts@.len() >= 1,
                        row == 0 && k >= 1 ==> pts@.len() >= 1,
                        pts@.len() >= 1 ==> pts@[0].x == base_x && pts@[0].y == base_y,
                        pts@.len() == idxs@.len(),
                        pts@.len() <= MAX_COUNT,
                        forall|kk: int|
                            0 <= kk < idxs@.len() ==> (#[trigger] pts@[kk]).x == base_x + (
                            idxs@[kk].0 % 2) * 5_000 + idxs@[kk].1 * 10_000 && pts@[kk].y
                                == base_y + idxs@[kk].0 * HONEYCOMB_ROW_STEP,
                        forall|kk: int|
                            0 <= kk < pts@.len() ==> input.in_stage_spec(#[trigger] pts@[kk]),
                        forall|kk: int|
                            0 <= kk < idxs@.len() ==> 0 <= (#[trigger] idxs@[kk]).0 && 0
                                <= idxs@[kk].1 && (idxs@[kk].0 < row || (idxs@[kk].0 == row
                                && idxs@[kk].1 < k)),
                        forall|kk: int, ll: int|
                            0 <= kk < ll < idxs@.len() ==> (#[trigger] idxs@[kk]) != (
                            #[trigger] idxs@[ll]),
                    decreases kcount - k,
                {
                    proof {
                        lemma_count_fits((input.stage_width - 2 * CLEARANCE - offset) as int,
                            10_000, kcount as int, k as int);
                        if pts@.len() == 0 {
                            assert(row == 0 && k == 0);
                            assert(offset as int + k * 10_000 == 0 && row
                                * (HONEYCOMB_ROW_STEP as int) == 0) by (nonlinear_arith)
                                requires row == 0 && k == 0 && offset == (row % 2) * 5_000
                            ;
                        }
                    }
                    if pts.len() < MAX_COUNT {
                        let p = Point {
                            x: base_x + offset + k * 10_000,
                            y: base_y + row * HONEYCOMB_ROW_STEP,
                        };
                        pts.push(p);
                        idxs.push((row, k));
                    }
                    k = k + 1;
                }
            }
            proof {
                if row == 0 {
                    assert(offset == 0) by (nonlinear_arith) requires offset == (0int % 2) * 5_000;
                    assert(pts@.len() >= 1);
                }
            }
            row = row + 1;
        }
        proof {
            assert forall|k: int, l: int|
                0 <= k < l < pts@.len()
                implies dist_sq(#[trigger] pts@[k], #[trigger] pts@[l]) >= CLEARANCE
                    * CLEARANCE by {
                lemma_honeycomb_far(Point { x: base_x, y: base_y }, idxs@[k].0 as int,
                    idxs@[k].1 as int, idxs@[l].0 as int, idxs@[l].1 as int, pts@[k], pts@[l]);
            }
        }
        pts
    }

    /// Builds both candidate lists for a scene.
    pub fn new(input: &Input) -> (r: PlacementGenerator)
        requires
            input.wf(),
        ensures
            sites_ok(*input, r.cartesian_coordinate_candidates@),
            sites_ok(*input, r.honeycomb_candidates@),
            input.stage_width >= 2 * CLEARANCE && input.stage_height >= 2 * CLEARANCE
                ==> r.cartesian_coordinate_candidates@.len() >= 1
                    && r.honeycomb_candidates@.len() >= 1,
    {
        PlacementGenerator {
            cartesian_coordinate_candidates: Self::cartesian_coordinate_candidates(input),
            honeycomb_candidates: Self::honeycomb_candidates(input),
        }
    }
}

} // verus!
