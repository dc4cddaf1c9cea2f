//! The assignment solver: rates every (musician, candidate site) pair by
//! the raw impact the musician would deliver from that site to the
//! attendees that can see it, and assigns musicians to distinct sites by a
//! maximum-weight bipartite matching.

use vstd::prelude::*;

use crate::geometry::{all_coords_ok, coord_ok, dist_sq, Point, CLEARANCE};
use crate::occlusion::visible;
use crate::problem::{Input, SolverError, MAX_COUNT};
use crate::scoring::{attendees_clear, raw_impact_spec, taste_of, RAW_BOUND};

verus! {

/// Bound on the magnitude of one matrix entry (a sum of raw impacts).
pub const ENTRY_BOUND: i128 = 1_000_000_000_000_000_000_000;

/// Partial sum over attendees below `upto` of the raw impact musician `m`
/// would deliver from candidate site `c`, counting only attendees whose
/// sightline to that site is clear (sites block each other like musicians).
pub open spec fn entry_sum(input: Input, cands: Seq<Point>, m: int, c: int, upto: int) -> int
    decreases upto,
{
    if upto <= 0 {
        0
    } else {
        entry_sum(input, cands, m, c, upto - 1) + (
        if visible(input.attendees@[upto - 1].pos_spec(), cands, c, input.pillars@) {
            raw_impact_spec(taste_of(input, upto - 1, m),
                dist_sq(input.attendees@[upto - 1].pos_spec(), cands[c]))
        } else {
            0
        })
    }
}

/// One entry of the matching matrix.
pub open spec fn matrix_entry(input: Input, cands: Seq<Point>, m: int, c: int) -> int {
    entry_sum(input, cands, m, c, input.attendees@.len() as int)
}

/// Whether `asg` assigns each row a distinct column below `cols`.
pub open spec fn injective_cols(asg: Seq<usize>, cols: int) -> bool {
    &&& (forall|i: int| 0 <= i < asg.len() ==> (#[trigger] asg[i]) < cols)
    &&& (forall|i: int, j: int| 0 <= i < j < asg.len() ==> asg[i] != asg[j])
}

/// The total weight of an assignment over a weight grid.
pub open spec fn assignment_total(w: Seq<Vec<i128>>, asg: Seq<usize>, upto: int) -> int
    decreases upto,
{
    if upto <= 0 {
        0
    } else {
        assignment_total(w, asg, upto - 1) + w[upto - 1]@[asg[upto - 1] as int]
    }
}

/// The total matrix weight of assigning each musician its site.
pub open spec fn matrix_total(input: Input, cands: Seq<Point>, asg: Seq<usize>, upto: int) -> int
    decreases upto,
{
    if upto <= 0 {
        0
    } else {
        matrix_total(input, cands, asg, upto - 1) + matrix_entry(input, cands, upto - 1,
            asg[upto - 1] as int)
    }
}

/// On a grid whose entries match `matrix_entry`, the two totals agree.
proof fn lemma_totals_agree(
    input: Input,
    cands: Seq<Point>,
    w: Seq<Vec<i128>>,
    asg: Seq<usize>,
    upto: int,
)
    requires
        upto <= w.len(),
        upto <= asg.len(),
        forall|i: int| 0 <= i < w.len() ==> (#[trigger] w[i])@.len() == cands.len(),
        forall|i: int, j: int|
            0 <= i < w.len() && 0 <= j < cands.len() ==> (#[trigger] w[i]@[j]) as int
                == matrix_entry(input, cands, i, j),
        forall|i: int| 0 <= i < asg.len() ==> (#[trigger] asg[i]) < cands.len(),
    ensures
        assignment_total(w, asg, upto) == matrix_total(input, cands, asg, upto),
    decreases upto,
{
    if upto > 0 {
        lemma_totals_agree(input, cands, w, asg, upto - 1);
    }
}

/// Relies on pathfinding's `kuhn_munkres` (the Hungarian algorithm): given
/// a weight matrix with no more rows than columns, it returns a total and
/// one distinct column per row such that the total is the sum of the chosen
/// entries and no other choice of distinct columns has a larger sum.
#[verifier::external_body]
fn kuhn_munkres_i128(weights: &Vec<Vec<i128>>) -> (r: (i128, Vec<usize>))
    requires
        weights@.len() >= 1,
        weights@[0]@.len() >= weights@.len(),
        weights@[0]@.len() <= 1_000_000,
        forall|i: int| 0 <= i < weights@.len() ==> (#[trigger] weights@[i])@.len()
            == weights@[0]@.len(),
        forall|i: int, j: int|
            0 <= i < weights@.len() && 0 <= j < weights@[0]@.len()
                ==> -1_000_000_000_000_000_000_000_000_000_000
                    <= (#[trigger] weights@[i]@[j])
                    <= 1_000_000_000_000_000_000_000_000_000_000,
    ensures
        r.1@.len() == weights@.len(),
        injective_cols(r.1@, weights@[0]@.len() as int),
        r.0 == assignment_total(weights@, r.1@, weights@.len() as int),
        forall|other: Seq<usize>|
            other.len() == weights@.len() && injective_cols(other, weights@[0]@.len() as int)
                ==> #[trigger] assignment_total(weights@, other, weights@.len() as int) <= r.0,
{
    let matrix = pathfinding::matrix::Matrix::from_rows(
        weights.iter().map(|row| row.iter().copied()),
    ).unwrap();
    pathfinding::kuhn_munkres::kuhn_munkres(&matrix)
}

impl Input {
    /// Builds the matching matrix: one row per musician, one column per
    /// candidate site, each entry the raw impact the musician would deliver
    /// from that site to the attendees that see it.
    pub fn create_matching_matrix(&self, candidates: &Vec<Point>) -> (r: Vec<Vec<i128>>)
        requires
            self.wf(),
            candidates@.len() <= MAX_COUNT,
            all_coords_ok(candidates@),
            attendees_clear(*self, candidates@),
        ensures
            r@.len() == self.musicians@.len(),
            forall|m: int| 0 <= m < r@.len() ==> (#[trigger] r@[m])@.len() == candidates@.len(),
            forall|m: int, c: int|
                0 <= m < r@.len() && 0 <= c < candidates@.len() ==> (#[trigger] r@[m]@[c]) as int
                    == matrix_entry(*self, candidates@, m, c),
            forall|m: int, c: int|
                0 <= m < r@.len() && 0 <= c < candidates@.len() ==> -ENTRY_BOUND
                    <= (#[trigger] r@[m]@[c]) <= ENTRY_BOUND,
    {
        let n = self.musicians.len();
        let nc = candidates.len();
        let la = self.attendees.len();
        let mut rows: Vec<Vec<i128>> = Vec::new();
        let mut m: usize = 0;
        while m < n
            invariant
                self.wf(),
                n == self.musicians@.len(),
                nc == candidates@.len(),
                nc <= MAX_COUNT,
                la == self.attendees@.len(),
                all_coords_ok(candidates@),
                attendees_clear(*self, candidates@),
                m <= n,
                rows@.len() == m,
                forall|k: int| 0 <= k < m ==> (#[trigger] rows@[k])@.len() == nc,
                forall|k: int, c: int|
                    0 <= k < m && 0 <= c < nc ==> (#[trigger] rows@[k]@[c]) as int
                        == matrix_entry(*self, candidates@, k, c),
                forall|k: int, c: int|
                    0 <= k < m && 0 <= c < nc ==> -ENTRY_BOUND <= (#[trigger] rows@[k]@[c])
                        <= ENTRY_BOUND,
            decreases n - m,
        {
            let mut row: Vec<i128> = Vec::new();
            let mut c: usize = 0;
            while c < nc
                invariant
                    self.wf(),
                    n == self.musicians@.len(),
                    nc == candidates@.len(),
                    nc <= MAX_COUNT,
                    la == self.attendees@.len(),
                    all_coords_ok(candidates@),
                    attendees_clear(*self, candidates@),
                    m < n,
                    c <= nc,
                    row@.len() == c,
                    forall|cc: int|
                        0 <= cc < c ==> (#[trigger] row@[cc]) as int == matrix_entry(*self,
                            candidates@, m as int, cc),
                    forall|cc: int|
                        0 <= cc < c ==> -ENTRY_BOUND <= (#[trigger] row@[cc]) <= ENTRY_BOUND,
                decreases nc - c,
            {
                let mut s: i128 = 0;
                let mut a: usize = 0;
                while a < la
                    invariant
                        self.wf(),
                        n == self.musicians@.len(),
                        nc == candidates@.len(),
                        la == self.attendees@.len(),
                        all_coords_ok(candidates@),
                        attendees_clear(*self, candidates@),
                        m < n,
                        c < nc,
                        a <= la,
                        s == entry_sum(*self, candidates@, m as int, c as int, a as int),
                        -(a as int) * RAW_BOUND <= s <= (a as int) * RAW_BOUND,
                    decreases la - a,
                {
                    let apos = self.attendees[a].pos();
                    proof {
                        assert((a + 1) * RAW_BOUND == (a as int) * RAW_BOUND + RAW_BOUND)
                            by (nonlinear_arith);
                        assert((a as int) * RAW_BOUND <= 10_000 * RAW_BOUND)
                            by (nonlinear_arith)
                            requires a as int <= 10_000
                        ;
                    }
                    if crate::occlusion::visible_from(&apos, candidates, c, &self.pillars) {
                        let inst = self.musicians[m];
                        let raw = self.raw_impact_for_instrument(a, inst, &candidates[c]);
                        s = s + raw;
                    }
                    a = a + 1;
                }
                proof {
                    assert((la as int) * RAW_BOUND <= 10_000 * RAW_BOUND) by (nonlinear_arith)
                        requires la as int <= 10_000
                    ;
                }
                row.push(s);
                c = c + 1;
            }
            rows.push(row);
            m = m + 1;
        }
        rows
    }

    /// Assigns each musician a distinct candidate site by maximum-weight
    /// matching on the matching matrix, and returns the matrix total along
    /// with the chosen site of every musician. No other choice of distinct
    /// sites has a larger matrix total.
    pub fn exact_match_candidates(&self, candidates: &Vec<Point>) -> (r: (i128, Vec<Point>))
        requires
            self.wf(),
            self.musicians@.len() <= candidates@.len(),
            candidates@.len() <= MAX_COUNT,
            all_coords_ok(candidates@),
            attendees_clear(*self, candidates@),
        ensures
            r.1@.len() == self.musicians@.len(),
            exists|asg: Seq<usize>|
                {
                    &&& asg.len() == self.musicians@.len()
                    &&& injective_cols(asg, candidates@.len() as int)
                    &&& r.0 == matrix_total(*self, candidates@, asg,
                        self.musicians@.len() as int)
                    &&& (forall|k: int|
                        0 <= k < asg.len() ==> (#[trigger] r.1@[k]) == candidates@[asg[k] as int])
                },
            forall|other: Seq<usize>|
                other.len() == self.musicians@.len() && injective_cols(other,
                    candidates@.len() as int)
                    ==> #[trigger] matrix_total(*self, candidates@, other,
                        self.musicians@.len() as int) <= r.0,
    {
        let matrix = self.create_matching_matrix(candidates);
        proof {
            assert(matrix@[0]@.len() == candidates@.len());
        }
        let (total, assignments) = kuhn_munkres_i128(&matrix);
        let n = assignments.len();
        let mut picked: Vec<Point> = Vec::new();
        let mut k: usize = 0;
        while k < n
            invariant
                n == assignments@.len(),
                n <= self.musicians@.len(),
                forall|i: int|
                    0 <= i < assignments@.len() ==> (#[trigger] assignments@[i])
                        < candidates@.len(),
                k <= n,
                picked@.len() == k,
                forall|i: int|
                    0 <= i < k ==> (#[trigger] picked@[i]) == candidates@[assignments@[i] as int],
            decreases n - k,
        {
            picked.push(candidates[assignments[k]]);
            k = k + 1;
        }
        proof {
            lemma_totals_agree(*self, candidates@, matrix@, assignments@,
                self.musicians@.len() as int);
            assert forall|other: Seq<usize>|
                other.len() == self.musicians@.len() && injective_cols(other,
                    candidates@.len() as int)
                implies #[trigger] matrix_total(*self, candidates@, other,
                    self.musicians@.len() as int) <= total by {
                lemma_totals_agree(*self, candidates@, matrix@, other,
                    self.musicians@.len() as int);
                assert(assignment_total(matrix@, other, matrix@.len() as int) <= total);
            }
        }
        (total, picked)
    }
}

/// A biased matrix entry for the refinement pass: negative contributions
/// are clamped to zero and positive ones amplified tenfold, anticipating
/// that the volume optimizer will mute the former and maximize the latter.
pub open spec fn boosted_entry(input: Input, cands: Seq<Point>, m: int, c: int) -> int {
    let e = matrix_entry(input, cands, m, c);
    if e < 0 {
        0
    } else {
        10 * e
    }
}

/// The total boosted weight of an assignment.
pub open spec fn boosted_total(input: Input, cands: Seq<Point>, asg: Seq<usize>, upto: int) -> int
    decreases upto,
{
    if upto <= 0 {
        0
    } else {
        boosted_total(input, cands, asg, upto - 1) + boosted_entry(input, cands, upto - 1,
            asg[upto - 1] as int)
    }
}

/// On a grid whose entries match `boosted_entry`, the totals agree.
proof fn lemma_boosted_totals_agree(
    input: Input,
    cands: Seq<Point>,
    w: Seq<Vec<i128>>,
    asg: Seq<usize>,
    upto: int,
)
    requires
        upto <= w.len(),
        upto <= asg.len(),
        forall|i: int| 0 <= i < w.len() ==> (#[trigger] w[i])@.len() == cands.len(),
        forall|i: int, j: int|
            0 <= i < w.len() && 0 <= j < cands.len() ==> (#[trigger] w[i]@[j]) as int
                == boosted_entry(input, cands, i, j),
        forall|i: int| 0 <= i < asg.len() ==> (#[trigger] asg[i]) < cands.len(),
    ensures
        assignment_total(w, asg, upto) == boosted_total(input, cands, asg, upto),
    decreases upto,
{
    if upto > 0 {
        lemma_boosted_totals_agree(input, cands, w, asg, upto - 1);
    }
}

/// Two distinct nodes of a grid with both gaps at least the clearance (or
/// a degenerate axis, on which the index is constant) are at least the
/// clearance apart.
proof fn lemma_grid_far(
    sbl: Point,
    xg: int,
    yg: int,
    i1: int,
    j1: int,
    i2: int,
    j2: int,
    p1: Point,
    p2: Point,
)
    requires
        i1 != i2 ==> xg >= CLEARANCE,
        j1 != j2 ==> yg >= CLEARANCE,
        (i1, j1) != ((i2, j2)),
        p1.x == sbl.x + CLEARANCE + i1 * xg,
        p1.y == sbl.y + CLEARANCE + j1 * yg,
        p2.x == sbl.x + CLEARANCE + i2 * xg,
        p2.y == sbl.y + CLEARANCE + j2 * yg,
    ensures
        dist_sq(p1, p2) >= CLEARANCE * CLEARANCE,
{
    if i1 != i2 {
        assert((p1.x - p2.x) * (p1.x - p2.x) >= 10_000 * 10_000
            && (p1.y - p2.y) * (p1.y - p2.y) >= 0) by (nonlinear_arith)
            requires
                p1.x == sbl.x + 10_000 + i1 * xg,
                p2.x == sbl.x + 10_000 + i2 * xg,
                i1 != i2,
                xg >= 10_000,
        ;
    } else {
        assert((p1.y - p2.y) * (p1.y - p2.y) >= 10_000 * 10_000
            && (p1.x - p2.x) * (p1.x - p2.x) >= 0) by (nonlinear_arith)
            requires
                p1.y == sbl.y + 10_000 + j1 * yg,
                p2.y == sbl.y + 10_000 + j2 * yg,
                j1 != j2,
                yg >= 10_000,
        ;
    }
}

/// Division facts for the grid gap: with `c = w / CLEARANCE - 1 >= 1`,
/// the gap `g = (w - 2 * CLEARANCE) / (c - 1)` (zero when `c == 1`)
/// satisfies `w >= 2 * CLEARANCE`, `g >= CLEARANCE` when `c >= 2`, and
/// `(c - 1) * g <= w - 2 * CLEARANCE`.
proof fn lemma_gap_facts(w: int, c: int, g: int)
    requires
        0 < w,
        c == w / (CLEARANCE as int) - 1,
        c >= 1,
        g == if c >= 2 { (w - 2 * CLEARANCE) / (c - 1) } else { 0 },
    ensures
        w >= 2 * CLEARANCE,
        c >= 2 ==> g >= CLEARANCE,
        (c - 1) * g <= w - 2 * CLEARANCE,
        g >= 0,
{
    let cl = CLEARANCE as int;
    vstd::arithmetic::div_mod::lemma_fundamental_div_mod(w, cl);
    vstd::arithmetic::div_mod::lemma_mod_bound(w, cl);
    assert(w >= 2 * cl) by (nonlinear_arith)
        requires
            w == cl * (w / cl) + w % cl,
            0 <= w % cl,
            w / cl >= 2,
            cl == 10_000,
    ;
    if c >= 2 {
        vstd::arithmetic::div_mod::lemma_fundamental_div_mod(w - 2 * cl, c - 1);
        vstd::arithmetic::div_mod::lemma_mod_bound(w - 2 * cl, c - 1);
        assert(cl * (c - 1) <= w - 2 * cl) by (nonlinear_arith)
            requires
                w == cl * (c + 1) + w % cl,
                0 <= w % cl < cl,
                cl == 10_000,
        ;
        assert(g >= cl && (c - 1) * g <= w - 2 * cl && g >= 0) by (nonlinear_arith)
            requires
                w - 2 * cl == (c - 1) * g + (w - 2 * cl) % (c - 1),
                0 <= (w - 2 * cl) % (c - 1) < c - 1,
                cl * (c - 1) <= w - 2 * cl,
                c >= 2,
                cl == 10_000,
        ;
    } else {
        assert((c - 1) * 0 == 0) by (nonlinear_arith);
    }
}

/// How many columns the candidate site grid has for this stage.
pub open spec fn grid_cols(input: Input) -> int {
    let c = input.stage_width as int / (CLEARANCE as int);
    if c >= 2 {
        c - 1
    } else {
        0
    }
}

/// How many rows the candidate site grid has for this stage.
pub open spec fn grid_rows(input: Input) -> int {
    let c = input.stage_height as int / (CLEARANCE as int);
    if c >= 2 {
        c - 1
    } else {
        0
    }
}

impl Input {
    /// Generates candidate sites on a grid over the stage: one node every
    /// gap (at least the clearance) in each direction, listed ring by ring
    /// from the stage border inward, stopping once there is a site per
    /// musician (the matching prefers sites near the border). When the whole
    /// grid is smaller than that, the plain full sweep enumerates every node
    /// in row order instead, so the ring preference holds only where the
    /// grid has a node per musician. All sites are on the stage and pairwise
    /// at least the clearance apart, and there is a site per musician
    /// whenever the grid has that many nodes, and a site per grid node
    /// otherwise (up to the global count bound).
    pub fn generate_first_level_candidates(&self) -> (r: Vec<Point>)
        requires
            self.wf(),
        ensures
            r@.len() <= MAX_COUNT,
            forall|k: int| 0 <= k < r@.len() ==> self.in_stage_spec(#[trigger] r@[k]),
            forall|k: int, l: int|
                0 <= k < l < r@.len() ==> dist_sq(#[trigger] r@[k], #[trigger] r@[l])
                    >= CLEARANCE * CLEARANCE,
            self.musicians@.len() <= grid_cols(*self) * grid_rows(*self) ==> r@.len()
                >= self.musicians@.len(),
            r@.len() >= (
            if self.musicians@.len() as int <= grid_cols(*self) * grid_rows(*self) {
                self.musicians@.len() as int
            } else {
                grid_cols(*self) * grid_rows(*self)
            }),
    {
        let xc0 = self.stage_width / CLEARANCE;
        let yc0 = self.stage_height / CLEARANCE;
        if xc0 < 2 || yc0 < 2 {
            proof {
                assert(grid_cols(*self) * grid_rows(*self) == 0) by (nonlinear_arith)
                    requires grid_cols(*self) == 0 || grid_rows(*self) == 0
                ;
            }
            return Vec::new();
        }
        let xc = xc0 - 1;
        let yc = yc0 - 1;
        let xg = if xc >= 2 {
            (self.stage_width - 2 * CLEARANCE) / (xc - 1)
        } else {
            0
        };
        let yg = if yc >= 2 {
            (self.stage_height - 2 * CLEARANCE) / (yc - 1)
        } else {
            0
        };
        proof {
            lemma_gap_facts(self.stage_width as int, xc as int, xg as int);
            lemma_gap_facts(self.stage_height as int, yc as int, yg as int);
        }
        let target = self.musicians.len();
        let maxl = if xc < yc {
            xc
        } else {
            yc
        };
        let mut pts: Vec<Point> = Vec::new();
        let mut idxs: Vec<(i64, i64)> = Vec::new();
        let mut lev: i64 = 0;
        while lev < maxl && pts.len() < target
            invariant
                self.wf(),
                xc == self.stage_width / CLEARANCE - 1,
                yc == self.stage_height / CLEARANCE - 1,
                xc >= 1,
                yc >= 1,
                self.stage_width >= 2 * CLEARANCE,
                self.stage_height >= 2 * CLEARANCE,
                xg == (if xc >= 2 { (self.stage_width - 2 * CLEARANCE) / (xc - 1) } else { 0int }),
                yg == (
                if yc >= 2 {
                    (self.stage_height - 2 * CLEARANCE) / (yc - 1)
                } else {
                    0int
                }),
                xc >= 2 ==> xg >= CLEARANCE,
                yc >= 2 ==> yg >= CLEARANCE,
                xg >= 0,
                yg >= 0,
                (xc - 1) * xg <= self.stage_width - 2 * CLEARANCE,
                (yc - 1) * yg <= self.stage_height - 2 * CLEARANCE,
                target == self.musicians@.len(),
                target <= MAX_COUNT,
                0 <= lev,
                pts@.len() == idxs@.len(),
                pts@.len() <= MAX_COUNT,
                forall|k: int|
                    0 <= k < idxs@.len() ==> 0 <= (#[trigger] idxs@[k]).0 < xc && 0 <= idxs@[k].1
                        < yc,
                forall|k: int|
                    0 <= k < idxs@.len() ==> (#[trigger] pts@[k]).x == self.stage_bottom_left.x
                        + CLEARANCE + idxs@[k].0 * xg && pts@[k].y == self.stage_bottom_left.y
                        + CLEARANCE + idxs@[k].1 * yg,
                forall|k: int| 0 <= k < pts@.len() ==> self.in_stage_spec(#[trigger] pts@[k]),
                forall|k: int, l: int|
                    0 <= k < l < idxs@.len() ==> (#[trigger] idxs@[k]) != (#[trigger] idxs@[l]),
                forall|k: int|
                    0 <= k < idxs@.len() ==> level_of(#[trigger] idxs@[k], xc as int, yc as int)
                        < lev,
            decreases maxl - lev,
        {
            let mut i: i64 = 0;
            while i < xc
                invariant
                    self.wf(),
                    xc >= 1,
                    yc >= 1,
                    self.stage_width >= 2 * CLEARANCE,
                    self.stage_height >= 2 * CLEARANCE,
                    xc >= 2 ==> xg >= CLEARANCE,
                    yc >= 2 ==> yg >= CLEARANCE,
                    xg >= 0,
                    yg >= 0,
                    (xc - 1) * xg <= self.stage_width - 2 * CLEARANCE,
                    (yc - 1) * yg <= self.stage_height - 2 * CLEARANCE,
                    0 <= i <= xc,
                    pts@.len() == idxs@.len(),
                    pts@.len() <= MAX_COUNT,
                    forall|k: int|
                        0 <= k < idxs@.len() ==> 0 <= (#[trigger] idxs@[k]).0 < xc && 0
                            <= idxs@[k].1 < yc,
                    forall|k: int|
                        0 <= k < idxs@.len() ==> (#[trigger] pts@[k]).x
                            == self.stage_bottom_left.x + CLEARANCE + idxs@[k].0 * xg
                            && pts@[k].y == self.stage_bottom_left.y + CLEARANCE + idxs@[k].1
                            * yg,
                    forall|k: int| 0 <= k < pts@.len() ==> self.in_stage_spec(#[trigger] pts@[k]),
                    forall|k: int, l: int|
                        0 <= k < l < idxs@.len() ==> (#[trigger] idxs@[k]) != (
                        #[trigger] idxs@[l]),
                    forall|k: int|
                        0 <= k < idxs@.len() ==> level_of(#[trigger] idxs@[k], xc as int,
                            yc as int) < lev || (level_of(idxs@[k], xc as int, yc as int) == lev
                            && idxs@[k].0 < i),
                decreases xc - i,
            {
                let mut j: i64 = 0;
                while j < yc
                    invariant
                        self.wf(),
                        xc >= 1,
                        yc >= 1,
                        self.stage_width >= 2 * CLEARANCE,
                        self.stage_height >= 2 * CLEARANCE,
                        xc >= 2 ==> xg >= CLEARANCE,
                        yc >= 2 ==> yg >= CLEARANCE,
                        xg >= 0,
                        yg >= 0,
                        (xc - 1) * xg <= self.stage_width - 2 * CLEARANCE,
                        (yc - 1) * yg <= self.stage_height - 2 * CLEARANCE,
                        0 <= i < xc,
                        0 <= j <= yc,
                        pts@.len() == idxs@.len(),
                        pts@.len() <= MAX_COUNT,
                        forall|k: int|
                            0 <= k < idxs@.len() ==> 0 <= (#[trigger] idxs@[k]).0 < xc && 0
                                <= idxs@[k].1 < yc,
                        forall|k: int|
                            0 <= k < idxs@.len() ==> (#[trigger] pts@[k]).x
                                == self.stage_bottom_left.x + CLEARANCE + idxs@[k].0 * xg
                                && pts@[k].y == self.stage_bottom_left.y + CLEARANCE + idxs@[k].1
                                * yg,
                        forall|k: int|
                            0 <= k < pts@.len() ==> self.in_stage_spec(#[trigger] pts@[k]),
                        forall|k: int, l: int|
                            0 <= k < l < idxs@.len() ==> (#[trigger] idxs@[k]) != (
                            #[trigger] idxs@[l]),
                        forall|k: int|
                            0 <= k < idxs@.len() ==> level_of(#[trigger] idxs@[k], xc as int,
                                yc as int) < lev || (level_of(idxs@[k], xc as int, yc as int)
                                == lev && (idxs@[k].0 < i || (idxs@[k].0 == i && idxs@[k].1
                                < j))),
                    decreases yc - j,
                {
                    let lx = if i < xc - 1 - i {
                        i
                    } else {
                        xc - 1 - i
                    };
                    let ly = if j < yc - 1 - j {
                        j
                    } else {
                        yc - 1 - j
                    };
                    let node_level = if lx < ly {
                        lx
                    } else {
                        ly
                    };
                    if node_level == lev && pts.len() < MAX_COUNT {
                        proof {
                            assert(i * xg <= (xc - 1) * xg && i * xg >= 0) by (nonlinear_arith)
                                requires 0 <= i <= xc - 1 && xg >= 0
                            ;
                            assert(j * yg <= (yc - 1) * yg && j * yg >= 0) by (nonlinear_arith)
                                requires 0 <= j <= yc - 1 && yg >= 0
                            ;
                        }
                        let p = Point {
                            x: self.stage_bottom_left.x + CLEARANCE + i * xg,
                            y: self.stage_bottom_left.y + CLEARANCE + j * yg,
                        };
                        pts.push(p);
                        idxs.push((i, j));
                    }
                    j = j + 1;
                }
                i = i + 1;
            }
            lev = lev + 1;
        }
        if pts.len() < target {
            // the ring sweep is only a preference order; sweep the whole
            // grid plainly, so that the number of sites is evident
            pts = Vec::new();
            idxs = Vec::new();
            let mut i: i64 = 0;
            while i < xc
                invariant
                    self.wf(),
                    xc >= 1,
                    yc >= 1,
                    self.stage_width >= 2 * CLEARANCE,
                    self.stage_height >= 2 * CLEARANCE,
                    xc >= 2 ==> xg >= CLEARANCE,
                    yc >= 2 ==> yg >= CLEARANCE,
                    xg >= 0,
                    yg >= 0,
                    (xc - 1) * xg <= self.stage_width - 2 * CLEARANCE,
                    (yc - 1) * yg <= self.stage_height - 2 * CLEARANCE,
                    0 <= i <= xc,
                    pts@.len() == idxs@.len(),
                    pts@.len() as int == (
                    if (i as int) * (yc as int) < MAX_COUNT {
                        (i as int) * (yc as int)
                    } else {
                        MAX_COUNT as int
                    }),
                    forall|k: int|
                        0 <= k < idxs@.len() ==> 0 <= (#[trigger] idxs@[k]).0 < xc && 0
                            <= idxs@[k].1 < yc,
                    forall|k: int|
                        0 <= k < idxs@.len() ==> (#[trigger] pts@[k]).x
                            == self.stage_bottom_left.x + CLEARANCE + idxs@[k].0 * xg
                            && pts@[k].y == self.stage_bottom_left.y + CLEARANCE + idxs@[k].1
                            * yg,
                    forall|k: int| 0 <= k < pts@.len() ==> self.in_stage_spec(#[trigger] pts@[k]),
                    forall|k: int, l: int|
                        0 <= k < l < idxs@.len() ==> (#[trigger] idxs@[k]) != (
                        #[trigger] idxs@[l]),
                    forall|k: int|
                        0 <= k < idxs@.len() ==> (#[trigger] idxs@[k]).0 < i,
                decreases xc - i,
            {
                let mut j: i64 = 0;
                while j < yc
                    invariant
                        self.wf(),
                        xc >= 1,
                        yc >= 1,
                        self.stage_width >= 2 * CLEARANCE,
                        self.stage_height >= 2 * CLEARANCE,
                        xc >= 2 ==> xg >= CLEARANCE,
                        yc >= 2 ==> yg >= CLEARANCE,
                        xg >= 0,
                        yg >= 0,
                        (xc - 1) * xg <= self.stage_width - 2 * CLEARANCE,
                        (yc - 1) * yg <= self.stage_height - 2 * CLEARANCE,
                        0 <= i < xc,
                        0 <= j <= yc,
                        pts@.len() == idxs@.len(),
                        pts@.len() as int == (
                        if (i as int) * (yc as int) + j < MAX_COUNT {
                            (i as int) * (yc as int) + j
                        } else {
                            MAX_COUNT as int
                        }),
                        forall|k: int|
                            0 <= k < idxs@.len() ==> 0 <= (#[trigger] idxs@[k]).0 < xc && 0
                                <= idxs@[k].1 < yc,
                        forall|k: int|
                            0 <= k < idxs@.len() ==> (#[trigger] pts@[k]).x
                                == self.stage_bottom_left.x + CLEARANCE + idxs@[k].0 * xg
                                && pts@[k].y == self.stage_bottom_left.y + CLEARANCE + idxs@[k].1
                                * yg,
                        forall|k: int|
                            0 <= k < pts@.len() ==> self.in_stage_spec(#[trigger] pts@[k]),
                        forall|k: int, l: int|
                            0 <= k < l < idxs@.len() ==> (#[trigger] idxs@[k]) != (
                            #[trigger] idxs@[l]),
                        forall|k: int|
                            0 <= k < idxs@.len() ==> (#[trigger] idxs@[k]).0 < i || (idxs@[k].0
                                == i && idxs@[k].1 < j),
                    decreases yc - j,
                {
                    if pts.len() < MAX_COUNT {
                        proof {
                            assert(i * xg <= (xc - 1) * xg && i * xg >= 0) by (nonlinear_arith)
                                requires 0 <= i <= xc - 1 && xg >= 0
                            ;
                            assert(j * yg <= (yc - 1) * yg && j * yg >= 0) by (nonlinear_arith)
                                requires 0 <= j <= yc - 1 && yg >= 0
                            ;
                        }
                        let p = Point {
                            x: self.stage_bottom_left.x + CLEARANCE + i * xg,
                            y: self.stage_bottom_left.y + CLEARANCE + j * yg,
                        };
                        pts.push(p);
                        idxs.push((i, j));
                    }
                    j = j + 1;
                }
                proof {
                    assert((i + 1) * (yc as int) == (i as int) * (yc as int) + yc)
                        by (nonlinear_arith);
                }
                i = i + 1;
            }
            proof {
                assert((self.musicians@.len() as int) <= (xc as int) * (yc as int) ==> pts@.len()
                    >= self.musicians@.len());
                assert(grid_cols(*self) == xc as int && grid_rows(*self) == yc as int);
                assert(pts@.len() >= (
                if self.musicians@.len() as int <= (xc as int) * (yc as int) {
                    self.musicians@.len() as int
                } else {
                    (xc as int) * (yc as int)
                }));
            }
        }
        proof {
            assert(grid_cols(*self) == xc as int && grid_rows(*self) == yc as int);
        }
        proof {
            assert forall|k: int, l: int|
                0 <= k < l < pts@.len()
                implies dist_sq(#[trigger] pts@[k], #[trigger] pts@[l])
                    >= CLEARANCE * CLEARANCE by {
                lemma_grid_far(self.stage_bottom_left, xg as int, yg as int, idxs@[k].0 as int,
                    idxs@[k].1 as int, idxs@[l].0 as int, idxs@[l].1 as int, pts@[k], pts@[l]);
            }
        }
        pts
    }

    /// Assigns musicians to distinct sites by maximum-weight matching on
    /// the boosted matrix (negatives clamped to zero, positives amplified),
    /// and derives a volume per musician: muted where the chosen site's
    /// boosted weight is zero, full otherwise.
    pub fn exact_match_candidates_with_volumes(&self, candidates: &Vec<Point>) -> (r: (
        i128,
        Vec<Point>,
        Vec<i64>,
    ))
        requires
            self.wf(),
            self.musicians@.len() <= candidates@.len(),
            candidates@.len() <= MAX_COUNT,
            all_coords_ok(candidates@),
            attendees_clear(*self, candidates@),
        ensures
            r.1@.len() == self.musicians@.len(),
            r.2@.len() == self.musicians@.len(),
            exists|asg: Seq<usize>|
                {
                    &&& asg.len() == self.musicians@.len()
                    &&& injective_cols(asg, candidates@.len() as int)
                    &&& r.0 == boosted_total(*self, candidates@, asg,
                        self.musicians@.len() as int)
                    &&& (forall|k: int|
                        0 <= k < asg.len() ==> (#[trigger] r.1@[k]) == candidates@[asg[k] as int])
                    &&& (forall|k: int|
                        0 <= k < asg.len() ==> (#[trigger] r.2@[k]) == (
                        if boosted_entry(*self, candidates@, k, asg[k] as int) == 0 {
                            0i64
                        } else {
                            10_000i64
                        }))
                },
            forall|other: Seq<usize>|
                other.len() == self.musicians@.len() && injective_cols(other,
                    candidates@.len() as int)
                    ==> #[trigger] boosted_total(*self, candidates@, other,
                        self.musicians@.len() as int) <= r.0,
    {
        let base = self.create_matching_matrix(candidates);
        let n = self.musicians.len();
        let nc = candidates.len();
        let mut matrix: Vec<Vec<i128>> = Vec::new();
        let mut m: usize = 0;
        while m < n
            invariant
                self.wf(),
                n == self.musicians@.len(),
                nc == candidates@.len(),
                base@.len() == n,
                forall|k: int| 0 <= k < n ==> (#[trigger] base@[k])@.len() == nc,
                forall|k: int, c: int|
                    0 <= k < n && 0 <= c < nc ==> (#[trigger] base@[k]@[c]) as int
                        == matrix_entry(*self, candidates@, k, c),
                forall|k: int, c: int|
                    0 <= k < n && 0 <= c < nc ==> -ENTRY_BOUND <= (#[trigger] base@[k]@[c])
                        <= ENTRY_BOUND,
                m <= n,
                matrix@.len() == m,
                forall|k: int| 0 <= k < m ==> (#[trigger] matrix@[k])@.len() == nc,
                forall|k: int, c: int|
                    0 <= k < m && 0 <= c < nc ==> (#[trigger] matrix@[k]@[c]) as int
                        == boosted_entry(*self, candidates@, k, c),
                forall|k: int, c: int|
                    0 <= k < m && 0 <= c < nc ==> 0 <= (#[trigger] matrix@[k]@[c]) <= 10
                        * ENTRY_BOUND,
            decreases n - m,
        {
            let mut row: Vec<i128> = Vec::new();
            let mut c: usize = 0;
            while c < nc
                invariant
                    self.wf(),
                    n == self.musicians@.len(),
                    nc == candidates@.len(),
                    base@.len() == n,
                    forall|k: int| 0 <= k < n ==> (#[trigger] base@[k])@.len() == nc,
                    forall|k: int, cc: int|
                        0 <= k < n && 0 <= cc < nc ==> (#[trigger] base@[k]@[cc]) as int
                            == matrix_entry(*self, candidates@, k, cc),
                    forall|k: int, cc: int|
                        0 <= k < n && 0 <= cc < nc ==> -ENTRY_BOUND <= (#[trigger] base@[k]@[cc])
                            <= ENTRY_BOUND,
                    m < n,
                    c <= nc,
                    row@.len() == c,
                    forall|cc: int|
                        0 <= cc < c ==> (#[trigger] row@[cc]) as int == boosted_entry(*self,
                            candidates@, m as int, cc),
                    forall|cc: int| 0 <= cc < c ==> 0 <= (#[trigger] row@[cc]) <= 10
                        * ENTRY_BOUND,
                decreases nc - c,
            {
                let e = base[m][c];
                let boosted = if e < 0 {
                    0
                } else {
                    10 * e
                };
                row.push(boosted);
                c = c + 1;
            }
            matrix.push(row);
            m = m + 1;
        }
        proof {
            assert(matrix@[0]@.len() == candidates@.len());
        }
        let (total, assignments) = kuhn_munkres_i128(&matrix);
        let mut picked: Vec<Point> = Vec::new();
        let mut volumes: Vec<i64> = Vec::new();
        let mut k: usize = 0;
        while k < n
            invariant
                self.wf(),
                n == self.musicians@.len(),
                nc == candidates@.len(),
                assignments@.len() == n,
                matrix@.len() == n,
                forall|i: int| 0 <= i < n ==> (#[trigger] matrix@[i])@.len() == nc,
                forall|i: int, j: int|
                    0 <= i < n && 0 <= j < nc ==> (#[trigger] matrix@[i]@[j]) as int
                        == boosted_entry(*self, candidates@, i, j),
                forall|i: int|
                    0 <= i < assignments@.len() ==> (#[trigger] assignments@[i]) < nc,
                k <= n,
                picked@.len() == k,
                volumes@.len() == k,
                forall|i: int|
                    0 <= i < k ==> (#[trigger] picked@[i]) == candidates@[assignments@[i] as int],
                forall|i: int|
                    0 <= i < k ==> (#[trigger] volumes@[i]) == (
                    if boosted_entry(*self, candidates@, i, assignments@[i] as int) == 0 {
                        0i64
                    } else {
                        10_000i64
                    }),
            decreases n - k,
        {
            let site = assignments[k];
            picked.push(candidates[site]);
            if matrix[k][site] == 0 {
                volumes.push(0);
            } else {
                volumes.push(10_000);
            }
            k = k + 1;
        }
        proof {
            lemma_boosted_totals_agree(*self, candidates@, matrix@, assignments@,
                self.musicians@.len() as int);
            assert forall|other: Seq<usize>|
                other.len() == self.musicians@.len() && injective_cols(other,
                    candidates@.len() as int)
                implies #[trigger] boosted_total(*self, candidates@, other,
                    self.musicians@.len() as int) <= total by {
                lemma_boosted_totals_agree(*self, candidates@, matrix@, other,
                    self.musicians@.len() as int);
                assert(assignment_total(matrix@, other, matrix@.len() as int) <= total);
            }
        }
        (total, picked, volumes)
    }

    /// Runs the matching twice: once over the full candidate set to find
    /// the sites worth keeping, then over exactly the kept sites for the
    /// final placement. The result is a valid placement drawn from the
    /// candidates, and `two_stage_solved` records that both passes were
    /// maximum-weight matchings.
    pub fn two_stage_optimization(&self, candidates: &Vec<Point>) -> (r: Vec<Point>)
        requires
            self.wf(),
            self.musicians@.len() <= candidates@.len(),
            candidates@.len() <= MAX_COUNT,
            attendees_clear(*self, candidates@),
            forall|k: int| 0 <= k < candidates@.len() ==> self.in_stage_spec(
                #[trigger] candidates@[k]),
            forall|k: int, l: int|
                0 <= k < l < candidates@.len() ==> dist_sq(#[trigger] candidates@[k],
                    #[trigger] candidates@[l]) >= CLEARANCE * CLEARANCE,
        ensures
            self.placements_ok(r@),
            attendees_clear(*self, r@),
            two_stage_solved(*self, candidates@, r@),
            forall|k: int| 0 <= k < r@.len() ==> candidates@.contains(#[trigger] r@[k]),
    {
        proof {
            self.lemma_candidate_set_facts(candidates@);
        }
        let (_first_total, second_level_candidates) = self.exact_match_candidates(candidates);
        proof {
            self.lemma_picked_inherits(candidates@, second_level_candidates@);
        }
        let (_second_total, best) = self.exact_match_candidates(&second_level_candidates);
        proof {
            self.lemma_picked_inherits(second_level_candidates@, best@);
            assert forall|k: int| 0 <= k < best@.len() implies self.room_clear_spec(
                #[trigger] best@[k]) by {
                self.lemma_in_stage_room_clear(best@[k]);
            }
            let n = self.musicians@.len() as int;
            let asg1 = choose|asg: Seq<usize>|
                {
                    &&& asg.len() == self.musicians@.len()
                    &&& injective_cols(asg, candidates@.len() as int)
                    &&& _first_total == matrix_total(*self, candidates@, asg,
                        self.musicians@.len() as int)
                    &&& (forall|k: int|
                        0 <= k < asg.len() ==> (#[trigger] second_level_candidates@[k])
                            == candidates@[asg[k] as int])
                };
            let asg2 = choose|asg: Seq<usize>|
                {
                    &&& asg.len() == self.musicians@.len()
                    &&& injective_cols(asg, second_level_candidates@.len() as int)
                    &&& _second_total == matrix_total(*self, second_level_candidates@, asg,
                        self.musicians@.len() as int)
                    &&& (forall|k: int|
                        0 <= k < asg.len() ==> (#[trigger] best@[k])
                            == second_level_candidates@[asg[k] as int])
                };
            assert forall|other: Seq<usize>|
                other.len() == n && injective_cols(other, candidates@.len() as int)
                implies #[trigger] matrix_total(*self, candidates@, other, n) <= matrix_total(
                    *self, candidates@, asg1, n) by {
                assert(matrix_total(*self, candidates@, other, self.musicians@.len() as int)
                    <= _first_total);
            }
            assert forall|other: Seq<usize>|
                other.len() == n && injective_cols(other, n)
                implies #[trigger] matrix_total(*self, second_level_candidates@, other, n)
                    <= matrix_total(*self, second_level_candidates@, asg2, n) by {
                assert(matrix_total(*self, second_level_candidates@, other,
                    self.musicians@.len() as int) <= _second_total);
            }
            assert(two_stage_witness(*self, candidates@, best@, second_level_candidates@, asg1,
                asg2));
            assert(two_stage_solved(*self, candidates@, best@));
            assert forall|k: int|
                0 <= k < best@.len() implies candidates@.contains(#[trigger] best@[k]) by {
                let c = asg1[asg2[k] as int] as int;
                assert(best@[k] == second_level_candidates@[asg2[k] as int]);
                assert(second_level_candidates@[asg2[k] as int] == candidates@[c]);
                assert(0 <= c < candidates@.len());
            }
        }
        best
    }

    /// Candidate sets whose sites are on the stage and pairwise clear have
    /// coordinates in range.
    proof fn lemma_candidate_set_facts(&self, cands: Seq<Point>)
        requires
            self.wf(),
            forall|k: int| 0 <= k < cands.len() ==> self.in_stage_spec(#[trigger] cands[k]),
        ensures
            all_coords_ok(cands),
    {
        assert forall|k: int| 0 <= k < cands.len() implies coord_ok(#[trigger] cands[k]) by {
            self.lemma_in_stage_coord_ok(cands[k]);
        }
    }

    /// The sites picked by the matching inherit the candidate-set facts:
    /// on stage, pairwise clear, clear of the attendees.
    proof fn lemma_picked_inherits(&self, cands: Seq<Point>, picked: Seq<Point>)
        requires
            self.wf(),
            attendees_clear(*self, cands),
            forall|k: int| 0 <= k < cands.len() ==> self.in_stage_spec(#[trigger] cands[k]),
            forall|k: int, l: int|
                0 <= k < l < cands.len() ==> dist_sq(#[trigger] cands[k], #[trigger] cands[l])
                    >= CLEARANCE * CLEARANCE,
            exists|asg: Seq<usize>|
                {
                    &&& asg.len() == picked.len()
                    &&& injective_cols(asg, cands.len() as int)
                    &&& (forall|k: int|
                        0 <= k < asg.len() ==> (#[trigger] picked[k]) == cands[asg[k] as int])
                },
        ensures
            attendees_clear(*self, picked),
            all_coords_ok(picked),
            forall|k: int| 0 <= k < picked.len() ==> self.in_stage_spec(#[trigger] picked[k]),
            forall|k: int, l: int|
                0 <= k < picked.len() && 0 <= l < picked.len() && k != l ==> dist_sq(
                    #[trigger] picked[k], #[trigger] picked[l]) >= CLEARANCE * CLEARANCE,
    {
        let asg = choose|asg: Seq<usize>|
            {
                &&& asg.len() == picked.len()
                &&& injective_cols(asg, cands.len() as int)
                &&& (forall|k: int|
                    0 <= k < asg.len() ==> (#[trigger] picked[k]) == cands[asg[k] as int])
            };
        assert forall|k: int, l: int|
            0 <= k < picked.len() && 0 <= l < picked.len() && k != l
            implies dist_sq(#[trigger] picked[k], #[trigger] picked[l])
                >= CLEARANCE * CLEARANCE by {
            let ck = asg[k] as int;
            let cl = asg[l] as int;
            if ck < cl {
                assert(dist_sq(cands[ck], cands[cl]) >= CLEARANCE * CLEARANCE);
            } else {
                assert(dist_sq(cands[cl], cands[ck]) >= CLEARANCE * CLEARANCE);
                crate::geometry::lemma_dist_sq_sym(cands[cl], cands[ck]);
            }
        }
        assert forall|k: int| 0 <= k < picked.len() implies coord_ok(#[trigger] picked[k]) by {
            self.lemma_in_stage_coord_ok(picked[k]);
        }
        assert forall|a: int, m: int|
            0 <= a < self.attendees@.len() && 0 <= m < picked.len()
            implies #[trigger] dist_sq(self.attendees@[a].pos_spec(), picked[m]) >= 1 by {
            assert(dist_sq(self.attendees@[a].pos_spec(), cands[asg[m] as int]) >= 1);
        }
    }

    /// Solves the assignment: generates nothing itself, but checks the
    /// documented precondition (at least one candidate site per musician)
    /// and runs the two-stage matching. Exactly the short candidate sets
    /// are rejected, as a `PreconditionViolation`; otherwise the result is
    /// a valid placement drawn from the candidates, produced by two
    /// maximum-weight matching passes.
    pub fn solve_assignment(&self, candidates: &Vec<Point>) -> (r: Result<Vec<Point>, SolverError>)
        requires
            self.wf(),
            candidates@.len() <= MAX_COUNT,
            attendees_clear(*self, candidates@),
            forall|k: int| 0 <= k < candidates@.len() ==> self.in_stage_spec(
                #[trigger] candidates@[k]),
            forall|k: int, l: int|
                0 <= k < l < candidates@.len() ==> dist_sq(#[trigger] candidates@[k],
                    #[trigger] candidates@[l]) >= CLEARANCE * CLEARANCE,
        ensures
            r is Err <==> candidates@.len() < self.musicians@.len(),
            r is Err ==> r == Err::<Vec<Point>, SolverError>(SolverError::PreconditionViolation),
            r is Ok ==> self.placements_ok(r->Ok_0@) && attendees_clear(*self, r->Ok_0@)
                && two_stage_solved(*self, candidates@, r->Ok_0@) && (forall|k: int|
                0 <= k < r->Ok_0@.len() ==> candidates@.contains(#[trigger] r->Ok_0@[k])),
    {
        if candidates.len() < self.musicians.len() {
            return Err(SolverError::PreconditionViolation);
        }
        Ok(self.two_stage_optimization(candidates))
    }
}

/// One witness of the two-pass refinement: the first matching selects the
/// intermediate site set `mid` out of `cands`, maximizing the matrix total
/// over `cands` among all choices of distinct sites; the second matching
/// rearranges the musicians over exactly `mid`, again with no choice of
/// distinct sites scoring a larger matrix total over `mid`.
pub open spec fn two_stage_witness(
    input: Input,
    cands: Seq<Point>,
    r: Seq<Point>,
    mid: Seq<Point>,
    asg1: Seq<usize>,
    asg2: Seq<usize>,
) -> bool {
    let n = input.musicians@.len() as int;
    &&& asg1.len() == n
    &&& injective_cols(asg1, cands.len() as int)
    &&& mid.len() == n
    &&& (forall|k: int| 0 <= k < n ==> #[trigger] mid[k] == cands[asg1[k] as int])
    &&& (forall|other: Seq<usize>|
        other.len() == n && injective_cols(other, cands.len() as int)
            ==> #[trigger] matrix_total(input, cands, other, n) <= matrix_total(input, cands,
                asg1, n))
    &&& asg2.len() == n
    &&& injective_cols(asg2, n)
    &&& (forall|k: int| 0 <= k < n ==> #[trigger] r[k] == mid[asg2[k] as int])
    &&& (forall|other: Seq<usize>|
        other.len() == n && injective_cols(other, n) ==> #[trigger] matrix_total(input, mid,
            other, n) <= matrix_total(input, mid, asg2, n))
}

/// The two-pass refinement was solved: some intermediate site set and two
/// assignments witness that both passes were maximum-weight matchings.
pub open spec fn two_stage_solved(input: Input, cands: Seq<Point>, r: Seq<Point>) -> bool {
    exists|mid: Seq<Point>, asg1: Seq<usize>, asg2: Seq<usize>| two_stage_witness(input, cands,
        r, mid, asg1, asg2)
}

/// The ring level of a grid node: its distance to the nearest grid edge.
pub open spec fn level_of(ij: (i64, i64), xc: int, yc: int) -> int {
    let lx = if ij.0 < xc - 1 - ij.0 {
        ij.0 as int
    } else {
        xc - 1 - ij.0
    };
    let ly = if ij.1 < yc - 1 - ij.1 {
        ij.1 as int
    } else {
        yc - 1 - ij.1
    };
    if lx < ly {
        lx
    } else {
        ly
    }
}

} // verus!