//! The scoring model: per-pair impact, same-type synergy, and scene scores.
//!
//! Every quantity is an exact integer. The per-pair impact is the ceiling of
//! `10^6 * taste / d^2` with `d` in plain units; on scaled coordinates this
//! is `ceil(10^12 * taste / d2)` with `d2` the scaled squared distance. The
//! synergy multiplier is kept in millionths: a synergy of one is `SYN_ONE`,
//! and each same-instrument neighbour at distance `d` (in units) contributes
//! `floor(10^6 / d)`, computed exactly through an integer square root.
//! Volumes are kept in thousandths, so a per-pair contribution is
//! `ceil(vol * syn * raw / 10^9)`.

use vstd::prelude::*;

use crate::geometry::{
    ceil_div, ceil_div_i128, coord_ok, dist_sq, dist_sq_i128, isqrt_u128, lemma_ceil_div_bounds,
    sqrt_floor, Point,
};
use crate::occlusion::visible;
use crate::problem::{Input, Solution, SolverError, MAX_TASTE};

verus! {

/// Numerator of the raw impact formula on scaled coordinates:
/// `10^6 * SCALE^2`.
pub const IMPACT_NUM: i128 = 1_000_000_000_000;

/// A synergy multiplier of exactly one, in millionths.
pub const SYN_ONE: i64 = 1_000_000;

/// Numerator of the scaled inverse distance: `(SYN_ONE * SCALE)^2`.
pub const INV_NUM: u128 = 1_000_000_000_000_000_000;

/// A per-pair contribution is divided by volume scale times synergy scale.
pub const SCORE_DEN: i128 = 1_000_000_000;

/// Bound on the magnitude of one raw impact value.
pub const RAW_BOUND: i128 = 100_000_000_000_000_000;

/// Bound on one scaled inverse distance (distance at least one milli-unit).
pub const Q_BOUND: i64 = 1_000_000_000;

/// Bound on a synergy multiplier in millionths.
pub const SYN_BOUND: i64 = 10_001_000_000_000;

/// Bound on the magnitude of one per-pair contribution.
pub const TERM_BOUND: i128 = 2_000_000_000_000_000_000_000_000_000;

/// The taste of attendee `a` for the instrument of musician `m`.
pub open spec fn taste_of(input: Input, a: int, m: int) -> int {
    input.attendees@[a].tastes@[input.musicians@[m] as int] as int
}

/// The raw impact of a source with the given taste at squared distance `dd`:
/// the ceiling of `10^12 * taste / dd`.
pub open spec fn raw_impact_spec(taste: int, dd: int) -> int {
    ceil_div(IMPACT_NUM * taste, dd)
}

/// Raw impact of musician `m` on attendee `a` for a given placement.
pub open spec fn pair_raw(input: Input, pls: Seq<Point>, a: int, m: int) -> int {
    raw_impact_spec(taste_of(input, a, m), dist_sq(input.attendees@[a].pos_spec(), pls[m]))
}

/// The scaled inverse distance `floor(10^9 / sqrt(dd))` for squared scaled
/// distance `dd`; together with the `SYN_ONE` scale this is
/// `floor(10^6 / d)` for `d` in plain units.
pub open spec fn inv_dist_q(dd: int) -> int {
    sqrt_floor((INV_NUM as int / dd) as nat) as int
}

/// The synergy contribution of musician `j` to musician `i`: the scaled
/// inverse distance if they share an instrument, else zero.
pub open spec fn syn_pair(insts: Seq<usize>, pls: Seq<Point>, i: int, j: int) -> int {
    if i != j && insts[i] == insts[j] {
        inv_dist_q(dist_sq(pls[i], pls[j]))
    } else {
        0
    }
}

/// Partial sum of synergy contributions to musician `i` from musicians below
/// `upto`.
pub open spec fn syn_sum(insts: Seq<usize>, pls: Seq<Point>, i: int, upto: int) -> int
    decreases upto,
{
    if upto <= 0 {
        0
    } else {
        syn_sum(insts, pls, i, upto - 1) + syn_pair(insts, pls, i, upto - 1)
    }
}

/// The synergy multiplier of musician `i`, in millionths.
pub open spec fn syn_micro(insts: Seq<usize>, pls: Seq<Point>, i: int) -> int {
    SYN_ONE + syn_sum(insts, pls, i, insts.len() as int)
}

/// The synergy in effect: the same-type multiplier when the scene has any
/// pillars, else exactly one.
pub open spec fn effective_syn(input: Input, pls: Seq<Point>, i: int) -> int {
    if input.pillars@.len() > 0 {
        syn_micro(input.musicians@, pls, i)
    } else {
        SYN_ONE as int
    }
}

/// Whether same-instrument musicians stand on pairwise distinct points (at
/// least one milli-unit apart), so that their synergy is defined.
pub open spec fn same_type_separated(insts: Seq<usize>, pls: Seq<Point>) -> bool {
    forall|i: int, j: int|
        0 <= i < pls.len() && 0 <= j < pls.len() && i != j && insts[i] == insts[j]
            ==> #[trigger] dist_sq(pls[i], pls[j]) >= 1
}

/// Whether no attendee stands exactly on a musician's point, so that every
/// raw impact is defined.
pub open spec fn attendees_clear(input: Input, pls: Seq<Point>) -> bool {
    forall|a: int, m: int|
        0 <= a < input.attendees@.len() && 0 <= m < pls.len()
            ==> #[trigger] dist_sq(input.attendees@[a].pos_spec(), pls[m]) >= 1
}

/// One attendee-musician contribution to the scene score, with the
/// musician's synergy and volume given as scalars: the ceiling of
/// `vol * syn * raw / 10^9` when the pair is visible, else zero.
pub open spec fn pair_term(
    input: Input,
    pls: Seq<Point>,
    vol: int,
    syn: int,
    a: int,
    m: int,
) -> int {
    if visible(input.attendees@[a].pos_spec(), pls, m, input.pillars@) {
        ceil_div(vol * syn * pair_raw(input, pls, a, m), SCORE_DEN as int)
    } else {
        0
    }
}

/// Partial sum of an attendee's contributions from musicians below `upto`,
/// with per-musician volumes and synergies given as sequences.
pub open spec fn attendee_sum(
    input: Input,
    pls: Seq<Point>,
    vols: Seq<int>,
    syns: Seq<int>,
    a: int,
    upto: int,
) -> int
    decreases upto,
{
    if upto <= 0 {
        0
    } else {
        attendee_sum(input, pls, vols, syns, a, upto - 1)
            + pair_term(input, pls, vols[upto - 1], syns[upto - 1], a, upto - 1)
    }
}

/// The full contribution of attendee `a`.
pub open spec fn attendee_total(
    input: Input,
    pls: Seq<Point>,
    vols: Seq<int>,
    syns: Seq<int>,
    a: int,
) -> int {
    attendee_sum(input, pls, vols, syns, a, input.musicians@.len() as int)
}

/// Partial sum of the scene score over attendees below `upto`.
pub open spec fn scene_sum(
    input: Input,
    pls: Seq<Point>,
    vols: Seq<int>,
    syns: Seq<int>,
    upto: int,
) -> int
    decreases upto,
{
    if upto <= 0 {
        0
    } else {
        scene_sum(input, pls, vols, syns, upto - 1)
            + attendee_total(input, pls, vols, syns, upto - 1)
    }
}

/// A sequence of scaled integers as mathematical integers.
pub open spec fn to_int_seq(s: Seq<i64>) -> Seq<int> {
    s.map_values(|x: i64| x as int)
}

/// The synergy in effect for every musician, as a sequence.
pub open spec fn effective_syns(input: Input, pls: Seq<Point>) -> Seq<int> {
    Seq::new(input.musicians@.len(), |m: int| effective_syn(input, pls, m))
}

/// The scene score of a placement with the given volumes: the sum over all
/// attendees and visible musicians of the per-pair ceilings, with the
/// synergy in effect.
pub open spec fn scene_score(input: Input, pls: Seq<Point>, vols: Seq<int>) -> int {
    scene_sum(input, pls, vols, effective_syns(input, pls), input.attendees@.len() as int)
}

/// The volumes of a solution as integers, with the default where absent.
pub open spec fn vols_of(volumes: Option<Vec<i64>>, n: int) -> Seq<int> {
    match volumes {
        Some(v) => to_int_seq(v@),
        None => Seq::new(n as nat, |m: int| crate::problem::DEFAULT_VOLUME as int),
    }
}

/// Partial sum, over attendees below `upto`, of the raw impacts that
/// musician `m` delivers to the attendees that see it.
pub open spec fn musician_raw_sum(input: Input, pls: Seq<Point>, m: int, upto: int) -> int
    decreases upto,
{
    if upto <= 0 {
        0
    } else {
        musician_raw_sum(input, pls, m, upto - 1) + (
        if visible(input.attendees@[upto - 1].pos_spec(), pls, m, input.pillars@) {
            pair_raw(input, pls, upto - 1, m)
        } else {
            0
        })
    }
}

/// The aggregate raw impact of musician `m`: the sum of its raw impacts on
/// every attendee that sees it.
pub open spec fn musician_impact(input: Input, pls: Seq<Point>, m: int) -> int {
    musician_raw_sum(input, pls, m, input.attendees@.len() as int)
}

/// One musician's term in the incremental index's score: the ceiling of
/// `vol * syn * impact / 10^9` (one rounding per musician).
pub open spec fn musician_term(input: Input, pls: Seq<Point>, vol: int, syn: int, m: int) -> int {
    ceil_div(vol * syn * musician_impact(input, pls, m), SCORE_DEN as int)
}

/// Partial sum of the index's score over musicians below `upto`.
pub open spec fn index_sum(
    input: Input,
    pls: Seq<Point>,
    vols: Seq<int>,
    syns: Seq<int>,
    upto: int,
) -> int
    decreases upto,
{
    if upto <= 0 {
        0
    } else {
        index_sum(input, pls, vols, syns, upto - 1)
            + musician_term(input, pls, vols[upto - 1], syns[upto - 1], upto - 1)
    }
}

/// The incremental index's score: one rounded term per musician, with the
/// synergy in effect.
pub open spec fn index_score(input: Input, pls: Seq<Point>, vols: Seq<int>) -> int {
    index_sum(input, pls, vols, effective_syns(input, pls), input.musicians@.len() as int)
}

/// Sum over the attendees below `upto` of one musician's per-pair terms.
pub open spec fn col_sum(
    input: Input,
    pls: Seq<Point>,
    vol: int,
    syn: int,
    m: int,
    upto: int,
) -> int
    decreases upto,
{
    if upto <= 0 {
        0
    } else {
        col_sum(input, pls, vol, syn, m, upto - 1) + pair_term(input, pls, vol, syn, upto - 1, m)
    }
}

/// Sum over the musicians below `upto` of their `col_sum` over the first
/// `la` attendees.
pub open spec fn cols_partial(
    input: Input,
    pls: Seq<Point>,
    vols: Seq<int>,
    syns: Seq<int>,
    upto: int,
    la: int,
) -> int
    decreases upto,
{
    if upto <= 0 {
        0
    } else {
        cols_partial(input, pls, vols, syns, upto - 1, la) + col_sum(input, pls, vols[upto - 1],
            syns[upto - 1], upto - 1, la)
    }
}

/// With synergy one and a volume that is a whole multiple of the volume
/// scale, a musician's per-pair terms sum to that multiple times its raw
/// sum: each per-pair ceiling is exact.
proof fn lemma_col_sum_exact(input: Input, pls: Seq<Point>, vol: int, m: int, upto: int)
    requires
        vol % 1000 == 0,
        0 <= upto,
    ensures
        col_sum(input, pls, vol, SYN_ONE as int, m, upto) == (vol / 1000) * musician_raw_sum(
            input, pls, m, upto),
    decreases upto,
{
    let k = vol / 1000;
    if upto <= 0 {
        assert(k * 0 == 0) by (nonlinear_arith);
    } else {
        lemma_col_sum_exact(input, pls, vol, m, upto - 1);
        let raw = pair_raw(input, pls, upto - 1, m);
        let mrs0 = musician_raw_sum(input, pls, m, upto - 1);
        vstd::arithmetic::div_mod::lemma_fundamental_div_mod(vol, 1000);
        assert(vol == 1000 * k);
        if visible(input.attendees@[upto - 1].pos_spec(), pls, m, input.pillars@) {
            assert(vol * (SYN_ONE as int) * raw == (k * raw) * (SCORE_DEN as int))
                by (nonlinear_arith)
                requires vol == 1000 * k
            ;
            crate::geometry::lemma_ceil_div_exact(k * raw, SCORE_DEN as int);
            assert(k * (mrs0 + raw) == k * mrs0 + k * raw) by (nonlinear_arith);
        } else {
            assert(k * (mrs0 + 0) == k * mrs0) by (nonlinear_arith);
        }
    }
}

/// The same exactness for one musician's single rounded term over its
/// aggregate impact.
proof fn lemma_musician_term_exact(input: Input, pls: Seq<Point>, vol: int, m: int)
    requires
        vol % 1000 == 0,
    ensures
        musician_term(input, pls, vol, SYN_ONE as int, m) == (vol / 1000) * musician_impact(
            input, pls, m),
{
    let k = vol / 1000;
    let imp = musician_impact(input, pls, m);
    vstd::arithmetic::div_mod::lemma_fundamental_div_mod(vol, 1000);
    assert(vol * (SYN_ONE as int) * imp == (k * imp) * (SCORE_DEN as int)) by (nonlinear_arith)
        requires vol == 1000 * k
    ;
    crate::geometry::lemma_ceil_div_exact(k * imp, SCORE_DEN as int);
}

/// Dropping the last attendee row from every column drops exactly that
/// attendee's partial sum.
proof fn lemma_cols_partial_step(
    input: Input,
    pls: Seq<Point>,
    vols: Seq<int>,
    syns: Seq<int>,
    upto: int,
    la: int,
)
    requires
        la >= 1,
        0 <= upto,
    ensures
        cols_partial(input, pls, vols, syns, upto, la) == cols_partial(input, pls, vols, syns,
            upto, la - 1) + attendee_sum(input, pls, vols, syns, la - 1, upto),
    decreases upto,
{
    if upto > 0 {
        lemma_cols_partial_step(input, pls, vols, syns, upto - 1, la);
    }
}

/// Summing per attendee first or per musician first gives the same total.
proof fn lemma_scene_sum_swap(
    input: Input,
    pls: Seq<Point>,
    vols: Seq<int>,
    syns: Seq<int>,
    la: int,
)
    requires
        0 <= la,
    ensures
        scene_sum(input, pls, vols, syns, la) == cols_partial(input, pls, vols, syns,
            input.musicians@.len() as int, la),
    decreases la,
{
    let n = input.musicians@.len() as int;
    if la <= 0 {
        lemma_cols_partial_zero(input, pls, vols, syns, n, la);
    } else {
        lemma_scene_sum_swap(input, pls, vols, syns, la - 1);
        lemma_cols_partial_step(input, pls, vols, syns, n, la);
    }
}

/// Every column over no attendees sums to zero.
proof fn lemma_cols_partial_zero(
    input: Input,
    pls: Seq<Point>,
    vols: Seq<int>,
    syns: Seq<int>,
    upto: int,
    la: int,
)
    requires
        la <= 0,
    ensures
        cols_partial(input, pls, vols, syns, upto, la) == 0,
    decreases upto,
{
    if upto > 0 {
        lemma_cols_partial_zero(input, pls, vols, syns, upto - 1, la);
    }
}

/// In a scene without pillars, the per-musician rounded terms sum to the
/// per-column sums, whenever every volume is a whole multiple of the
/// volume scale.
proof fn lemma_index_sum_matches_cols(
    input: Input,
    pls: Seq<Point>,
    vols: Seq<int>,
    syns: Seq<int>,
    upto: int,
)
    requires
        0 <= upto,
        forall|m: int| 0 <= m < upto ==> #[trigger] syns[m] == SYN_ONE as int,
        forall|m: int| 0 <= m < upto ==> (#[trigger] vols[m]) % 1000 == 0,
    ensures
        index_sum(input, pls, vols, syns, upto) == cols_partial(input, pls, vols, syns, upto,
            input.attendees@.len() as int),
    decreases upto,
{
    if upto > 0 {
        lemma_index_sum_matches_cols(input, pls, vols, syns, upto - 1);
        lemma_col_sum_exact(input, pls, vols[upto - 1], upto - 1,
            input.attendees@.len() as int);
        lemma_musician_term_exact(input, pls, vols[upto - 1], upto - 1);
    }
}

/// Incremental and batch scoring agree: in a scene without pillars, with
/// every volume a whole multiple of the volume scale, the index's score
/// (one rounding per musician) equals the full-scene score (one rounding
/// per attendee-musician pair). With fractional volumes or active synergy
/// the two rounding structures genuinely differ.
pub proof fn lemma_incremental_batch_agreement(input: Input, pls: Seq<Point>, vols: Seq<int>)
    requires
        input.pillars@.len() == 0,
        forall|m: int| 0 <= m < vols.len() ==> (#[trigger] vols[m]) % 1000 == 0,
        vols.len() == input.musicians@.len(),
    ensures
        index_score(input, pls, vols) == scene_score(input, pls, vols),
{
    let syns = effective_syns(input, pls);
    let n = input.musicians@.len() as int;
    let la = input.attendees@.len() as int;
    assert(forall|m: int| 0 <= m < n ==> #[trigger] syns[m] == SYN_ONE as int);
    lemma_index_sum_matches_cols(input, pls, vols, syns, n);
    lemma_scene_sum_swap(input, pls, vols, syns, la);
}

/// The ceiling of `a / b` lies between zero and `a` (toward `a`'s sign),
/// for positive divisors.
pub proof fn lemma_ceil_div_abs(a: int, b: int)
    requires
        b >= 1,
    ensures
        a >= 0 ==> 0 <= ceil_div(a, b) <= a,
        a < 0 ==> a <= ceil_div(a, b) <= 0,
{
    lemma_ceil_div_bounds(a, b);
    let c = ceil_div(a, b);
    assert((a >= 0 ==> 0 <= c <= a) && (a < 0 ==> a <= c <= 0)) by (nonlinear_arith)
        requires
            b >= 1,
            b * c >= a,
            b * (c - 1) < a,
    ;
}

/// Raw impacts of bounded tastes at nonzero distances are bounded.
pub proof fn lemma_raw_impact_bound(taste: int, dd: int)
    requires
        -MAX_TASTE <= taste <= MAX_TASTE,
        dd >= 1,
    ensures
        -RAW_BOUND <= raw_impact_spec(taste, dd) <= RAW_BOUND,
{
    crate::geometry::lemma_abs_mul_bound(IMPACT_NUM as int, taste, IMPACT_NUM as int,
        MAX_TASTE as int);
    lemma_ceil_div_abs(IMPACT_NUM * taste, dd);
}

/// The scaled inverse distance is between zero and `Q_BOUND` for nonzero
/// squared distances.
pub proof fn lemma_inv_dist_q_bound(dd: int)
    requires
        dd >= 1,
    ensures
        0 <= inv_dist_q(dd) <= Q_BOUND,
{
    let x = INV_NUM as int / dd;
    vstd::arithmetic::div_mod::lemma_fundamental_div_mod(INV_NUM as int, dd);
    vstd::arithmetic::div_mod::lemma_mod_bound(INV_NUM as int, dd);
    assert(0 <= x <= INV_NUM) by (nonlinear_arith)
        requires
            dd >= 1,
            INV_NUM as int == dd * x + (INV_NUM as int % dd),
            0 <= (INV_NUM as int % dd) < dd,
    ;
    let s = sqrt_floor(x as nat);
    crate::geometry::lemma_sqrt_floor_bounds(x as nat);
    if s > Q_BOUND {
        assert((Q_BOUND + 1) * (Q_BOUND + 1) <= s * s) by (nonlinear_arith)
            requires s >= Q_BOUND + 1
        ;
    }
}

/// Synergy partial sums are between zero and `upto * Q_BOUND` when
/// same-instrument musicians are separated.
pub proof fn lemma_syn_sum_bound(insts: Seq<usize>, pls: Seq<Point>, i: int, upto: int)
    requires
        same_type_separated(insts, pls),
        insts.len() == pls.len(),
        0 <= i < pls.len(),
        0 <= upto <= pls.len(),
    ensures
        0 <= syn_sum(insts, pls, i, upto) <= upto * Q_BOUND,
    decreases upto,
{
    if upto > 0 {
        lemma_syn_sum_bound(insts, pls, i, upto - 1);
        if upto - 1 != i && insts[i] == insts[upto - 1] {
            lemma_inv_dist_q_bound(dist_sq(pls[i], pls[upto - 1]));
        }
        assert((upto - 1) * Q_BOUND + Q_BOUND == upto * Q_BOUND) by (nonlinear_arith);
    }
}

/// The synergy in effect is between one and `SYN_BOUND`.
pub proof fn lemma_effective_syn_bound(input: Input, pls: Seq<Point>, i: int)
    requires
        input.wf(),
        pls.len() == input.musicians@.len(),
        same_type_separated(input.musicians@, pls),
        0 <= i < pls.len(),
    ensures
        SYN_ONE <= effective_syn(input, pls, i) <= SYN_BOUND,
{
    if input.pillars@.len() > 0 {
        lemma_syn_sum_bound(input.musicians@, pls, i, pls.len() as int);
        assert(pls.len() * Q_BOUND <= crate::problem::MAX_COUNT * Q_BOUND) by (nonlinear_arith)
            requires pls.len() <= crate::problem::MAX_COUNT
        ;
    }
}

/// One per-pair contribution is bounded by `TERM_BOUND` under the standard
/// bounds on volume, synergy, taste and distance.
pub proof fn lemma_pair_term_bound(
    input: Input,
    pls: Seq<Point>,
    vol: int,
    syn: int,
    a: int,
    m: int,
)
    requires
        input.wf(),
        0 <= a < input.attendees@.len(),
        0 <= m < pls.len(),
        0 <= vol <= crate::problem::MAX_VOLUME,
        0 <= syn <= SYN_BOUND,
        dist_sq(input.attendees@[a].pos_spec(), pls[m]) >= 1,
        0 <= m < input.musicians@.len(),
    ensures
        -TERM_BOUND <= pair_term(input, pls, vol, syn, a, m) <= TERM_BOUND,
{
    if visible(input.attendees@[a].pos_spec(), pls, m, input.pillars@) {
        let raw = pair_raw(input, pls, a, m);
        lemma_raw_impact_bound(taste_of(input, a, m), dist_sq(input.attendees@[a].pos_spec(),
            pls[m]));
        crate::geometry::lemma_abs_mul_bound(vol, syn, crate::problem::MAX_VOLUME as int,
            SYN_BOUND as int);
        crate::geometry::lemma_abs_mul_bound(vol * syn, raw,
            crate::problem::MAX_VOLUME * SYN_BOUND, RAW_BOUND as int);
        lemma_ceil_div_abs(vol * syn * raw, SCORE_DEN as int);
        lemma_ceil_div_bounds(vol * syn * raw, SCORE_DEN as int);
        let c = ceil_div(vol * syn * raw, SCORE_DEN as int);
        assert(-TERM_BOUND <= c <= TERM_BOUND) by (nonlinear_arith)
            requires
                -1_000_100_000_000_000_000_000_000_000_000_000_000
                    <= vol * syn * raw
                    <= 1_000_100_000_000_000_000_000_000_000_000_000_000,
                SCORE_DEN as int * c >= vol * syn * raw,
                SCORE_DEN as int * (c - 1) < vol * syn * raw,
        ;
    }
}

/// Sum of the raw impacts of an instrument at `point` on the listed
/// attendees.
pub open spec fn raw_score_sum(
    input: Input,
    point: Point,
    instrument: int,
    ids: Seq<usize>,
) -> int
    decreases ids.len(),
{
    if ids.len() == 0 {
        0
    } else {
        raw_score_sum(input, point, instrument, ids.drop_last()) + raw_impact_spec(
            input.attendees@[ids.last() as int].tastes@[instrument] as int,
            dist_sq(input.attendees@[ids.last() as int].pos_spec(), point),
        )
    }
}

impl Solution {
    /// Validates the placement and scores it. A wrong placement length is
    /// a `StructuralMismatch`, a clearance or border violation a
    /// `ConstraintViolation`, and a valid placement scores exactly
    /// `scene_score`.
    pub fn score(&self, input: &Input) -> (r: Result<i128, SolverError>)
        requires
            input.wf(),
            input.placements_ok(self.placements@) ==> attendees_clear(*input, self.placements@)
                && (self.volumes is Some ==> (self.volumes->0@.len() == input.musicians@.len()
                && crate::problem::volumes_ok(self.volumes->0@))),
        ensures
            r is Ok <==> input.placements_ok(self.placements@),
            r == Err::<i128, SolverError>(SolverError::StructuralMismatch)
                <==> self.placements@.len() != input.musicians@.len(),
            r == Err::<i128, SolverError>(SolverError::ConstraintViolation)
                <==> (self.placements@.len() == input.musicians@.len()
                    && !input.placements_ok(self.placements@)),
            r is Ok ==> r->Ok_0 == scene_score(*input, self.placements@,
                vols_of(self.volumes, input.musicians@.len() as int)),
    {
        match input.is_valid_placements(&self.placements) {
            Ok(()) => {
                proof {
                    assert forall|i: int, j: int|
                        0 <= i < self.placements@.len() && 0 <= j < self.placements@.len()
                            && i != j
                        implies #[trigger] dist_sq(self.placements@[i], self.placements@[j])
                            >= 1 by {
                        assert(dist_sq(self.placements@[i], self.placements@[j])
                            >= crate::geometry::CLEARANCE * crate::geometry::CLEARANCE);
                    }
                    assert forall|i: int|
                        0 <= i < self.placements@.len()
                        implies coord_ok(#[trigger] self.placements@[i]) by {
                        input.lemma_in_stage_coord_ok(self.placements@[i]);
                    }
                }
                let r = input.score_fast(self);
                match r {
                    Ok(v) => Ok(v),
                    Err(e) => Err(e),
                }
            },
            Err(e) => Err(e),
        }
    }
}

/// Builds a vector holding the same value `n` times.
pub fn repeat_value(n: usize, val: i64) -> (r: Vec<i64>)
    ensures
        r@.len() == n,
        forall|k: int| 0 <= k < n ==> #[trigger] r@[k] == val,
{
    let mut r: Vec<i64> = Vec::new();
    let mut k: usize = 0;
    while k < n
        invariant
            k <= n,
            r@.len() == k,
            forall|j: int| 0 <= j < k ==> #[trigger] r@[j] == val,
        decreases n - k,
    {
        r.push(val);
        k = k + 1;
    }
    r
}

/// Copies a volume vector.
pub(crate) fn copy_values(v: &Vec<i64>) -> (r: Vec<i64>)
    ensures
        r@ == v@,
{
    let mut r: Vec<i64> = Vec::new();
    let mut k: usize = 0;
    while k < v.len()
        invariant
            k <= v@.len(),
            r@ == v@.take(k as int),
        decreases v@.len() - k,
    {
        r.push(v[k]);
        proof {
            assert(r@ =~= v@.take(k + 1));
        }
        k = k + 1;
    }
    proof {
        assert(v@.take(v@.len() as int) =~= v@);
    }
    r
}

impl Input {
    /// The raw impact of an instrument played at `musician_pos` on the given
    /// attendee: the ceiling of `10^12 * taste / d2`, exactly.
    pub fn raw_impact_for_instrument(
        &self,
        attendee_id: usize,
        instrument: usize,
        musician_pos: &Point,
    ) -> (r: i128)
        requires
            self.wf(),
            attendee_id < self.attendees@.len(),
            instrument < self.attendees@[attendee_id as int].tastes@.len(),
            coord_ok(*musician_pos),
            dist_sq(self.attendees@[attendee_id as int].pos_spec(), *musician_pos) >= 1,
        ensures
            r == raw_impact_spec(
                self.attendees@[attendee_id as int].tastes@[instrument as int] as int,
                dist_sq(self.attendees@[attendee_id as int].pos_spec(), *musician_pos),
            ),
            -RAW_BOUND <= r <= RAW_BOUND,
    {
        let apos = self.attendees[attendee_id].pos();
        let d2 = dist_sq_i128(&apos, musician_pos);
        let taste = self.attendees[attendee_id].tastes[instrument];
        proof {
            crate::geometry::lemma_abs_mul_bound(IMPACT_NUM as int, taste as int,
                IMPACT_NUM as int, MAX_TASTE as int);
        }
        let r = ceil_div_i128(IMPACT_NUM * (taste as i128), d2);
        proof {
            lemma_raw_impact_bound(taste as int, d2 as int);
        }
        r
    }

    /// The raw impact of musician `musician_id` standing at `musician_pos`
    /// on the given attendee, ignoring blocking.
    pub fn raw_impact(&self, attendee_id: usize, musician_id: usize, musician_pos: &Point) -> (r:
        i128)
        requires
            self.wf(),
            attendee_id < self.attendees@.len(),
            musician_id < self.musicians@.len(),
            coord_ok(*musician_pos),
            dist_sq(self.attendees@[attendee_id as int].pos_spec(), *musician_pos) >= 1,
        ensures
            r == raw_impact_spec(
                taste_of(*self, attendee_id as int, musician_id as int),
                dist_sq(self.attendees@[attendee_id as int].pos_spec(), *musician_pos),
            ),
            -RAW_BOUND <= r <= RAW_BOUND,
    {
        let instrument = self.musicians[musician_id];
        self.raw_impact_for_instrument(attendee_id, instrument, musician_pos)
    }

    /// The impact of musician `musician_id` on the given attendee for this
    /// placement: the raw impact when the pair is visible, zero when any
    /// musician or pillar blocks the sightline, and a `StructuralMismatch`
    /// when the placement length is wrong.
    pub fn impact(&self, attendee_id: usize, musician_id: usize, placements: &Vec<Point>) -> (r:
        Result<i128, SolverError>)
        requires
            self.wf(),
            attendee_id < self.attendees@.len(),
            musician_id < self.musicians@.len(),
            placements@.len() == self.musicians@.len() ==> crate::geometry::all_coords_ok(
                placements@,
            ) && dist_sq(
                self.attendees@[attendee_id as int].pos_spec(),
                placements@[musician_id as int],
            ) >= 1,
        ensures
            r is Err <==> placements@.len() != self.musicians@.len(),
            r is Err ==> r == Err::<i128, SolverError>(SolverError::StructuralMismatch),
            placements@.len() == self.musicians@.len() ==> (r is Ok && r->Ok_0 == (
            if visible(self.attendees@[attendee_id as int].pos_spec(), placements@,
                musician_id as int, self.pillars@) {
                pair_raw(*self, placements@, attendee_id as int, musician_id as int)
            } else {
                0int
            })),
    {
        if placements.len() != self.musicians.len() {
            return Err(SolverError::StructuralMismatch);
        }
        let apos = self.attendees[attendee_id].pos();
        if crate::occlusion::visible_from(&apos, placements, musician_id, &self.pillars) {
            Ok(self.raw_impact(attendee_id, musician_id, &placements[musician_id]))
        } else {
            Ok(0)
        }
    }

    /// One musician's synergy multiplier (in millionths): one plus the sum
    /// of scaled inverse distances to the same-instrument musicians.
    pub(crate) fn syn_for_musician(&self, placements: &Vec<Point>, i: usize) -> (s: i64)
        requires
            self.wf(),
            placements@.len() == self.musicians@.len(),
            crate::geometry::all_coords_ok(placements@),
            same_type_separated(self.musicians@, placements@),
            i < self.musicians@.len(),
        ensures
            s as int == syn_micro(self.musicians@, placements@, i as int),
            SYN_ONE <= s <= SYN_BOUND,
    {
        let n = self.musicians.len();
        let mut s: i64 = SYN_ONE;
        let mut j: usize = 0;
        while j < n
            invariant
                self.wf(),
                n == self.musicians@.len(),
                placements@.len() == n,
                crate::geometry::all_coords_ok(placements@),
                same_type_separated(self.musicians@, placements@),
                i < n,
                j <= n,
                s as int == SYN_ONE + syn_sum(self.musicians@, placements@, i as int, j as int),
                SYN_ONE <= s <= SYN_ONE + (j as int) * (Q_BOUND as int),
            decreases n - j,
        {
            proof {
                lemma_syn_sum_bound(self.musicians@, placements@, i as int, j as int);
            }
            if j != i && self.musicians[j] == self.musicians[i] {
                let d2 = dist_sq_i128(&placements[i], &placements[j]);
                let q128 = isqrt_u128(INV_NUM / (d2 as u128));
                proof {
                    lemma_inv_dist_q_bound(d2 as int);
                    assert(INV_NUM as int / (d2 as int) == (INV_NUM / (d2 as u128)) as int);
                }
                let q = q128 as i64;
                proof {
                    assert((j + 1) * (Q_BOUND as int) == (j as int) * (Q_BOUND as int)
                        + Q_BOUND) by (nonlinear_arith);
                    assert((j as int) * (Q_BOUND as int)
                        <= 10_000 * (Q_BOUND as int)) by (nonlinear_arith)
                        requires j as int <= 10_000
                    ;
                }
                s = s + q;
            } else {
                proof {
                    assert((j as int) * (Q_BOUND as int) <= (j + 1) * (Q_BOUND as int))
                        by (nonlinear_arith);
                }
            }
            j = j + 1;
        }
        proof {
            assert((n as int) * (Q_BOUND as int) <= 10_000 * (Q_BOUND as int))
                by (nonlinear_arith)
                requires n as int <= 10_000
            ;
        }
        s
    }

    /// Computes every musician's synergy multiplier (in millionths): one
    /// plus the sum of scaled inverse distances to the same-instrument
    /// musicians.
    pub fn calc_playing_together(&self, placements: &Vec<Point>) -> (r: Vec<i64>)
        requires
            self.wf(),
            placements@.len() == self.musicians@.len(),
            crate::geometry::all_coords_ok(placements@),
            same_type_separated(self.musicians@, placements@),
        ensures
            r@.len() == self.musicians@.len(),
            forall|i: int|
                0 <= i < r@.len() ==> #[trigger] r@[i] as int == syn_micro(self.musicians@,
                    placements@, i),
            forall|i: int| 0 <= i < r@.len() ==> SYN_ONE <= #[trigger] r@[i] <= SYN_BOUND,
    {
        let n = self.musicians.len();
        let mut r: Vec<i64> = Vec::new();
        let mut i: usize = 0;
        while i < n
            invariant
                self.wf(),
                n == self.musicians@.len(),
                placements@.len() == n,
                crate::geometry::all_coords_ok(placements@),
                same_type_separated(self.musicians@, placements@),
                i <= n,
                r@.len() == i,
                forall|k: int|
                    0 <= k < i ==> #[trigger] r@[k] as int == syn_micro(self.musicians@,
                        placements@, k),
                forall|k: int| 0 <= k < i ==> SYN_ONE <= #[trigger] r@[k] <= SYN_BOUND,
            decreases n - i,
        {
            let s = self.syn_for_musician(placements, i);
            r.push(s);
            i = i + 1;
        }
        r
    }

    /// The total contribution of one attendee, with per-musician volumes and
    /// synergies supplied as vectors.
    fn attendee_score(
        &self,
        attendee_id: usize,
        placements: &Vec<Point>,
        vols: &Vec<i64>,
        syns: &Vec<i64>,
    ) -> (r: i128)
        requires
            self.wf(),
            attendee_id < self.attendees@.len(),
            placements@.len() == self.musicians@.len(),
            vols@.len() == self.musicians@.len(),
            syns@.len() == self.musicians@.len(),
            crate::geometry::all_coords_ok(placements@),
            forall|m: int|
                0 <= m < placements@.len() ==> #[trigger] dist_sq(
                    self.attendees@[attendee_id as int].pos_spec(), placements@[m]) >= 1,
            forall|m: int|
                0 <= m < vols@.len() ==> 0 <= #[trigger] vols@[m] <= crate::problem::MAX_VOLUME,
            forall|m: int| 0 <= m < syns@.len() ==> 0 <= #[trigger] syns@[m] <= SYN_BOUND,
        ensures
            r == attendee_total(*self, placements@, to_int_seq(vols@), to_int_seq(syns@),
                attendee_id as int),
            -(crate::problem::MAX_COUNT as int) * TERM_BOUND <= r <= (
            crate::problem::MAX_COUNT as int) * TERM_BOUND,
    {
        let n = self.musicians.len();
        let apos = self.attendees[attendee_id].pos();
        let mut total: i128 = 0;
        let mut m: usize = 0;
        while m < n
            invariant
                self.wf(),
                attendee_id < self.attendees@.len(),
                n == self.musicians@.len(),
                placements@.len() == n,
                vols@.len() == n,
                syns@.len() == n,
                crate::geometry::all_coords_ok(placements@),
                apos == self.attendees@[attendee_id as int].pos_spec(),
                forall|k: int|
                    0 <= k < placements@.len() ==> #[trigger] dist_sq(
                        self.attendees@[attendee_id as int].pos_spec(), placements@[k]) >= 1,
                forall|k: int|
                    0 <= k < vols@.len() ==> 0 <= #[trigger] vols@[k]
                        <= crate::problem::MAX_VOLUME,
                forall|k: int| 0 <= k < syns@.len() ==> 0 <= #[trigger] syns@[k] <= SYN_BOUND,
                m <= n,
                total == attendee_sum(*self, placements@, to_int_seq(vols@), to_int_seq(syns@),
                    attendee_id as int, m as int),
                -(m as int) * TERM_BOUND <= total <= (m as int) * TERM_BOUND,
            decreases n - m,
        {
            proof {
                lemma_pair_term_bound(*self, placements@, vols@[m as int] as int,
                    syns@[m as int] as int, attendee_id as int, m as int);
                assert((m + 1) * TERM_BOUND == (m as int) * TERM_BOUND + TERM_BOUND)
                    by (nonlinear_arith);
                assert((m as int) * TERM_BOUND <= 10_000 * TERM_BOUND) by (nonlinear_arith)
                    requires m as int <= 10_000
                ;
            }
            if crate::occlusion::visible_from(&apos, placements, m, &self.pillars) {
                let raw = self.raw_impact(attendee_id, m, &placements[m]);
                let v = vols[m] as i128;
                let s = syns[m] as i128;
                proof {
                    crate::geometry::lemma_abs_mul_bound(v as int, s as int,
                        crate::problem::MAX_VOLUME as int, SYN_BOUND as int);
                    crate::geometry::lemma_abs_mul_bound((v * s) as int, raw as int,
                        crate::problem::MAX_VOLUME * SYN_BOUND, RAW_BOUND as int);
                }
                let term = ceil_div_i128(v * s * raw, SCORE_DEN);
                total = total + term;
            }
            m = m + 1;
        }
        proof {
            assert((n as int) * TERM_BOUND <= (crate::problem::MAX_COUNT as int) * TERM_BOUND)
                by (nonlinear_arith)
                requires n as int <= crate::problem::MAX_COUNT as int
            ;
        }
        total
    }

    /// Sums the raw impacts of an instrument played at `point` over the
    /// listed attendees (used to rate a candidate site).
    pub fn raw_score_for_instrument(
        &self,
        point: Point,
        instrument: usize,
        attendee_ids: &Vec<usize>,
    ) -> (r: i128)
        requires
            self.wf(),
            coord_ok(point),
            attendee_ids@.len() <= crate::problem::MAX_COUNT,
            forall|k: int|
                0 <= k < attendee_ids@.len() ==> (#[trigger] attendee_ids@[k])
                    < self.attendees@.len(),
            forall|k: int|
                0 <= k < attendee_ids@.len() ==> instrument
                    < self.attendees@[(#[trigger] attendee_ids@[k]) as int].tastes@.len(),
            forall|k: int|
                0 <= k < attendee_ids@.len() ==> dist_sq(
                    self.attendees@[(#[trigger] attendee_ids@[k]) as int].pos_spec(), point) >= 1,
        ensures
            r == raw_score_sum(*self, point, instrument as int, attendee_ids@),
            -(crate::problem::MAX_COUNT as int) * RAW_BOUND <= r <= (
            crate::problem::MAX_COUNT as int) * RAW_BOUND,
    {
        let n = attendee_ids.len();
        let mut total: i128 = 0;
        let mut k: usize = 0;
        proof {
            assert((crate::problem::MAX_COUNT as int) * RAW_BOUND
                == 1_000_000_000_000_000_000_000) by (nonlinear_arith);
        }
        while k < n
            invariant
                self.wf(),
                coord_ok(point),
                n == attendee_ids@.len(),
                n <= crate::problem::MAX_COUNT,
                k <= n,
                forall|kk: int|
                    0 <= kk < attendee_ids@.len() ==> (#[trigger] attendee_ids@[kk])
                        < self.attendees@.len(),
                forall|kk: int|
                    0 <= kk < attendee_ids@.len() ==> instrument
                        < self.attendees@[(#[trigger] attendee_ids@[kk]) as int].tastes@.len(),
                forall|kk: int|
                    0 <= kk < attendee_ids@.len() ==> dist_sq(
                        self.attendees@[(#[trigger] attendee_ids@[kk]) as int].pos_spec(), point)
                        >= 1,
                total == raw_score_sum(*self, point, instrument as int,
                    attendee_ids@.take(k as int)),
                -(k as int) * RAW_BOUND <= total <= (k as int) * RAW_BOUND,
            decreases n - k,
        {
            let a = attendee_ids[k];
            let raw = self.raw_impact_for_instrument(a, instrument, &point);
            proof {
                assert(attendee_ids@.take(k + 1).drop_last() =~= attendee_ids@.take(k as int));
                assert(attendee_ids@.take(k + 1).last() == attendee_ids@[k as int]);
                assert((k as int) * RAW_BOUND <= 10_000 * RAW_BOUND) by (nonlinear_arith)
                    requires k as int <= 10_000
                ;
            }
            total = total + raw;
            k = k + 1;
        }
        proof {
            assert(attendee_ids@.take(n as int) =~= attendee_ids@);
            assert((n as int) * RAW_BOUND <= (crate::problem::MAX_COUNT as int) * RAW_BOUND)
                by (nonlinear_arith)
                requires n as int <= crate::problem::MAX_COUNT as int
            ;
        }
        total
    }

    /// Sums every attendee's contribution with the given volumes and
    /// synergies.
    fn scene_score_exec(&self, placements: &Vec<Point>, vols: &Vec<i64>, syns: &Vec<i64>) -> (r:
        i128)
        requires
            self.wf(),
            placements@.len() == self.musicians@.len(),
            vols@.len() == self.musicians@.len(),
            syns@.len() == self.musicians@.len(),
            crate::geometry::all_coords_ok(placements@),
            attendees_clear(*self, placements@),
            forall|m: int|
                0 <= m < vols@.len() ==> 0 <= #[trigger] vols@[m] <= crate::problem::MAX_VOLUME,
            forall|m: int| 0 <= m < syns@.len() ==> 0 <= #[trigger] syns@[m] <= SYN_BOUND,
        ensures
            r == scene_sum(*self, placements@, to_int_seq(vols@), to_int_seq(syns@),
                self.attendees@.len() as int),
    {
        let la = self.attendees.len();
        let mut total: i128 = 0;
        let mut a: usize = 0;
        while a < la
            invariant
                self.wf(),
                la == self.attendees@.len(),
                placements@.len() == self.musicians@.len(),
                vols@.len() == self.musicians@.len(),
                syns@.len() == self.musicians@.len(),
                crate::geometry::all_coords_ok(placements@),
                attendees_clear(*self, placements@),
                forall|m: int|
                    0 <= m < vols@.len() ==> 0 <= #[trigger] vols@[m]
                        <= crate::problem::MAX_VOLUME,
                forall|m: int| 0 <= m < syns@.len() ==> 0 <= #[trigger] syns@[m] <= SYN_BOUND,
                a <= la,
                total == scene_sum(*self, placements@, to_int_seq(vols@), to_int_seq(syns@),
                    a as int),
                -(a as int) * 20_000_000_000_000_000_000_000_000_000_000 <= total <= (a as int)
                    * 20_000_000_000_000_000_000_000_000_000_000,
            decreases la - a,
        {
            let s = self.attendee_score(a, placements, vols, syns);
            proof {
                assert((crate::problem::MAX_COUNT as int) * TERM_BOUND
                    == 20_000_000_000_000_000_000_000_000_000_000) by (nonlinear_arith);
            }
            total = total + s;
            a = a + 1;
        }
        total
    }

    /// The synergy multipliers in effect for this placement: the same-type
    /// multipliers when the scene has pillars, else one for every musician.
    fn effective_syns_exec(&self, placements: &Vec<Point>) -> (r: Vec<i64>)
        requires
            self.wf(),
            placements@.len() == self.musicians@.len(),
            crate::geometry::all_coords_ok(placements@),
            self.pillars@.len() > 0 ==> same_type_separated(self.musicians@, placements@),
        ensures
            r@.len() == self.musicians@.len(),
            to_int_seq(r@) == effective_syns(*self, placements@),
            forall|m: int| 0 <= m < r@.len() ==> 0 <= #[trigger] r@[m] <= SYN_BOUND,
    {
        let r = if self.pillars.len() > 0 {
            self.calc_playing_together(placements)
        } else {
            repeat_value(self.musicians.len(), SYN_ONE)
        };
        proof {
            assert(to_int_seq(r@) =~= effective_syns(*self, placements@));
        }
        r
    }

    /// The full-scene score of a placement at default volume: the sum over
    /// all attendees and visible musicians of the per-pair rounded terms.
    /// A placement of the wrong length is a `StructuralMismatch`.
    pub fn score(&self, placements: &Vec<Point>) -> (r: Result<i128, SolverError>)
        requires
            self.wf(),
            placements@.len() == self.musicians@.len() ==> crate::geometry::all_coords_ok(
                placements@,
            ) && attendees_clear(*self, placements@) && (self.pillars@.len() > 0
                ==> same_type_separated(self.musicians@, placements@)),
        ensures
            r is Err <==> placements@.len() != self.musicians@.len(),
            r is Err ==> r == Err::<i128, SolverError>(SolverError::StructuralMismatch),
            placements@.len() == self.musicians@.len() ==> (r is Ok && r->Ok_0 == scene_score(
                *self, placements@,
                vols_of(Option::None, self.musicians@.len() as int),
            )),
    {
        if placements.len() != self.musicians.len() {
            return Err(SolverError::StructuralMismatch);
        }
        let n = self.musicians.len();
        let vols = repeat_value(n, crate::problem::DEFAULT_VOLUME);
        let syns = self.effective_syns_exec(placements);
        proof {
            assert(to_int_seq(vols@) =~= vols_of(Option::<Vec<i64>>::None, n as int));
        }
        Ok(self.scene_score_exec(placements, &vols, &syns))
    }

    /// The full-scene score of a solution, with the solution's volumes (or
    /// the default where absent). A placement of the wrong length is a
    /// `StructuralMismatch`.
    pub fn score_fast(&self, solution: &Solution) -> (r: Result<i128, SolverError>)
        requires
            self.wf(),
            solution.placements@.len() == self.musicians@.len()
                ==> crate::geometry::all_coords_ok(solution.placements@) && attendees_clear(
                *self, solution.placements@) && (self.pillars@.len() > 0 ==> same_type_separated(
                self.musicians@, solution.placements@)) && (solution.volumes is Some ==> (
            solution.volumes->0@.len() == self.musicians@.len() && crate::problem::volumes_ok(
                solution.volumes->0@,
            ))),
        ensures
            r is Err <==> solution.placements@.len() != self.musicians@.len(),
            r is Err ==> r == Err::<i128, SolverError>(SolverError::StructuralMismatch),
            solution.placements@.len() == self.musicians@.len() ==> (r is Ok && r->Ok_0
                == scene_score(*self, solution.placements@,
                vols_of(solution.volumes, self.musicians@.len() as int))),
    {
        if solution.placements.len() != self.musicians.len() {
            return Err(SolverError::StructuralMismatch);
        }
        let n = self.musicians.len();
        let vols: Vec<i64> = match &solution.volumes {
            Some(v) => copy_values(v),
            None => repeat_value(n, crate::problem::DEFAULT_VOLUME),
        };
        proof {
            assert(to_int_seq(vols@) =~= vols_of(solution.volumes, n as int));
        }
        let syns = self.effective_syns_exec(&solution.placements);
        Ok(self.scene_score_exec(&solution.placements, &vols, &syns))
    }

    /// The contribution of one attendee to a solution's score. The `impacts`
    /// vector carries each musician's synergy multiplier in millionths, as
    /// `calc_playing_together` computes it (or `SYN_ONE` throughout when the
    /// scene has no pillars).
    pub fn score_attendee_fast(
        &self,
        attendee_id: usize,
        solution: &Solution,
        impacts: &Vec<i64>,
    ) -> (r: i128)
        requires
            self.wf(),
            attendee_id < self.attendees@.len(),
            solution.placements@.len() == self.musicians@.len(),
            impacts@.len() == self.musicians@.len(),
            crate::geometry::all_coords_ok(solution.placements@),
            forall|m: int|
                0 <= m < solution.placements@.len() ==> #[trigger] dist_sq(
                    self.attendees@[attendee_id as int].pos_spec(), solution.placements@[m]) >= 1,
            solution.volumes is Some ==> (solution.volumes->0@.len() == self.musicians@.len()
                && crate::problem::volumes_ok(solution.volumes->0@)),
            forall|m: int| 0 <= m < impacts@.len() ==> 0 <= #[trigger] impacts@[m] <= SYN_BOUND,
        ensures
            r == attendee_total(*self, solution.placements@,
                vols_of(solution.volumes, self.musicians@.len() as int), to_int_seq(impacts@),
                attendee_id as int),
    {
        let n = self.musicians.len();
        let vols: Vec<i64> = match &solution.volumes {
            Some(v) => copy_values(v),
            None => repeat_value(n, crate::problem::DEFAULT_VOLUME),
        };
        proof {
            assert(to_int_seq(vols@) =~= vols_of(solution.volumes, n as int));
        }
        self.attendee_score(attendee_id, &solution.placements, &vols, impacts)
    }
}

} // verus!
