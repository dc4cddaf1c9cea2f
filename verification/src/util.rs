//! Scene reduction: a scoring approximation that keeps only the attendees
//! nearest to the stage, ordered by their exact squared distance to the
//! stage border.

use vstd::prelude::*;

use crate::geometry::{coord_ok, Point};
use crate::problem::{Attendee, Input, Pillar};

verus! {

/// How far a value lies outside the closed interval `[lo, hi]`.
pub open spec fn excess(v: int, lo: int, hi: int) -> int {
    if v < lo {
        lo - v
    } else if v > hi {
        v - hi
    } else {
        0
    }
}

/// The squared distance from a point to the stage rectangle's border is
/// the squared distance to the nearest of its four sides; for a point
/// outside the rectangle this is the squared distance to the rectangle,
/// and for a point inside it is the squared distance to the closest side.
pub open spec fn border_key(input: Input, p: Point) -> int {
    let x1 = input.stage_bottom_left.x as int;
    let y1 = input.stage_bottom_left.y as int;
    let x2 = x1 + input.stage_width;
    let y2 = y1 + input.stage_height;
    let ex = excess(p.x as int, x1, x2);
    let ey = excess(p.y as int, y1, y2);
    let bottom = ex * ex + (p.y - y1) * (p.y - y1);
    let top = ex * ex + (p.y - y2) * (p.y - y2);
    let left = (p.x - x1) * (p.x - x1) + ey * ey;
    let right = (p.x - x2) * (p.x - x2) + ey * ey;
    let h = if bottom < top {
        bottom
    } else {
        top
    };
    let v = if left < right {
        left
    } else {
        right
    };
    if h < v {
        h
    } else {
        v
    }
}

/// Computes the squared distance from `p` to one horizontal or vertical
/// side, as `excess` on one axis and offset on the other.
fn side_dist_sq(ex: i64, off_a: i64, off_b: i64) -> (r: i128)
    requires
        -2_000_000_000 <= ex <= 2_000_000_000,
        -2_000_000_000 <= off_a <= 2_000_000_000,
        -2_000_000_000 <= off_b <= 2_000_000_000,
    ensures
        r == ex * ex + (off_a - off_b) * (off_a - off_b),
{
    let e: i128 = ex as i128;
    let d: i128 = off_a as i128 - off_b as i128;
    proof {
        crate::geometry::lemma_abs_mul_bound(e as int, e as int, 2_000_000_000, 2_000_000_000);
        crate::geometry::lemma_abs_mul_bound(d as int, d as int, 4_000_000_000, 4_000_000_000);
        assert(e * e >= 0 && d * d >= 0) by (nonlinear_arith);
    }
    e * e + d * d
}

/// Computes `excess` in executable code.
fn excess_exec(v: i64, lo: i64, hi: i64) -> (r: i64)
    requires
        -2_000_000_000 <= v <= 2_000_000_000,
        -2_000_000_000 <= lo <= 2_000_000_000,
        -2_000_000_000 <= hi <= 2_000_000_000,
    ensures
        r == excess(v as int, lo as int, hi as int),
        -4_000_000_000 <= r <= 4_000_000_000,
{
    if v < lo {
        lo - v
    } else if v > hi {
        v - hi
    } else {
        0
    }
}

/// Computes the squared distance from a point to the stage border.
fn border_key_exec(input: &Input, p: &Point) -> (r: i128)
    requires
        input.wf(),
        coord_ok(*p),
    ensures
        r == border_key(*input, *p),
{
    let x1 = input.stage_bottom_left.x;
    let y1 = input.stage_bottom_left.y;
    let x2 = x1 + input.stage_width;
    let y2 = y1 + input.stage_height;
    let ex = excess_exec(p.x, x1, x2);
    let ey = excess_exec(p.y, y1, y2);
    proof {
        assert(ex <= 2_000_000_000 && ey <= 2_000_000_000);
    }
    let bottom = side_dist_sq(ex, p.y, y1);
    let top = side_dist_sq(ex, p.y, y2);
    let left = side_dist_sq(ey, p.x, x1);
    let right = side_dist_sq(ey, p.x, x2);
    proof {
        assert((p.x - x1) * (p.x - x1) + ey * ey == ey * ey + (p.x - x1) * (p.x - x1));
        assert((p.x - x2) * (p.x - x2) + ey * ey == ey * ey + (p.x - x2) * (p.x - x2));
    }
    let h = if bottom < top {
        bottom
    } else {
        top
    };
    let v = if left < right {
        left
    } else {
        right
    };
    if h < v {
        h
    } else {
        v
    }
}

/// Copies a vector of instrument tags.
fn copy_usizes(v: &Vec<usize>) -> (r: Vec<usize>)
    ensures
        r@ == v@,
{
    let mut r: Vec<usize> = Vec::new();
    let mut k: usize = 0;
    while k < v.len()
        invariant
            k <= v@.len(),
            r@ == v@.take(k as int),
        decreases v@.len() - k,
    {
        r.push(v[k]);
        proof {
            assert(r@ =~= v@.take(k + 1));
        }
        k = k + 1;
    }
    proof {
        assert(v@.take(v@.len() as int) =~= v@);
    }
    r
}

/// Copies a vector of pillars.
fn copy_pillars(v: &Vec<Pillar>) -> (r: Vec<Pillar>)
    ensures
        r@ == v@,
{
    let mut r: Vec<Pillar> = Vec::new();
    let mut k: usize = 0;
    while k < v.len()
        invariant
            k <= v@.len(),
            r@ == v@.take(k as int),
        decreases v@.len() - k,
    {
        r.push(v[k]);
        proof {
            assert(r@ =~= v@.take(k + 1));
        }
        k = k + 1;
    }
    proof {
        assert(v@.take(v@.len() as int) =~= v@);
    }
    r
}

/// Keeps only the `num` attendees nearest to the stage border (all of them
/// when there are no more than `num`), in nondecreasing order of exact
/// squared border distance. Everything else about the scene is unchanged.
pub fn reduce_attendees(input: &Input, num: usize) -> (r: Input)
    requires
        input.wf(),
    ensures
        r.room_width == input.room_width,
        r.room_height == input.room_height,
        r.stage_width == input.stage_width,
        r.stage_height == input.stage_height,
        r.stage_bottom_left == input.stage_bottom_left,
        r.musicians@ == input.musicians@,
        r.pillars@ == input.pillars@,
        r.attendees@.len() == (
        if num <= input.attendees@.len() {
            num as int
        } else {
            input.attendees@.len() as int
        }),
        exists|ord: Seq<usize>|
            #![trigger ord.len()]
            {
                &&& ord.len() == input.attendees@.len()
                &&& (forall|k: int|
                    0 <= k < ord.len() ==> (#[trigger] ord[k]) < input.attendees@.len())
                &&& (forall|k: int, l: int| 0 <= k < l < ord.len() ==> ord[k] != ord[l])
                &&& (forall|k: int, l: int|
                    0 <= k < l < ord.len() ==> border_key(*input,
                        input.attendees@[#[trigger] ord[k] as int].pos_spec()) <= border_key(
                        *input, input.attendees@[#[trigger] ord[l] as int].pos_spec()))
                &&& (forall|k: int|
                    0 <= k < r.attendees@.len() ==> {
                        let src = input.attendees@[ord[k] as int];
                        (#[trigger] r.attendees@[k]).x == src.x && r.attendees@[k].y == src.y
                            && r.attendees@[k].tastes@ == src.tastes@
                    })
            },
        r.wf(),
{
    let n = input.attendees.len();
    let mut keys: Vec<i128> = Vec::new();
    let mut k: usize = 0;
    while k < n
        invariant
            input.wf(),
            n == input.attendees@.len(),
            k <= n,
            keys@.len() == k,
            forall|i: int|
                0 <= i < k ==> (#[trigger] keys@[i]) == border_key(*input,
                    input.attendees@[i].pos_spec()),
        decreases n - k,
    {
        let apos = input.attendees[k].pos();
        keys.push(border_key_exec(input, &apos));
        k = k + 1;
    }
    let mut ord: Vec<usize> = Vec::new();
    let mut k: usize = 0;
    while k < n
        invariant
            k <= n,
            ord@.len() == k,
            forall|i: int| 0 <= i < k ==> (#[trigger] ord@[i]) == i,
        decreases n - k,
    {
        ord.push(k);
        k = k + 1;
    }
    // selection sort of the index array by key
    let mut i: usize = 0;
    while i < n
        invariant
            n == input.attendees@.len(),
            keys@.len() == n,
            forall|t: int|
                0 <= t < n ==> (#[trigger] keys@[t]) == border_key(*input,
                    input.attendees@[t].pos_spec()),
            ord@.len() == n,
            i <= n,
            forall|t: int| 0 <= t < n ==> (#[trigger] ord@[t]) < n,
            forall|t: int, u: int| 0 <= t < u < n ==> ord@[t] != ord@[u],
            forall|t: int, u: int|
                0 <= t < u < i ==> keys@[(#[trigger] ord@[t]) as int]
                    <= keys@[(#[trigger] ord@[u]) as int],
            forall|t: int, u: int|
                0 <= t < i <= u < n ==> keys@[(#[trigger] ord@[t]) as int]
                    <= keys@[(#[trigger] ord@[u]) as int],
        decreases n - i,
    {
        let mut mi: usize = i;
        let mut j: usize = i + 1;
        while j < n
            invariant
                n == keys@.len(),
                ord@.len() == n,
                i < n,
                i <= mi < j <= n,
                forall|t: int| 0 <= t < n ==> (#[trigger] ord@[t]) < n,
                forall|t: int|
                    i <= t < j ==> keys@[ord@[mi as int] as int]
                        <= keys@[(#[trigger] ord@[t]) as int],
            decreases n - j,
        {
            if keys[ord[j]] < keys[ord[mi]] {
                mi = j;
            }
            j = j + 1;
        }
        let a = ord[i];
        let b = ord[mi];
        ord[i] = b;
        ord[mi] = a;
        proof {
            assert forall|t: int, u: int| 0 <= t < u < n implies ord@[t] != ord@[u] by {
                assert(ord@ == ord@);
            }
        }
        i = i + 1;
    }
    let keep = if num < n {
        num
    } else {
        n
    };
    let mut new_attendees: Vec<Attendee> = Vec::new();
    let mut k: usize = 0;
    while k < keep
        invariant
            input.wf(),
            n == input.attendees@.len(),
            keep <= n,
            ord@.len() == n,
            forall|t: int| 0 <= t < n ==> (#[trigger] ord@[t]) < n,
            k <= keep,
            new_attendees@.len() == k,
            forall|t: int|
                0 <= t < k ==> {
                    let src = input.attendees@[ord@[t] as int];
                    (#[trigger] new_attendees@[t]).x == src.x && new_attendees@[t].y == src.y
                        && new_attendees@[t].tastes@ == src.tastes@
                },
        decreases keep - k,
    {
        let src = &input.attendees[ord[k]];
        let a = Attendee { x: src.x, y: src.y, tastes: crate::scoring::copy_values(&src.tastes) };
        new_attendees.push(a);
        k = k + 1;
    }
    let r = Input {
        room_width: input.room_width,
        room_height: input.room_height,
        stage_width: input.stage_width,
        stage_height: input.stage_height,
        stage_bottom_left: input.stage_bottom_left,
        musicians: copy_usizes(&input.musicians),
        attendees: new_attendees,
        pillars: copy_pillars(&input.pillars),
    };
    proof {
        assert forall|a: int, m: int|
            0 <= a < r.attendees@.len() && 0 <= m < r.musicians@.len()
            implies (#[trigger] r.musicians@[m]) < (#[trigger] r.attendees@[a]).tastes@.len() by {
            let src = input.attendees@[ord@[a] as int];
            assert(input.musicians@[m] < src.tastes@.len());
        }
        assert forall|a: int|
            0 <= a < r.attendees@.len()
            implies coord_ok((#[trigger] r.attendees@[a]).pos_spec()) by {
            let src = input.attendees@[ord@[a] as int];
            assert(coord_ok(src.pos_spec()));
        }
        assert forall|a: int, t: int|
            0 <= a < r.attendees@.len() && 0 <= t < r.attendees@[a].tastes@.len()
            implies -crate::problem::MAX_TASTE <= (#[trigger] r.attendees@[a].tastes@[t])
                <= crate::problem::MAX_TASTE by {
            let src = input.attendees@[ord@[a] as int];
            assert(-crate::problem::MAX_TASTE <= src.tastes@[t] <= crate::problem::MAX_TASTE);
        }
    }
    r
}

} // verus!
