//! Scene construction and scoring against fixed reference values.

use solver::geometry::{Point, Segment};
use solver::problem::{Attendee, Input, Pillar, Solution, SolverError};

fn pt(x: i64, y: i64) -> Point {
    Point { x, y }
}

/// The reference scene: a 1000 by 200 stage at offset (500, 0) in a 2000
/// by 5000 room, three musicians of instruments [0, 1, 0], and three
/// attendees. Coordinates are in thousandths of a unit.
fn sample_input(with_pillar: bool) -> Input {
    Input {
        room_width: 2_000_000,
        room_height: 5_000_000,
        stage_width: 1_000_000,
        stage_height: 200_000,
        stage_bottom_left: pt(500_000, 0),
        musicians: vec![0, 1, 0],
        attendees: vec![
            Attendee { x: 100_000, y: 500_000, tastes: vec![1_000, -1_000] },
            Attendee { x: 200_000, y: 1_000_000, tastes: vec![200, 200] },
            Attendee { x: 1_100_000, y: 800_000, tastes: vec![800, 1_500] },
        ],
        pillars: if with_pillar {
            vec![Pillar { center: pt(500_000, 1_000_000), radius: 5_000 }]
        } else {
            vec![]
        },
    }
}

fn sample_placements() -> Vec<Point> {
    vec![pt(590_000, 10_000), pt(1_100_000, 100_000), pt(1_100_000, 150_000)]
}

#[test]
fn sample_eval() {
    let input = sample_input(false);
    let solution = Solution { placements: sample_placements(), volumes: None };
    let score = solution.score(&input).unwrap();
    assert_eq!(score, 5343);
}

#[test]
fn sample_eval_with_full() {
    let input = sample_input(true);
    let solution = Solution { placements: sample_placements(), volumes: None };
    let score = solution.score(&input).unwrap();
    assert_eq!(score, 5357);
}

#[test]
fn score_with_full_volume() {
    let input = sample_input(false);
    let solution = Solution {
        placements: sample_placements(),
        volumes: Some(vec![10_000, 10_000, 10_000]),
    };
    assert_eq!(solution.score(&input).unwrap(), 53_430);
}

#[test]
fn empty_attendee_list_scores_zero() {
    let mut input = sample_input(false);
    input.attendees = vec![];
    let solution = Solution { placements: sample_placements(), volumes: None };
    assert_eq!(solution.score(&input).unwrap(), 0);
}

#[test]
fn raw_impact_reference_values() {
    let input = sample_input(false);
    let placements = sample_placements();
    assert_eq!(input.raw_impact(0, 0, &placements[0]), 2_083);
    // a negative taste gives a negative impact, still rounded toward +inf
    assert_eq!(input.raw_impact(0, 1, &placements[1]), -862);
    assert_eq!(input.raw_impact(2, 2, &placements[2]), 1_894);
}

#[test]
fn impact_blocked_pair_is_zero() {
    let input = sample_input(false);
    let placements = sample_placements();
    // musician 1 is hidden from attendee 2 by musician 2's blocking disk
    assert_eq!(input.impact(2, 1, &placements), Ok(0));
    assert_eq!(input.impact(0, 0, &placements), Ok(2_083));
}

#[test]
fn impact_wrong_length_is_structural_mismatch() {
    let input = sample_input(false);
    let placements = vec![pt(590_000, 10_000)];
    assert_eq!(input.impact(0, 0, &placements), Err(SolverError::StructuralMismatch));
    assert!(input.score(&placements) == Err(SolverError::StructuralMismatch));
}

#[test]
fn calc_playing_together_reference_values() {
    let input = sample_input(true);
    let placements = sample_placements();
    let syn = input.calc_playing_together(&placements);
    assert_eq!(syn, vec![1_001_890, 1_000_000, 1_001_890]);
}

#[test]
fn score_attendee_fast_sums_to_scene_score() {
    let input = sample_input(true);
    let solution = Solution { placements: sample_placements(), volumes: None };
    let impacts = input.calc_playing_together(&solution.placements);
    let mut total = 0i128;
    for a in 0..input.attendees.len() {
        total += input.score_attendee_fast(a, &solution, &impacts);
    }
    assert_eq!(total, 5357);
}

#[test]
fn raw_score_for_instrument_sums_raw_impacts() {
    let input = sample_input(false);
    let point = pt(590_000, 10_000);
    let ids = vec![0usize, 1, 2];
    // 2083 + 177 + 905, the raw impacts of instrument 0 at this point
    assert_eq!(input.raw_score_for_instrument(point, 0, &ids), 3_165);
}

#[test]
fn clearance_rejection() {
    let mut input = sample_input(false);
    input.musicians = vec![0, 0];
    // two musicians 9.999 units apart violate the clearance
    let close = vec![pt(600_000, 100_000), pt(609_999, 100_000)];
    assert_eq!(input.is_valid_placements(&close), Err(SolverError::ConstraintViolation));
    // exactly 10 units apart is allowed (the boundary is inclusive)
    let touching = vec![pt(600_000, 100_000), pt(610_000, 100_000)];
    assert_eq!(input.is_valid_placements(&touching), Ok(()));
}

#[test]
fn stage_border_rejection() {
    let input = sample_input(false);
    // x = 509.999 units is 9.999 from the stage's left edge at 500
    let placements = vec![pt(509_999, 100_000), pt(1_100_000, 100_000), pt(1_100_000, 150_000)];
    assert_eq!(input.is_valid_placements(&placements), Err(SolverError::ConstraintViolation));
    let placements = vec![pt(510_000, 100_000), pt(1_100_000, 100_000), pt(1_100_000, 150_000)];
    assert_eq!(input.is_valid_placements(&placements), Ok(()));
}

#[test]
fn segment_distance_boundary() {
    let seg = Segment { p1: Point { x: 0, y: 0 }, p2: Point { x: 10_000, y: 0 } };
    // 5 units above the middle: distance is exactly 5
    assert!(seg.dist_within(&pt(5_000, 5_000), 5_000));
    assert!(!seg.dist_within(&pt(5_000, 5_000), 4_999));
    // 1 unit beyond the start: distance to the endpoint
    assert!(seg.dist_within(&pt(-1_000, 0), 1_000));
    assert!(!seg.dist_within(&pt(-1_000, 0), 999));
    // diagonal from the endpoint: sqrt(2) units, between 1.414 and 1.415
    assert!(seg.dist_within(&pt(-1_000, 1_000), 1_415));
    assert!(!seg.dist_within(&pt(-1_000, 1_000), 1_414));
}

#[test]
fn attendee_pos_roundtrip() {
    let a = Attendee { x: 7, y: -3, tastes: vec![] };
    let p = a.pos();
    assert_eq!((p.x, p.y), (7, -3));
}
