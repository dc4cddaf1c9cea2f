//! The incremental index against from-scratch scoring, and the move and
//! revert behaviour.

use solver::geometry::Point;
use solver::index::ScoringIndex;
use solver::problem::{Attendee, Input, Pillar, Solution};

fn pt(x: i64, y: i64) -> Point {
    Point { x, y }
}

fn sample_input(with_pillar: bool) -> Input {
    Input {
        room_width: 2_000_000,
        room_height: 5_000_000,
        stage_width: 1_000_000,
        stage_height: 200_000,
        stage_bottom_left: pt(500_000, 0),
        musicians: vec![0, 1, 0],
        attendees: vec![
            Attendee { x: 100_000, y: 500_000, tastes: vec![1_000, -1_000] },
            Attendee { x: 200_000, y: 1_000_000, tastes: vec![200, 200] },
            Attendee { x: 1_100_000, y: 800_000, tastes: vec![800, 1_500] },
        ],
        pillars: if with_pillar {
            vec![Pillar { center: pt(500_000, 1_000_000), radius: 5_000 }]
        } else {
            vec![]
        },
    }
}

fn sample_placements() -> Vec<Point> {
    vec![pt(590_000, 10_000), pt(1_100_000, 100_000), pt(1_100_000, 150_000)]
}

fn default_volumes() -> Vec<i64> {
    vec![1_000, 1_000, 1_000]
}

#[test]
fn index_matches_batch_score_without_pillars() {
    // with no pillars and whole-unit volumes the per-musician rounding of
    // the index agrees exactly with the per-pair rounding of the batch score
    let input = sample_input(false);
    let placements = sample_placements();
    let index = ScoringIndex::new(&input, &placements, &default_volumes());
    assert_eq!(index.get_score(&input), 5343);
    let solution = Solution { placements, volumes: None };
    assert_eq!(solution.score(&input).unwrap(), 5343);
}

#[test]
fn index_rounds_per_musician_with_pillars() {
    // with synergy active the index rounds once per musician, the batch
    // score once per pair; on this scene the totals differ by two
    let input = sample_input(true);
    let placements = sample_placements();
    let index = ScoringIndex::new(&input, &placements, &default_volumes());
    assert_eq!(index.get_score(&input), 5355);
    let solution = Solution { placements: sample_placements(), volumes: None };
    assert_eq!(solution.score(&input).unwrap(), 5357);
}

#[test]
fn incremental_move_matches_batch_score() {
    let input = sample_input(false);
    let placements = sample_placements();
    let mut index = ScoringIndex::new(&input, &placements, &default_volumes());
    let accepted = index.move_musician(&input, 0, pt(600_000, 50_000));
    assert!(accepted);
    assert_eq!(index.get_score(&input), 5_562);
    let moved = vec![pt(600_000, 50_000), pt(1_100_000, 100_000), pt(1_100_000, 150_000)];
    let solution = Solution { placements: moved, volumes: None };
    assert_eq!(solution.score(&input).unwrap(), 5_562);
}

#[test]
fn move_and_revert_restores_score() {
    let input = sample_input(true);
    let placements = sample_placements();
    let mut index = ScoringIndex::new(&input, &placements, &default_volumes());
    let before = index.get_score(&input);
    assert!(index.move_musician(&input, 0, pt(600_000, 50_000)));
    let during = index.get_score(&input);
    assert_ne!(before, during);
    assert!(index.move_musician(&input, 0, pt(590_000, 10_000)));
    assert_eq!(index.get_score(&input), before);
}

#[test]
fn invalid_moves_are_rejected() {
    let input = sample_input(false);
    let placements = sample_placements();
    let mut index = ScoringIndex::new(&input, &placements, &default_volumes());
    let before = index.get_score(&input);
    // off the stage
    assert!(!index.move_musician(&input, 0, pt(100_000, 100_000)));
    // within the clearance radius of musician 2
    assert!(!index.move_musician(&input, 1, pt(1_100_000, 145_000)));
    // exactly at the clearance radius is allowed
    assert!(index.is_valid_move(&input, 1, pt(1_100_000, 140_000)));
    assert_eq!(index.get_score(&input), before);
}

#[test]
fn blocking_obstruction_roundtrip() {
    // an emitter moved onto the sightline hides another emitter; moving it
    // away restores the original score (increase/decrease round trip)
    let input = sample_input(false);
    let placements = sample_placements();
    let mut index = ScoringIndex::new(&input, &placements, &default_volumes());
    let before = index.get_score(&input);
    // musician 0 steps onto the sightline from attendee 2 to musician 2
    assert!(index.move_musician(&input, 0, pt(1_100_000, 170_000)));
    let blocked = index.get_score(&input);
    assert_ne!(before, blocked);
    assert!(index.move_musician(&input, 0, pt(590_000, 10_000)));
    assert_eq!(index.get_score(&input), before);
}
