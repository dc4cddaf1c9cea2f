//! The assignment solver against brute force, the candidate generators,
//! the visibility functions and the attendee reduction.

use solver::geometry::Point;
use solver::occlusion::{filter_placements_blocked_by_pillars, get_non_blocked_placement_ids};
use solver::placement::PlacementGenerator;
use solver::problem::{Attendee, Input, Pillar, SolverError};
use solver::util::reduce_attendees;

fn pt(x: i64, y: i64) -> Point {
    Point { x, y }
}

fn sample_input(with_pillar: bool) -> Input {
    Input {
        room_width: 2_000_000,
        room_height: 5_000_000,
        stage_width: 1_000_000,
        stage_height: 200_000,
        stage_bottom_left: pt(500_000, 0),
        musicians: vec![0, 1, 0],
        attendees: vec![
            Attendee { x: 100_000, y: 500_000, tastes: vec![1_000, -1_000] },
            Attendee { x: 200_000, y: 1_000_000, tastes: vec![200, 200] },
            Attendee { x: 1_100_000, y: 800_000, tastes: vec![800, 1_500] },
        ],
        pillars: if with_pillar {
            vec![Pillar { center: pt(500_000, 1_000_000), radius: 5_000 }]
        } else {
            vec![]
        },
    }
}

#[test]
fn visibility_lists() {
    let input = sample_input(false);
    let placements = vec![pt(590_000, 10_000), pt(1_100_000, 100_000), pt(1_100_000, 150_000)];
    // attendee 2 sits above the stage; musician 2 hides musician 1 from it
    let ids = get_non_blocked_placement_ids(input.attendees[2].pos(), &placements);
    assert_eq!(ids, vec![0, 2]);
    // all three musicians are visible from attendee 0
    let ids = get_non_blocked_placement_ids(input.attendees[0].pos(), &placements);
    assert_eq!(ids, vec![0, 1, 2]);
}

#[test]
fn obstruction_blocks_and_removal_restores() {
    // a blocking disk within 5 units of the sightline hides the emitter
    let listener = pt(0, 0);
    let clear = vec![pt(20_000, 0)];
    assert_eq!(get_non_blocked_placement_ids(listener, &clear), vec![0]);
    // the second emitter sits 3 units from the sightline: emitter 0 is hidden
    let blocked = vec![pt(20_000, 0), pt(10_000, 3_000)];
    assert_eq!(get_non_blocked_placement_ids(listener, &blocked), vec![1]);
    // removing the obstruction restores the original visible set
    assert_eq!(get_non_blocked_placement_ids(listener, &clear), vec![0]);
}

#[test]
fn visible_attendees_from_a_point() {
    let input = sample_input(false);
    // the other musicians' disks: the one at (1100, 150) hides attendee 2
    let others = vec![pt(590_000, 10_000), pt(1_100_000, 150_000)];
    let ids = input.get_visible_attendees(pt(1_100_000, 100_000), &others);
    assert_eq!(ids, vec![0, 1]);
    // with no musicians placed, every attendee is visible
    let ids = input.get_visible_attendees(pt(1_100_000, 100_000), &vec![]);
    assert_eq!(ids, vec![0, 1, 2]);
}

#[test]
fn pillar_filter_boundary() {
    let listener = pt(0, 0);
    let placements = vec![pt(20_000, 0)];
    let ids = vec![0usize];
    // a pillar exactly 5 units from the sightline blocks (inclusive)
    let touching = vec![Pillar { center: pt(10_000, 5_000), radius: 5_000 }];
    assert_eq!(
        filter_placements_blocked_by_pillars(listener, &placements, &touching, &ids),
        Vec::<usize>::new()
    );
    let clear = vec![Pillar { center: pt(10_000, 5_001), radius: 5_000 }];
    assert_eq!(filter_placements_blocked_by_pillars(listener, &placements, &clear, &ids), vec![0]);
}

#[test]
fn matching_beats_every_permutation() {
    let input = sample_input(false);
    // four candidate sites across the stage front
    let candidates = vec![
        pt(510_000, 10_000),
        pt(700_000, 10_000),
        pt(1_100_000, 10_000),
        pt(1_480_000, 10_000),
    ];
    let matrix = input.create_matching_matrix(&candidates);
    let (total, picked) = input.exact_match_candidates(&candidates);
    assert_eq!(picked.len(), 3);
    // brute force every assignment of 3 musicians to 4 distinct sites
    let mut best = i128::MIN;
    for a in 0..4 {
        for b in 0..4 {
            for c in 0..4 {
                if a != b && a != c && b != c {
                    let s = matrix[0][a] + matrix[1][b] + matrix[2][c];
                    if s > best {
                        best = s;
                    }
                }
            }
        }
    }
    assert_eq!(total, best);
}

#[test]
fn boosted_matching_clamps_and_amplifies() {
    let input = sample_input(false);
    let candidates = vec![
        pt(510_000, 10_000),
        pt(700_000, 10_000),
        pt(1_100_000, 10_000),
        pt(1_480_000, 10_000),
    ];
    let matrix = input.create_matching_matrix(&candidates);
    // musician 1 at site 0 has a negative raw total, clamped to zero
    assert_eq!(matrix[1][0], -720);
    let (total, picked, volumes) = input.exact_match_candidates_with_volumes(&candidates);
    assert_eq!(picked.len(), 3);
    // brute force over the boosted matrix
    let boost = |e: i128| if e < 0 { 0 } else { 10 * e };
    let mut best = i128::MIN;
    for a in 0..4 {
        for b in 0..4 {
            for c in 0..4 {
                if a != b && a != c && b != c {
                    let s = boost(matrix[0][a]) + boost(matrix[1][b]) + boost(matrix[2][c]);
                    if s > best {
                        best = s;
                    }
                }
            }
        }
    }
    assert_eq!(total, best);
    assert_eq!(total, 80_200);
    // every chosen site here has a positive boosted weight: full volume
    assert_eq!(volumes, vec![10_000, 10_000, 10_000]);
}

#[test]
fn solve_assignment_produces_valid_placement() {
    let input = sample_input(true);
    let candidates = input.generate_first_level_candidates();
    assert!(candidates.len() >= input.musicians.len());
    let placements = input.solve_assignment(&candidates).unwrap();
    assert_eq!(input.is_valid_placements(&placements), Ok(()));
}

#[test]
fn solve_assignment_rejects_short_candidate_list() {
    let input = sample_input(false);
    let candidates: Vec<Point> = vec![];
    assert!(matches!(
        input.solve_assignment(&candidates),
        Err(SolverError::PreconditionViolation)
    ));
}

#[test]
fn candidate_generators_stay_on_stage() {
    let input = sample_input(false);
    let generator = PlacementGenerator::new(&input);
    assert!(!generator.cartesian_coordinate_candidates.is_empty());
    assert!(!generator.honeycomb_candidates.is_empty());
    for p in generator.cartesian_coordinate_candidates.iter() {
        assert!(input.in_stage(p));
    }
    for p in generator.honeycomb_candidates.iter() {
        assert!(input.in_stage(p));
    }
    // the honeycomb packs sites more densely than the square grid
    assert!(generator.honeycomb_candidates.len() > generator.cartesian_coordinate_candidates.len());
}

#[test]
fn solve_assignment_draws_from_the_candidates() {
    let input = sample_input(false);
    let candidates = input.generate_first_level_candidates();
    let placements = input.solve_assignment(&candidates).unwrap();
    assert_eq!(placements.len(), input.musicians.len());
    for p in &placements {
        assert!(candidates.contains(p));
    }
}

#[test]
fn candidate_generators_start_at_the_near_corner() {
    let input = sample_input(false);
    let generator = PlacementGenerator::new(&input);
    let corner = pt(510_000, 10_000);
    assert_eq!(generator.cartesian_coordinate_candidates[0], corner);
    assert_eq!(generator.honeycomb_candidates[0], corner);
    // the 1000 by 200 stage holds a 50 by 10 double-clearance grid
    assert_eq!(generator.cartesian_coordinate_candidates.len(), 500);
}

#[test]
fn small_grid_yields_every_node() {
    // a 30 by 30 stage has a 2 by 2 site grid; five musicians do not fit
    let mut input = sample_input(false);
    input.stage_width = 30_000;
    input.stage_height = 30_000;
    input.stage_bottom_left = pt(0, 0);
    input.musicians = vec![0, 0, 0, 0, 0];
    let candidates = input.generate_first_level_candidates();
    assert_eq!(candidates.len(), 4);
    assert!(matches!(
        input.solve_assignment(&candidates),
        Err(SolverError::PreconditionViolation)
    ));
}

#[test]
fn reduce_attendees_keeps_nearest_to_stage() {
    let input = sample_input(false);
    let reduced = reduce_attendees(&input, 2);
    assert_eq!(reduced.attendees.len(), 2);
    // attendee 0 is 500 units from the stage border, attendee 2 is 600,
    // attendee 1 is about 854: the two nearest are kept, nearest first
    assert_eq!(reduced.attendees[0].x, 100_000);
    assert_eq!(reduced.attendees[1].x, 1_100_000);
    assert_eq!(reduced.musicians, input.musicians);
}

#[test]
fn reduce_attendees_with_large_count_keeps_all() {
    let input = sample_input(false);
    let reduced = reduce_attendees(&input, 10);
    assert_eq!(reduced.attendees.len(), 3);
}
