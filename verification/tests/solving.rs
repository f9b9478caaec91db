use cuberithm::cube::CubeState;
use cuberithm::driver::{insert_in_order, solve_range, InvalidRange};
use cuberithm::rotation::Rotation;
use cuberithm::solution::{has_useless_moves, is_rot_useless, Solution};
use cuberithm::solver::{first_pass_from, second_pass_from, solve, solve_in_parts};
use cuberithm::state_set::StateSet;

const SOLVED: &str = "WWWWWWWWWOOOOOOOOOGGGGGGGGGRRRRRRRRRBBBBBBBBBYYYYYYYYY";

fn solved() -> CubeState {
    CubeState::from_str(SOLVED).unwrap()
}

fn turns(found: &[Solution]) -> Vec<Vec<Rotation>> {
    let mut all: Vec<Vec<Rotation>> = found.iter().map(|s| s.seq.clone()).collect();
    all.sort();
    all
}

#[test]
fn no_turns_between_equal_cubes() {
    let found = solve(solved(), solved(), 0, false);
    assert_eq!(turns(&found), vec![Vec::<Rotation>::new()]);
}

#[test]
fn no_turns_between_different_cubes() {
    let found = solve(solved().rotated(Rotation::U), solved(), 0, false);
    assert!(found.is_empty());
}

#[test]
fn one_turn_undoes_one_turn() {
    let found = solve(solved().rotated(Rotation::R), solved(), 1, false);
    assert_eq!(turns(&found), vec![vec![Rotation::Rp]]);
}

#[test]
fn one_turn_never_keeps_the_solved_cube() {
    let found = solve(solved(), solved(), 1, false);
    assert!(found.is_empty());
}

#[test]
fn two_turns_even_split() {
    let target = solved().rotated(Rotation::R).rotated(Rotation::U);
    let found = solve(solved(), target, 2, false);
    assert_eq!(turns(&found), vec![vec![Rotation::R, Rotation::U]]);
}

#[test]
fn three_turns_odd_split() {
    let target = solved().rotated(Rotation::R).rotated(Rotation::U).rotated(Rotation::Fp);
    let found = solve(solved(), target, 3, false);
    assert_eq!(turns(&found), vec![vec![Rotation::R, Rotation::U, Rotation::Fp]]);
}

#[test]
fn opposite_faces_commute() {
    let target = solved().rotated(Rotation::U).rotated(Rotation::D);
    let found = solve(solved(), target, 2, false);
    assert_eq!(turns(&found), vec![vec![Rotation::U, Rotation::D], vec![Rotation::D, Rotation::U]]);
}

#[test]
fn every_solution_leads_to_the_target() {
    let start = CubeState::from_str("RWGRWWRRRYOBOOBBBBWWWWGGWGRGGGRRGWRGYBOYBBYYYBYOYYOOOO").unwrap();
    let target = start.rotated(Rotation::L).rotated(Rotation::L).rotated(Rotation::B).rotated(Rotation::Dp);
    let found = solve(start, target, 4, false);
    assert!(!found.is_empty());
    for solution in &found {
        assert_eq!(solution.seq.len(), 4);
        let mut cube = start;
        for turn in &solution.seq {
            cube.rotate(*turn);
        }
        assert_eq!(cube, target);
    }
    assert!(turns(&found).contains(&vec![Rotation::L, Rotation::L, Rotation::B, Rotation::Dp]));
}

fn apply(start: CubeState, seq: &[Rotation]) -> CubeState {
    let mut cube = start;
    for turn in seq {
        cube.rotate(*turn);
    }
    cube
}

#[test]
fn no_solution_comes_twice() {
    let target = apply(solved(), &[Rotation::U, Rotation::U, Rotation::D, Rotation::D]);
    let found = solve(solved(), target, 4, false);
    let all = turns(&found);
    let mut once = all.clone();
    once.dedup();
    assert_eq!(all, once);
    // U U D D in each order that keeps no face turning both ways.
    assert!(all.contains(&vec![Rotation::U, Rotation::U, Rotation::D, Rotation::D]));
    assert!(all.contains(&vec![Rotation::Dp, Rotation::Up, Rotation::Up, Rotation::Dp]));
    for seq in &all {
        assert_eq!(apply(solved(), seq), target);
        assert!(!has_useless_moves(solved(), seq));
    }
}

#[test]
fn half_turn_both_ways() {
    let target = apply(solved(), &[Rotation::U, Rotation::U]);
    let found = solve(solved(), target, 2, false);
    assert_eq!(turns(&found), vec![vec![Rotation::U, Rotation::U], vec![Rotation::Up, Rotation::Up]]);
}

#[test]
fn pruning_does_not_reach_across_the_middle() {
    // Three turns of one face in a row, two of them in the first half.
    let seq = vec![Rotation::U, Rotation::U, Rotation::U, Rotation::R];
    let target = apply(solved(), &seq);
    let found = solve(solved(), target, 4, false);
    assert!(turns(&found).contains(&seq));
}

#[test]
fn range_of_lengths_in_order() {
    let target = apply(solved(), &[Rotation::U, Rotation::U]);
    let found = solve_range(solved(), target, 0, 3).unwrap();
    assert_eq!(turns(&found), vec![vec![Rotation::U, Rotation::U], vec![Rotation::Up, Rotation::Up]]);
    assert_eq!(found[0].seq, vec![Rotation::U, Rotation::U]);

    let found = solve_range(solved(), solved(), 0, 2).unwrap();
    assert_eq!(turns(&found), vec![Vec::<Rotation>::new()]);

    let target = apply(solved(), &[Rotation::U, Rotation::D]);
    let found = solve_range(solved(), target, 2, 2).unwrap();
    let got: Vec<Vec<Rotation>> = found.iter().map(|s| s.seq.clone()).collect();
    assert_eq!(got, vec![vec![Rotation::U, Rotation::D], vec![Rotation::D, Rotation::U]]);
}

#[test]
fn range_is_the_union_of_its_lengths() {
    let start = CubeState::from_str("RWGRWWRRRYOBOOBBBBWWWWGGWGRGGGRRGWRGYBOYBBYYYBYOYYOOOO").unwrap();
    let target = apply(start, &[Rotation::F, Rotation::B]);
    let mut by_length: Vec<Vec<Rotation>> = Vec::new();
    for count in 1..=4 {
        by_length.extend(turns(&solve(start, target, count, false)));
    }
    by_length.sort();
    let found = solve_range(start, target, 1, 4).unwrap();
    let got: Vec<Vec<Rotation>> = found.iter().map(|s| s.seq.clone()).collect();
    assert_eq!(got, by_length);
    assert!(got.contains(&vec![Rotation::F, Rotation::B]));
    assert!(got.contains(&vec![Rotation::B, Rotation::F]));
}

#[test]
fn empty_range_is_refused() {
    assert_eq!(solve_range(solved(), solved(), 3, 2).err(), Some(InvalidRange));
}

#[test]
fn insert_in_order_keeps_order_and_drops_repeats() {
    let mut found: Vec<Solution> = Vec::new();
    for seq in [vec![Rotation::D], vec![Rotation::U, Rotation::U], vec![], vec![Rotation::D], vec![Rotation::U]] {
        insert_in_order(&mut found, Solution { seq });
    }
    let got: Vec<Vec<Rotation>> = found.iter().map(|s| s.seq.clone()).collect();
    assert_eq!(got, vec![vec![], vec![Rotation::U], vec![Rotation::U, Rotation::U], vec![Rotation::D]]);
}

#[test]
fn passes_in_parts_give_the_same() {
    let start = CubeState::from_str("RWGRWWRRRYOBOOBBBBWWWWGGWGRGGGRRGWRGYBOYBBYYYBYOYYOOOO").unwrap();
    for seq in [
        vec![Rotation::U, Rotation::D],
        vec![Rotation::R, Rotation::U, Rotation::Rp],
        vec![Rotation::L, Rotation::L, Rotation::F, Rotation::B],
        vec![Rotation::U, Rotation::R, Rotation::Fp, Rotation::D, Rotation::D],
    ] {
        let target = apply(start, &seq);
        let count = seq.len() as u8;
        let mut middle_states = StateSet::new();
        for rot in Rotation::all() {
            middle_states.merge(&first_pass_from(start, rot, count));
        }
        let mut in_parts = Vec::new();
        for rot in Rotation::all() {
            in_parts.extend(second_pass_from(start, target, rot, count, &middle_states));
        }
        let whole = solve(start, target, count, false);
        assert_eq!(turns(&in_parts), turns(&whole));
        assert!(turns(&whole).contains(&seq));
    }
}

fn unflagged(part: &[Rotation]) -> bool {
    (0..part.len()).all(|k| !is_rot_useless(&part[..k].to_vec(), part[k]))
}

fn parts_unflagged(seq: &[Rotation]) -> bool {
    let half = seq.len() / 2;
    seq.len() < 2 || (unflagged(&seq[half..]) && parts_unflagged(&seq[..half]))
}

#[test]
fn parts_of_solutions_are_unflagged() {
    let start = CubeState::from_str("RWGRWWRRRYOBOOBBBBWWWWGGWGRGGGRRGWRGYBOYBBYYYBYOYYOOOO").unwrap();
    let target = apply(start, &[Rotation::U, Rotation::D, Rotation::D, Rotation::U, Rotation::R]);
    let mut seen = 0;
    for count in 0..=5 {
        for solution in solve(start, target, count, false) {
            assert!(parts_unflagged(&solution.seq));
            assert!(!has_useless_moves(start, &solution.seq));
            assert_eq!(apply(start, &solution.seq), target);
            seen += 1;
        }
    }
    assert!(seen > 0);
    // Across the middle the pruner may flag a turn.
    let seq = [Rotation::U, Rotation::U, Rotation::U, Rotation::R];
    assert!(parts_unflagged(&seq));
    assert!(!unflagged(&seq));
}

#[test]
fn single_turns_of_a_blank_cube() {
    // No turn changes a cube without colours, so each of the twelve is a
    // sequence of one turn from that cube to itself.
    let blank = CubeState::from_str("NNNNNNNNNNNNNNNNNNNNNNNNNNNNNNNNNNNNNNNNNNNNNNNNNNNNNN").unwrap();
    assert_eq!(blank.rotated(Rotation::F), blank);
    let found = solve(blank, blank, 1, false);
    assert_eq!(turns(&found), Rotation::all().into_iter().map(|turn| vec![turn]).collect::<Vec<_>>());
    assert!(has_useless_moves(blank, &found[0].seq));
    // With two turns and more the search asks for a new configuration at
    // every turn, and finds nothing.
    assert!(solve(blank, blank, 2, false).is_empty());
    assert!(solve(blank, blank, 3, false).is_empty());
}

#[test]
fn passes_in_parts_inside_solve() {
    let start = CubeState::from_str("RWGRWWRRRYOBOOBBBBWWWWGGWGRGGGRRGWRGYBOYBBYYYBYOYYOOOO").unwrap();
    let target = apply(start, &[Rotation::Lp, Rotation::Lp, Rotation::B, Rotation::D, Rotation::Fp]);
    for count in 0..=5 {
        let whole = solve(start, target, count, false);
        let in_parts = solve(start, target, count, true);
        assert_eq!(turns(&in_parts), turns(&whole));
        if count >= 2 {
            assert_eq!(turns(&solve_in_parts(start, target, count)), turns(&whole));
        }
    }
    assert!(turns(&solve(start, target, 5, true)).contains(&vec![
        Rotation::Lp,
        Rotation::Lp,
        Rotation::B,
        Rotation::D,
        Rotation::Fp
    ]));
}
