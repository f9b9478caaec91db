use cuberithm::cube::CubeState;
use cuberithm::rotation::Rotation;
use cuberithm::rotation::Rotation::{Bp, Dp, Fp, Lp, Rp, Up, B, D, F, L, R, U};
use cuberithm::solution::{contains_state, has_useless_moves, is_rot_useless, Solution};
use std::cmp::Ordering;

fn seq(turns: &[Rotation]) -> Solution {
    Solution { seq: turns.to_vec() }
}

fn solved() -> CubeState {
    CubeState::from_str("WWWWWWWWWOOOOOOOOOGGGGGGGGGRRRRRRRRRBBBBBBBBBYYYYYYYYY").unwrap()
}

#[test]
fn first_turn_is_never_flagged() {
    for turn in Rotation::all() {
        assert!(!is_rot_useless(&vec![], turn));
    }
}

#[test]
fn third_turn_of_one_face_is_flagged() {
    assert!(!is_rot_useless(&vec![U], U));
    assert!(is_rot_useless(&vec![U, U], U));
    assert!(is_rot_useless(&vec![Rp, Rp], Rp));
}

#[test]
fn turn_against_an_earlier_one_is_flagged() {
    assert!(is_rot_useless(&vec![U], Up));
    assert!(is_rot_useless(&vec![Fp], F));
    assert!(is_rot_useless(&vec![U, D], Up));
    assert!(is_rot_useless(&vec![L, R, R], Lp));
}

#[test]
fn opposite_face_is_looked_at_too() {
    assert!(!is_rot_useless(&vec![U, D], D));
    assert!(is_rot_useless(&vec![U, Up, D], D));
    assert!(is_rot_useless(&vec![U, U, U], D));
    assert!(!is_rot_useless(&vec![L], Rp));
    assert!(!is_rot_useless(&vec![R, U, D, U], D));
}

#[test]
fn window_ends_at_another_axis() {
    assert!(!is_rot_useless(&vec![U, R], U));
    assert!(!is_rot_useless(&vec![U, U, R], U));
    assert!(!is_rot_useless(&vec![U, F], Up));
    assert!(is_rot_useless(&vec![R, U, U], U));
}

#[test]
fn revisited_configurations_are_told() {
    assert!(!has_useless_moves(solved(), &vec![]));
    assert!(!has_useless_moves(solved(), &vec![U]));
    assert!(has_useless_moves(solved(), &vec![U, Up]));
    assert!(has_useless_moves(solved(), &vec![R, U, U, U, U]));
    assert!(!has_useless_moves(solved(), &vec![U, U, U]));
    assert!(has_useless_moves(solved(), &vec![U, D, Up, Dp]));
    assert!(!has_useless_moves(solved(), &vec![R, U, Rp, Up]));
}

#[test]
fn contains_state_finds_equal_cubes() {
    let states = vec![solved(), solved().rotated(U), solved().rotated(R)];
    assert!(contains_state(&states, &solved().rotated(U)));
    assert!(contains_state(&states, &solved().rotated(Up).rotated(U)));
    assert!(!contains_state(&states, &solved().rotated(F)));
    assert!(!contains_state(&vec![], &solved()));
}

#[test]
fn undone_turns_in_a_sequence() {
    assert!(seq(&[U, Up]).has_useless_moves());
    assert!(seq(&[U, U, Up]).has_useless_moves());
    assert!(seq(&[R, F, Fp]).has_useless_moves());
    assert!(!seq(&[U, D, Up]).has_useless_moves());
    assert!(!seq(&[R, L, Rp]).has_useless_moves());
    assert!(!seq(&[U, U]).has_useless_moves());
    assert!(!seq(&[]).has_useless_moves());
}

#[test]
fn dead_sequences() {
    let long = seq(&[U, R, F]);
    assert!(long.is_dead(&vec![seq(&[U, F])]));
    assert!(long.is_dead(&vec![seq(&[B]), seq(&[R])]));
    assert!(!long.is_dead(&vec![seq(&[F, U])]));
    assert!(!long.is_dead(&vec![seq(&[U, R, F])]));
    assert!(!long.is_dead(&vec![seq(&[U, R, F, B])]));
    assert!(!long.is_dead(&vec![]));
    assert!(!seq(&[]).is_dead(&vec![seq(&[]), seq(&[U])]));
}

#[test]
fn dictionary_order() {
    assert!(seq(&[]).less_than(&seq(&[U])));
    assert!(seq(&[U]).less_than(&seq(&[U, U])));
    assert!(seq(&[U, Dp]).less_than(&seq(&[Up])));
    assert!(seq(&[U, U]).less_than(&seq(&[D])));
    assert!(!seq(&[D]).less_than(&seq(&[U, U])));
    assert!(!seq(&[L, B]).less_than(&seq(&[L, B])));
}

#[test]
fn partial_cmp_is_the_dictionary_order() {
    assert_eq!(seq(&[]).partial_cmp(&seq(&[U])), Some(Ordering::Less));
    assert_eq!(seq(&[D]).partial_cmp(&seq(&[U, U])), Some(Ordering::Greater));
    assert_eq!(seq(&[U, U]).partial_cmp(&seq(&[D])), Some(Ordering::Less));
    assert_eq!(seq(&[L, Bp]).partial_cmp(&seq(&[L, Bp])), Some(Ordering::Equal));
    assert_eq!(seq(&[L, Bp, U]).partial_cmp(&seq(&[L, Bp])), Some(Ordering::Greater));
    assert!(seq(&[Lp]) > seq(&[L, D, D]));
    assert_eq!(seq(&[Lp]).cmp(&seq(&[L, D, D])), Ordering::Greater);
}

#[test]
fn equality_of_sequences() {
    assert_eq!(seq(&[U, R]), seq(&[U, R]));
    assert_ne!(seq(&[U, R]), seq(&[R, U]));
    assert_ne!(seq(&[U]), seq(&[U, U]));
    assert!(seq(&[]).same_turns(&seq(&[])));
}

#[test]
fn sequences_as_text() {
    assert_eq!(seq(&[]).to_string(), "");
    assert_eq!(seq(&[Rp]).to_string(), "R' ");
    assert_eq!(seq(&[U, Up, L, Lp, F, Fp]).to_string(), "U U' L L' F F' ");
}
