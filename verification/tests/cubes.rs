use cuberithm::cube::{CubeState, FromStrErr};
use cuberithm::rotation::Rotation;

const SOLVED: &str = "WWWWWWWWWOOOOOOOOOGGGGGGGGGRRRRRRRRRBBBBBBBBBYYYYYYYYY";
const CUBE_IN_CUBE: &str = "RWGRWWRRRYOBOOBBBBWWWWGGWGRGGGRRGWRGYBOYBBYYYBYOYYOOOO";

fn cube(text: &str) -> CubeState {
    CubeState::from_str(text).unwrap()
}

#[test]
fn solved_cube_after_u() {
    let mut state = cube(SOLVED);
    state.rotate(Rotation::U);
    assert_eq!(state, cube("WWWWWWWWWOOOOOOGGGGGGGGGRRRRRRRRRBBBBBBBBBOOOYYYYYYYYY"));
    assert_eq!(state.state_str(), "WWWWWWWWWOOOOOOGGGGGGGGGRRRRRRRRRBBBBBBBBBOOOYYYYYYYYY");
}

#[test]
fn several_turns_in_a_row() {
    let mut state = cube(SOLVED);
    for turn in [Rotation::U, Rotation::U, Rotation::U, Rotation::R] {
        state.rotate(turn);
    }
    assert_eq!(state.state_str(), "WWGWWGWWOOOOOOOBBBGGYGGYOOYRRGRRGRRGWBBWBBWRRYYRYYBYYB");
}

#[test]
fn state_str_gives_the_text_back() {
    assert_eq!(cube(SOLVED).state_str(), SOLVED);
    assert_eq!(cube(CUBE_IN_CUBE).state_str(), CUBE_IN_CUBE);
}

#[test]
fn reading_the_state_str_gives_the_cube_back() {
    let mut state = cube(CUBE_IN_CUBE);
    for turn in Rotation::all() {
        state.rotate(turn);
        assert_eq!(CubeState::from_str(&state.state_str()), Ok(state));
    }
}

#[test]
fn text_parses_into_a_cube() {
    let parsed: CubeState = CUBE_IN_CUBE.parse().unwrap();
    assert_eq!(parsed, cube(CUBE_IN_CUBE));
    assert_eq!("W".parse::<CubeState>(), Err(FromStrErr::InvalidLen));
}

#[test]
fn unspecified_facelets_are_kept() {
    let text = "NNNNWNNNNOOOOOOOOONNNNGNNNNRRRRRRRRRBBBBBBBBBYYYYYYYYY";
    assert_eq!(cube(text).state_str(), text);
}

#[test]
fn centres_are_not_read() {
    let odd = "WWWWxWWWWOOOO?OOOOGGGGNGGGGRRRRWRRRRBBBB BBBBYYYY9YYYY";
    assert_eq!(CubeState::from_str(odd), Ok(cube(SOLVED)));
}

#[test]
fn wrong_length_is_refused() {
    assert_eq!(CubeState::from_str(""), Err(FromStrErr::InvalidLen));
    assert_eq!(CubeState::from_str(&SOLVED[1..]), Err(FromStrErr::InvalidLen));
    let longer = format!("{}W", SOLVED);
    assert_eq!(CubeState::from_str(&longer), Err(FromStrErr::InvalidLen));
}

#[test]
fn length_is_counted_in_bytes() {
    // 54 characters, one of them two bytes long.
    let text = "\u{e9}WWWWWWWWOOOOOOOOOGGGGGGGGGRRRRRRRRRBBBBBBBBBYYYYYYYYY";
    assert_eq!(text.chars().count(), 54);
    assert_eq!(CubeState::from_str(text), Err(FromStrErr::InvalidLen));
}

#[test]
fn unknown_letter_is_refused() {
    let text = "WWWWWWWWWOOOOOOOOOGGGGGGGGGRRRRRRRRRBBBBBBBBBYYYYYYYYX";
    assert_eq!(CubeState::from_str(text), Err(FromStrErr::InvalidChar('X')));
    let lower = "wWWWWWWWWOOOOOOOOOGGGGGGGGGRRRRRRRRRBBBBBBBBBYYYYYYYYY";
    assert_eq!(CubeState::from_str(lower), Err(FromStrErr::InvalidChar('w')));
}

#[test]
fn first_unknown_letter_is_named() {
    let text = "WWWWWWWWWOOOOOOOOOGGGGaGGGbRRRRRRRRRBBBBBBBBBYYYYYYYYc";
    // `a` stands at a centre and is passed over.
    assert_eq!(CubeState::from_str(text), Err(FromStrErr::InvalidChar('b')));
}

#[test]
fn short_text_of_full_byte_length_leaves_the_end_unspecified() {
    // 53 characters in 54 bytes: the two-byte character stands at a centre.
    let text = "WWWW\u{e9}WWWWOOOOOOOOOGGGGGGGGGRRRRRRRRRBBBBBBBBBYYYYYYYY";
    assert_eq!(text.len(), 54);
    let read = CubeState::from_str(text).unwrap();
    assert_eq!(read.state_str(), "WWWWWWWWWOOOOOOOOOGGGGGGGGGRRRRRRRRRBBBBBBBBBYYYYYYYYN");
}

#[test]
fn a_turn_and_its_inverse_cancel() {
    let start = cube(CUBE_IN_CUBE);
    for turn in Rotation::all() {
        let mut state = start;
        state.rotate(turn);
        assert_ne!(state, start);
        state.rotate(turn.reverse());
        assert_eq!(state, start);
    }
}

#[test]
fn four_quarter_turns_cancel() {
    let start = cube(CUBE_IN_CUBE);
    for turn in Rotation::all() {
        let mut state = start;
        for _ in 0..4 {
            state.rotate(turn);
        }
        assert_eq!(state, start);
    }
}

#[test]
fn rotated_leaves_the_cube_alone() {
    let start = cube(SOLVED);
    let after = start.rotated(Rotation::F);
    assert_eq!(start, cube(SOLVED));
    let mut same = start;
    same.rotate(Rotation::F);
    assert_eq!(after, same);
}

#[test]
fn unwrapped_solved_cube() {
    let expected = "      W W W\n      W   W\n      W W W\nO O O G G G R R R B B B\nO   O G   G R   R B   B\nO O O G G G R R R B B B\n      Y Y Y\n      Y   Y\n      Y Y Y\n";
    assert_eq!(cube(SOLVED).get_unwrapped_cube_str(), expected);
}

#[test]
fn unwrapped_cube_in_cube() {
    let expected = "      R R R\n      R   W\n      R W G\nB B B W G R W R G Y Y Y\nO   B W   G R   G Y   B\nY O B W W W G G G Y B O\n      O O O\n      Y   O\n      B Y O\n";
    let state = cube(CUBE_IN_CUBE);
    assert_eq!(state.get_unwrapped_cube_str(), expected);
    assert_eq!(state.to_string(), expected);
}

#[test]
fn equals_goes_by_the_colours() {
    let a = cube(SOLVED);
    let b = cube("WWWWNWWWWOOOONOOOOGGGGNGGGGRRRRNRRRRBBBBNBBBBYYYYNYYYY");
    assert!(a.equals(&b));
    assert_eq!(a.fingerprint(), b.fingerprint());
    assert!(!a.equals(&cube(CUBE_IN_CUBE)));
}

#[test]
fn turns_of_one_face_commute_with_those_of_the_opposite_face() {
    let start = cube(CUBE_IN_CUBE);
    for (a, b) in [(Rotation::U, Rotation::D), (Rotation::L, Rotation::Rp), (Rotation::Fp, Rotation::B)] {
        assert_eq!(start.rotated(a).rotated(b), start.rotated(b).rotated(a));
    }
    assert_ne!(start.rotated(Rotation::U).rotated(Rotation::R), start.rotated(Rotation::R).rotated(Rotation::U));
}
