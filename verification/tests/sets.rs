use cuberithm::cube::CubeState;
use cuberithm::rotation::Rotation;
use cuberithm::state_set::StateSet;

fn solved() -> CubeState {
    CubeState::from_str("WWWWWWWWWOOOOOOOOOGGGGGGGGGRRRRRRRRRBBBBBBBBBYYYYYYYYY").unwrap()
}

#[test]
fn new_set_is_empty() {
    let set = StateSet::new();
    assert!(!set.contains(&solved()));
    assert!(!set.contains(&solved().rotated(Rotation::U)));
}

#[test]
fn inserted_cubes_are_found() {
    let mut set = StateSet::new();
    assert!(set.insert(solved()));
    assert!(set.insert(solved().rotated(Rotation::U)));
    assert!(set.contains(&solved()));
    assert!(set.contains(&solved().rotated(Rotation::U)));
    assert!(!set.contains(&solved().rotated(Rotation::Up)));
}

#[test]
fn a_cube_is_kept_once() {
    let mut set = StateSet::new();
    assert!(set.insert(solved()));
    assert!(!set.insert(solved()));
    assert!(!set.insert(solved().rotated(Rotation::R).rotated(Rotation::Rp)));
    assert!(set.contains(&solved()));
}

#[test]
fn many_cubes() {
    let mut set = StateSet::new();
    let mut all = Vec::new();
    let mut state = solved();
    for round in 0..40 {
        for turn in Rotation::all() {
            state.rotate(turn);
            if round % 3 == 0 {
                state.rotate(Rotation::R);
            }
            let fresh = !all.contains(&state);
            assert_eq!(set.insert(state), fresh);
            if fresh {
                all.push(state);
            }
        }
    }
    for state in &all {
        assert!(set.contains(state));
    }
}

#[test]
fn merged_sets() {
    let mut one = StateSet::new();
    one.insert(solved());
    one.insert(solved().rotated(Rotation::U));
    let mut other = StateSet::new();
    other.insert(solved().rotated(Rotation::U));
    other.insert(solved().rotated(Rotation::F));
    one.merge(&other);
    assert!(one.contains(&solved()));
    assert!(one.contains(&solved().rotated(Rotation::U)));
    assert!(one.contains(&solved().rotated(Rotation::F)));
    assert!(!one.contains(&solved().rotated(Rotation::B)));
    assert!(!other.contains(&solved()));
}
