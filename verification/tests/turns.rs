use cuberithm::face::Face;
use cuberithm::rotation::Rotation;

const ALL: [Rotation; 12] = [
    Rotation::U,
    Rotation::Up,
    Rotation::L,
    Rotation::Lp,
    Rotation::F,
    Rotation::Fp,
    Rotation::R,
    Rotation::Rp,
    Rotation::B,
    Rotation::Bp,
    Rotation::D,
    Rotation::Dp,
];

#[test]
fn all_turns_in_canonical_order() {
    assert_eq!(Rotation::all(), ALL.to_vec());
}

#[test]
fn index_and_from_index_agree() {
    for (i, turn) in ALL.iter().enumerate() {
        assert_eq!(turn.index() as usize, i);
        assert_eq!(Rotation::from_index(i as u8), *turn);
    }
}

#[test]
fn order_follows_the_index() {
    for a in ALL {
        for b in ALL {
            assert_eq!(a < b, a.index() < b.index());
        }
    }
}

#[test]
fn reverse_swaps_the_direction() {
    assert_eq!(Rotation::U.reverse(), Rotation::Up);
    assert_eq!(Rotation::Up.reverse(), Rotation::U);
    assert_eq!(Rotation::Fp.reverse(), Rotation::F);
    for turn in ALL {
        assert_eq!(turn.reverse().reverse(), turn);
        assert_eq!(turn.reverse().face(), turn.face());
        assert_ne!(turn.reverse().is_clockwise(), turn.is_clockwise());
    }
}

#[test]
fn faces_of_turns() {
    assert_eq!(Rotation::U.face(), Face::U);
    assert_eq!(Rotation::Lp.face(), Face::L);
    assert_eq!(Rotation::F.face(), Face::F);
    assert_eq!(Rotation::Rp.face(), Face::R);
    assert_eq!(Rotation::B.face(), Face::B);
    assert_eq!(Rotation::Dp.face(), Face::D);
}

#[test]
fn opposite_faces_of_turns() {
    assert_eq!(Rotation::U.opposite_face(), Face::D);
    assert_eq!(Rotation::Dp.opposite_face(), Face::U);
    assert_eq!(Rotation::L.opposite_face(), Face::R);
    assert_eq!(Rotation::Rp.opposite_face(), Face::L);
    assert_eq!(Rotation::Fp.opposite_face(), Face::B);
    assert_eq!(Rotation::B.opposite_face(), Face::F);
    for turn in ALL {
        assert_eq!(turn.opposite_face(), turn.face().opposite());
        assert_eq!(turn.face().opposite().opposite(), turn.face());
    }
}

#[test]
fn names_of_turns() {
    let names: Vec<String> = ALL.iter().map(|turn| turn.to_string()).collect();
    assert_eq!(names, vec!["U", "U'", "L", "L'", "F", "F'", "R", "R'", "B", "B'", "D", "D'"]);
}
