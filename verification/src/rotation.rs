//! The twelve quarter turns, in their canonical order.
use vstd::prelude::*;
use crate::face::Face;

verus! {

/// A quarter turn of one face. The plain name turns the face clockwise, seen
/// from outside the cube; the name with `p` (for prime) turns it back.
///
/// The variants are declared in the canonical order, which is also the order
/// that `Ord` gives them.
#[derive(Clone, Copy, PartialEq, Eq, Hash, Debug, PartialOrd, Ord, Structural)]
pub enum Rotation {
    U,
    Up,
    L,
    Lp,
    F,
    Fp,
    R,
    Rp,
    B,
    Bp,
    D,
    Dp,
}

impl Rotation {
    /// The turn that undoes this one.
    pub open spec fn spec_reverse(&self) -> Rotation {
        match self {
            Rotation::U => Rotation::Up,
            Rotation::Up => Rotation::U,
            Rotation::L => Rotation::Lp,
            Rotation::Lp => Rotation::L,
            Rotation::F => Rotation::Fp,
            Rotation::Fp => Rotation::F,
            Rotation::R => Rotation::Rp,
            Rotation::Rp => Rotation::R,
            Rotation::B => Rotation::Bp,
            Rotation::Bp => Rotation::B,
            Rotation::D => Rotation::Dp,
            Rotation::Dp => Rotation::D,
        }
    }

    /// The face that the turn moves.
    pub open spec fn spec_face(&self) -> Face {
        match self {
            Rotation::U | Rotation::Up => Face::U,
            Rotation::L | Rotation::Lp => Face::L,
            Rotation::F | Rotation::Fp => Face::F,
            Rotation::R | Rotation::Rp => Face::R,
            Rotation::B | Rotation::Bp => Face::B,
            Rotation::D | Rotation::Dp => Face::D,
        }
    }

    /// The face opposite the one that the turn moves.
    pub open spec fn spec_opposite_face(&self) -> Face {
        self.spec_face().spec_opposite()
    }

    /// Whether the turn is clockwise.
    pub open spec fn spec_is_clockwise(&self) -> bool {
        match self {
            Rotation::U | Rotation::L | Rotation::F | Rotation::R | Rotation::B | Rotation::D => true,
            _ => false,
        }
    }

    /// The turn's place in the canonical order, from 0 for `U` to 11 for `Dp`.
    pub open spec fn spec_index(&self) -> int {
        2 * self.spec_face().spec_index() + if self.spec_is_clockwise() { 0int } else { 1int }
    }

    /// The turn at a given place of the canonical order.
    pub open spec fn spec_from_index(i: int) -> Rotation {
        if i == 0 {
            Rotation::U
        } else if i == 1 {
            Rotation::Up
        } else if i == 2 {
            Rotation::L
        } else if i == 3 {
            Rotation::Lp
        } else if i == 4 {
            Rotation::F
        } else if i == 5 {
            Rotation::Fp
        } else if i == 6 {
            Rotation::R
        } else if i == 7 {
            Rotation::Rp
        } else if i == 8 {
            Rotation::B
        } else if i == 9 {
            Rotation::Bp
        } else if i == 10 {
            Rotation::D
        } else {
            Rotation::Dp
        }
    }

    /// The twelve turns in canonical order.
    pub open spec fn spec_all() -> Seq<Rotation> {
        Seq::new(12, |i: int| Rotation::spec_from_index(i))
    }

    /// How the turn is written: the face's letter, followed by an apostrophe
    /// for a counter-clockwise turn.
    pub open spec fn spec_name(&self) -> Seq<char> {
        let letter = match self.spec_face() {
            Face::U => 'U',
            Face::L => 'L',
            Face::F => 'F',
            Face::R => 'R',
            Face::B => 'B',
            Face::D => 'D',
        };
        if self.spec_is_clockwise() {
            seq![letter]
        } else {
            seq![letter, '\'']
        }
    }

    #[verifier::when_used_as_spec(spec_reverse)]
    pub fn reverse(&self) -> (r: Rotation)
        ensures
            r == self.spec_reverse(),
    {
        match self {
            Rotation::U => Rotation::Up,
            Rotation::Up => Rotation::U,
            Rotation::L => Rotation::Lp,
            Rotation::Lp => Rotation::L,
            Rotation::F => Rotation::Fp,
            Rotation::Fp => Rotation::F,
            Rotation::R => Rotation::Rp,
            Rotation::Rp => Rotation::R,
            Rotation::B => Rotation::Bp,
            Rotation::Bp => Rotation::B,
            Rotation::D => Rotation::Dp,
            Rotation::Dp => Rotation::D,
        }
    }

    #[verifier::when_used_as_spec(spec_opposite_face)]
    pub fn opposite_face(&self) -> (f: Face)
        ensures
            f == self.spec_opposite_face(),
    {
        match self {
            Rotation::U => Face::D,
            Rotation::Up => Face::D,
            Rotation::L => Face::R,
            Rotation::Lp => Face::R,
            Rotation::F => Face::B,
            Rotation::Fp => Face::B,
            Rotation::R => Face::L,
            Rotation::Rp => Face::L,
            Rotation::B => Face::F,
            Rotation::Bp => Face::F,
            Rotation::D => Face::U,
            Rotation::Dp => Face::U,
        }
    }

    #[verifier::when_used_as_spec(spec_face)]
    pub fn face(&self) -> (f: Face)
        ensures
            f == self.spec_face(),
    {
        match self {
            Rotation::U => Face::U,
            Rotation::Up => Face::U,
            Rotation::L => Face::L,
            Rotation::Lp => Face::L,
            Rotation::F => Face::F,
            Rotation::Fp => Face::F,
            Rotation::R => Face::R,
            Rotation::Rp => Face::R,
            Rotation::B => Face::B,
            Rotation::Bp => Face::B,
            Rotation::D => Face::D,
            Rotation::Dp => Face::D,
        }
    }

    #[verifier::when_used_as_spec(spec_is_clockwise)]
    pub fn is_clockwise(&self) -> (b: bool)
        ensures
            b == self.spec_is_clockwise(),
    {
        match self {
            Rotation::U | Rotation::L | Rotation::F | Rotation::R | Rotation::B | Rotation::D => true,
            _ => false,
        }
    }

    /// The turn's place in the canonical order.
    pub fn index(&self) -> (i: u8)
        ensures
            i == self.spec_index(),
            i < 12,
    {
        match self {
            Rotation::U => 0,
            Rotation::Up => 1,
            Rotation::L => 2,
            Rotation::Lp => 3,
            Rotation::F => 4,
            Rotation::Fp => 5,
            Rotation::R => 6,
            Rotation::Rp => 7,
            Rotation::B => 8,
            Rotation::Bp => 9,
            Rotation::D => 10,
            Rotation::Dp => 11,
        }
    }

    /// The turn at place `i` of the canonical order.
    pub fn from_index(i: u8) -> (r: Rotation)
        requires
            i < 12,
        ensures
            r == Rotation::spec_from_index(i as int),
            r.spec_index() == i,
    {
        if i == 0 {
            Rotation::U
        } else if i == 1 {
            Rotation::Up
        } else if i == 2 {
            Rotation::L
        } else if i == 3 {
            Rotation::Lp
        } else if i == 4 {
            Rotation::F
        } else if i == 5 {
            Rotation::Fp
        } else if i == 6 {
            Rotation::R
        } else if i == 7 {
            Rotation::Rp
        } else if i == 8 {
            Rotation::B
        } else if i == 9 {
            Rotation::Bp
        } else if i == 10 {
            Rotation::D
        } else {
            Rotation::Dp
        }
    }

    /// The twelve turns, in canonical order.
    pub fn all() -> (v: Vec<Rotation>)
        ensures
            v@ == Rotation::spec_all(),
    {
        let mut v: Vec<Rotation> = Vec::new();
        let mut i: u8 = 0;
        while i < 12
            invariant
                i <= 12,
                v@.len() == i,
                forall|j: int| 0 <= j < i ==> v@[j] == Rotation::spec_from_index(j),
            decreases 12 - i,
        {
            v.push(Rotation::from_index(i));
            i += 1;
        }
        assert(v@ =~= Rotation::spec_all());
        v
    }

    /// The turn as text: `U`, `U'`, `L`, `L'`, and so on.
    pub fn to_string(&self) -> (s: String)
        ensures
            s@ == self.spec_name(),
    {
        let text = match self {
            Rotation::U => "U",
            Rotation::Up => "U'",
            Rotation::L => "L",
            Rotation::Lp => "L'",
            Rotation::F => "F",
            Rotation::Fp => "F'",
            Rotation::R => "R",
            Rotation::Rp => "R'",
            Rotation::B => "B",
            Rotation::Bp => "B'",
            Rotation::D => "D",
            Rotation::Dp => "D'",
        };
        proof {
            reveal_strlit("U");
            reveal_strlit("U'");
            reveal_strlit("L");
            reveal_strlit("L'");
            reveal_strlit("F");
            reveal_strlit("F'");
            reveal_strlit("R");
            reveal_strlit("R'");
            reveal_strlit("B");
            reveal_strlit("B'");
            reveal_strlit("D");
            reveal_strlit("D'");
            assert(text@ =~= self.spec_name());
        }
        text.to_owned()
    }
}

/// Undoing a turn twice is the turn itself, and a turn's inverse moves the
/// same face the other way round.
pub proof fn lemma_reverse_involution(m: Rotation)
    ensures
        m.spec_reverse().spec_reverse() == m,
        m.spec_reverse().spec_face() == m.spec_face(),
        m.spec_reverse().spec_is_clockwise() == !m.spec_is_clockwise(),
{
}

/// The canonical order names each turn exactly once.
pub proof fn lemma_index_bijection(m: Rotation, i: int)
    ensures
        0 <= m.spec_index() < 12,
        Rotation::spec_from_index(m.spec_index()) == m,
        0 <= i < 12 ==> Rotation::spec_from_index(i).spec_index() == i,
{
}

} // verus!
