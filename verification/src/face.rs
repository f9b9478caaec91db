//! The six faces of the cube.
use vstd::prelude::*;

verus! {

/// One of the six faces of the cube, named by where it sits: up, left, front,
/// right, back, down.
#[derive(Clone, Copy, PartialEq, Eq, Hash, Debug, Structural)]
pub enum Face {
    U,
    L,
    F,
    R,
    B,
    D,
}

impl Face {
    /// The face on the other end of the same axis.
    pub open spec fn spec_opposite(&self) -> Face {
        match self {
            Face::U => Face::D,
            Face::L => Face::R,
            Face::F => Face::B,
            Face::R => Face::L,
            Face::B => Face::F,
            Face::D => Face::U,
        }
    }

    #[verifier::when_used_as_spec(spec_opposite)]
    pub fn opposite(&self) -> (f: Face)
        ensures
            f == self.spec_opposite(),
    {
        match self {
            Face::U => Face::D,
            Face::L => Face::R,
            Face::F => Face::B,
            Face::R => Face::L,
            Face::B => Face::F,
            Face::D => Face::U,
        }
    }

    /// The face's place in the order up, left, front, right, back, down.
    pub open spec fn spec_index(&self) -> int {
        match self {
            Face::U => 0,
            Face::L => 1,
            Face::F => 2,
            Face::R => 3,
            Face::B => 4,
            Face::D => 5,
        }
    }
}

} // verus!
