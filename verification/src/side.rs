//! Colours, and one face of the cube as a grid of colours.
use vstd::prelude::*;

verus! {

/// The colour of a facelet. `Unspecified` stands for a facelet whose colour
/// does not matter.
#[derive(Clone, Copy, PartialEq, Eq, Hash, Debug, Structural)]
pub enum Color {
    White,
    Orange,
    Green,
    Red,
    Blue,
    Yellow,
    Unspecified,
}

impl Color {
    /// Whether `c` is one of the seven letters that name a colour.
    pub open spec fn is_letter(c: char) -> bool {
        c == 'W' || c == 'O' || c == 'G' || c == 'R' || c == 'B' || c == 'Y' || c == 'N'
    }

    /// The colour that a letter names.
    pub open spec fn spec_from_char(c: char) -> Color {
        if c == 'W' {
            Color::White
        } else if c == 'O' {
            Color::Orange
        } else if c == 'G' {
            Color::Green
        } else if c == 'R' {
            Color::Red
        } else if c == 'B' {
            Color::Blue
        } else if c == 'Y' {
            Color::Yellow
        } else {
            Color::Unspecified
        }
    }

    /// The letter that names the colour.
    pub open spec fn spec_letter(&self) -> char {
        match self {
            Color::White => 'W',
            Color::Orange => 'O',
            Color::Green => 'G',
            Color::Red => 'R',
            Color::Blue => 'B',
            Color::Yellow => 'Y',
            Color::Unspecified => 'N',
        }
    }

    /// The three bits that stand for the colour in a packed cube.
    pub open spec fn spec_code(&self) -> int {
        match self {
            Color::Unspecified => 0,
            Color::White => 1,
            Color::Orange => 2,
            Color::Green => 3,
            Color::Red => 4,
            Color::Blue => 5,
            Color::Yellow => 6,
        }
    }

    /// The colour that three bits stand for. Seven stands for no colour; it
    /// is read as `Unspecified`.
    pub open spec fn spec_from_code(code: int) -> Color {
        if code == 1 {
            Color::White
        } else if code == 2 {
            Color::Orange
        } else if code == 3 {
            Color::Green
        } else if code == 4 {
            Color::Red
        } else if code == 5 {
            Color::Blue
        } else if code == 6 {
            Color::Yellow
        } else {
            Color::Unspecified
        }
    }

    /// The colour that the letter `c` names.
    pub fn from_char(c: char) -> (color: Color)
        requires
            Color::is_letter(c),
        ensures
            color == Color::spec_from_char(c),
    {
        if c == 'W' {
            Color::White
        } else if c == 'O' {
            Color::Orange
        } else if c == 'G' {
            Color::Green
        } else if c == 'R' {
            Color::Red
        } else if c == 'B' {
            Color::Blue
        } else if c == 'Y' {
            Color::Yellow
        } else {
            Color::Unspecified
        }
    }

    #[verifier::when_used_as_spec(spec_letter)]
    pub fn letter(&self) -> (c: char)
        ensures
            c == self.spec_letter(),
    {
        match self {
            Color::White => 'W',
            Color::Orange => 'O',
            Color::Green => 'G',
            Color::Red => 'R',
            Color::Blue => 'B',
            Color::Yellow => 'Y',
            Color::Unspecified => 'N',
        }
    }
}

impl Default for Color {
    fn default() -> (color: Color)
        ensures
            color == Color::Unspecified,
    {
        Color::Unspecified
    }
}

/// A colour and its letter name each other, and so do a colour and its code.
pub proof fn lemma_color_names(color: Color, c: char)
    ensures
        Color::is_letter(color.spec_letter()),
        Color::spec_from_char(color.spec_letter()) == color,
        Color::is_letter(c) ==> Color::spec_from_char(c).spec_letter() == c,
        0 <= color.spec_code() <= 6,
        Color::spec_from_code(color.spec_code()) == color,
{
}


/// One face of the cube as a grid of colours. `colors[x][y]` is the facelet in
/// column `x`, counted from the left, and row `y`, counted from the bottom.
#[derive(Clone, Copy, Eq, Hash, Debug)]
pub struct Side {
    pub colors: [[Color; 3]; 3],
}

impl Side {
    /// The colour in column `x` and row `y`.
    pub open spec fn at(&self, x: int, y: int) -> Color {
        self.colors[x][y]
    }

    /// Whether two sides show the same colour in each of their nine places.
    pub open spec fn same_colors(&self, other: &Side) -> bool {
        forall|x: int, y: int| 0 <= x < 3 && 0 <= y < 3 ==> self.at(x, y) == other.at(x, y)
    }

    /// The side after a quarter turn clockwise: what stood in column `x` and
    /// row `y` stands in column `y` and row `2 - x`.
    pub fn rotate_clockwise(&self) -> (side: Side)
        ensures
            forall|x: int, y: int| 0 <= x < 3 && 0 <= y < 3 ==> side.at(y, 2 - x) == self.at(x, y),
    {
        let c = &self.colors;
        Side {
            colors: [
                [c[2][0], c[1][0], c[0][0]],
                [c[2][1], c[1][1], c[0][1]],
                [c[2][2], c[1][2], c[0][2]],
            ],
        }
    }

    /// The side after a quarter turn counter-clockwise: what stood in column
    /// `x` and row `y` stands in column `2 - y` and row `x`.
    pub fn rotate_counterclockwise(&self) -> (side: Side)
        ensures
            forall|x: int, y: int| 0 <= x < 3 && 0 <= y < 3 ==> side.at(2 - y, x) == self.at(x, y),
    {
        let c = &self.colors;
        Side {
            colors: [
                [c[0][2], c[1][2], c[2][2]],
                [c[0][1], c[1][1], c[2][1]],
                [c[0][0], c[1][0], c[2][0]],
            ],
        }
    }

    /// The top row, from left to right.
    pub fn top(&self) -> (row: [Color; 3])
        ensures
            forall|x: int| 0 <= x < 3 ==> row[x] == self.at(x, 2),
    {
        [self.colors[0][2], self.colors[1][2], self.colors[2][2]]
    }

    /// The left column, from the bottom up.
    pub fn left(&self) -> (column: [Color; 3])
        ensures
            forall|y: int| 0 <= y < 3 ==> column[y] == self.at(0, y),
    {
        [self.colors[0][0], self.colors[0][1], self.colors[0][2]]
    }

    /// The bottom row, from left to right.
    pub fn bottom(&self) -> (row: [Color; 3])
        ensures
            forall|x: int| 0 <= x < 3 ==> row[x] == self.at(x, 0),
    {
        [self.colors[0][0], self.colors[1][0], self.colors[2][0]]
    }

    /// The right column, from the bottom up.
    pub fn right(&self) -> (column: [Color; 3])
        ensures
            forall|y: int| 0 <= y < 3 ==> column[y] == self.at(2, y),
    {
        [self.colors[2][0], self.colors[2][1], self.colors[2][2]]
    }

    /// The side with `colors` as its top row.
    pub fn replace_top(&self, colors: &[Color; 3]) -> (side: Side)
        ensures
            forall|x: int, y: int|
                0 <= x < 3 && 0 <= y < 3 ==> side.at(x, y) == (if y == 2 {
                    colors[x]
                } else {
                    self.at(x, y)
                }),
    {
        let c = &self.colors;
        Side { colors: [[c[0][0], c[0][1], colors[0]], [c[1][0], c[1][1], colors[1]], [c[2][0], c[2][1], colors[2]]] }
    }

    /// The side with `colors` as its left column.
    pub fn replace_left(&self, colors: &[Color; 3]) -> (side: Side)
        ensures
            forall|x: int, y: int|
                0 <= x < 3 && 0 <= y < 3 ==> side.at(x, y) == (if x == 0 {
                    colors[y]
                } else {
                    self.at(x, y)
                }),
    {
        let c = &self.colors;
        Side { colors: [[colors[0], colors[1], colors[2]], [c[1][0], c[1][1], c[1][2]], [c[2][0], c[2][1], c[2][2]]] }
    }

    /// The side with `colors` as its bottom row.
    pub fn replace_bottom(&self, colors: &[Color; 3]) -> (side: Side)
        ensures
            forall|x: int, y: int|
                0 <= x < 3 && 0 <= y < 3 ==> side.at(x, y) == (if y == 0 {
                    colors[x]
                } else {
                    self.at(x, y)
                }),
    {
        let c = &self.colors;
        Side { colors: [[colors[0], c[0][1], c[0][2]], [colors[1], c[1][1], c[1][2]], [colors[2], c[2][1], c[2][2]]] }
    }

    /// The side with `colors` as its right column.
    pub fn replace_right(&self, colors: &[Color; 3]) -> (side: Side)
        ensures
            forall|x: int, y: int|
                0 <= x < 3 && 0 <= y < 3 ==> side.at(x, y) == (if x == 2 {
                    colors[y]
                } else {
                    self.at(x, y)
                }),
    {
        let c = &self.colors;
        Side { colors: [[c[0][0], c[0][1], c[0][2]], [c[1][0], c[1][1], c[1][2]], [colors[0], colors[1], colors[2]]] }
    }
}

impl PartialEq for Side {
    fn eq(&self, other: &Self) -> (same: bool) {
        let mut x: usize = 0;
        while x < 3
            invariant
                x <= 3,
                forall|i: int, y: int| 0 <= i < x && 0 <= y < 3 ==> self.at(i, y) == other.at(i, y),
            decreases 3 - x,
        {
            let mut y: usize = 0;
            while y < 3
                invariant
                    x < 3,
                    y <= 3,
                    forall|i: int, j: int| 0 <= i < x && 0 <= j < 3 ==> self.at(i, j) == other.at(i, j),
                    forall|j: int| 0 <= j < y ==> self.at(x as int, j) == other.at(x as int, j),
                decreases 3 - y,
            {
                if self.colors[x][y] != other.colors[x][y] {
                    assert(self.at(x as int, y as int) != other.at(x as int, y as int));
                    return false;
                }
                y += 1;
            }
            x += 1;
        }
        true
    }
}

impl vstd::std_specs::cmp::PartialEqSpecImpl for Side {
    open spec fn obeys_eq_spec() -> bool {
        true
    }

    open spec fn eq_spec(&self, other: &Self) -> bool {
        self.same_colors(other)
    }
}

impl Default for Side {
    fn default() -> (side: Side)
        ensures
            forall|x: int, y: int| 0 <= x < 3 && 0 <= y < 3 ==> side.at(x, y) == Color::Unspecified,
    {
        let n = Color::Unspecified;
        Side { colors: [[n, n, n], [n, n, n], [n, n, n]] }
    }
}

} // verus!
