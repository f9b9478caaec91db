//! The configuration of a cube: 48 facelets in a packed word.
use vstd::prelude::*;
use vstd::string::*;
use crate::cells::{lemma_empty_word, lemma_get, lemma_put, lemma_same_word};
use crate::layout::{cell_of, clockwise_source, facelet_of, facelet_source, slot_of};
use crate::packed::{and, or, shl, shr, word, Packed};
use crate::rotation::Rotation;
use crate::side::{lemma_color_names, Color};
use crate::turns::{turn, turned_upto};

verus! {

/// Whether `p` is the middle of a face in the 54-character form.
pub open spec fn is_centre(p: int) -> bool {
    p == 4 || p == 13 || p == 22 || p == 31 || p == 40 || p == 49
}

/// The colour of the face that facelet `p` lies on, as its centre shows it:
/// white up, orange left, green in front, red right, blue behind, yellow
/// down.
pub open spec fn face_color(p: int) -> Color {
    if p < 9 {
        Color::White
    } else if p < 18 {
        Color::Orange
    } else if p < 27 {
        Color::Green
    } else if p < 36 {
        Color::Red
    } else if p < 45 {
        Color::Blue
    } else {
        Color::Yellow
    }
}

/// The cube after a turn, as a sequence of 54 colours: each facelet takes the
/// colour of its source.
pub open spec fn turned(cube: Seq<Color>, m: Rotation) -> Seq<Color> {
    Seq::new(54, |p: int| cube[facelet_source(m.spec_index(), p)])
}

/// The colour that a word holds for facelet `p`.
pub open spec fn color_at(w: Packed, p: int) -> Color {
    if is_centre(p) {
        face_color(p)
    } else {
        Color::spec_from_code(facelet_of(w.lo, w.mid, w.hi, p) as int)
    }
}

/// Whether a word holds a cube: a colour in every facelet's slot, and nothing
/// anywhere else.
pub open spec fn holds_cube(w: Packed) -> bool {
    &&& forall|p: int| 0 <= p < 54 ==> #[trigger] facelet_of(w.lo, w.mid, w.hi, p) <= 6
    &&& cell_of(w.lo, w.mid, w.hi, 0) == 0
    &&& cell_of(w.lo, w.mid, w.hi, 49) == 0
    &&& w.hi >> 22 == 0
}

/// How many characters of a text are read as facelets: all of them, but no
/// more than 54.
pub open spec fn read_upto(text: Seq<char>) -> int {
    if text.len() < 54 {
        text.len() as int
    } else {
        54
    }
}

/// Whether place `k` of a text can be read: it holds a colour's letter, or it
/// is a centre, where any character will do.
pub open spec fn legible_at(text: Seq<char>, k: int) -> bool {
    is_centre(k) || Color::is_letter(text[k])
}

/// Whether all places of a text before `n` can be read.
pub open spec fn legible_upto(text: Seq<char>, n: int) -> bool {
    forall|k: int| 0 <= k < n ==> legible_at(text, k)
}

/// The cube that a text spells: each letter's colour at its place, each
/// face's own colour at its centre, and `Unspecified` where the text has
/// ended.
pub open spec fn colors_of(text: Seq<char>) -> Seq<Color> {
    Seq::new(
        54,
        |p: int|
            if is_centre(p) {
                face_color(p)
            } else if p < text.len() {
                Color::spec_from_char(text[p])
            } else {
                Color::Unspecified
            },
    )
}

/// The facelet that lies in slot `slot`, for the slots 1 to 48.
pub open spec fn facelet_at(slot: int) -> int {
    let face = (slot - 1) / 8;
    let at = slot - 8 * face;
    9 * face + (if at == 1 {
        6int
    } else if at == 2 {
        0int
    } else if at == 3 {
        2int
    } else if at == 4 {
        8int
    } else if at == 5 {
        7int
    } else if at == 6 {
        3int
    } else if at == 7 {
        1int
    } else {
        5int
    })
}

/// The 54 letters of a cube.
pub open spec fn letters_of(cube: Seq<Color>) -> Seq<char> {
    Seq::new(54, |p: int| cube[p].spec_letter())
}

/// One row of a face as text: line 0 is the top row, line 1 the middle row,
/// with a blank for the centre, and line 2 the bottom row. Between two
/// letters stands a blank.
pub open spec fn row_text(cube: Seq<Color>, face: int, line: int) -> Seq<char> {
    if line == 1 {
        seq![cube[9 * face + 3].spec_letter(), ' ', ' ', ' ', cube[9 * face + 5].spec_letter()]
    } else {
        let first = 9 * face + if line == 0 { 6int } else { 0int };
        seq![cube[first].spec_letter(), ' ', cube[first + 1].spec_letter(), ' ', cube[first + 2].spec_letter()]
    }
}

/// A line that shows one row of the upper or of the lower face, six blanks
/// from the left edge.
pub open spec fn lone_line(cube: Seq<Color>, face: int, line: int) -> Seq<char> {
    seq![' ', ' ', ' ', ' ', ' ', ' '] + row_text(cube, face, line) + seq!['\n']
}

/// A line that shows one row of the four faces around the cube: left, front,
/// right, back.
pub open spec fn band_line(cube: Seq<Color>, line: int) -> Seq<char> {
    row_text(cube, 1, line) + seq![' '] + row_text(cube, 2, line) + seq![' '] + row_text(cube, 3, line) + seq![' ']
        + row_text(cube, 4, line) + seq!['\n']
}

/// The cube laid out flat, in nine lines: the upper face, the band of four
/// faces, the lower face.
pub open spec fn unwrapped(cube: Seq<Color>) -> Seq<char> {
    lone_line(cube, 0, 0) + lone_line(cube, 0, 1) + lone_line(cube, 0, 2) + band_line(cube, 0) + band_line(cube, 1)
        + band_line(cube, 2) + lone_line(cube, 5, 0) + lone_line(cube, 5, 1) + lone_line(cube, 5, 2)
}

/// Why a text does not spell a cube.
#[derive(Clone, Copy, PartialEq, Eq, Debug, Structural)]
pub enum FromStrErr {
    /// The text is not 54 bytes long.
    InvalidLen,
    /// The character, which names no colour, stands where a facelet's letter
    /// should.
    InvalidChar(char),
}

/// The slot that holds facelet `p`; 0 for a centre.
fn slot_index(p: usize) -> (slot: u32)
    requires
        p < 54,
    ensures
        slot == slot_of(p as int),
        slot <= 48,
        slot == 0 <==> is_centre(p as int),
{
    let face = (p / 9) as u32;
    let at = p % 9;
    if at == 4 {
        0
    } else if at == 0 {
        8 * face + 2
    } else if at == 1 {
        8 * face + 7
    } else if at == 2 {
        8 * face + 3
    } else if at == 3 {
        8 * face + 6
    } else if at == 5 {
        8 * face + 8
    } else if at == 6 {
        8 * face + 1
    } else if at == 7 {
        8 * face + 5
    } else {
        8 * face + 4
    }
}

/// No two facelets share a slot, and no facelet lies in slot 0 or 49.
pub proof fn lemma_slots_apart(p: int, q: int)
    requires
        0 <= p < 54,
        0 <= q < 54,
        !is_centre(p),
    ensures
        1 <= slot_of(p) <= 48,
        p != q ==> slot_of(p) != slot_of(q),
        is_centre(q) ==> slot_of(q) == 0,
{
}

/// A slot's facelet lies in that slot.
pub proof fn lemma_facelet_at(slot: int)
    requires
        1 <= slot <= 48,
    ensures
        0 <= facelet_at(slot) < 54,
        !is_centre(facelet_at(slot)),
        slot_of(facelet_at(slot)) == slot,
{
}

/// Where the eight slots of a face lie on it: the corners from the top left
/// and the edges from the top, both counter-clockwise.
proof fn lemma_face_slots(face: int)
    requires
        0 <= face < 6,
    ensures
        facelet_at(8 * face + 1) == 9 * face + 6,
        facelet_at(8 * face + 2) == 9 * face,
        facelet_at(8 * face + 3) == 9 * face + 2,
        facelet_at(8 * face + 4) == 9 * face + 8,
        facelet_at(8 * face + 5) == 9 * face + 7,
        facelet_at(8 * face + 6) == 9 * face + 3,
        facelet_at(8 * face + 7) == 9 * face + 1,
        facelet_at(8 * face + 8) == 9 * face + 5,
{
}

/// A colour's letter as a text of its own.
fn letter_str(c: char) -> (text: &'static str)
    requires
        Color::is_letter(c),
    ensures
        text@ == seq![c],
{
    proof {
        reveal_strlit("W");
        reveal_strlit("O");
        reveal_strlit("G");
        reveal_strlit("R");
        reveal_strlit("B");
        reveal_strlit("Y");
        reveal_strlit("N");
    }
    let text = if c == 'W' {
        "W"
    } else if c == 'O' {
        "O"
    } else if c == 'G' {
        "G"
    } else if c == 'R' {
        "R"
    } else if c == 'B' {
        "B"
    } else if c == 'Y' {
        "Y"
    } else {
        "N"
    };
    assert(text@ =~= seq![c]);
    text
}

/// A configuration of the cube.
///
/// Its view is the 54-character form as colours: the faces in the order up,
/// left, front, right, back, down, each from left to right and from the bottom
/// row to the top row. The six centres are not stored; the view shows each
/// face's own colour there.
#[derive(Clone, Copy, PartialEq, Eq, Hash, Debug, Structural)]
pub struct CubeState {
    state: Packed,
}

impl View for CubeState {
    type V = Seq<Color>;

    closed spec fn view(&self) -> Seq<Color> {
        Seq::new(54, |p: int| color_at(self.state, p))
    }
}

impl std::str::FromStr for CubeState {
    type Err = FromStrErr;

    /// Reads a cube from its 54-character form, as the method of the same
    /// name on `CubeState` itself does: a text of 54 bytes in which a colour's
    /// letter stands at every place but the centres spells a cube, and any
    /// other text is refused, for its length or for the first character that
    /// names no colour.
    fn from_str(cube_str: &str) -> (r: Result<CubeState, FromStrErr>)
        ensures
            match r {
                Ok(cube) => {
                    &&& cube_str.spec_bytes().len() == 54
                    &&& legible_upto(cube_str@, read_upto(cube_str@))
                    &&& cube@ == colors_of(cube_str@)
                },
                Err(FromStrErr::InvalidLen) => cube_str.spec_bytes().len() != 54,
                Err(FromStrErr::InvalidChar(c)) => {
                    &&& cube_str.spec_bytes().len() == 54
                    &&& exists|k: int|
                        0 <= k < read_upto(cube_str@) && legible_upto(cube_str@, k) && !legible_at(cube_str@, k)
                            && c == cube_str@[k]
                },
            },
    {
        CubeState::from_str(cube_str)
    }
}

/// Every facelet's source is a facelet, and a centre is its own source.
pub proof fn lemma_source_is_facelet(turn: int, p: int)
    requires
        0 <= turn < 12,
        0 <= p < 54,
    ensures
        0 <= facelet_source(turn, p) < 54,
        is_centre(p) ==> facelet_source(turn, p) == p,
        !is_centre(p) ==> !is_centre(facelet_source(turn, p)),
{
}

/// Four clockwise quarter turns of a face bring every facelet back.
pub proof fn lemma_four_quarter_turns(face: int, p: int)
    requires
        0 <= face < 6,
        0 <= p < 54,
    ensures
        clockwise_source(face, clockwise_source(face, clockwise_source(face, clockwise_source(face, p)))) == p,
        0 <= clockwise_source(face, p) < 54,
{
}

/// The facelet in column `x` and row `y` of a face, the columns counted from
/// the left and the rows from the bottom.
pub open spec fn facelet_in(face: int, x: int, y: int) -> int {
    9 * face + 3 * y + x
}

/// A turn turns the face's own nine facelets as a grid: clockwise, what stood
/// in column `x` and row `y` comes to stand in column `y` and row `2 - x`;
/// counter-clockwise, it comes to stand in column `2 - y` and row `x`.
pub proof fn lemma_face_turns_as_grid(cube: Seq<Color>, m: Rotation, x: int, y: int)
    requires
        cube.len() == 54,
        0 <= x < 3,
        0 <= y < 3,
    ensures
        m.spec_is_clockwise() ==> turned(cube, m)[facelet_in(m.spec_face().spec_index(), y, 2 - x)] == cube[facelet_in(
            m.spec_face().spec_index(),
            x,
            y,
        )],
        !m.spec_is_clockwise() ==> turned(cube, m)[facelet_in(m.spec_face().spec_index(), 2 - y, x)] == cube[facelet_in(
            m.spec_face().spec_index(),
            x,
            y,
        )],
{
}

/// A turn and then its inverse leave every configuration as it was.
pub proof fn lemma_rotate_then_reverse(cube: Seq<Color>, m: Rotation)
    requires
        cube.len() == 54,
    ensures
        turned(turned(cube, m), m.spec_reverse()) == cube,
{
    let k = m.spec_index();
    let k2 = m.spec_reverse().spec_index();
    let face = m.spec_face().spec_index();
    assert forall|p: int| 0 <= p < 54 implies turned(turned(cube, m), m.spec_reverse())[p] == cube[p] by {
        lemma_source_is_facelet(k2, p);
        let q = facelet_source(k2, p);
        lemma_four_quarter_turns(face, p);
        lemma_four_quarter_turns(face, clockwise_source(face, p));
        lemma_four_quarter_turns(face, clockwise_source(face, clockwise_source(face, p)));
        assert(facelet_source(k, q) == p);
    }
    assert(turned(turned(cube, m), m.spec_reverse()) =~= cube);
}

/// The same quarter turn four times over leaves every configuration as it
/// was.
pub proof fn lemma_rotate_four_times(cube: Seq<Color>, m: Rotation)
    requires
        cube.len() == 54,
    ensures
        turned(turned(turned(turned(cube, m), m), m), m) == cube,
{
    let k = m.spec_index();
    let face = m.spec_face().spec_index();
    assert forall|p: int| 0 <= p < 54 implies turned(turned(turned(turned(cube, m), m), m), m)[p] == cube[p] by {
        let once = facelet_source(k, p);
        lemma_source_is_facelet(k, p);
        let twice = facelet_source(k, once);
        lemma_source_is_facelet(k, once);
        let thrice = facelet_source(k, twice);
        lemma_source_is_facelet(k, twice);
        let back = facelet_source(k, thrice);
        lemma_source_is_facelet(k, thrice);
        lemma_four_quarter_turns(face, p);
        lemma_four_quarter_turns(face, clockwise_source(face, p));
        lemma_four_quarter_turns(face, clockwise_source(face, clockwise_source(face, p)));
        lemma_four_quarter_turns(face, clockwise_source(face, clockwise_source(face, clockwise_source(face, p))));
        assert(back == p);
    }
    assert(turned(turned(turned(turned(cube, m), m), m), m) =~= cube);
}

proof fn lemma_turned_upto(s: Packed, r: Packed, turn: int, n: int)
    requires
        turned_upto(s.lo, s.mid, s.hi, r.lo, r.mid, r.hi, turn, n),
    ensures
        forall|p: int| 0 <= p < n ==> #[trigger] facelet_of(r.lo, r.mid, r.hi, p)
            == facelet_of(s.lo, s.mid, s.hi, facelet_source(turn, p)),
    decreases n,
{
    if n > 0 {
        lemma_turned_upto(s, r, turn, n - 1);
    }
}

/// Whether a sequence of colours is a cube: 54 facelets, each centre in its
/// face's own colour.
pub open spec fn is_cube(cube: Seq<Color>) -> bool {
    &&& cube.len() == 54
    &&& forall|p: int| 0 <= p < 54 && is_centre(p) ==> cube[p] == face_color(p)
}

/// What a configuration shows is a cube.
pub proof fn lemma_view_is_cube(cube: CubeState)
    ensures
        is_cube(cube@),
{
}

/// Reading a cube's own 54 letters gives the cube again: the text is 54
/// bytes long, every letter in it can be read, and it spells the cube.
pub proof fn lemma_read_letters(cube: Seq<Color>, text: &str)
    requires
        is_cube(cube),
        text@ == letters_of(cube),
    ensures
        text.spec_bytes().len() == 54,
        legible_upto(text@, read_upto(text@)),
        colors_of(text@) == cube,
{
    assert(vstd::utf8::is_ascii_chars(text@)) by {
        assert forall|i: int| 0 <= i < text@.len() implies '\0' <= #[trigger] text@[i] <= '\u{7f}' by {
            lemma_color_names(cube[i], 'N');
        }
    }
    vstd::utf8::is_ascii_chars_encode_utf8(text@);
    assert forall|k: int| 0 <= k < 54 implies legible_at(text@, k) by {
        lemma_color_names(cube[k], 'N');
    }
    assert(colors_of(text@) =~= cube) by {
        assert forall|p: int| 0 <= p < 54 implies colors_of(text@)[p] == cube[p] by {
            lemma_color_names(cube[p], 'N');
        }
    }
}

/// Two configurations that show the same colours are one configuration.
pub proof fn lemma_same_view(a: CubeState, b: CubeState)
    requires
        a.valid(),
        b.valid(),
        a@ == b@,
    ensures
        a == b,
{
    assert forall|p: int| 0 <= p < 54 implies #[trigger] facelet_of(a.state.lo, a.state.mid, a.state.hi, p)
        == facelet_of(b.state.lo, b.state.mid, b.state.hi, p) by {
        assert(a@[p] == b@[p]);
        if is_centre(p) {
            lemma_slots_apart(0, p);
        } else {
            let x = facelet_of(a.state.lo, a.state.mid, a.state.hi, p);
            let y = facelet_of(b.state.lo, b.state.mid, b.state.hi, p);
            assert(a@[p] == color_at(a.state, p));
            assert(b@[p] == color_at(b.state, p));
            assert(x <= 6 && y <= 6);
        }
    }
    lemma_same_word(a.state, b.state);
}

impl CubeState {
    /// Whether the packed word holds a cube. Every `CubeState` does.
    #[verifier::type_invariant]
    pub closed spec fn valid(&self) -> bool {
        holds_cube(self.state)
    }

    /// The number that `fingerprint` computes.
    pub closed spec fn spec_fingerprint(&self) -> u64 {
        self.state.lo.wrapping_mul(0x9e37_79b9_7f4a_7c15) ^ self.state.mid.wrapping_mul(0xc2b2_ae3d_27d4_eb4f)
            ^ self.state.hi.wrapping_mul(0x1656_67b1_9e37_79f9)
    }

    /// Reads a cube from its 54-character form: the faces in the order up,
    /// left, front, right, back, down, each from left to right and from the
    /// bottom row to the top row, a letter of `W`, `O`, `G`, `R`, `B`, `Y`, `N`
    /// for each facelet. What stands at a centre is not looked at.
    pub fn from_str(cube_str: &str) -> (r: Result<CubeState, FromStrErr>)
        ensures
            match r {
                Ok(cube) => {
                    &&& cube_str.spec_bytes().len() == 54
                    &&& legible_upto(cube_str@, read_upto(cube_str@))
                    &&& cube@ == colors_of(cube_str@)
                },
                Err(FromStrErr::InvalidLen) => cube_str.spec_bytes().len() != 54,
                Err(FromStrErr::InvalidChar(c)) => {
                    &&& cube_str.spec_bytes().len() == 54
                    &&& exists|k: int|
                        0 <= k < read_upto(cube_str@) && legible_upto(cube_str@, k) && !legible_at(cube_str@, k)
                            && c == cube_str@[k]
                },
            },
    {
        if cube_str.as_bytes().len() != 54 {
            return Err(FromStrErr::InvalidLen);
        }
        let n = cube_str.unicode_len();
        let mut state = word(0, 0, 0);
        let mut k: usize = 0;
        proof {
            lemma_empty_word();
            assert forall|p: int| 0 <= p < 54 implies 0 <= #[trigger] slot_of(p) < 64 by {
                if !is_centre(p) {
                    lemma_slots_apart(p, p);
                }
            }
        }
        while k < n && k < 54
            invariant
                k <= 54,
                k <= n,
                n == cube_str@.len(),
                cube_str.spec_bytes().len() == 54,
                legible_upto(cube_str@, k as int),
                holds_cube(state),
                forall|p: int|
                    0 <= p < 54 ==> #[trigger] facelet_of(state.lo, state.mid, state.hi, p) == (if !is_centre(p)
                        && p < k {
                        Color::spec_from_char(cube_str@[p]).spec_code()
                    } else {
                        0
                    }),
            decreases 54 - k,
        {
            let c = cube_str.get_char(k);
            let slot = slot_index(k);
            if slot != 0 {
                let code: u64 = if c == 'N' {
                    0
                } else if c == 'W' {
                    1
                } else if c == 'O' {
                    2
                } else if c == 'G' {
                    3
                } else if c == 'R' {
                    4
                } else if c == 'B' {
                    5
                } else if c == 'Y' {
                    6
                } else {
                    proof {
                        let at = k as int;
                        assert(!legible_at(cube_str@, at));
                        assert(0 <= at < read_upto(cube_str@) && legible_upto(cube_str@, at) && c == cube_str@[at]);
                    }
                    return Err(FromStrErr::InvalidChar(c));
                };
                let m = shl(word(code, 0, 0), 3 * slot);
                let r = or(state, m);
                proof {
                    assert(facelet_of(state.lo, state.mid, state.hi, k as int) == 0);
                    lemma_put(state, m, r, slot as u64, code);
                    assert forall|p: int| 0 <= p < 54 implies #[trigger] facelet_of(r.lo, r.mid, r.hi, p) == (if p
                        == k {
                        code
                    } else {
                        facelet_of(state.lo, state.mid, state.hi, p)
                    }) by {
                        lemma_slots_apart(k as int, p);
                        if !is_centre(p) {
                            lemma_slots_apart(p, p);
                        }
                    }
                    assert(cell_of(r.lo, r.mid, r.hi, 0) == 0);
                    assert(cell_of(r.lo, r.mid, r.hi, 49) == 0);
                }
                state = r;
            }
            k += 1;
        }
        let cube = CubeState { state };
        proof {
            assert(cube@ =~= colors_of(cube_str@)) by {
                assert forall|p: int| 0 <= p < 54 implies cube@[p] == colors_of(cube_str@)[p] by {
                    if !is_centre(p) && p < k {
                        let color = Color::spec_from_char(cube_str@[p]);
                        assert(legible_at(cube_str@, p));
                        assert(Color::spec_from_code(color.spec_code()) == color);
                    }
                }
            }
        }
        Ok(cube)
    }

    /// The three bits in slot `idx`.
    fn cell(&self, idx: u8) -> (code: u8)
        requires
            idx < 50,
        ensures
            code == cell_of(self.state.lo, self.state.mid, self.state.hi, idx as int),
    {
        let a = shr(self.state, 3 * (idx as u32));
        let x = and(a, word(7, 0, 0));
        proof {
            lemma_get(self.state, a, idx as u64);
        }
        x.lo as u8
    }

    /// The letter of the colour in slot `idx`.
    fn cell_char(&self, idx: u8) -> (c: char)
        requires
            1 <= idx <= 48,
        ensures
            c == self@[facelet_at(idx as int)].spec_letter(),
            Color::is_letter(c),
    {
        proof {
            use_type_invariant(self);
            lemma_facelet_at(idx as int);
        }
        let code = self.cell(idx);
        assert(code == facelet_of(self.state.lo, self.state.mid, self.state.hi, facelet_at(idx as int)));
        assert(self@[facelet_at(idx as int)] == color_at(self.state, facelet_at(idx as int)));
        if code == 0 {
            'N'
        } else if code == 1 {
            'W'
        } else if code == 2 {
            'O'
        } else if code == 3 {
            'G'
        } else if code == 4 {
            'R'
        } else if code == 5 {
            'B'
        } else {
            'Y'
        }
    }

    /// One row of a face as text. The face's slots run from its top left
    /// corner: four corners, then four edges, each counter-clockwise. `start`
    /// is the slot at the left end of the row, and `slice` says which row it
    /// is: 0 the top, 1 the middle, 2 the bottom.
    fn get_face_slice_str(&self, start: u8, slice: u8) -> (text: String)
        requires
            slice <= 2,
            slice == 0 ==> 1 <= start <= 44,
            slice == 1 ==> 1 <= start <= 46,
            slice == 2 ==> 1 <= start <= 43,
        ensures
            slice == 0 ==> text@ == seq![
                self@[facelet_at(start as int)].spec_letter(),
                ' ',
                self@[facelet_at(start + 4)].spec_letter(),
                ' ',
                self@[facelet_at(start + 3)].spec_letter(),
            ],
            slice == 1 ==> text@ == seq![
                self@[facelet_at(start as int)].spec_letter(),
                ' ',
                ' ',
                ' ',
                self@[facelet_at(start + 2)].spec_letter(),
            ],
            slice == 2 ==> text@ == seq![
                self@[facelet_at(start as int)].spec_letter(),
                ' ',
                self@[facelet_at(start + 5)].spec_letter(),
                ' ',
                self@[facelet_at(start + 1)].spec_letter(),
            ],
    {
        proof {
            reveal_strlit(" ");
            reveal_strlit("   ");
        }
        let mut text = String::new();
        text.append(letter_str(self.cell_char(start)));
        if slice == 0 {
            text.append(" ");
            text.append(letter_str(self.cell_char(start + 4)));
            text.append(" ");
            text.append(letter_str(self.cell_char(start + 3)));
            assert(text@ =~= seq![
                self@[facelet_at(start as int)].spec_letter(),
                ' ',
                self@[facelet_at(start + 4)].spec_letter(),
                ' ',
                self@[facelet_at(start + 3)].spec_letter(),
            ]);
        } else if slice == 1 {
            text.append("   ");
            text.append(letter_str(self.cell_char(start + 2)));
            assert(text@ =~= seq![
                self@[facelet_at(start as int)].spec_letter(),
                ' ',
                ' ',
                ' ',
                self@[facelet_at(start + 2)].spec_letter(),
            ]);
        } else {
            text.append(" ");
            text.append(letter_str(self.cell_char(start + 5)));
            text.append(" ");
            text.append(letter_str(self.cell_char(start + 1)));
            assert(text@ =~= seq![
                self@[facelet_at(start as int)].spec_letter(),
                ' ',
                self@[facelet_at(start + 5)].spec_letter(),
                ' ',
                self@[facelet_at(start + 1)].spec_letter(),
            ]);
        }
        text
    }

    /// One row of a face as text: line 0 is the top row, line 1 the middle
    /// row, line 2 the bottom row.
    fn face_row(&self, face: u8, line: u8) -> (text: String)
        requires
            face < 6,
            line < 3,
        ensures
            text@ == row_text(self@, face as int, line as int),
    {
        let corner = 8 * face + 1;
        let start = if line == 0 {
            corner
        } else if line == 1 {
            corner + 5
        } else {
            corner + 1
        };
        proof {
            lemma_face_slots(face as int);
        }
        self.get_face_slice_str(start, line)
    }

    /// Adds to `result` a line with one row of the upper or of the lower
    /// face.
    fn push_lone_line(&self, result: &mut String, face: u8, line: u8)
        requires
            face < 6,
            line < 3,
        ensures
            final(result)@ == old(result)@ + lone_line(self@, face as int, line as int),
    {
        proof {
            reveal_strlit("      ");
            reveal_strlit("\n");
        }
        let row = self.face_row(face, line);
        let mut text = String::new();
        text.append("      ");
        text.append(row.as_str());
        text.append("\n");
        assert(text@ =~= lone_line(self@, face as int, line as int));
        result.append(text.as_str());
    }

    /// Adds to `result` a line with one row of each of the four faces around
    /// the cube.
    fn push_band_line(&self, result: &mut String, line: u8)
        requires
            line < 3,
        ensures
            final(result)@ == old(result)@ + band_line(self@, line as int),
    {
        proof {
            reveal_strlit(" ");
            reveal_strlit("\n");
        }
        let left = self.face_row(1, line);
        let front = self.face_row(2, line);
        let right = self.face_row(3, line);
        let back = self.face_row(4, line);
        let mut text = String::new();
        text.append(left.as_str());
        text.append(" ");
        text.append(front.as_str());
        text.append(" ");
        text.append(right.as_str());
        text.append(" ");
        text.append(back.as_str());
        text.append("\n");
        assert(text@ =~= band_line(self@, line as int));
        result.append(text.as_str());
    }

    /// The cube laid out flat as text, in nine lines.
    pub fn get_unwrapped_cube_str(&self) -> (result: String)
        ensures
            result@ == unwrapped(self@),
    {
        let mut result = String::new();
        self.push_lone_line(&mut result, 0, 0);
        self.push_lone_line(&mut result, 0, 1);
        self.push_lone_line(&mut result, 0, 2);
        self.push_band_line(&mut result, 0);
        self.push_band_line(&mut result, 1);
        self.push_band_line(&mut result, 2);
        self.push_lone_line(&mut result, 5, 0);
        self.push_lone_line(&mut result, 5, 1);
        self.push_lone_line(&mut result, 5, 2);
        assert(result@ =~= unwrapped(self@));
        result
    }

    /// The cube laid out flat as text, as `get_unwrapped_cube_str` gives it.
    pub fn to_string(&self) -> (result: String)
        ensures
            result@ == unwrapped(self@),
    {
        self.get_unwrapped_cube_str()
    }

    /// The cube in its 54-character form, each centre with its face's own
    /// letter.
    pub fn state_str(&self) -> (result: String)
        ensures
            result@ == letters_of(self@),
    {
        let mut result = String::new();
        let mut p: usize = 0;
        while p < 54
            invariant
                p <= 54,
                result@ == letters_of(self@).subrange(0, p as int),
            decreases 54 - p,
        {
            let slot = slot_index(p);
            let c = if slot == 0 {
                if p < 9 {
                    'W'
                } else if p < 18 {
                    'O'
                } else if p < 27 {
                    'G'
                } else if p < 36 {
                    'R'
                } else if p < 45 {
                    'B'
                } else {
                    'Y'
                }
            } else {
                proof {
                    lemma_facelet_at(slot as int);
                    lemma_slots_apart(p as int, facelet_at(slot as int));
                }
                self.cell_char(slot as u8)
            };
            assert(c == self@[p as int].spec_letter());
            result.append(letter_str(c));
            p += 1;
            assert(result@ =~= letters_of(self@).subrange(0, p as int));
        }
        assert(result@ =~= letters_of(self@));
        result
    }

    /// A number that cubes with the same colours share, for keeping cubes in
    /// a table.
    pub fn fingerprint(&self) -> (h: u64)
        ensures
            h == self.spec_fingerprint(),
    {
        self.state.lo.wrapping_mul(0x9e37_79b9_7f4a_7c15) ^ self.state.mid.wrapping_mul(0xc2b2_ae3d_27d4_eb4f)
            ^ self.state.hi.wrapping_mul(0x1656_67b1_9e37_79f9)
    }

    /// The cube after a quarter turn of one face.
    pub fn rotated(&self, rotation: Rotation) -> (cube: CubeState)
        ensures
            cube@ == turned(self@, rotation),
    {
        let mut cube = *self;
        cube.rotate(rotation);
        cube
    }

    /// Whether two cubes show the same colour in every facelet.
    pub fn equals(&self, other: &CubeState) -> (same: bool)
        ensures
            same == (self@ == other@),
            same == (*self == *other),
    {
        proof {
            use_type_invariant(self);
            use_type_invariant(other);
            if self@ == other@ {
                lemma_same_view(*self, *other);
            }
        }
        self.state.lo == other.state.lo && self.state.mid == other.state.mid && self.state.hi == other.state.hi
    }

    /// Turns one face by a quarter.
    pub fn rotate(&mut self, rotation: Rotation)
        ensures
            final(self)@ == turned(old(self)@, rotation),
    {
        proof {
            use_type_invariant(&*self);
        }
        let s = self.state;
        let r = turn(s, rotation);
        proof {
            let k = rotation.spec_index();
            lemma_turned_upto(s, r, k, 54);
            assert forall|p: int| 0 <= p < 54 implies #[trigger] facelet_of(r.lo, r.mid, r.hi, p) <= 6
                && color_at(r, p) == color_at(s, facelet_source(k, p)) by {
                lemma_source_is_facelet(k, p);
            }
            assert(slot_of(4) == 0);
            lemma_source_is_facelet(k, 4);
            assert(facelet_of(r.lo, r.mid, r.hi, 4) == facelet_of(s.lo, s.mid, s.hi, 4));
            assert((CubeState { state: r })@ =~= turned(self@, rotation)) by {
                assert forall|p: int| 0 <= p < 54 implies 0 <= #[trigger] facelet_source(k, p) < 54 by {
                    lemma_source_is_facelet(k, p);
                }
            }
        }
        self.state = r;
    }
}

} // verus!
