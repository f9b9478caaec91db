//! How the facelets of a cube lie in a 192-bit word, and where each facelet's
//! colour comes from when a face turns.
//!
//! The word has 64 slots of three bits. Slots 1 to 48 hold the facelets that
//! move, eight for each face; slots 0 and 49 stay empty and take up what a
//! shift pushes over the edge of a face. The 54-character form lists the
//! faces in the order up, left, front, right, back, down, and the facelets of
//! a face from left to right and from the bottom row to the top row:
//!
//! ```text
//!           6  7  8
//!           3  4  5
//!           0  1  2
//! 15 16 17 24 25 26 33 34 35 42 43 44
//! 12 13 14 21 22 23 30 31 32 39 40 41
//!  9 10 11 18 19 20 27 28 29 36 37 38
//!          51 52 53
//!          48 49 50
//!          45 46 47
//! ```
//!
//! The functions here take the three digits of a word one by one, and whole
//! numbers for faces and turns, so that they can be used where bits are
//! reasoned about.
use vstd::prelude::*;

verus! {

/// The three bits of slot `i` of a word. Slots 21 and 42 lie across two
/// digits.
pub open spec fn cell_of(lo: u64, mid: u64, hi: u64, i: int) -> u64 {
    if i < 21 {
        (lo >> (3 * i) as u64) & 7
    } else if i == 21 {
        (lo >> 63) | ((mid & 3) << 1)
    } else if i < 42 {
        (mid >> ((3 * i - 64) as u64)) & 7
    } else if i == 42 {
        (mid >> 62) | ((hi & 1) << 2)
    } else {
        (hi >> ((3 * i - 128) as u64)) & 7
    }
}

/// The face that facelet `p` lies on, from 0 for the upper face to 5 for the
/// lower one.
pub open spec fn face_of(p: int) -> int {
    if p < 9 {
        0
    } else if p < 18 {
        1
    } else if p < 27 {
        2
    } else if p < 36 {
        3
    } else if p < 45 {
        4
    } else {
        5
    }
}

/// The slot that holds facelet `p` of the 54-character form; 0 for the six
/// centres, which are not stored. The eight slots of a face begin with the
/// corners, from the top left one counter-clockwise, and go on with the
/// edges, from the top one counter-clockwise.
pub open spec fn slot_of(p: int) -> int {
    let face = face_of(p);
    let at = p - 9 * face;
    if at == 4 {
        0
    } else if at == 6 {
        8 * face + 1
    } else if at == 0 {
        8 * face + 2
    } else if at == 2 {
        8 * face + 3
    } else if at == 8 {
        8 * face + 4
    } else if at == 7 {
        8 * face + 5
    } else if at == 3 {
        8 * face + 6
    } else if at == 1 {
        8 * face + 7
    } else {
        8 * face + 8
    }
}

/// The three bits that a word holds for facelet `p`.
pub open spec fn facelet_of(lo: u64, mid: u64, hi: u64, p: int) -> u64 {
    cell_of(lo, mid, hi, slot_of(p))
}

/// `p` itself, but for the four places `a`, `b`, `c`, `d`: there `a` gives
/// `b`, `b` gives `c`, `c` gives `d` and `d` gives `a`.
pub open spec fn four_cycle(a: int, b: int, c: int, d: int, p: int) -> int {
    if p == a {
        b
    } else if p == b {
        c
    } else if p == c {
        d
    } else if p == d {
        a
    } else {
        p
    }
}

/// Five cycles of four places each, one after the other. The cycles of a
/// turn share no place, so their order does not matter.
pub open spec fn five_cycles(
    corners: (int, int, int, int),
    edges: (int, int, int, int),
    first: (int, int, int, int),
    second: (int, int, int, int),
    third: (int, int, int, int),
    p: int,
) -> int {
    let p = four_cycle(third.0, third.1, third.2, third.3, p);
    let p = four_cycle(second.0, second.1, second.2, second.3, p);
    let p = four_cycle(first.0, first.1, first.2, first.3, p);
    let p = four_cycle(edges.0, edges.1, edges.2, edges.3, p);
    four_cycle(corners.0, corners.1, corners.2, corners.3, p)
}

/// The facelet whose colour stands at `p` after face `face` has made a
/// clockwise quarter turn. In each cycle a place takes the colour of the
/// place named after it. The first two cycles are the corners and the edges
/// of the face itself, the other three lead through its four neighbours.
pub open spec fn clockwise_source(face: int, p: int) -> int {
    if face == 0 {
        five_cycles((0, 2, 8, 6), (1, 5, 7, 3), (15, 24, 33, 42), (16, 25, 34, 43), (17, 26, 35, 44), p)
    } else if face == 1 {
        five_cycles((9, 11, 17, 15), (10, 14, 16, 12), (0, 44, 45, 18), (3, 41, 48, 21), (6, 38, 51, 24), p)
    } else if face == 2 {
        five_cycles((18, 20, 26, 24), (19, 23, 25, 21), (0, 11, 53, 33), (1, 14, 52, 30), (2, 17, 51, 27), p)
    } else if face == 3 {
        five_cycles((27, 29, 35, 33), (28, 32, 34, 30), (2, 20, 47, 42), (5, 23, 50, 39), (8, 26, 53, 36), p)
    } else if face == 4 {
        five_cycles((36, 38, 44, 42), (37, 41, 43, 39), (6, 35, 47, 9), (7, 32, 46, 12), (8, 29, 45, 15), p)
    } else {
        five_cycles((45, 47, 53, 51), (46, 50, 52, 48), (9, 36, 27, 18), (10, 37, 28, 19), (11, 38, 29, 20), p)
    }
}

/// The facelet whose colour stands at `p` after the turn at place `turn` of
/// the canonical order. The turns of a face stand side by side there, the
/// clockwise one first. A counter-clockwise turn is three clockwise ones.
pub open spec fn facelet_source(turn: int, p: int) -> int {
    let face = if turn < 2 {
        0int
    } else if turn < 4 {
        1int
    } else if turn < 6 {
        2int
    } else if turn < 8 {
        3int
    } else if turn < 10 {
        4int
    } else {
        5int
    };
    if turn == 2 * face {
        clockwise_source(face, p)
    } else {
        clockwise_source(face, clockwise_source(face, clockwise_source(face, p)))
    }
}

} // verus!
