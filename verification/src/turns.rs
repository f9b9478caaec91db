//! The twelve quarter turns as programs of masks, shifts and XORs on the
//! packed word, each proved to move the facelets as the turn does.
use vstd::prelude::*;
use crate::layout::{cell_of, facelet_of, facelet_source};
use crate::packed::{and, moved_down, moved_up, shl, shr, two_to, word, xor, Packed};
use crate::rotation::Rotation;

verus! {

/// Whether the first `n` facelets of the second word hold what the turn at
/// place `turn` of the canonical order brings there from the first word.
pub open spec fn turned_upto(lo: u64, mid: u64, hi: u64, lo2: u64, mid2: u64, hi2: u64, turn: int, n: int) -> bool
    decreases n,
{
    n <= 0 || (facelet_of(lo2, mid2, hi2, n - 1) == facelet_of(lo, mid, hi, facelet_source(turn, n - 1))
        && turned_upto(lo, mid, hi, lo2, mid2, hi2, turn, n - 1))
}

/// What a turn does to a word: every facelet takes its three bits from its
/// source, and the bits that hold no facelet stay as they are.
pub open spec fn turned_digits(lo: u64, mid: u64, hi: u64, lo2: u64, mid2: u64, hi2: u64, turn: int) -> bool {
    &&& turned_upto(lo, mid, hi, lo2, mid2, hi2, turn, 54)
    &&& cell_of(lo2, mid2, hi2, 49) == cell_of(lo, mid, hi, 49)
    &&& hi2 >> 22 == hi >> 22
}

/// Whether `r` is the AND of `a` and `b`, digit by digit.
pub open spec fn is_and(a0: u64, a1: u64, a2: u64, b0: u64, b1: u64, b2: u64, r0: u64, r1: u64, r2: u64) -> bool {
    r0 == a0 & b0 && r1 == a1 & b1 && r2 == a2 & b2
}

// Each turn is made in two steps. The first moves the eight facelets of the
// face itself: they are taken out with the face's mask and shifted by one
// slot, and the two that fall over the edge are wrapped to the other end of
// their ring of four. The second moves the twelve facelets around the face, in
// pieces that each go one way by one distance.
//
// The masks are given by the digits of theirs that are not zero: `LO`, `MID`
// and `HI`. A mask with `REV` in its name is for the counter-clockwise turn.
//
// Before each turn stands its lemma: whatever words meet the equations of the
// turn's program, the last of them is the first one turned. The solver for bit
// vectors proves it. The lemma's parameters are the digits of the words that
// the program goes through: `s` is the word to turn, `g` the face's ring, `a`
// the ring shifted, `w` what fell over the edge, `b` the same wrapped round,
// `t` the word after the first step; the rest are the pieces of the second
// step, each before and after its shift, and `r` is the word turned.

// The upper face: slots 1 to 8. Its neighbours show it their top rows.
const UP_MASK_LO: u64 = 0x7ff_fff8;
const UP_OVERFLOW_MASK_LO: u64 = 0x7007;
const UP_OVERFLOW_MASK_REV_LO: u64 = 0x3803_8000;
const UP_SIDE_MASK_LO: u64 = 0xf038_03f0_3800_0000;
const UP_SIDE_MASK_MID: u64 = 0x3_f038_03f0_3803;
const UP_SIDE_OVERFLOW_MASK_LO: u64 = 0x3_f038;
const UP_SIDE_OVERFLOW_MASK_REV_MID: u64 = 0x3800_0000_0000_0000;
const UP_SIDE_OVERFLOW_MASK_REV_HI: u64 = 0x3f0;

proof fn lemma_turn_u(
    s0: u64, s1: u64, s2: u64,
    g0: u64, g1: u64, g2: u64,
    a0: u64, a1: u64, a2: u64,
    w0: u64, w1: u64, w2: u64,
    b0: u64, b1: u64, b2: u64,
    t0: u64, t1: u64, t2: u64,
    h0: u64, h1: u64, h2: u64,
    c0: u64, c1: u64, c2: u64,
    x0: u64, x1: u64, x2: u64,
    d0: u64, d1: u64, d2: u64,
    r0: u64, r1: u64, r2: u64,
)
    by (bit_vector)
    requires
        is_and(s0, s1, s2, UP_MASK_LO, 0, 0, g0, g1, g2),
        moved_down(g0, g1, g2, a0, a1, a2, two_to(3)),
        is_and(a0, a1, a2, UP_OVERFLOW_MASK_LO, 0, 0, w0, w1, w2),
        moved_up(w0, w1, w2, b0, b1, b2, two_to(12), two_to(180)),
        t0 == (s0 ^ g0) ^ ((a0 ^ w0) ^ b0),
        t1 == (s1 ^ g1) ^ ((a1 ^ w1) ^ b1),
        t2 == (s2 ^ g2) ^ ((a2 ^ w2) ^ b2),
        is_and(t0, t1, t2, UP_SIDE_MASK_LO, UP_SIDE_MASK_MID, 0, h0, h1, h2),
        moved_down(h0, h1, h2, c0, c1, c2, two_to(24)),
        is_and(c0, c1, c2, UP_SIDE_OVERFLOW_MASK_LO, 0, 0, x0, x1, x2),
        moved_up(x0, x1, x2, d0, d1, d2, two_to(96), two_to(96)),
        r0 == (t0 ^ h0) ^ ((c0 ^ x0) ^ d0),
        r1 == (t1 ^ h1) ^ ((c1 ^ x1) ^ d1),
        r2 == (t2 ^ h2) ^ ((c2 ^ x2) ^ d2),
    ensures
        turned_digits(s0, s1, s2, r0, r1, r2, 0),
{
}

/// The upper face, a quarter turn clockwise.
fn turn_u(s: Packed) -> (r: Packed)
    ensures
        turned_digits(s.lo, s.mid, s.hi, r.lo, r.mid, r.hi, 0),
{
    let g = and(s, word(UP_MASK_LO, 0, 0));
    let a = shr(g, 3);
    let w = and(a, word(UP_OVERFLOW_MASK_LO, 0, 0));
    let b = shl(w, 12);
    let t = xor(xor(s, g), xor(xor(a, w), b));

    let h = and(t, word(UP_SIDE_MASK_LO, UP_SIDE_MASK_MID, 0));
    let c = shr(h, 24);
    let x = and(c, word(UP_SIDE_OVERFLOW_MASK_LO, 0, 0));
    let d = shl(x, 96);
    let r = xor(xor(t, h), xor(xor(c, x), d));
    proof {
        lemma_turn_u(
            s.lo, s.mid, s.hi, g.lo, g.mid, g.hi, a.lo, a.mid, a.hi, w.lo, w.mid, w.hi,
            b.lo, b.mid, b.hi, t.lo, t.mid, t.hi, h.lo, h.mid, h.hi, c.lo, c.mid, c.hi,
            x.lo, x.mid, x.hi, d.lo, d.mid, d.hi, r.lo, r.mid, r.hi,
        );
    }
    r
}

proof fn lemma_turn_up(
    s0: u64, s1: u64, s2: u64,
    g0: u64, g1: u64, g2: u64,
    a0: u64, a1: u64, a2: u64,
    w0: u64, w1: u64, w2: u64,
    b0: u64, b1: u64, b2: u64,
    t0: u64, t1: u64, t2: u64,
    h0: u64, h1: u64, h2: u64,
    c0: u64, c1: u64, c2: u64,
    x0: u64, x1: u64, x2: u64,
    d0: u64, d1: u64, d2: u64,
    r0: u64, r1: u64, r2: u64,
)
    by (bit_vector)
    requires
        is_and(s0, s1, s2, UP_MASK_LO, 0, 0, g0, g1, g2),
        moved_up(g0, g1, g2, a0, a1, a2, two_to(3), two_to(189)),
        is_and(a0, a1, a2, UP_OVERFLOW_MASK_REV_LO, 0, 0, w0, w1, w2),
        moved_down(w0, w1, w2, b0, b1, b2, two_to(12)),
        t0 == (s0 ^ g0) ^ ((a0 ^ w0) ^ b0),
        t1 == (s1 ^ g1) ^ ((a1 ^ w1) ^ b1),
        t2 == (s2 ^ g2) ^ ((a2 ^ w2) ^ b2),
        is_and(t0, t1, t2, UP_SIDE_MASK_LO, UP_SIDE_MASK_MID, 0, h0, h1, h2),
        moved_up(h0, h1, h2, c0, c1, c2, two_to(24), two_to(168)),
        is_and(c0, c1, c2, 0, UP_SIDE_OVERFLOW_MASK_REV_MID, UP_SIDE_OVERFLOW_MASK_REV_HI, x0, x1, x2),
        moved_down(x0, x1, x2, d0, d1, d2, two_to(96)),
        r0 == (t0 ^ h0) ^ ((c0 ^ x0) ^ d0),
        r1 == (t1 ^ h1) ^ ((c1 ^ x1) ^ d1),
        r2 == (t2 ^ h2) ^ ((c2 ^ x2) ^ d2),
    ensures
        turned_digits(s0, s1, s2, r0, r1, r2, 1),
{
}

/// The upper face, a quarter turn counter-clockwise.
fn turn_up(s: Packed) -> (r: Packed)
    ensures
        turned_digits(s.lo, s.mid, s.hi, r.lo, r.mid, r.hi, 1),
{
    let g = and(s, word(UP_MASK_LO, 0, 0));
    let a = shl(g, 3);
    let w = and(a, word(UP_OVERFLOW_MASK_REV_LO, 0, 0));
    let b = shr(w, 12);
    let t = xor(xor(s, g), xor(xor(a, w), b));

    let h = and(t, word(UP_SIDE_MASK_LO, UP_SIDE_MASK_MID, 0));
    let c = shl(h, 24);
    let x = and(c, word(0, UP_SIDE_OVERFLOW_MASK_REV_MID, UP_SIDE_OVERFLOW_MASK_REV_HI));
    let d = shr(x, 96);
    let r = xor(xor(t, h), xor(xor(c, x), d));
    proof {
        lemma_turn_up(
            s.lo, s.mid, s.hi, g.lo, g.mid, g.hi, a.lo, a.mid, a.hi, w.lo, w.mid, w.hi,
            b.lo, b.mid, b.hi, t.lo, t.mid, t.hi, h.lo, h.mid, h.hi, c.lo, c.mid, c.hi,
            x.lo, x.mid, x.hi, d.lo, d.mid, d.hi, r.lo, r.mid, r.hi,
        );
    }
    r
}

// The left face: slots 9 to 16. Its neighbours show it their left columns, the
// back face its right one.
const LEFT_MASK_LO: u64 = 0x7_ffff_f800_0000;
const LEFT_OVERFLOW_MASK_LO: u64 = 0x70_0700_0000;
const LEFT_OVERFLOW_MASK_REV_LO: u64 = 0x38_0380_0000_0000;
const LEFT_SIDE_MASK_0_LO: u64 = 0x1c_01f8;
const LEFT_SIDE_MASK_1_LO: u64 = 0x1f8_0000_0000_0000;
const LEFT_SIDE_MASK_1_MID: u64 = 0x1c;
const LEFT_SIDE_MASK_2_MID: u64 = 0xf800_0000_0000_0000;
const LEFT_SIDE_MASK_2_HI: u64 = 0x1c01;
const LEFT_SIDE_MASK_3_MID: u64 = 0x700_7e00_0000_0000;
const LEFT_SIDE_MASK_ALL_LO: u64 = 0x1f8_0000_001c_01f8;
const LEFT_SIDE_MASK_ALL_MID: u64 = 0xff00_7e00_0000_001c;
const LEFT_SIDE_MASK_ALL_HI: u64 = 0x1c01;

proof fn lemma_turn_l(
    s0: u64, s1: u64, s2: u64,
    g0: u64, g1: u64, g2: u64,
    a0: u64, a1: u64, a2: u64,
    w0: u64, w1: u64, w2: u64,
    b0: u64, b1: u64, b2: u64,
    t0: u64, t1: u64, t2: u64,
    pa0: u64, pa1: u64, pa2: u64,
    ma0: u64, ma1: u64, ma2: u64,
    pb0: u64, pb1: u64, pb2: u64,
    mb0: u64, mb1: u64, mb2: u64,
    pc0: u64, pc1: u64, pc2: u64,
    mc0: u64, mc1: u64, mc2: u64,
    pd0: u64, pd1: u64, pd2: u64,
    md0: u64, md1: u64, md2: u64,
    r0: u64, r1: u64, r2: u64,
)
    by (bit_vector)
    requires
        is_and(s0, s1, s2, LEFT_MASK_LO, 0, 0, g0, g1, g2),
        moved_down(g0, g1, g2, a0, a1, a2, two_to(3)),
        is_and(a0, a1, a2, LEFT_OVERFLOW_MASK_LO, 0, 0, w0, w1, w2),
        moved_up(w0, w1, w2, b0, b1, b2, two_to(12), two_to(180)),
        t0 == (s0 ^ g0) ^ ((a0 ^ w0) ^ b0),
        t1 == (s1 ^ g1) ^ ((a1 ^ w1) ^ b1),
        t2 == (s2 ^ g2) ^ ((a2 ^ w2) ^ b2),
        is_and(t0, t1, t2, LEFT_SIDE_MASK_0_LO, 0, 0, pa0, pa1, pa2),
        moved_up(pa0, pa1, pa2, ma0, ma1, ma2, two_to(48), two_to(144)),
        is_and(t0, t1, t2, LEFT_SIDE_MASK_1_LO, LEFT_SIDE_MASK_1_MID, 0, pb0, pb1, pb2),
        moved_up(pb0, pb1, pb2, mb0, mb1, mb2, two_to(72), two_to(120)),
        is_and(t0, t1, t2, 0, LEFT_SIDE_MASK_2_MID, LEFT_SIDE_MASK_2_HI, pc0, pc1, pc2),
        moved_down(pc0, pc1, pc2, mc0, mc1, mc2, two_to(18)),
        is_and(t0, t1, t2, 0, LEFT_SIDE_MASK_3_MID, 0, pd0, pd1, pd2),
        moved_down(pd0, pd1, pd2, md0, md1, md2, two_to(102)),
        r0 == (t0 ^ (t0 & LEFT_SIDE_MASK_ALL_LO)) ^ ma0 ^ mb0 ^ mc0 ^ md0,
        r1 == (t1 ^ (t1 & LEFT_SIDE_MASK_ALL_MID)) ^ ma1 ^ mb1 ^ mc1 ^ md1,
        r2 == (t2 ^ (t2 & LEFT_SIDE_MASK_ALL_HI)) ^ ma2 ^ mb2 ^ mc2 ^ md2,
    ensures
        turned_digits(s0, s1, s2, r0, r1, r2, 2),
{
}

/// The left face, a quarter turn clockwise.
fn turn_l(s: Packed) -> (r: Packed)
    ensures
        turned_digits(s.lo, s.mid, s.hi, r.lo, r.mid, r.hi, 2),
{
    let g = and(s, word(LEFT_MASK_LO, 0, 0));
    let a = shr(g, 3);
    let w = and(a, word(LEFT_OVERFLOW_MASK_LO, 0, 0));
    let b = shl(w, 12);
    let t = xor(xor(s, g), xor(xor(a, w), b));

    let pa = and(t, word(LEFT_SIDE_MASK_0_LO, 0, 0));
    let ma = shl(pa, 48);
    let pb = and(t, word(LEFT_SIDE_MASK_1_LO, LEFT_SIDE_MASK_1_MID, 0));
    let mb = shl(pb, 72);
    let pc = and(t, word(0, LEFT_SIDE_MASK_2_MID, LEFT_SIDE_MASK_2_HI));
    let mc = shr(pc, 18);
    let pd = and(t, word(0, LEFT_SIDE_MASK_3_MID, 0));
    let md = shr(pd, 102);
    let rest = xor(t, and(t, word(LEFT_SIDE_MASK_ALL_LO, LEFT_SIDE_MASK_ALL_MID, LEFT_SIDE_MASK_ALL_HI)));
    let r = xor(xor(xor(xor(rest, ma), mb), mc), md);
    proof {
        lemma_turn_l(
            s.lo, s.mid, s.hi, g.lo, g.mid, g.hi, a.lo, a.mid, a.hi, w.lo, w.mid, w.hi,
            b.lo, b.mid, b.hi, t.lo, t.mid, t.hi, pa.lo, pa.mid, pa.hi, ma.lo, ma.mid, ma.hi,
            pb.lo, pb.mid, pb.hi, mb.lo, mb.mid, mb.hi, pc.lo, pc.mid, pc.hi, mc.lo, mc.mid, mc.hi,
            pd.lo, pd.mid, pd.hi, md.lo, md.mid, md.hi, r.lo, r.mid, r.hi,
        );
    }
    r
}

proof fn lemma_turn_lp(
    s0: u64, s1: u64, s2: u64,
    g0: u64, g1: u64, g2: u64,
    a0: u64, a1: u64, a2: u64,
    w0: u64, w1: u64, w2: u64,
    b0: u64, b1: u64, b2: u64,
    t0: u64, t1: u64, t2: u64,
    pa0: u64, pa1: u64, pa2: u64,
    ma0: u64, ma1: u64, ma2: u64,
    pb0: u64, pb1: u64, pb2: u64,
    mb0: u64, mb1: u64, mb2: u64,
    pc0: u64, pc1: u64, pc2: u64,
    mc0: u64, mc1: u64, mc2: u64,
    pd0: u64, pd1: u64, pd2: u64,
    md0: u64, md1: u64, md2: u64,
    r0: u64, r1: u64, r2: u64,
)
    by (bit_vector)
    requires
        is_and(s0, s1, s2, LEFT_MASK_LO, 0, 0, g0, g1, g2),
        moved_up(g0, g1, g2, a0, a1, a2, two_to(3), two_to(189)),
        is_and(a0, a1, a2, LEFT_OVERFLOW_MASK_REV_LO, 0, 0, w0, w1, w2),
        moved_down(w0, w1, w2, b0, b1, b2, two_to(12)),
        t0 == (s0 ^ g0) ^ ((a0 ^ w0) ^ b0),
        t1 == (s1 ^ g1) ^ ((a1 ^ w1) ^ b1),
        t2 == (s2 ^ g2) ^ ((a2 ^ w2) ^ b2),
        is_and(t0, t1, t2, LEFT_SIDE_MASK_0_LO, 0, 0, pa0, pa1, pa2),
        moved_up(pa0, pa1, pa2, ma0, ma1, ma2, two_to(102), two_to(90)),
        is_and(t0, t1, t2, LEFT_SIDE_MASK_1_LO, LEFT_SIDE_MASK_1_MID, 0, pb0, pb1, pb2),
        moved_down(pb0, pb1, pb2, mb0, mb1, mb2, two_to(48)),
        is_and(t0, t1, t2, 0, LEFT_SIDE_MASK_2_MID, LEFT_SIDE_MASK_2_HI, pc0, pc1, pc2),
        moved_down(pc0, pc1, pc2, mc0, mc1, mc2, two_to(72)),
        is_and(t0, t1, t2, 0, LEFT_SIDE_MASK_3_MID, 0, pd0, pd1, pd2),
        moved_up(pd0, pd1, pd2, md0, md1, md2, two_to(18), two_to(174)),
        r0 == (t0 ^ (t0 & LEFT_SIDE_MASK_ALL_LO)) ^ ma0 ^ mb0 ^ mc0 ^ md0,
        r1 == (t1 ^ (t1 & LEFT_SIDE_MASK_ALL_MID)) ^ ma1 ^ mb1 ^ mc1 ^ md1,
        r2 == (t2 ^ (t2 & LEFT_SIDE_MASK_ALL_HI)) ^ ma2 ^ mb2 ^ mc2 ^ md2,
    ensures
        turned_digits(s0, s1, s2, r0, r1, r2, 3),
{
}

/// The left face, a quarter turn counter-clockwise.
fn turn_lp(s: Packed) -> (r: Packed)
    ensures
        turned_digits(s.lo, s.mid, s.hi, r.lo, r.mid, r.hi, 3),
{
    let g = and(s, word(LEFT_MASK_LO, 0, 0));
    let a = shl(g, 3);
    let w = and(a, word(LEFT_OVERFLOW_MASK_REV_LO, 0, 0));
    let b = shr(w, 12);
    let t = xor(xor(s, g), xor(xor(a, w), b));

    let pa = and(t, word(LEFT_SIDE_MASK_0_LO, 0, 0));
    let ma = shl(pa, 102);
    let pb = and(t, word(LEFT_SIDE_MASK_1_LO, LEFT_SIDE_MASK_1_MID, 0));
    let mb = shr(pb, 48);
    let pc = and(t, word(0, LEFT_SIDE_MASK_2_MID, LEFT_SIDE_MASK_2_HI));
    let mc = shr(pc, 72);
    let pd = and(t, word(0, LEFT_SIDE_MASK_3_MID, 0));
    let md = shl(pd, 18);
    let rest = xor(t, and(t, word(LEFT_SIDE_MASK_ALL_LO, LEFT_SIDE_MASK_ALL_MID, LEFT_SIDE_MASK_ALL_HI)));
    let r = xor(xor(xor(xor(rest, ma), mb), mc), md);
    proof {
        lemma_turn_lp(
            s.lo, s.mid, s.hi, g.lo, g.mid, g.hi, a.lo, a.mid, a.hi, w.lo, w.mid, w.hi,
            b.lo, b.mid, b.hi, t.lo, t.mid, t.hi, pa.lo, pa.mid, pa.hi, ma.lo, ma.mid, ma.hi,
            pb.lo, pb.mid, pb.hi, mb.lo, mb.mid, mb.hi, pc.lo, pc.mid, pc.hi, mc.lo, mc.mid, mc.hi,
            pd.lo, pd.mid, pd.hi, md.lo, md.mid, md.hi, r.lo, r.mid, r.hi,
        );
    }
    r
}

// The front face: slots 17 to 24. It touches the bottom row of the upper face,
// the top row of the lower face, and a column of the left and of the right
// face.
const FRONT_MASK_LO: u64 = 0xfff8_0000_0000_0000;
const FRONT_MASK_MID: u64 = 0x7ff;
const FRONT_OVERFLOW_MASK_LO: u64 = 0x7007_0000_0000_0000;
const FRONT_OVERFLOW_MASK_REV_LO: u64 = 0x8000_0000_0000_0000;
const FRONT_OVERFLOW_MASK_REV_MID: u64 = 0x3803;
const FRONT_SIDE_MASK_0_LO: u64 = 0xe0_0fc0;
const FRONT_SIDE_MASK_1_MID: u64 = 0x1c01_f800;
const FRONT_SIDE_MASK_1A_MID: u64 = 0x1c01_c000;
const FRONT_SIDE_MASK_1B_MID: u64 = 0x3800;
const FRONT_SIDE_MASK_2A_MID: u64 = 0x3800_0000_0000_0000;
const FRONT_SIDE_MASK_2A_HI: u64 = 0x380;
const FRONT_SIDE_MASK_2B_HI: u64 = 0x70;
const FRONT_SIDE_MASK_3_LO: u64 = 0x7_007e_0000_0000;
const FRONT_SIDE_MASK_3A_LO: u64 = 0x7_0070_0000_0000;
const FRONT_SIDE_MASK_3B_LO: u64 = 0xe_0000_0000;
const FRONT_SIDE_MASK_ALL_LO: u64 = 0x7_007e_00e0_0fc0;
const FRONT_SIDE_MASK_ALL_MID: u64 = 0x3800_0000_1c01_f800;
const FRONT_SIDE_MASK_ALL_HI: u64 = 0x3f0;

proof fn lemma_turn_f(
    s0: u64, s1: u64, s2: u64,
    g0: u64, g1: u64, g2: u64,
    a0: u64, a1: u64, a2: u64,
    w0: u64, w1: u64, w2: u64,
    b0: u64, b1: u64, b2: u64,
    t0: u64, t1: u64, t2: u64,
    pa0: u64, pa1: u64, pa2: u64,
    ma0: u64, ma1: u64, ma2: u64,
    pb0: u64, pb1: u64, pb2: u64,
    mb0: u64, mb1: u64, mb2: u64,
    pc0: u64, pc1: u64, pc2: u64,
    mc0: u64, mc1: u64, mc2: u64,
    pd0: u64, pd1: u64, pd2: u64,
    md0: u64, md1: u64, md2: u64,
    pe0: u64, pe1: u64, pe2: u64,
    me0: u64, me1: u64, me2: u64,
    pf0: u64, pf1: u64, pf2: u64,
    mf0: u64, mf1: u64, mf2: u64,
    r0: u64, r1: u64, r2: u64,
)
    by (bit_vector)
    requires
        is_and(s0, s1, s2, FRONT_MASK_LO, FRONT_MASK_MID, 0, g0, g1, g2),
        moved_down(g0, g1, g2, a0, a1, a2, two_to(3)),
        is_and(a0, a1, a2, FRONT_OVERFLOW_MASK_LO, 0, 0, w0, w1, w2),
        moved_up(w0, w1, w2, b0, b1, b2, two_to(12), two_to(180)),
        t0 == (s0 ^ g0) ^ ((a0 ^ w0) ^ b0),
        t1 == (s1 ^ g1) ^ ((a1 ^ w1) ^ b1),
        t2 == (s2 ^ g2) ^ ((a2 ^ w2) ^ b2),
        is_and(t0, t1, t2, FRONT_SIDE_MASK_0_LO, 0, 0, pa0, pa1, pa2),
        moved_up(pa0, pa1, pa2, ma0, ma1, ma2, two_to(69), two_to(123)),
        is_and(t0, t1, t2, 0, FRONT_SIDE_MASK_1A_MID, 0, pb0, pb1, pb2),
        moved_up(pb0, pb1, pb2, mb0, mb1, mb2, two_to(45), two_to(147)),
        is_and(t0, t1, t2, 0, FRONT_SIDE_MASK_1B_MID, 0, pc0, pc1, pc2),
        moved_up(pc0, pc1, pc2, mc0, mc1, mc2, two_to(57), two_to(135)),
        is_and(t0, t1, t2, 0, FRONT_SIDE_MASK_2A_MID, FRONT_SIDE_MASK_2A_HI, pd0, pd1, pd2),
        moved_down(pd0, pd1, pd2, md0, md1, md2, two_to(87)),
        is_and(t0, t1, t2, 0, 0, FRONT_SIDE_MASK_2B_HI, pe0, pe1, pe2),
        moved_down(pe0, pe1, pe2, me0, me1, me2, two_to(99)),
        is_and(t0, t1, t2, FRONT_SIDE_MASK_3_LO, 0, 0, pf0, pf1, pf2),
        moved_down(pf0, pf1, pf2, mf0, mf1, mf2, two_to(27)),
        r0 == (t0 ^ (t0 & FRONT_SIDE_MASK_ALL_LO)) ^ ma0 ^ mb0 ^ mc0 ^ md0 ^ me0 ^ mf0,
        r1 == (t1 ^ (t1 & FRONT_SIDE_MASK_ALL_MID)) ^ ma1 ^ mb1 ^ mc1 ^ md1 ^ me1 ^ mf1,
        r2 == (t2 ^ (t2 & FRONT_SIDE_MASK_ALL_HI)) ^ ma2 ^ mb2 ^ mc2 ^ md2 ^ me2 ^ mf2,
    ensures
        turned_digits(s0, s1, s2, r0, r1, r2, 4),
{
}

/// The front face, a quarter turn clockwise.
fn turn_f(s: Packed) -> (r: Packed)
    ensures
        turned_digits(s.lo, s.mid, s.hi, r.lo, r.mid, r.hi, 4),
{
    let g = and(s, word(FRONT_MASK_LO, FRONT_MASK_MID, 0));
    let a = shr(g, 3);
    let w = and(a, word(FRONT_OVERFLOW_MASK_LO, 0, 0));
    let b = shl(w, 12);
    let t = xor(xor(s, g), xor(xor(a, w), b));

    let pa = and(t, word(FRONT_SIDE_MASK_0_LO, 0, 0));
    let ma = shl(pa, 69);
    let pb = and(t, word(0, FRONT_SIDE_MASK_1A_MID, 0));
    let mb = shl(pb, 45);
    let pc = and(t, word(0, FRONT_SIDE_MASK_1B_MID, 0));
    let mc = shl(pc, 57);
    let pd = and(t, word(0, FRONT_SIDE_MASK_2A_MID, FRONT_SIDE_MASK_2A_HI));
    let md = shr(pd, 87);
    let pe = and(t, word(0, 0, FRONT_SIDE_MASK_2B_HI));
    let me = shr(pe, 99);
    let pf = and(t, word(FRONT_SIDE_MASK_3_LO, 0, 0));
    let mf = shr(pf, 27);
    let rest = xor(t, and(t, word(FRONT_SIDE_MASK_ALL_LO, FRONT_SIDE_MASK_ALL_MID, FRONT_SIDE_MASK_ALL_HI)));
    let r = xor(xor(xor(xor(xor(xor(rest, ma), mb), mc), md), me), mf);
    proof {
        lemma_turn_f(
            s.lo, s.mid, s.hi, g.lo, g.mid, g.hi, a.lo, a.mid, a.hi, w.lo, w.mid, w.hi,
            b.lo, b.mid, b.hi, t.lo, t.mid, t.hi, pa.lo, pa.mid, pa.hi, ma.lo, ma.mid, ma.hi,
            pb.lo, pb.mid, pb.hi, mb.lo, mb.mid, mb.hi, pc.lo, pc.mid, pc.hi, mc.lo, mc.mid, mc.hi,
            pd.lo, pd.mid, pd.hi, md.lo, md.mid, md.hi, pe.lo, pe.mid, pe.hi, me.lo, me.mid, me.hi,
            pf.lo, pf.mid, pf.hi, mf.lo, mf.mid, mf.hi, r.lo, r.mid, r.hi,
        );
    }
    r
}

proof fn lemma_turn_fp(
    s0: u64, s1: u64, s2: u64,
    g0: u64, g1: u64, g2: u64,
    a0: u64, a1: u64, a2: u64,
    w0: u64, w1: u64, w2: u64,
    b0: u64, b1: u64, b2: u64,
    t0: u64, t1: u64, t2: u64,
    pa0: u64, pa1: u64, pa2: u64,
    ma0: u64, ma1: u64, ma2: u64,
    pb0: u64, pb1: u64, pb2: u64,
    mb0: u64, mb1: u64, mb2: u64,
    pc0: u64, pc1: u64, pc2: u64,
    mc0: u64, mc1: u64, mc2: u64,
    pd0: u64, pd1: u64, pd2: u64,
    md0: u64, md1: u64, md2: u64,
    pe0: u64, pe1: u64, pe2: u64,
    me0: u64, me1: u64, me2: u64,
    pf0: u64, pf1: u64, pf2: u64,
    mf0: u64, mf1: u64, mf2: u64,
    r0: u64, r1: u64, r2: u64,
)
    by (bit_vector)
    requires
        is_and(s0, s1, s2, FRONT_MASK_LO, FRONT_MASK_MID, 0, g0, g1, g2),
        moved_up(g0, g1, g2, a0, a1, a2, two_to(3), two_to(189)),
        is_and(a0, a1, a2, FRONT_OVERFLOW_MASK_REV_LO, FRONT_OVERFLOW_MASK_REV_MID, 0, w0, w1, w2),
        moved_down(w0, w1, w2, b0, b1, b2, two_to(12)),
        t0 == (s0 ^ g0) ^ ((a0 ^ w0) ^ b0),
        t1 == (s1 ^ g1) ^ ((a1 ^ w1) ^ b1),
        t2 == (s2 ^ g2) ^ ((a2 ^ w2) ^ b2),
        is_and(t0, t1, t2, FRONT_SIDE_MASK_0_LO, 0, 0, pa0, pa1, pa2),
        moved_up(pa0, pa1, pa2, ma0, ma1, ma2, two_to(27), two_to(165)),
        is_and(t0, t1, t2, 0, FRONT_SIDE_MASK_1_MID, 0, pb0, pb1, pb2),
        moved_down(pb0, pb1, pb2, mb0, mb1, mb2, two_to(69)),
        is_and(t0, t1, t2, 0, FRONT_SIDE_MASK_2A_MID, FRONT_SIDE_MASK_2A_HI, pc0, pc1, pc2),
        moved_down(pc0, pc1, pc2, mc0, mc1, mc2, two_to(45)),
        is_and(t0, t1, t2, 0, 0, FRONT_SIDE_MASK_2B_HI, pd0, pd1, pd2),
        moved_down(pd0, pd1, pd2, md0, md1, md2, two_to(57)),
        is_and(t0, t1, t2, FRONT_SIDE_MASK_3A_LO, 0, 0, pe0, pe1, pe2),
        moved_up(pe0, pe1, pe2, me0, me1, me2, two_to(87), two_to(105)),
        is_and(t0, t1, t2, FRONT_SIDE_MASK_3B_LO, 0, 0, pf0, pf1, pf2),
        moved_up(pf0, pf1, pf2, mf0, mf1, mf2, two_to(99), two_to(93)),
        r0 == (t0 ^ (t0 & FRONT_SIDE_MASK_ALL_LO)) ^ ma0 ^ mb0 ^ mc0 ^ md0 ^ me0 ^ mf0,
        r1 == (t1 ^ (t1 & FRONT_SIDE_MASK_ALL_MID)) ^ ma1 ^ mb1 ^ mc1 ^ md1 ^ me1 ^ mf1,
        r2 == (t2 ^ (t2 & FRONT_SIDE_MASK_ALL_HI)) ^ ma2 ^ mb2 ^ mc2 ^ md2 ^ me2 ^ mf2,
    ensures
        turned_digits(s0, s1, s2, r0, r1, r2, 5),
{
}

/// The front face, a quarter turn counter-clockwise.
fn turn_fp(s: Packed) -> (r: Packed)
    ensures
        turned_digits(s.lo, s.mid, s.hi, r.lo, r.mid, r.hi, 5),
{
    let g = and(s, word(FRONT_MASK_LO, FRONT_MASK_MID, 0));
    let a = shl(g, 3);
    let w = and(a, word(FRONT_OVERFLOW_MASK_REV_LO, FRONT_OVERFLOW_MASK_REV_MID, 0));
    let b = shr(w, 12);
    let t = xor(xor(s, g), xor(xor(a, w), b));

    let pa = and(t, word(FRONT_SIDE_MASK_0_LO, 0, 0));
    let ma = shl(pa, 27);
    let pb = and(t, word(0, FRONT_SIDE_MASK_1_MID, 0));
    let mb = shr(pb, 69);
    let pc = and(t, word(0, FRONT_SIDE_MASK_2A_MID, FRONT_SIDE_MASK_2A_HI));
    let mc = shr(pc, 45);
    let pd = and(t, word(0, 0, FRONT_SIDE_MASK_2B_HI));
    let md = shr(pd, 57);
    let pe = and(t, word(FRONT_SIDE_MASK_3A_LO, 0, 0));
    let me = shl(pe, 87);
    let pf = and(t, word(FRONT_SIDE_MASK_3B_LO, 0, 0));
    let mf = shl(pf, 99);
    let rest = xor(t, and(t, word(FRONT_SIDE_MASK_ALL_LO, FRONT_SIDE_MASK_ALL_MID, FRONT_SIDE_MASK_ALL_HI)));
    let r = xor(xor(xor(xor(xor(xor(rest, ma), mb), mc), md), me), mf);
    proof {
        lemma_turn_fp(
            s.lo, s.mid, s.hi, g.lo, g.mid, g.hi, a.lo, a.mid, a.hi, w.lo, w.mid, w.hi,
            b.lo, b.mid, b.hi, t.lo, t.mid, t.hi, pa.lo, pa.mid, pa.hi, ma.lo, ma.mid, ma.hi,
            pb.lo, pb.mid, pb.hi, mb.lo, mb.mid, mb.hi, pc.lo, pc.mid, pc.hi, mc.lo, mc.mid, mc.hi,
            pd.lo, pd.mid, pd.hi, md.lo, md.mid, md.hi, pe.lo, pe.mid, pe.hi, me.lo, me.mid, me.hi,
            pf.lo, pf.mid, pf.hi, mf.lo, mf.mid, mf.hi, r.lo, r.mid, r.hi,
        );
    }
    r
}

// The right face: slots 25 to 32. Its neighbours show it their right columns,
// the back face its left one.
const RIGHT_MASK_MID: u64 = 0x7_ffff_f800;
const RIGHT_OVERFLOW_MASK_MID: u64 = 0x70_0700;
const RIGHT_OVERFLOW_MASK_REV_MID: u64 = 0x38_0380_0000;
const RIGHT_SIDE_MASK_0_LO: u64 = 0x700_7e00;
const RIGHT_SIDE_MASK_1_MID: u64 = 0x1c_01f8_0000_0000;
const RIGHT_SIDE_MASK_2_HI: u64 = 0x7_007e;
const RIGHT_SIDE_MASK_3_LO: u64 = 0x7e00_0000_0000_0000;
const RIGHT_SIDE_MASK_3_MID: u64 = 0x700;
const RIGHT_SIDE_MASK_ALL_LO: u64 = 0x7e00_0000_0700_7e00;
const RIGHT_SIDE_MASK_ALL_MID: u64 = 0x1c_01f8_0000_0700;
const RIGHT_SIDE_MASK_ALL_HI: u64 = 0x7_007e;

proof fn lemma_turn_r(
    s0: u64, s1: u64, s2: u64,
    g0: u64, g1: u64, g2: u64,
    a0: u64, a1: u64, a2: u64,
    w0: u64, w1: u64, w2: u64,
    b0: u64, b1: u64, b2: u64,
    t0: u64, t1: u64, t2: u64,
    pa0: u64, pa1: u64, pa2: u64,
    ma0: u64, ma1: u64, ma2: u64,
    pb0: u64, pb1: u64, pb2: u64,
    mb0: u64, mb1: u64, mb2: u64,
    pc0: u64, pc1: u64, pc2: u64,
    mc0: u64, mc1: u64, mc2: u64,
    pd0: u64, pd1: u64, pd2: u64,
    md0: u64, md1: u64, md2: u64,
    r0: u64, r1: u64, r2: u64,
)
    by (bit_vector)
    requires
        is_and(s0, s1, s2, 0, RIGHT_MASK_MID, 0, g0, g1, g2),
        moved_down(g0, g1, g2, a0, a1, a2, two_to(3)),
        is_and(a0, a1, a2, 0, RIGHT_OVERFLOW_MASK_MID, 0, w0, w1, w2),
        moved_up(w0, w1, w2, b0, b1, b2, two_to(12), two_to(180)),
        t0 == (s0 ^ g0) ^ ((a0 ^ w0) ^ b0),
        t1 == (s1 ^ g1) ^ ((a1 ^ w1) ^ b1),
        t2 == (s2 ^ g2) ^ ((a2 ^ w2) ^ b2),
        is_and(t0, t1, t2, RIGHT_SIDE_MASK_0_LO, 0, 0, pa0, pa1, pa2),
        moved_up(pa0, pa1, pa2, ma0, ma1, ma2, two_to(90), two_to(102)),
        is_and(t0, t1, t2, 0, RIGHT_SIDE_MASK_1_MID, 0, pb0, pb1, pb2),
        moved_up(pb0, pb1, pb2, mb0, mb1, mb2, two_to(30), two_to(162)),
        is_and(t0, t1, t2, 0, 0, RIGHT_SIDE_MASK_2_HI, pc0, pc1, pc2),
        moved_down(pc0, pc1, pc2, mc0, mc1, mc2, two_to(72)),
        is_and(t0, t1, t2, RIGHT_SIDE_MASK_3_LO, RIGHT_SIDE_MASK_3_MID, 0, pd0, pd1, pd2),
        moved_down(pd0, pd1, pd2, md0, md1, md2, two_to(48)),
        r0 == (t0 ^ (t0 & RIGHT_SIDE_MASK_ALL_LO)) ^ ma0 ^ mb0 ^ mc0 ^ md0,
        r1 == (t1 ^ (t1 & RIGHT_SIDE_MASK_ALL_MID)) ^ ma1 ^ mb1 ^ mc1 ^ md1,
        r2 == (t2 ^ (t2 & RIGHT_SIDE_MASK_ALL_HI)) ^ ma2 ^ mb2 ^ mc2 ^ md2,
    ensures
        turned_digits(s0, s1, s2, r0, r1, r2, 6),
{
}

/// The right face, a quarter turn clockwise.
fn turn_r(s: Packed) -> (r: Packed)
    ensures
        turned_digits(s.lo, s.mid, s.hi, r.lo, r.mid, r.hi, 6),
{
    let g = and(s, word(0, RIGHT_MASK_MID, 0));
    let a = shr(g, 3);
    let w = and(a, word(0, RIGHT_OVERFLOW_MASK_MID, 0));
    let b = shl(w, 12);
    let t = xor(xor(s, g), xor(xor(a, w), b));

    let pa = and(t, word(RIGHT_SIDE_MASK_0_LO, 0, 0));
    let ma = shl(pa, 90);
    let pb = and(t, word(0, RIGHT_SIDE_MASK_1_MID, 0));
    let mb = shl(pb, 30);
    let pc = and(t, word(0, 0, RIGHT_SIDE_MASK_2_HI));
    let mc = shr(pc, 72);
    let pd = and(t, word(RIGHT_SIDE_MASK_3_LO, RIGHT_SIDE_MASK_3_MID, 0));
    let md = shr(pd, 48);
    let rest = xor(t, and(t, word(RIGHT_SIDE_MASK_ALL_LO, RIGHT_SIDE_MASK_ALL_MID, RIGHT_SIDE_MASK_ALL_HI)));
    let r = xor(xor(xor(xor(rest, ma), mb), mc), md);
    proof {
        lemma_turn_r(
            s.lo, s.mid, s.hi, g.lo, g.mid, g.hi, a.lo, a.mid, a.hi, w.lo, w.mid, w.hi,
            b.lo, b.mid, b.hi, t.lo, t.mid, t.hi, pa.lo, pa.mid, pa.hi, ma.lo, ma.mid, ma.hi,
            pb.lo, pb.mid, pb.hi, mb.lo, mb.mid, mb.hi, pc.lo, pc.mid, pc.hi, mc.lo, mc.mid, mc.hi,
            pd.lo, pd.mid, pd.hi, md.lo, md.mid, md.hi, r.lo, r.mid, r.hi,
        );
    }
    r
}

proof fn lemma_turn_rp(
    s0: u64, s1: u64, s2: u64,
    g0: u64, g1: u64, g2: u64,
    a0: u64, a1: u64, a2: u64,
    w0: u64, w1: u64, w2: u64,
    b0: u64, b1: u64, b2: u64,
    t0: u64, t1: u64, t2: u64,
    pa0: u64, pa1: u64, pa2: u64,
    ma0: u64, ma1: u64, ma2: u64,
    pb0: u64, pb1: u64, pb2: u64,
    mb0: u64, mb1: u64, mb2: u64,
    pc0: u64, pc1: u64, pc2: u64,
    mc0: u64, mc1: u64, mc2: u64,
    pd0: u64, pd1: u64, pd2: u64,
    md0: u64, md1: u64, md2: u64,
    r0: u64, r1: u64, r2: u64,
)
    by (bit_vector)
    requires
        is_and(s0, s1, s2, 0, RIGHT_MASK_MID, 0, g0, g1, g2),
        moved_up(g0, g1, g2, a0, a1, a2, two_to(3), two_to(189)),
        is_and(a0, a1, a2, 0, RIGHT_OVERFLOW_MASK_REV_MID, 0, w0, w1, w2),
        moved_down(w0, w1, w2, b0, b1, b2, two_to(12)),
        t0 == (s0 ^ g0) ^ ((a0 ^ w0) ^ b0),
        t1 == (s1 ^ g1) ^ ((a1 ^ w1) ^ b1),
        t2 == (s2 ^ g2) ^ ((a2 ^ w2) ^ b2),
        is_and(t0, t1, t2, RIGHT_SIDE_MASK_0_LO, 0, 0, pa0, pa1, pa2),
        moved_up(pa0, pa1, pa2, ma0, ma1, ma2, two_to(48), two_to(144)),
        is_and(t0, t1, t2, 0, RIGHT_SIDE_MASK_1_MID, 0, pb0, pb1, pb2),
        moved_down(pb0, pb1, pb2, mb0, mb1, mb2, two_to(90)),
        is_and(t0, t1, t2, 0, 0, RIGHT_SIDE_MASK_2_HI, pc0, pc1, pc2),
        moved_down(pc0, pc1, pc2, mc0, mc1, mc2, two_to(30)),
        is_and(t0, t1, t2, RIGHT_SIDE_MASK_3_LO, RIGHT_SIDE_MASK_3_MID, 0, pd0, pd1, pd2),
        moved_up(pd0, pd1, pd2, md0, md1, md2, two_to(72), two_to(120)),
        r0 == (t0 ^ (t0 & RIGHT_SIDE_MASK_ALL_LO)) ^ ma0 ^ mb0 ^ mc0 ^ md0,
        r1 == (t1 ^ (t1 & RIGHT_SIDE_MASK_ALL_MID)) ^ ma1 ^ mb1 ^ mc1 ^ md1,
        r2 == (t2 ^ (t2 & RIGHT_SIDE_MASK_ALL_HI)) ^ ma2 ^ mb2 ^ mc2 ^ md2,
    ensures
        turned_digits(s0, s1, s2, r0, r1, r2, 7),
{
}

/// The right face, a quarter turn counter-clockwise.
fn turn_rp(s: Packed) -> (r: Packed)
    ensures
        turned_digits(s.lo, s.mid, s.hi, r.lo, r.mid, r.hi, 7),
{
    let g = and(s, word(0, RIGHT_MASK_MID, 0));
    let a = shl(g, 3);
    let w = and(a, word(0, RIGHT_OVERFLOW_MASK_REV_MID, 0));
    let b = shr(w, 12);
    let t = xor(xor(s, g), xor(xor(a, w), b));

    let pa = and(t, word(RIGHT_SIDE_MASK_0_LO, 0, 0));
    let ma = shl(pa, 48);
    let pb = and(t, word(0, RIGHT_SIDE_MASK_1_MID, 0));
    let mb = shr(pb, 90);
    let pc = and(t, word(0, 0, RIGHT_SIDE_MASK_2_HI));
    let mc = shr(pc, 30);
    let pd = and(t, word(RIGHT_SIDE_MASK_3_LO, RIGHT_SIDE_MASK_3_MID, 0));
    let md = shl(pd, 72);
    let rest = xor(t, and(t, word(RIGHT_SIDE_MASK_ALL_LO, RIGHT_SIDE_MASK_ALL_MID, RIGHT_SIDE_MASK_ALL_HI)));
    let r = xor(xor(xor(xor(rest, ma), mb), mc), md);
    proof {
        lemma_turn_rp(
            s.lo, s.mid, s.hi, g.lo, g.mid, g.hi, a.lo, a.mid, a.hi, w.lo, w.mid, w.hi,
            b.lo, b.mid, b.hi, t.lo, t.mid, t.hi, pa.lo, pa.mid, pa.hi, ma.lo, ma.mid, ma.hi,
            pb.lo, pb.mid, pb.hi, mb.lo, mb.mid, mb.hi, pc.lo, pc.mid, pc.hi, mc.lo, mc.mid, mc.hi,
            pd.lo, pd.mid, pd.hi, md.lo, md.mid, md.hi, r.lo, r.mid, r.hi,
        );
    }
    r
}

// The back face: slots 33 to 40. It touches the top row of the upper face, the
// bottom row of the lower face, and a column of the left and of the right
// face.
const BACK_MASK_MID: u64 = 0x7ff_fff8_0000_0000;
const BACK_OVERFLOW_MASK_MID: u64 = 0x7007_0000_0000;
const BACK_OVERFLOW_MASK_REV_MID: u64 = 0x3803_8000_0000_0000;
const BACK_SIDE_MASK_0A_LO: u64 = 0x3_8038;
const BACK_SIDE_MASK_0B_LO: u64 = 0x7000;
const BACK_SIDE_MASK_1_LO: u64 = 0x1c01_f800_0000;
const BACK_SIDE_MASK_1A_LO: u64 = 0x1c01_c000_0000;
const BACK_SIDE_MASK_1B_LO: u64 = 0x3800_0000;
const BACK_SIDE_MASK_2_MID: u64 = 0xc000_0000_0000_0000;
const BACK_SIDE_MASK_2_HI: u64 = 0xe00f;
const BACK_SIDE_MASK_3_MID: u64 = 0x7_007e_0000;
const BACK_SIDE_MASK_3A_MID: u64 = 0x7_0070_0000;
const BACK_SIDE_MASK_3B_MID: u64 = 0xe_0000;
const BACK_SIDE_MASK_ALL_LO: u64 = 0x1c01_f803_f038;
const BACK_SIDE_MASK_ALL_MID: u64 = 0xc000_0007_007e_0000;
const BACK_SIDE_MASK_ALL_HI: u64 = 0xe00f;

proof fn lemma_turn_b(
    s0: u64, s1: u64, s2: u64,
    g0: u64, g1: u64, g2: u64,
    a0: u64, a1: u64, a2: u64,
    w0: u64, w1: u64, w2: u64,
    b0: u64, b1: u64, b2: u64,
    t0: u64, t1: u64, t2: u64,
    pa0: u64, pa1: u64, pa2: u64,
    ma0: u64, ma1: u64, ma2: u64,
    pb0: u64, pb1: u64, pb2: u64,
    mb0: u64, mb1: u64, mb2: u64,
    pc0: u64, pc1: u64, pc2: u64,
    mc0: u64, mc1: u64, mc2: u64,
    pd0: u64, pd1: u64, pd2: u64,
    md0: u64, md1: u64, md2: u64,
    pe0: u64, pe1: u64, pe2: u64,
    me0: u64, me1: u64, me2: u64,
    pf0: u64, pf1: u64, pf2: u64,
    mf0: u64, mf1: u64, mf2: u64,
    r0: u64, r1: u64, r2: u64,
)
    by (bit_vector)
    requires
        is_and(s0, s1, s2, 0, BACK_MASK_MID, 0, g0, g1, g2),
        moved_down(g0, g1, g2, a0, a1, a2, two_to(3)),
        is_and(a0, a1, a2, 0, BACK_OVERFLOW_MASK_MID, 0, w0, w1, w2),
        moved_up(w0, w1, w2, b0, b1, b2, two_to(12), two_to(180)),
        t0 == (s0 ^ g0) ^ ((a0 ^ w0) ^ b0),
        t1 == (s1 ^ g1) ^ ((a1 ^ w1) ^ b1),
        t2 == (s2 ^ g2) ^ ((a2 ^ w2) ^ b2),
        is_and(t0, t1, t2, BACK_SIDE_MASK_0A_LO, 0, 0, pa0, pa1, pa2),
        moved_up(pa0, pa1, pa2, ma0, ma1, ma2, two_to(27), two_to(165)),
        is_and(t0, t1, t2, BACK_SIDE_MASK_0B_LO, 0, 0, pb0, pb1, pb2),
        moved_up(pb0, pb1, pb2, mb0, mb1, mb2, two_to(15), two_to(177)),
        is_and(t0, t1, t2, BACK_SIDE_MASK_1_LO, 0, 0, pc0, pc1, pc2),
        moved_up(pc0, pc1, pc2, mc0, mc1, mc2, two_to(99), two_to(93)),
        is_and(t0, t1, t2, 0, BACK_SIDE_MASK_2_MID, BACK_SIDE_MASK_2_HI, pd0, pd1, pd2),
        moved_down(pd0, pd1, pd2, md0, md1, md2, two_to(45)),
        is_and(t0, t1, t2, 0, BACK_SIDE_MASK_3A_MID, 0, pe0, pe1, pe2),
        moved_down(pe0, pe1, pe2, me0, me1, me2, two_to(81)),
        is_and(t0, t1, t2, 0, BACK_SIDE_MASK_3B_MID, 0, pf0, pf1, pf2),
        moved_down(pf0, pf1, pf2, mf0, mf1, mf2, two_to(69)),
        r0 == (t0 ^ (t0 & BACK_SIDE_MASK_ALL_LO)) ^ ma0 ^ mb0 ^ mc0 ^ md0 ^ me0 ^ mf0,
        r1 == (t1 ^ (t1 & BACK_SIDE_MASK_ALL_MID)) ^ ma1 ^ mb1 ^ mc1 ^ md1 ^ me1 ^ mf1,
        r2 == (t2 ^ (t2 & BACK_SIDE_MASK_ALL_HI)) ^ ma2 ^ mb2 ^ mc2 ^ md2 ^ me2 ^ mf2,
    ensures
        turned_digits(s0, s1, s2, r0, r1, r2, 8),
{
}

/// The back face, a quarter turn clockwise.
fn turn_b(s: Packed) -> (r: Packed)
    ensures
        turned_digits(s.lo, s.mid, s.hi, r.lo, r.mid, r.hi, 8),
{
    let g = and(s, word(0, BACK_MASK_MID, 0));
    let a = shr(g, 3);
    let w = and(a, word(0, BACK_OVERFLOW_MASK_MID, 0));
    let b = shl(w, 12);
    let t = xor(xor(s, g), xor(xor(a, w), b));

    let pa = and(t, word(BACK_SIDE_MASK_0A_LO, 0, 0));
    let ma = shl(pa, 27);
    let pb = and(t, word(BACK_SIDE_MASK_0B_LO, 0, 0));
    let mb = shl(pb, 15);
    let pc = and(t, word(BACK_SIDE_MASK_1_LO, 0, 0));
    let mc = shl(pc, 99);
    let pd = and(t, word(0, BACK_SIDE_MASK_2_MID, BACK_SIDE_MASK_2_HI));
    let md = shr(pd, 45);
    let pe = and(t, word(0, BACK_SIDE_MASK_3A_MID, 0));
    let me = shr(pe, 81);
    let pf = and(t, word(0, BACK_SIDE_MASK_3B_MID, 0));
    let mf = shr(pf, 69);
    let rest = xor(t, and(t, word(BACK_SIDE_MASK_ALL_LO, BACK_SIDE_MASK_ALL_MID, BACK_SIDE_MASK_ALL_HI)));
    let r = xor(xor(xor(xor(xor(xor(rest, ma), mb), mc), md), me), mf);
    proof {
        lemma_turn_b(
            s.lo, s.mid, s.hi, g.lo, g.mid, g.hi, a.lo, a.mid, a.hi, w.lo, w.mid, w.hi,
            b.lo, b.mid, b.hi, t.lo, t.mid, t.hi, pa.lo, pa.mid, pa.hi, ma.lo, ma.mid, ma.hi,
            pb.lo, pb.mid, pb.hi, mb.lo, mb.mid, mb.hi, pc.lo, pc.mid, pc.hi, mc.lo, mc.mid, mc.hi,
            pd.lo, pd.mid, pd.hi, md.lo, md.mid, md.hi, pe.lo, pe.mid, pe.hi, me.lo, me.mid, me.hi,
            pf.lo, pf.mid, pf.hi, mf.lo, mf.mid, mf.hi, r.lo, r.mid, r.hi,
        );
    }
    r
}

proof fn lemma_turn_bp(
    s0: u64, s1: u64, s2: u64,
    g0: u64, g1: u64, g2: u64,
    a0: u64, a1: u64, a2: u64,
    w0: u64, w1: u64, w2: u64,
    b0: u64, b1: u64, b2: u64,
    t0: u64, t1: u64, t2: u64,
    pa0: u64, pa1: u64, pa2: u64,
    ma0: u64, ma1: u64, ma2: u64,
    pb0: u64, pb1: u64, pb2: u64,
    mb0: u64, mb1: u64, mb2: u64,
    pc0: u64, pc1: u64, pc2: u64,
    mc0: u64, mc1: u64, mc2: u64,
    pd0: u64, pd1: u64, pd2: u64,
    md0: u64, md1: u64, md2: u64,
    pe0: u64, pe1: u64, pe2: u64,
    me0: u64, me1: u64, me2: u64,
    pf0: u64, pf1: u64, pf2: u64,
    mf0: u64, mf1: u64, mf2: u64,
    r0: u64, r1: u64, r2: u64,
)
    by (bit_vector)
    requires
        is_and(s0, s1, s2, 0, BACK_MASK_MID, 0, g0, g1, g2),
        moved_up(g0, g1, g2, a0, a1, a2, two_to(3), two_to(189)),
        is_and(a0, a1, a2, 0, BACK_OVERFLOW_MASK_REV_MID, 0, w0, w1, w2),
        moved_down(w0, w1, w2, b0, b1, b2, two_to(12)),
        t0 == (s0 ^ g0) ^ ((a0 ^ w0) ^ b0),
        t1 == (s1 ^ g1) ^ ((a1 ^ w1) ^ b1),
        t2 == (s2 ^ g2) ^ ((a2 ^ w2) ^ b2),
        is_and(t0, t1, t2, BACK_SIDE_MASK_0A_LO, 0, 0, pa0, pa1, pa2),
        moved_up(pa0, pa1, pa2, ma0, ma1, ma2, two_to(81), two_to(111)),
        is_and(t0, t1, t2, BACK_SIDE_MASK_0B_LO, 0, 0, pb0, pb1, pb2),
        moved_up(pb0, pb1, pb2, mb0, mb1, mb2, two_to(69), two_to(123)),
        is_and(t0, t1, t2, BACK_SIDE_MASK_1A_LO, 0, 0, pc0, pc1, pc2),
        moved_down(pc0, pc1, pc2, mc0, mc1, mc2, two_to(27)),
        is_and(t0, t1, t2, BACK_SIDE_MASK_1B_LO, 0, 0, pd0, pd1, pd2),
        moved_down(pd0, pd1, pd2, md0, md1, md2, two_to(15)),
        is_and(t0, t1, t2, 0, BACK_SIDE_MASK_2_MID, BACK_SIDE_MASK_2_HI, pe0, pe1, pe2),
        moved_down(pe0, pe1, pe2, me0, me1, me2, two_to(99)),
        is_and(t0, t1, t2, 0, BACK_SIDE_MASK_3_MID, 0, pf0, pf1, pf2),
        moved_up(pf0, pf1, pf2, mf0, mf1, mf2, two_to(45), two_to(147)),
        r0 == (t0 ^ (t0 & BACK_SIDE_MASK_ALL_LO)) ^ ma0 ^ mb0 ^ mc0 ^ md0 ^ me0 ^ mf0,
        r1 == (t1 ^ (t1 & BACK_SIDE_MASK_ALL_MID)) ^ ma1 ^ mb1 ^ mc1 ^ md1 ^ me1 ^ mf1,
        r2 == (t2 ^ (t2 & BACK_SIDE_MASK_ALL_HI)) ^ ma2 ^ mb2 ^ mc2 ^ md2 ^ me2 ^ mf2,
    ensures
        turned_digits(s0, s1, s2, r0, r1, r2, 9),
{
}

/// The back face, a quarter turn counter-clockwise.
fn turn_bp(s: Packed) -> (r: Packed)
    ensures
        turned_digits(s.lo, s.mid, s.hi, r.lo, r.mid, r.hi, 9),
{
    let g = and(s, word(0, BACK_MASK_MID, 0));
    let a = shl(g, 3);
    let w = and(a, word(0, BACK_OVERFLOW_MASK_REV_MID, 0));
    let b = shr(w, 12);
    let t = xor(xor(s, g), xor(xor(a, w), b));

    let pa = and(t, word(BACK_SIDE_MASK_0A_LO, 0, 0));
    let ma = shl(pa, 81);
    let pb = and(t, word(BACK_SIDE_MASK_0B_LO, 0, 0));
    let mb = shl(pb, 69);
    let pc = and(t, word(BACK_SIDE_MASK_1A_LO, 0, 0));
    let mc = shr(pc, 27);
    let pd = and(t, word(BACK_SIDE_MASK_1B_LO, 0, 0));
    let md = shr(pd, 15);
    let pe = and(t, word(0, BACK_SIDE_MASK_2_MID, BACK_SIDE_MASK_2_HI));
    let me = shr(pe, 99);
    let pf = and(t, word(0, BACK_SIDE_MASK_3_MID, 0));
    let mf = shl(pf, 45);
    let rest = xor(t, and(t, word(BACK_SIDE_MASK_ALL_LO, BACK_SIDE_MASK_ALL_MID, BACK_SIDE_MASK_ALL_HI)));
    let r = xor(xor(xor(xor(xor(xor(rest, ma), mb), mc), md), me), mf);
    proof {
        lemma_turn_bp(
            s.lo, s.mid, s.hi, g.lo, g.mid, g.hi, a.lo, a.mid, a.hi, w.lo, w.mid, w.hi,
            b.lo, b.mid, b.hi, t.lo, t.mid, t.hi, pa.lo, pa.mid, pa.hi, ma.lo, ma.mid, ma.hi,
            pb.lo, pb.mid, pb.hi, mb.lo, mb.mid, mb.hi, pc.lo, pc.mid, pc.hi, mc.lo, mc.mid, mc.hi,
            pd.lo, pd.mid, pd.hi, md.lo, md.mid, md.hi, pe.lo, pe.mid, pe.hi, me.lo, me.mid, me.hi,
            pf.lo, pf.mid, pf.hi, mf.lo, mf.mid, mf.hi, r.lo, r.mid, r.hi,
        );
    }
    r
}

// The lower face: slots 41 to 48. Its neighbours show it their bottom rows.
const DOWN_MASK_MID: u64 = 0xf800_0000_0000_0000;
const DOWN_MASK_HI: u64 = 0x7_ffff;
const DOWN_OVERFLOW_MASK_MID: u64 = 0x700_0000_0000_0000;
const DOWN_OVERFLOW_MASK_HI: u64 = 0x70;
const DOWN_OVERFLOW_MASK_REV_HI: u64 = 0x38_0380;
const DOWN_SIDE_MASK_LO: u64 = 0xfc0_e00f_c000_0000;
const DOWN_SIDE_MASK_MID: u64 = 0xe0_0fc0_e00f_c0e0;
const DOWN_SIDE_OVERFLOW_MASK_MID: u64 = 0xc000_0000_0000_0000;
const DOWN_SIDE_OVERFLOW_MASK_HI: u64 = 0xe00f;
const DOWN_SIDE_OVERFLOW_MASK_REV_LO: u64 = 0xe0_0fc0;

proof fn lemma_turn_d(
    s0: u64, s1: u64, s2: u64,
    g0: u64, g1: u64, g2: u64,
    a0: u64, a1: u64, a2: u64,
    w0: u64, w1: u64, w2: u64,
    b0: u64, b1: u64, b2: u64,
    t0: u64, t1: u64, t2: u64,
    h0: u64, h1: u64, h2: u64,
    c0: u64, c1: u64, c2: u64,
    x0: u64, x1: u64, x2: u64,
    d0: u64, d1: u64, d2: u64,
    r0: u64, r1: u64, r2: u64,
)
    by (bit_vector)
    requires
        is_and(s0, s1, s2, 0, DOWN_MASK_MID, DOWN_MASK_HI, g0, g1, g2),
        moved_down(g0, g1, g2, a0, a1, a2, two_to(3)),
        is_and(a0, a1, a2, 0, DOWN_OVERFLOW_MASK_MID, DOWN_OVERFLOW_MASK_HI, w0, w1, w2),
        moved_up(w0, w1, w2, b0, b1, b2, two_to(12), two_to(180)),
        t0 == (s0 ^ g0) ^ ((a0 ^ w0) ^ b0),
        t1 == (s1 ^ g1) ^ ((a1 ^ w1) ^ b1),
        t2 == (s2 ^ g2) ^ ((a2 ^ w2) ^ b2),
        is_and(t0, t1, t2, DOWN_SIDE_MASK_LO, DOWN_SIDE_MASK_MID, 0, h0, h1, h2),
        moved_up(h0, h1, h2, c0, c1, c2, two_to(24), two_to(168)),
        is_and(c0, c1, c2, 0, DOWN_SIDE_OVERFLOW_MASK_MID, DOWN_SIDE_OVERFLOW_MASK_HI, x0, x1, x2),
        moved_down(x0, x1, x2, d0, d1, d2, two_to(96)),
        r0 == (t0 ^ h0) ^ ((c0 ^ x0) ^ d0),
        r1 == (t1 ^ h1) ^ ((c1 ^ x1) ^ d1),
        r2 == (t2 ^ h2) ^ ((c2 ^ x2) ^ d2),
    ensures
        turned_digits(s0, s1, s2, r0, r1, r2, 10),
{
}

/// The lower face, a quarter turn clockwise.
fn turn_d(s: Packed) -> (r: Packed)
    ensures
        turned_digits(s.lo, s.mid, s.hi, r.lo, r.mid, r.hi, 10),
{
    let g = and(s, word(0, DOWN_MASK_MID, DOWN_MASK_HI));
    let a = shr(g, 3);
    let w = and(a, word(0, DOWN_OVERFLOW_MASK_MID, DOWN_OVERFLOW_MASK_HI));
    let b = shl(w, 12);
    let t = xor(xor(s, g), xor(xor(a, w), b));

    let h = and(t, word(DOWN_SIDE_MASK_LO, DOWN_SIDE_MASK_MID, 0));
    let c = shl(h, 24);
    let x = and(c, word(0, DOWN_SIDE_OVERFLOW_MASK_MID, DOWN_SIDE_OVERFLOW_MASK_HI));
    let d = shr(x, 96);
    let r = xor(xor(t, h), xor(xor(c, x), d));
    proof {
        lemma_turn_d(
            s.lo, s.mid, s.hi, g.lo, g.mid, g.hi, a.lo, a.mid, a.hi, w.lo, w.mid, w.hi,
            b.lo, b.mid, b.hi, t.lo, t.mid, t.hi, h.lo, h.mid, h.hi, c.lo, c.mid, c.hi,
            x.lo, x.mid, x.hi, d.lo, d.mid, d.hi, r.lo, r.mid, r.hi,
        );
    }
    r
}

proof fn lemma_turn_dp(
    s0: u64, s1: u64, s2: u64,
    g0: u64, g1: u64, g2: u64,
    a0: u64, a1: u64, a2: u64,
    w0: u64, w1: u64, w2: u64,
    b0: u64, b1: u64, b2: u64,
    t0: u64, t1: u64, t2: u64,
    h0: u64, h1: u64, h2: u64,
    c0: u64, c1: u64, c2: u64,
    x0: u64, x1: u64, x2: u64,
    d0: u64, d1: u64, d2: u64,
    r0: u64, r1: u64, r2: u64,
)
    by (bit_vector)
    requires
        is_and(s0, s1, s2, 0, DOWN_MASK_MID, DOWN_MASK_HI, g0, g1, g2),
        moved_up(g0, g1, g2, a0, a1, a2, two_to(3), two_to(189)),
        is_and(a0, a1, a2, 0, 0, DOWN_OVERFLOW_MASK_REV_HI, w0, w1, w2),
        moved_down(w0, w1, w2, b0, b1, b2, two_to(12)),
        t0 == (s0 ^ g0) ^ ((a0 ^ w0) ^ b0),
        t1 == (s1 ^ g1) ^ ((a1 ^ w1) ^ b1),
        t2 == (s2 ^ g2) ^ ((a2 ^ w2) ^ b2),
        is_and(t0, t1, t2, DOWN_SIDE_MASK_LO, DOWN_SIDE_MASK_MID, 0, h0, h1, h2),
        moved_down(h0, h1, h2, c0, c1, c2, two_to(24)),
        is_and(c0, c1, c2, DOWN_SIDE_OVERFLOW_MASK_REV_LO, 0, 0, x0, x1, x2),
        moved_up(x0, x1, x2, d0, d1, d2, two_to(96), two_to(96)),
        r0 == (t0 ^ h0) ^ ((c0 ^ x0) ^ d0),
        r1 == (t1 ^ h1) ^ ((c1 ^ x1) ^ d1),
        r2 == (t2 ^ h2) ^ ((c2 ^ x2) ^ d2),
    ensures
        turned_digits(s0, s1, s2, r0, r1, r2, 11),
{
}

/// The lower face, a quarter turn counter-clockwise.
fn turn_dp(s: Packed) -> (r: Packed)
    ensures
        turned_digits(s.lo, s.mid, s.hi, r.lo, r.mid, r.hi, 11),
{
    let g = and(s, word(0, DOWN_MASK_MID, DOWN_MASK_HI));
    let a = shl(g, 3);
    let w = and(a, word(0, 0, DOWN_OVERFLOW_MASK_REV_HI));
    let b = shr(w, 12);
    let t = xor(xor(s, g), xor(xor(a, w), b));

    let h = and(t, word(DOWN_SIDE_MASK_LO, DOWN_SIDE_MASK_MID, 0));
    let c = shr(h, 24);
    let x = and(c, word(DOWN_SIDE_OVERFLOW_MASK_REV_LO, 0, 0));
    let d = shl(x, 96);
    let r = xor(xor(t, h), xor(xor(c, x), d));
    proof {
        lemma_turn_dp(
            s.lo, s.mid, s.hi, g.lo, g.mid, g.hi, a.lo, a.mid, a.hi, w.lo, w.mid, w.hi,
            b.lo, b.mid, b.hi, t.lo, t.mid, t.hi, h.lo, h.mid, h.hi, c.lo, c.mid, c.hi,
            x.lo, x.mid, x.hi, d.lo, d.mid, d.hi, r.lo, r.mid, r.hi,
        );
    }
    r
}

/// The word after the turn `m`.
pub(crate) fn turn(s: Packed, m: Rotation) -> (r: Packed)
    ensures
        turned_digits(s.lo, s.mid, s.hi, r.lo, r.mid, r.hi, m.spec_index()),
{
    match m {
        Rotation::U => turn_u(s),
        Rotation::Up => turn_up(s),
        Rotation::L => turn_l(s),
        Rotation::Lp => turn_lp(s),
        Rotation::F => turn_f(s),
        Rotation::Fp => turn_fp(s),
        Rotation::R => turn_r(s),
        Rotation::Rp => turn_rp(s),
        Rotation::B => turn_b(s),
        Rotation::Bp => turn_bp(s),
        Rotation::D => turn_d(s),
        Rotation::Dp => turn_dp(s),
    }
}

} // verus!
