//! Reading and writing single slots of a packed word, and why two words that
//! hold the same facelets are the same word.
//!
//! What is said of bits here is proved by the solver for bit vectors. That
//! solver takes no statement about every slot or every shift: such a statement
//! is written as a function that goes down through the slots one by one,
//! which the solver unrolls, and a lemma by induction turns the outcome into
//! the statement about all of them.
use vstd::prelude::*;
use crate::layout::{cell_of, facelet_of};
use crate::packed::{moved_down, moved_up, two_to, Packed};

verus! {

/// Whether the first `n` slots of a word are empty.
pub open spec fn empty_upto(lo: u64, mid: u64, hi: u64, n: int) -> bool
    decreases n,
{
    n <= 0 || (cell_of(lo, mid, hi, n - 1) == 0 && empty_upto(lo, mid, hi, n - 1))
}

proof fn lemma_empty_digits(zero: u64)
    by (bit_vector)
    requires
        zero == 0,
    ensures
        empty_upto(zero, zero, zero, 64),
        zero >> 22 == 0,
{
}

proof fn lemma_empty_upto(lo: u64, mid: u64, hi: u64, n: int)
    requires
        empty_upto(lo, mid, hi, n),
    ensures
        forall|j: int| 0 <= j < n ==> #[trigger] cell_of(lo, mid, hi, j) == 0,
    decreases n,
{
    if n > 0 {
        lemma_empty_upto(lo, mid, hi, n - 1);
    }
}

/// The word zero holds nothing in any slot.
pub proof fn lemma_empty_word()
    ensures
        forall|j: int| 0 <= j < 64 ==> #[trigger] cell_of(0, 0, 0, j) == 0,
        0u64 >> 22 == 0,
{
    lemma_empty_digits(0);
    lemma_empty_upto(0, 0, 0, 64);
}

/// Whether the first `n` slots of `r` hold what `s` holds, but for slot
/// `slot`, which holds `c`.
pub open spec fn same_but(s0: u64, s1: u64, s2: u64, r0: u64, r1: u64, r2: u64, slot: int, c: u64, n: int) -> bool
    decreases n,
{
    n <= 0 || (cell_of(r0, r1, r2, n - 1) == (if n - 1 == slot { c } else { cell_of(s0, s1, s2, n - 1) })
        && same_but(s0, s1, s2, r0, r1, r2, slot, c, n - 1))
}

/// For each of the slots below `n`: if `slot` is that slot, `s` holds nothing
/// there and `m` is `c` moved up to it, then `r` is `s` with `c` in that slot.
pub open spec fn put_cases(
    s0: u64, s1: u64, s2: u64,
    m0: u64, m1: u64, m2: u64,
    r0: u64, r1: u64, r2: u64,
    slot: u64,
    c: u64,
    n: int,
) -> bool
    decreases n,
{
    n <= 1 || ((slot == n - 1 && cell_of(s0, s1, s2, n - 1) == 0
        && moved_up(c, 0, 0, m0, m1, m2, two_to(3 * (n - 1)), two_to(192 - 3 * (n - 1)))
        ==> same_but(s0, s1, s2, r0, r1, r2, n - 1, c, 50) && r2 >> 22 == s2 >> 22)
        && put_cases(s0, s1, s2, m0, m1, m2, r0, r1, r2, slot, c, n - 1))
}

pub proof fn lemma_put_cases(
    s0: u64, s1: u64, s2: u64,
    m0: u64, m1: u64, m2: u64,
    r0: u64, r1: u64, r2: u64,
    slot: u64,
    c: u64,
)
    by (bit_vector)
    requires
        c < 8,
        r0 == s0 | m0,
        r1 == s1 | m1,
        r2 == s2 | m2,
        cell_of(s0, s1, s2, 0) == 0,
        cell_of(s0, s1, s2, 49) == 0,
        s2 >> 22 == 0,
    ensures
        put_cases(s0, s1, s2, m0, m1, m2, r0, r1, r2, slot, c, 49),
{
}


proof fn lemma_same_but(s: Packed, r: Packed, slot: int, c: u64, n: int)
    requires
        same_but(s.lo, s.mid, s.hi, r.lo, r.mid, r.hi, slot, c, n),
    ensures
        forall|j: int| 0 <= j < n ==> #[trigger] cell_of(r.lo, r.mid, r.hi, j) == (if j == slot {
            c
        } else {
            cell_of(s.lo, s.mid, s.hi, j)
        }),
    decreases n,
{
    if n > 0 {
        lemma_same_but(s, r, slot, c, n - 1);
    }
}

proof fn lemma_put_case(s: Packed, m: Packed, r: Packed, slot: u64, c: u64, n: int)
    requires
        put_cases(s.lo, s.mid, s.hi, m.lo, m.mid, m.hi, r.lo, r.mid, r.hi, slot, c, n),
        1 <= slot < n,
        cell_of(s.lo, s.mid, s.hi, slot as int) == 0,
        moved_up(c, 0, 0, m.lo, m.mid, m.hi, two_to(3 * slot), two_to(192 - 3 * slot)),
    ensures
        same_but(s.lo, s.mid, s.hi, r.lo, r.mid, r.hi, slot as int, c, 50),
        r.hi >> 22 == s.hi >> 22,
    decreases n,
{
    if slot != n - 1 {
        lemma_put_case(s, m, r, slot, c, n - 1);
    }
}

/// Laying a colour's code, moved up to an empty slot, over a word puts the
/// code into that slot and leaves the rest of the word as it was.
pub proof fn lemma_put(s: Packed, m: Packed, r: Packed, slot: u64, c: u64)
    requires
        1 <= slot <= 48,
        c < 8,
        moved_up(c, 0, 0, m.lo, m.mid, m.hi, two_to(3 * slot), two_to(192 - 3 * slot)),
        r.lo == s.lo | m.lo,
        r.mid == s.mid | m.mid,
        r.hi == s.hi | m.hi,
        cell_of(s.lo, s.mid, s.hi, slot as int) == 0,
        cell_of(s.lo, s.mid, s.hi, 0) == 0,
        cell_of(s.lo, s.mid, s.hi, 49) == 0,
        s.hi >> 22 == 0,
    ensures
        forall|j: int| 0 <= j < 50 ==> #[trigger] cell_of(r.lo, r.mid, r.hi, j) == (if j == slot {
            c
        } else {
            cell_of(s.lo, s.mid, s.hi, j)
        }),
        r.hi >> 22 == 0,
{
    lemma_put_cases(s.lo, s.mid, s.hi, m.lo, m.mid, m.hi, r.lo, r.mid, r.hi, slot, c);
    lemma_put_case(s, m, r, slot, c, 49);
    lemma_same_but(s, r, slot as int, c, 50);
}

/// For each of the slots below `n`: if `slot` is that slot and `a` is `s`
/// moved down by it, the lowest three bits of `a` are what `s` holds there.
pub open spec fn get_cases(s0: u64, s1: u64, s2: u64, a0: u64, a1: u64, a2: u64, slot: u64, n: int) -> bool
    decreases n,
{
    n <= 0 || ((slot == n - 1 && moved_down(s0, s1, s2, a0, a1, a2, two_to(3 * (n - 1)))
        ==> a0 & 7 == cell_of(s0, s1, s2, n - 1))
        && get_cases(s0, s1, s2, a0, a1, a2, slot, n - 1))
}

proof fn lemma_get_cases(s0: u64, s1: u64, s2: u64, a0: u64, a1: u64, a2: u64, slot: u64)
    by (bit_vector)
    ensures
        get_cases(s0, s1, s2, a0, a1, a2, slot, 50),
{
}

proof fn lemma_get_case(s: Packed, a: Packed, slot: u64, n: int)
    requires
        get_cases(s.lo, s.mid, s.hi, a.lo, a.mid, a.hi, slot, n),
        0 <= slot < n,
        moved_down(s.lo, s.mid, s.hi, a.lo, a.mid, a.hi, two_to(3 * slot)),
    ensures
        a.lo & 7 == cell_of(s.lo, s.mid, s.hi, slot as int),
    decreases n,
{
    if slot != n - 1 {
        lemma_get_case(s, a, slot, n - 1);
    }
}

/// A word moved down by a slot shows in its lowest three bits what the word
/// holds in that slot.
pub proof fn lemma_get(s: Packed, a: Packed, slot: u64)
    requires
        slot < 50,
        moved_down(s.lo, s.mid, s.hi, a.lo, a.mid, a.hi, two_to(3 * slot)),
    ensures
        a.lo & 7 == cell_of(s.lo, s.mid, s.hi, slot as int),
        a.lo & 7 < 8,
{
    lemma_get_cases(s.lo, s.mid, s.hi, a.lo, a.mid, a.hi, slot);
    lemma_get_case(s, a, slot, 50);
    let x = a.lo;
    assert(x & 7 < 8) by (bit_vector);
}

/// Whether two words hold the same in each of their first `n` facelets.
pub open spec fn same_upto(a0: u64, a1: u64, a2: u64, b0: u64, b1: u64, b2: u64, n: int) -> bool
    decreases n,
{
    n <= 0 || (facelet_of(a0, a1, a2, n - 1) == facelet_of(b0, b1, b2, n - 1)
        && same_upto(a0, a1, a2, b0, b1, b2, n - 1))
}

proof fn lemma_same_digits(a0: u64, a1: u64, a2: u64, b0: u64, b1: u64, b2: u64)
    by (bit_vector)
    requires
        same_upto(a0, a1, a2, b0, b1, b2, 54),
        cell_of(a0, a1, a2, 49) == cell_of(b0, b1, b2, 49),
        a2 >> 22 == b2 >> 22,
    ensures
        a0 == b0,
        a1 == b1,
        a2 == b2,
{
}

proof fn lemma_same_upto(a: Packed, b: Packed, n: int)
    requires
        forall|p: int| 0 <= p < n ==> #[trigger] facelet_of(a.lo, a.mid, a.hi, p) == facelet_of(b.lo, b.mid, b.hi, p),
    ensures
        same_upto(a.lo, a.mid, a.hi, b.lo, b.mid, b.hi, n),
    decreases n,
{
    if n > 0 {
        lemma_same_upto(a, b, n - 1);
    }
}

/// Two words that hold the same in every facelet, and the same where no
/// facelet lies, are one word.
pub proof fn lemma_same_word(a: Packed, b: Packed)
    requires
        forall|p: int| 0 <= p < 54 ==> #[trigger] facelet_of(a.lo, a.mid, a.hi, p) == facelet_of(b.lo, b.mid, b.hi, p),
        cell_of(a.lo, a.mid, a.hi, 49) == cell_of(b.lo, b.mid, b.hi, 49),
        a.hi >> 22 == b.hi >> 22,
    ensures
        a == b,
{
    lemma_same_upto(a, b, 54);
    lemma_same_digits(a.lo, a.mid, a.hi, b.lo, b.mid, b.hi);
}

} // verus!
