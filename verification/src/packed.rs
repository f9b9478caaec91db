//! A 192-bit word in three 64-bit digits, and the five operations on it that
//! the cube needs. The operations are `bnum`'s; what is stated of them here is
//! taken on trust.
use bnum::BUint;
use vstd::prelude::*;

verus! {

/// Two to the power `n`.
pub open spec fn two_to(n: int) -> int
    decreases n,
{
    if n <= 0 {
        1
    } else {
        2 * two_to(n - 1)
    }
}

/// The number that three digits stand for, least significant digit first.
pub open spec fn value_of(lo: u64, mid: u64, hi: u64) -> int {
    lo + mid * two_to(64) + hi * two_to(128)
}

/// Whether the word `r` is the word `a` moved up by the factor `p`, with `q`
/// as the bound on what stays: below `p` the word `r` holds nothing, and above
/// it stands what `a` holds below `q`. For a shift to the left by `n` bits,
/// `p` is two to the `n` and `q` is two to the `192 - n`.
pub open spec fn moved_up(a0: u64, a1: u64, a2: u64, r0: u64, r1: u64, r2: u64, p: int, q: int) -> bool {
    &&& value_of(r0, r1, r2) % p == 0
    &&& value_of(r0, r1, r2) / p == value_of(a0, a1, a2) % q
}

/// Whether the word `r` is the word `a` moved down by the factor `p`: `a`
/// divided by `p`, rounded down. For a shift to the right by `n` bits, `p` is
/// two to the `n`.
pub open spec fn moved_down(a0: u64, a1: u64, a2: u64, r0: u64, r1: u64, r2: u64, p: int) -> bool {
    value_of(r0, r1, r2) == value_of(a0, a1, a2) / p
}

/// Powers of two are positive, and multiply as their exponents add.
pub proof fn lemma_two_to_adds(a: int, b: int)
    requires
        0 <= a,
        0 <= b,
    ensures
        two_to(a) > 0,
        two_to(a + b) == two_to(a) * two_to(b),
    decreases a,
{
    if a > 0 {
        lemma_two_to_adds(a - 1, b);
        assert(two_to(a + b) == 2 * two_to(a - 1 + b));
        assert(2 * (two_to(a - 1) * two_to(b)) == (2 * two_to(a - 1)) * two_to(b)) by (nonlinear_arith);
    } else {
        assert(two_to(b) == 1 * two_to(b));
    }
}

/// What `moved_up` says of a shift to the left is what one expects of it: the
/// result is the operand times two to the `n`, less what no longer fits in
/// 192 bits.
pub proof fn lemma_moved_up_is_times(a0: u64, a1: u64, a2: u64, r0: u64, r1: u64, r2: u64, n: int)
    requires
        0 <= n < 192,
    ensures
        moved_up(a0, a1, a2, r0, r1, r2, two_to(n), two_to(192 - n)) <==> value_of(r0, r1, r2) == (value_of(a0, a1, a2)
            * two_to(n)) % two_to(192),
{
    let a = value_of(a0, a1, a2);
    let r = value_of(r0, r1, r2);
    let p = two_to(n);
    let q = two_to(192 - n);
    lemma_two_to_adds(n, 192 - n);
    lemma_two_to_adds(192 - n, 0);
    lemma_two_to_adds(64, 64);
    assert(a >= 0 && r >= 0) by (nonlinear_arith)
        requires
            a == a0 + a1 * two_to(64) + a2 * two_to(128),
            r == r0 + r1 * two_to(64) + r2 * two_to(128),
            two_to(64) > 0,
            two_to(128) == two_to(64) * two_to(64),
    ;
    vstd::arithmetic::div_mod::lemma_truncate_middle(a, p, q);
    assert(a * p == p * a) by (nonlinear_arith);
    let kept = a % q;
    if r == p * kept {
        assert(r == kept * p + 0) by (nonlinear_arith)
            requires
                r == p * kept,
        ;
        vstd::arithmetic::div_mod::lemma_fundamental_div_mod_converse(r, p, kept, 0);
    }
    if r % p == 0 && r / p == kept {
        vstd::arithmetic::div_mod::lemma_fundamental_div_mod(r, p);
    }
}

/// A 192-bit word, least significant digit first.
#[derive(Clone, Copy, PartialEq, Eq, Hash, Debug, Structural)]
pub struct Packed {
    pub lo: u64,
    pub mid: u64,
    pub hi: u64,
}

/// A word from its three digits.
pub fn word(lo: u64, mid: u64, hi: u64) -> (w: Packed)
    ensures
        w.lo == lo,
        w.mid == mid,
        w.hi == hi,
{
    Packed { lo, mid, hi }
}

/// `BUint::<3>::bitand`: the digits of the result are the AND of the
/// operands' digits, place by place.
#[verifier::external_body]
pub(crate) fn and(a: Packed, b: Packed) -> (r: Packed)
    ensures
        r.lo == a.lo & b.lo,
        r.mid == a.mid & b.mid,
        r.hi == a.hi & b.hi,
{
    let x = BUint::<3>::from_digits([a.lo, a.mid, a.hi]);
    let y = BUint::<3>::from_digits([b.lo, b.mid, b.hi]);
    let d = *x.bitand(y).digits();
    Packed { lo: d[0], mid: d[1], hi: d[2] }
}

/// `BUint::<3>::bitor`: the digits of the result are the OR of the operands'
/// digits, place by place.
#[verifier::external_body]
pub(crate) fn or(a: Packed, b: Packed) -> (r: Packed)
    ensures
        r.lo == a.lo | b.lo,
        r.mid == a.mid | b.mid,
        r.hi == a.hi | b.hi,
{
    let x = BUint::<3>::from_digits([a.lo, a.mid, a.hi]);
    let y = BUint::<3>::from_digits([b.lo, b.mid, b.hi]);
    let d = *x.bitor(y).digits();
    Packed { lo: d[0], mid: d[1], hi: d[2] }
}

/// `BUint::<3>::bitxor`: the digits of the result are the XOR of the
/// operands' digits, place by place.
#[verifier::external_body]
pub(crate) fn xor(a: Packed, b: Packed) -> (r: Packed)
    ensures
        r.lo == a.lo ^ b.lo,
        r.mid == a.mid ^ b.mid,
        r.hi == a.hi ^ b.hi,
{
    let x = BUint::<3>::from_digits([a.lo, a.mid, a.hi]);
    let y = BUint::<3>::from_digits([b.lo, b.mid, b.hi]);
    let d = *x.bitxor(y).digits();
    Packed { lo: d[0], mid: d[1], hi: d[2] }
}

/// `BUint::<3>::shl` by fewer than 192 bits: the low `n` bits of the result
/// are zero, and above them stand the low `192 - n` bits of the operand; what
/// the operand holds higher up is lost. That is the operand times two to the
/// `n`, modulo two to the 192, as `lemma_moved_up_is_times` shows. (From 192
/// bits on the outside function overflows, and may panic.)
#[verifier::external_body]
pub(crate) fn shl(a: Packed, n: u32) -> (r: Packed)
    requires
        n < 192,
    ensures
        moved_up(a.lo, a.mid, a.hi, r.lo, r.mid, r.hi, two_to(n as int), two_to(192 - n)),
{
    let x = BUint::<3>::from_digits([a.lo, a.mid, a.hi]);
    let d = *x.shl(n).digits();
    Packed { lo: d[0], mid: d[1], hi: d[2] }
}

/// `BUint::<3>::shr` by fewer than 192 bits: the operand divided by two to
/// the `n`, rounded down. (From 192 bits on the outside function overflows,
/// and may panic.)
#[verifier::external_body]
pub(crate) fn shr(a: Packed, n: u32) -> (r: Packed)
    requires
        n < 192,
    ensures
        moved_down(a.lo, a.mid, a.hi, r.lo, r.mid, r.hi, two_to(n as int)),
{
    let x = BUint::<3>::from_digits([a.lo, a.mid, a.hi]);
    let d = *x.shr(n).digits();
    Packed { lo: d[0], mid: d[1], hi: d[2] }
}

} // verus!
