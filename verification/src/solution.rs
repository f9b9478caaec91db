//! Sequences of turns: their order, and the moves in them that do no work.
use std::cmp::Ordering;
use vstd::prelude::*;
use vstd::string::*;
use crate::cube::{turned, CubeState};
use crate::face::Face;
use crate::rotation::{lemma_reverse_involution, Rotation};
use crate::side::Color;

verus! {

/// A sequence of turns, applied from first to last.
#[derive(Debug, Clone, Eq, Ord, Hash)]
pub struct Solution {
    pub seq: Vec<Rotation>,
}

impl View for Solution {
    type V = Seq<Rotation>;

    open spec fn view(&self) -> Seq<Rotation> {
        self.seq@
    }
}

/// Whether `a` comes before `b` in the dictionary order that the canonical
/// order of the turns induces: a sequence comes after each of its proper
/// beginnings, and otherwise the first turn in which two sequences differ
/// decides.
pub open spec fn lex_less(a: Seq<Rotation>, b: Seq<Rotation>) -> bool
    decreases a.len(),
{
    if b.len() == 0 {
        false
    } else if a.len() == 0 {
        true
    } else if a[0] != b[0] {
        a[0].spec_index() < b[0].spec_index()
    } else {
        lex_less(a.drop_first(), b.drop_first())
    }
}

/// Whether the turns of `small` occur in `big` in their order, not
/// necessarily side by side.
pub open spec fn is_subsequence(small: Seq<Rotation>, big: Seq<Rotation>) -> bool
    decreases big.len(),
{
    if small.len() == 0 {
        true
    } else if big.len() == 0 {
        false
    } else if small[0] == big[0] {
        is_subsequence(small.drop_first(), big.drop_first())
    } else {
        is_subsequence(small, big.drop_first())
    }
}

/// Whether a turn at `i` is undone by the turn at `j`, with nothing but turns
/// of the same face between the two.
pub open spec fn undone_at(seq: Seq<Rotation>, i: int, j: int) -> bool {
    &&& 0 <= i < j < seq.len()
    &&& seq[j] == seq[i].spec_reverse()
    &&& forall|k: int| i < k < j ==> seq[k].spec_face() == seq[i].spec_face()
}

/// Whether a sequence holds a turn and, after it, its inverse, with nothing
/// but turns of the same face between the two.
pub open spec fn has_undone_turn(seq: Seq<Rotation>) -> bool {
    exists|i: int, j: int| undone_at(seq, i, j)
}

/// A sequence of turns as text: each turn's name with a blank after it.
pub open spec fn shown(turns: Seq<Rotation>) -> Seq<char>
    decreases turns.len(),
{
    if turns.len() == 0 {
        Seq::empty()
    } else {
        shown(turns.drop_last()) + turns.last().spec_name() + seq![' ']
    }
}

/// Whether the turn `x` moves the face of `m` or the face opposite to it.
pub open spec fn on_axis(x: Rotation, m: Rotation) -> bool {
    x.spec_face() == m.spec_face() || x.spec_face() == m.spec_opposite_face()
}

/// Where the trailing window of `path` for the turn `m` begins: the longest
/// end of `path` that holds only turns on the axis of `m`.
pub open spec fn window_start(path: Seq<Rotation>, m: Rotation) -> int
    decreases path.len(),
{
    if path.len() == 0 {
        0
    } else if on_axis(path.last(), m) {
        window_start(path.drop_last(), m)
    } else {
        path.len() as int
    }
}

/// The trailing window of `path` for the turn `m`.
pub open spec fn trailing_window(path: Seq<Rotation>, m: Rotation) -> Seq<Rotation> {
    path.skip(window_start(path, m))
}

/// A clockwise turn counts as one, a counter-clockwise turn as minus one.
pub open spec fn sign(x: Rotation) -> int {
    if x.spec_is_clockwise() {
        1
    } else {
        -1
    }
}

/// How many of the turns move `face`.
pub open spec fn total_on(turns: Seq<Rotation>, face: Face) -> int
    decreases turns.len(),
{
    if turns.len() == 0 {
        0
    } else {
        total_on(turns.drop_first(), face) + if turns[0].spec_face() == face {
            1int
        } else {
            0int
        }
    }
}

/// The sum of the signs of the turns that move `face`.
pub open spec fn net_on(turns: Seq<Rotation>, face: Face) -> int
    decreases turns.len(),
{
    if turns.len() == 0 {
        0
    } else {
        net_on(turns.drop_first(), face) + if turns[0].spec_face() == face {
            sign(turns[0])
        } else {
            0int
        }
    }
}

/// The size of a number.
pub open spec fn abs(x: int) -> int {
    if x < 0 {
        -x
    } else {
        x
    }
}

/// Whether the turn `m` after `path` is plainly wasted. Take the trailing
/// window of `path` and `m` itself, and of these the turns of the face of
/// `m` and those of the opposite face. The turn is wasted if either face is
/// turned more than twice, or is turned both ways.
pub open spec fn is_redundant(path: Seq<Rotation>, m: Rotation) -> bool {
    let window = trailing_window(path, m);
    let f_tot = total_on(window, m.spec_face()) + 1;
    let f_net = net_on(window, m.spec_face()) + sign(m);
    let o_tot = total_on(window, m.spec_opposite_face());
    let o_net = net_on(window, m.spec_opposite_face());
    f_tot > 2 || o_tot > 2 || abs(f_net) != f_tot || (o_tot > 0 && abs(o_net) != o_tot)
}

/// Whether the pruner flags no turn of a sequence, each taken after the
/// turns before it.
pub open spec fn unflagged(turns: Seq<Rotation>) -> bool {
    forall|k: int| 0 <= k < turns.len() ==> !is_redundant(#[trigger] turns.take(k), turns[k])
}

/// A sequence of turns undone: the inverse of each turn, from the last to
/// the first.
pub open spec fn undone(turns: Seq<Rotation>) -> Seq<Rotation> {
    Seq::new(turns.len(), |i: int| turns[turns.len() - 1 - i].spec_reverse())
}

/// Undoing a sequence twice gives the sequence.
pub proof fn lemma_undone_twice(turns: Seq<Rotation>)
    ensures
        undone(undone(turns)) == turns,
        undone(turns).len() == turns.len(),
{
    assert forall|i: int| 0 <= i < turns.len() implies undone(undone(turns))[i] == turns[i] by {
        lemma_reverse_involution(turns[i]);
    }
    assert(undone(undone(turns)) =~= turns);
}


/// Whether a sequence turns neither `face` nor the face opposite to it more
/// than twice, and neither of them both ways.
pub open spec fn tame(turns: Seq<Rotation>, face: Face) -> bool {
    &&& total_on(turns, face) <= 2
    &&& abs(net_on(turns, face)) == total_on(turns, face)
    &&& total_on(turns, face.spec_opposite()) <= 2
    &&& abs(net_on(turns, face.spec_opposite())) == total_on(turns, face.spec_opposite())
}

proof fn lemma_tally_bounds(turns: Seq<Rotation>, face: Face)
    ensures
        0 <= total_on(turns, face),
        -total_on(turns, face) <= net_on(turns, face) <= total_on(turns, face),
    decreases turns.len(),
{
    if turns.len() > 0 {
        lemma_tally_bounds(turns.drop_first(), face);
    }
}

proof fn lemma_tally_concat(a: Seq<Rotation>, b: Seq<Rotation>, face: Face)
    ensures
        total_on(a + b, face) == total_on(a, face) + total_on(b, face),
        net_on(a + b, face) == net_on(a, face) + net_on(b, face),
    decreases a.len(),
{
    if a.len() == 0 {
        assert(a + b =~= b);
    } else {
        assert((a + b).drop_first() =~= a.drop_first() + b);
        lemma_tally_concat(a.drop_first(), b, face);
    }
}

proof fn lemma_tally_one(m: Rotation, face: Face)
    ensures
        total_on(seq![m], face) == (if m.spec_face() == face { 1int } else { 0int }),
        net_on(seq![m], face) == (if m.spec_face() == face { sign(m) } else { 0int }),
{
    assert(seq![m].drop_first() =~= Seq::<Rotation>::empty());
    assert(total_on(Seq::<Rotation>::empty(), face) == 0);
    assert(net_on(Seq::<Rotation>::empty(), face) == 0);
}

proof fn lemma_tally_undone(turns: Seq<Rotation>, face: Face)
    ensures
        total_on(undone(turns), face) == total_on(turns, face),
        net_on(undone(turns), face) == -net_on(turns, face),
    decreases turns.len(),
{
    if turns.len() == 0 {
        assert(undone(turns) =~= turns);
    } else {
        let first = turns[0];
        let rest = turns.drop_first();
        assert(turns =~= seq![first] + rest);
        assert(undone(turns) =~= undone(rest) + seq![first.spec_reverse()]);
        lemma_tally_concat(undone(rest), seq![first.spec_reverse()], face);
        lemma_tally_one(first.spec_reverse(), face);
        lemma_reverse_involution(first);
        lemma_tally_undone(rest, face);
    }
}

/// A part of a tame sequence is tame.
proof fn lemma_tame_part(turns: Seq<Rotation>, from: int, to: int, face: Face)
    requires
        0 <= from <= to <= turns.len(),
        tame(turns, face),
    ensures
        tame(turns.subrange(from, to), face),
{
    let before = turns.subrange(0, from);
    let part = turns.subrange(from, to);
    let after = turns.subrange(to, turns.len() as int);
    assert(turns =~= before + part + after);
    let other = face.spec_opposite();
    lemma_tally_concat(before + part, after, face);
    lemma_tally_concat(before, part, face);
    lemma_tally_concat(before + part, after, other);
    lemma_tally_concat(before, part, other);
    lemma_tally_bounds(before, face);
    lemma_tally_bounds(part, face);
    lemma_tally_bounds(after, face);
    lemma_tally_bounds(before, other);
    lemma_tally_bounds(part, other);
    lemma_tally_bounds(after, other);
}

/// The trailing window holds turns on the axis only, and before it stands a
/// turn of another axis, or none.
proof fn lemma_window(path: Seq<Rotation>, m: Rotation)
    ensures
        0 <= window_start(path, m) <= path.len(),
        forall|k: int| window_start(path, m) <= k < path.len() ==> on_axis(#[trigger] path[k], m),
        window_start(path, m) == 0 || !on_axis(path[window_start(path, m) - 1], m),
    decreases path.len(),
{
    if path.len() > 0 && on_axis(path.last(), m) {
        let shorter = path.drop_last();
        lemma_window(shorter, m);
        assert forall|k: int| window_start(path, m) <= k < path.len() implies on_axis(#[trigger] path[k], m) by {
            if k < shorter.len() {
                assert(path[k] == shorter[k]);
            }
        }
        if window_start(path, m) > 0 {
            assert(path[window_start(path, m) - 1] == shorter[window_start(path, m) - 1]);
        }
    }
}

/// The pruner does not flag a turn exactly if the trailing window with the
/// turn after it is tame.
proof fn lemma_redundant_is_untame(path: Seq<Rotation>, m: Rotation)
    ensures
        !is_redundant(path, m) <==> tame(trailing_window(path, m).push(m), m.spec_face()),
{
    let window = trailing_window(path, m);
    let face = m.spec_face();
    let other = m.spec_opposite_face();
    assert(window.push(m) =~= window + seq![m]);
    lemma_tally_concat(window, seq![m], face);
    lemma_tally_concat(window, seq![m], other);
    lemma_tally_one(m, face);
    lemma_tally_one(m, other);
    lemma_tally_bounds(window, face);
    lemma_tally_bounds(window, other);
}

/// A stretch of turns on one axis, in a sequence of which the pruner flags
/// no turn, is tame.
proof fn lemma_unflagged_stretch(turns: Seq<Rotation>, from: int, to: int)
    requires
        unflagged(turns),
        0 <= from < to <= turns.len(),
        forall|k: int| from <= k < to ==> on_axis(#[trigger] turns[k], turns[to - 1]),
    ensures
        tame(turns.subrange(from, to), turns[to - 1].spec_face()),
{
    let m = turns[to - 1];
    let path = turns.take(to - 1);
    assert(!is_redundant(path, m));
    lemma_redundant_is_untame(path, m);
    lemma_window(path, m);
    let start = window_start(path, m);
    assert(start <= from) by {
        if start > from {
            assert(path[start - 1] == turns[start - 1]);
        }
    }
    let whole = trailing_window(path, m).push(m);
    assert(whole =~= turns.subrange(start, to));
    lemma_tame_part(whole, from - start, to - start, m.spec_face());
    assert(whole.subrange(from - start, to - start) =~= turns.subrange(from, to));
}

/// If the pruner flags no turn of a sequence, it flags none of the sequence
/// undone.
pub proof fn lemma_unflagged_undone(turns: Seq<Rotation>)
    requires
        unflagged(turns),
    ensures
        unflagged(undone(turns)),
{
    let back = undone(turns);
    let n = turns.len() as int;
    assert forall|k: int| 0 <= k < back.len() implies !is_redundant(#[trigger] back.take(k), back[k]) by {
        let m = back[k];
        let path = back.take(k);
        lemma_window(path, m);
        let start = window_start(path, m);
        // The window and the turn after it, as they stand in `back`, are a
        // stretch of `turns` undone.
        let from = n - 1 - k;
        let to = n - start;
        let stretch = turns.subrange(from, to);
        lemma_reverse_involution(turns[from]);
        assert forall|j: int| from <= j < to implies on_axis(#[trigger] turns[j], turns[to - 1]) by {
            lemma_reverse_involution(turns[j]);
            lemma_reverse_involution(turns[to - 1]);
            if j > from {
                assert(path[n - 1 - j] == back[n - 1 - j]);
            }
            if to - 1 > from {
                assert(path[n - 1 - (to - 1)] == back[n - 1 - (to - 1)]);
            }
        }
        lemma_unflagged_stretch(turns, from, to);
        assert(trailing_window(path, m).push(m) =~= undone(stretch));
        let face = m.spec_face();
        lemma_reverse_involution(turns[to - 1]);
        assert(tame(stretch, face)) by {
            if turns[to - 1].spec_face() != face {
                assert(turns[to - 1].spec_face() == face.spec_opposite());
            }
        }
        lemma_tally_undone(stretch, face);
        lemma_tally_undone(stretch, face.spec_opposite());
        lemma_redundant_is_untame(path, m);
    }
}

/// The cube after a sequence of turns.
pub open spec fn applied(cube: Seq<Color>, turns: Seq<Rotation>) -> Seq<Color>
    decreases turns.len(),
{
    if turns.len() == 0 {
        cube
    } else {
        turned(applied(cube, turns.drop_last()), turns.last())
    }
}

/// Whether the cube comes into the same configuration twice on the way
/// through a sequence of turns, the start and the end included.
pub open spec fn revisits(start: Seq<Color>, turns: Seq<Rotation>) -> bool {
    exists|i: int, j: int|
        0 <= i < j <= turns.len() && #[trigger] applied(start, turns.take(i)) == #[trigger] applied(
            start,
            turns.take(j),
        )
}

/// One more turn at the end of a sequence is one more turn of the cube.
pub proof fn lemma_applied_push(cube: Seq<Color>, turns: Seq<Rotation>, m: Rotation)
    ensures
        applied(cube, turns.push(m)) == turned(applied(cube, turns), m),
{
    assert(turns.push(m).drop_last() =~= turns);
}

proof fn lemma_window_start(path: Seq<Rotation>, m: Rotation, i: int)
    requires
        0 <= i <= path.len(),
        forall|k: int| i <= k < path.len() ==> on_axis(path[k], m),
        i == 0 || !on_axis(path[i - 1], m),
    ensures
        window_start(path, m) == i,
    decreases path.len(),
{
    if path.len() > 0 && i < path.len() {
        lemma_window_start(path.drop_last(), m, i);
    }
}

/// Whether the turn `rot` after `path` is plainly wasted.
pub fn is_rot_useless(path: &Vec<Rotation>, rot: Rotation) -> (useless: bool)
    ensures
        useless == is_redundant(path@, rot),
{
    let face = rot.face();
    let opposite = rot.opposite_face();
    let mut f_cw: usize = 0;
    let mut f_ccw: usize = 0;
    let mut o_cw: usize = 0;
    let mut o_ccw: usize = 0;
    let mut i: usize = path.len();
    assert(path@.skip(i as int) =~= Seq::empty());
    while i > 0 && (path[i - 1].face() == face || path[i - 1].face() == opposite)
        invariant
            i <= path.len(),
            face == rot.spec_face(),
            opposite == rot.spec_opposite_face(),
            forall|k: int| i <= k < path.len() ==> on_axis(path@[k], rot),
            f_cw + f_ccw + o_cw + o_ccw <= path.len() - i,
            f_cw + f_ccw == total_on(path@.skip(i as int), face),
            f_cw - f_ccw == net_on(path@.skip(i as int), face),
            o_cw + o_ccw == total_on(path@.skip(i as int), opposite),
            o_cw - o_ccw == net_on(path@.skip(i as int), opposite),
        decreases i,
    {
        i -= 1;
        let x = path[i];
        proof {
            assert(path@.skip(i as int).drop_first() =~= path@.skip(i + 1));
            assert(path@.skip(i as int)[0] == x);
        }
        if x.face() == face {
            if x.is_clockwise() {
                f_cw += 1;
            } else {
                f_ccw += 1;
            }
        } else {
            if x.is_clockwise() {
                o_cw += 1;
            } else {
                o_ccw += 1;
            }
        }
    }
    proof {
        lemma_window_start(path@, rot, i as int);
    }
    if rot.is_clockwise() {
        f_cw >= 2 || f_ccw >= 1 || o_cw + o_ccw > 2 || (o_cw > 0 && o_ccw > 0)
    } else {
        f_ccw >= 2 || f_cw >= 1 || o_cw + o_ccw > 2 || (o_cw > 0 && o_ccw > 0)
    }
}

/// Whether `state` shows the same colours as one of `states`.
pub fn contains_state(states: &Vec<CubeState>, state: &CubeState) -> (found: bool)
    ensures
        found == exists|k: int| 0 <= k < states@.len() && #[trigger] states@[k]@ == state@,
{
    let mut i: usize = states.len();
    while i > 0
        invariant
            i <= states.len(),
            forall|k: int| i <= k < states@.len() ==> #[trigger] states@[k]@ != state@,
        decreases i,
    {
        i -= 1;
        if states[i].equals(state) {
            return true;
        }
    }
    false
}

/// Whether the cube, from `initial_state`, comes into the same configuration
/// twice on the way through `seq`.
pub fn has_useless_moves(initial_state: CubeState, seq: &Vec<Rotation>) -> (useless: bool)
    ensures
        useless == revisits(initial_state@, seq@),
{
    let mut visited: Vec<CubeState> = Vec::new();
    visited.push(initial_state);
    let mut current = initial_state;
    let mut k: usize = 0;
    assert(seq@.take(0) =~= Seq::empty());
    while k < seq.len()
        invariant
            k <= seq.len(),
            visited@.len() == k + 1,
            current == visited@[k as int],
            forall|j: int| 0 <= j <= k ==> #[trigger] visited@[j]@ == applied(initial_state@, seq@.take(j)),
            forall|i: int, j: int| 0 <= i < j <= k ==> visited@[i]@ != visited@[j]@,
        decreases seq.len() - k,
    {
        let next = current.rotated(seq[k]);
        proof {
            assert(seq@.take(k + 1) =~= seq@.take(k as int).push(seq@[k as int]));
            lemma_applied_push(initial_state@, seq@.take(k as int), seq@[k as int]);
        }
        if contains_state(&visited, &next) {
            proof {
                let i = choose|i: int| 0 <= i < visited@.len() && #[trigger] visited@[i]@ == next@;
                assert(applied(initial_state@, seq@.take(i)) == applied(initial_state@, seq@.take(k + 1)));
            }
            return true;
        }
        visited.push(next);
        current = next;
        k += 1;
    }
    proof {
        assert forall|i: int, j: int| 0 <= i < j <= seq@.len() implies applied(initial_state@, seq@.take(i))
            != applied(initial_state@, seq@.take(j)) by {
            assert(visited@[i]@ != visited@[j]@);
        }
    }
    false
}

/// The dictionary order is strict: nothing comes before itself.
pub proof fn lemma_lex_irreflexive(a: Seq<Rotation>)
    ensures
        !lex_less(a, a),
    decreases a.len(),
{
    if a.len() > 0 {
        lemma_lex_irreflexive(a.drop_first());
    }
}

/// The dictionary order is transitive.
pub proof fn lemma_lex_transitive(a: Seq<Rotation>, b: Seq<Rotation>, c: Seq<Rotation>)
    requires
        lex_less(a, b),
        lex_less(b, c),
    ensures
        lex_less(a, c),
    decreases a.len(),
{
    if a.len() > 0 && b.len() > 0 && c.len() > 0 && a[0] == b[0] && b[0] == c[0] {
        lemma_lex_transitive(a.drop_first(), b.drop_first(), c.drop_first());
    }
}

/// The dictionary order is total: of two different sequences one comes
/// before the other.
pub proof fn lemma_lex_total(a: Seq<Rotation>, b: Seq<Rotation>)
    ensures
        a == b || lex_less(a, b) || lex_less(b, a),
    decreases a.len(),
{
    if a.len() > 0 && b.len() > 0 {
        if a[0] == b[0] {
            lemma_lex_total(a.drop_first(), b.drop_first());
            if a.drop_first() == b.drop_first() {
                assert(a =~= seq![a[0]] + a.drop_first());
                assert(b =~= seq![b[0]] + b.drop_first());
            }
        }
    } else if a.len() == 0 && b.len() == 0 {
        assert(a =~= b);
    }
}

proof fn lemma_lex_skip(a: Seq<Rotation>, b: Seq<Rotation>, i: int)
    requires
        0 <= i <= a.len(),
        i <= b.len(),
        forall|k: int| 0 <= k < i ==> a[k] == b[k],
    ensures
        lex_less(a, b) == lex_less(a.skip(i), b.skip(i)),
    decreases i,
{
    if i > 0 {
        assert(a.drop_first().skip(i - 1) =~= a.skip(i));
        assert(b.drop_first().skip(i - 1) =~= b.skip(i));
        lemma_lex_skip(a.drop_first(), b.drop_first(), i - 1);
    } else {
        assert(a.skip(0) =~= a);
        assert(b.skip(0) =~= b);
    }
}

impl Solution {
    /// Whether this sequence comes before `other` in the dictionary order.
    pub fn less_than(&self, other: &Solution) -> (less: bool)
        ensures
            less == lex_less(self@, other@),
    {
        let mut i: usize = 0;
        while i < self.seq.len() && i < other.seq.len()
            invariant
                i <= self.seq.len(),
                i <= other.seq.len(),
                forall|k: int| 0 <= k < i ==> self@[k] == other@[k],
            decreases self.seq.len() - i,
        {
            let x = self.seq[i];
            let y = other.seq[i];
            if x != y {
                proof {
                    lemma_lex_skip(self@, other@, i as int);
                }
                return x.index() < y.index();
            }
            i += 1;
        }
        proof {
            lemma_lex_skip(self@, other@, i as int);
        }
        i < other.seq.len()
    }

    /// Whether some other, different sequence of `others` is a subsequence of
    /// this one: then this one is a longer way to say the same. The search
    /// does not use this test any more; it is kept for callers.
    pub fn is_dead(&self, others: &Vec<Solution>) -> (dead: bool)
        requires
            self@.len() > 0 ==> forall|j: int| 0 <= j < others@.len() ==> others@[j]@.len() > 0,
        ensures
            dead == exists|j: int|
                0 <= j < others@.len() && others@[j]@ != self@ && is_subsequence(#[trigger] others@[j]@, self@),
    {
        let mut j: usize = 0;
        while j < others.len()
            invariant
                j <= others.len(),
                self@.len() > 0 ==> forall|k: int| 0 <= k < others@.len() ==> others@[k]@.len() > 0,
                forall|k: int| 0 <= k < j ==> !(others@[k]@ != self@ && is_subsequence(#[trigger] others@[k]@, self@)),
            decreases others.len() - j,
        {
            let smaller = &others[j];
            if !smaller.same_turns(self) {
                let mut idx: usize = 0;
                let mut i: usize = 0;
                proof {
                    assert(smaller@.skip(0) =~= smaller@);
                    assert(self@.skip(0) =~= self@);
                    if smaller@.len() == 0 {
                        assert(self@.len() == 0);
                        assert(smaller@ =~= self@);
                    }
                }
                while i < self.seq.len()
                    invariant
                        i <= self.seq.len(),
                        idx < smaller.seq.len(),
                        j < others@.len(),
                        smaller@ == others@[j as int]@,
                        smaller@ != self@,
                        is_subsequence(smaller@, self@) == is_subsequence(
                            smaller@.skip(idx as int),
                            self@.skip(i as int),
                        ),
                    decreases self.seq.len() - i,
                {
                    proof {
                        let big = self@.skip(i as int);
                        let small = smaller@.skip(idx as int);
                        assert(big.drop_first() =~= self@.skip(i + 1));
                        assert(small.drop_first() =~= smaller@.skip(idx + 1));
                        assert(big[0] == self@[i as int]);
                        assert(small[0] == smaller@[idx as int]);
                        assert(is_subsequence(small, big) == if small[0] == big[0] {
                            is_subsequence(small.drop_first(), big.drop_first())
                        } else {
                            is_subsequence(small, big.drop_first())
                        });
                    }
                    if self.seq[i] == smaller.seq[idx] {
                        idx += 1;
                        if idx == smaller.seq.len() {
                            assert(is_subsequence(smaller@.skip(idx as int), self@.skip(i + 1)));
                            return true;
                        }
                    }
                    i += 1;
                }
                assert(!is_subsequence(smaller@.skip(idx as int), self@.skip(i as int)));
            }
            j += 1;
        }
        false
    }

    /// Whether the sequence holds a turn and, after it, its inverse, with
    /// nothing but turns of the same face between the two.
    pub fn has_useless_moves(&self) -> (useless: bool)
        ensures
            useless == has_undone_turn(self@),
    {
        let n = self.seq.len();
        let mut i: usize = 0;
        while i < n
            invariant
                i <= n,
                n == self@.len(),
                forall|a: int, b: int| 0 <= a < i ==> !undone_at(self@, a, b),
            decreases n - i,
        {
            let mut j: usize = i + 1;
            while j < n
                invariant
                    i < j <= n,
                    n == self@.len(),
                    forall|k: int| i < k < j ==> self@[k].spec_face() == self@[i as int].spec_face(),
                    forall|b: int| i < b < j ==> !undone_at(self@, i as int, b),
                ensures
                    forall|b: int| !undone_at(self@, i as int, b),
                decreases n - j,
            {
                if self.seq[j] == self.seq[i].reverse() {
                    assert(undone_at(self@, i as int, j as int));
                    return true;
                }
                if self.seq[j].face() != self.seq[i].face() {
                    assert forall|b: int| !undone_at(self@, i as int, b) by {
                        if j < b < n {
                            assert(self@[j as int].spec_face() != self@[i as int].spec_face());
                        }
                    }
                    break;
                }
                j += 1;
            }
            i += 1;
        }
        false
    }

    /// The sequence as text: each turn's name with a blank after it.
    pub fn to_string(&self) -> (text: String)
        ensures
            text@ == shown(self@),
    {
        let mut text = String::new();
        let mut i: usize = 0;
        assert(self@.take(0) =~= Seq::empty());
        while i < self.seq.len()
            invariant
                i <= self.seq.len(),
                text@ == shown(self@.take(i as int)),
            decreases self.seq.len() - i,
        {
            proof {
                reveal_strlit(" ");
                assert(self@.take(i + 1).drop_last() =~= self@.take(i as int));
            }
            let name = self.seq[i].to_string();
            text.append(name.as_str());
            text.append(" ");
            i += 1;
        }
        assert(self@.take(self@.len() as int) =~= self@);
        text
    }

    /// Whether two sequences hold the same turns in the same order.
    pub fn same_turns(&self, other: &Solution) -> (same: bool)
        ensures
            same == (self@ == other@),
    {
        if self.seq.len() != other.seq.len() {
            return false;
        }
        let mut i: usize = 0;
        while i < self.seq.len()
            invariant
                i <= self.seq.len(),
                self.seq.len() == other.seq.len(),
                forall|k: int| 0 <= k < i ==> self@[k] == other@[k],
            decreases self.seq.len() - i,
        {
            if self.seq[i] != other.seq[i] {
                return false;
            }
            i += 1;
        }
        assert(self@ =~= other@);
        true
    }
}

impl PartialOrd for Solution {
    fn partial_cmp(&self, other: &Self) -> (order: Option<Ordering>) {
        if self.less_than(other) {
            Some(Ordering::Less)
        } else if other.less_than(self) {
            Some(Ordering::Greater)
        } else {
            Some(Ordering::Equal)
        }
    }
}

impl vstd::std_specs::cmp::PartialOrdSpecImpl for Solution {
    open spec fn obeys_partial_cmp_spec() -> bool {
        true
    }

    open spec fn partial_cmp_spec(&self, other: &Self) -> Option<Ordering> {
        if lex_less(self@, other@) {
            Some(Ordering::Less)
        } else if lex_less(other@, self@) {
            Some(Ordering::Greater)
        } else {
            Some(Ordering::Equal)
        }
    }
}

impl PartialEq for Solution {
    fn eq(&self, other: &Self) -> (same: bool) {
        self.same_turns(other)
    }
}

impl vstd::std_specs::cmp::PartialEqSpecImpl for Solution {
    open spec fn obeys_eq_spec() -> bool {
        true
    }

    open spec fn eq_spec(&self, other: &Self) -> bool {
        self@ == other@
    }
}

} // verus!
