//! What the search gives: the sequences that it finds, told without saying
//! how it finds them, and what holds of them.
use vstd::prelude::*;
use crate::cube::{face_color, is_centre, is_cube, lemma_rotate_then_reverse, lemma_source_is_facelet, turned};
use crate::rotation::{lemma_index_bijection, Rotation};
use crate::side::Color;
use crate::solution::{
    applied, is_redundant, lemma_applied_push, lemma_undone_twice, lemma_unflagged_undone, revisits, undone,
    unflagged, Solution,
};

verus! {


/// Whether the search follows a sequence of turns from `start` to its end:
/// the pruner flags none of its turns, and the cube never comes back into a
/// configuration that it has been in.
pub open spec fn searched(start: Seq<Color>, turns: Seq<Rotation>) -> bool {
    unflagged(turns) && !revisits(start, turns)
}

/// Whether `turns` is a sequence of `depth` turns that begins with `prefix`,
/// that the search follows from `start`, and that ends in `cube`.
pub open spec fn reaches(
    start: Seq<Color>,
    prefix: Seq<Rotation>,
    depth: int,
    turns: Seq<Rotation>,
    cube: Seq<Color>,
) -> bool {
    &&& turns.len() == depth
    &&& prefix.is_prefix_of(turns)
    &&& searched(start, turns)
    &&& applied(start, turns) == cube
}

/// The configurations in which the search from `start` can be after `depth`
/// turns, the first of which are `prefix`.
pub open spec fn reached(start: Seq<Color>, prefix: Seq<Rotation>, depth: int) -> Set<Seq<Color>> {
    Set::new(|cube: Seq<Color>| exists|turns: Seq<Rotation>| reaches(start, prefix, depth, turns, cube))
}

/// As `reached`, but only by sequences whose turn after `prefix` comes before
/// place `below` of the canonical order.
pub open spec fn reached_below(start: Seq<Color>, prefix: Seq<Rotation>, depth: int, below: int) -> Set<Seq<Color>> {
    Set::new(
        |cube: Seq<Color>|
            exists|turns: Seq<Rotation>|
                reaches(start, prefix, depth, turns, cube) && turns[prefix.len() as int].spec_index() < below,
    )
}

/// The configurations in which the search from `start` can be after `depth`
/// turns.
pub open spec fn middle_set(start: Seq<Color>, depth: int) -> Set<Seq<Color>> {
    reached(start, Seq::empty(), depth)
}

/// Whether the search for sequences of `count` turns from `from` to `to`
/// gives `turns`.
///
/// For no turn at all the two configurations must be one; a single turn must
/// lead from the one to the other. A longer sequence is cut in two, the
/// second part being the longer one if `count` is odd. The second part,
/// undone, must be a way that the search follows from `to`, ending in one of
/// the middle states: the configurations in which the search from `from` can
/// be after the turns of the first part. The first part must itself be given
/// by the search from `from` to that middle state. And on the way through the
/// whole sequence the cube must never be in one configuration twice.
pub open spec fn is_solution(from: Seq<Color>, to: Seq<Color>, count: nat, turns: Seq<Rotation>) -> bool
    decreases count,
{
    if count == 0 {
        turns.len() == 0 && from == to
    } else if count == 1 {
        turns.len() == 1 && turned(from, turns[0]) == to
    } else {
        let half = count / 2;
        let back = undone(turns.skip(half as int));
        let middle = applied(to, back);
        &&& turns.len() == count
        &&& searched(to, back)
        &&& middle_set(from, half as int).contains(middle)
        &&& is_solution(from, middle, half, turns.take(half as int))
        &&& !revisits(from, turns)
    }
}

/// The way back from the target that a sequence of `count` turns, two or
/// more, takes in its second part.
pub open spec fn way_back(count: nat, turns: Seq<Rotation>) -> Seq<Rotation> {
    undone(turns.skip((count / 2) as int))
}

/// Whether the search gives `turns`, on a way back that begins with
/// `prefix`.
pub open spec fn found_by(
    from: Seq<Color>,
    to: Seq<Color>,
    count: nat,
    prefix: Seq<Rotation>,
    turns: Seq<Rotation>,
) -> bool {
    is_solution(from, to, count, turns) && prefix.is_prefix_of(way_back(count, turns))
}

/// As `found_by`, but only on a way back whose turn after `prefix` comes
/// before place `below` of the canonical order.
pub open spec fn found_below(
    from: Seq<Color>,
    to: Seq<Color>,
    count: nat,
    prefix: Seq<Rotation>,
    below: int,
    turns: Seq<Rotation>,
) -> bool {
    found_by(from, to, count, prefix, turns) && way_back(count, turns)[prefix.len() as int].spec_index() < below
}

/// Whether no sequence occurs twice in a list of solutions from place
/// `first` on.
pub open spec fn distinct_from(found: Seq<Solution>, first: int) -> bool {
    forall|i: int, j: int| first <= i < j < found.len() ==> found[i]@ != found[j]@
}

/// Whether `turns` is one of the first `below` sequences of `lefts` with
/// `right` after it.
pub open spec fn joins_one(lefts: Seq<Solution>, right: Seq<Rotation>, below: int, turns: Seq<Rotation>) -> bool {
    exists|n: int| 0 <= n < below && #[trigger] lefts[n]@ + right == turns
}

/// Whether `turns` stands in a list of solutions at place `first` or later.
pub open spec fn holds(found: Seq<Solution>, first: int, turns: Seq<Rotation>) -> bool {
    exists|k: int| first <= k < found.len() && #[trigger] found[k]@ == turns
}

/// A solution has as many turns as were asked for.
pub proof fn lemma_solution_len(from: Seq<Color>, to: Seq<Color>, count: nat, turns: Seq<Rotation>)
    requires
        is_solution(from, to, count, turns),
    ensures
        turns.len() == count,
{
}

/// The search follows a sequence with one more turn exactly if it follows
/// the sequence, the pruner does not flag the turn, and the turn brings the
/// cube into a new configuration.
pub proof fn lemma_searched_push(start: Seq<Color>, path: Seq<Rotation>, m: Rotation)
    ensures
        searched(start, path.push(m)) <==> searched(start, path) && !is_redundant(path, m) && forall|j: int|
            0 <= j <= path.len() ==> #[trigger] applied(start, path.take(j)) != applied(start, path.push(m)),
{
    let longer = path.push(m);
    assert(longer.take(path.len() as int) =~= path);
    assert(longer.take(longer.len() as int) =~= longer);
    assert forall|k: int| 0 <= k <= path.len() implies #[trigger] longer.take(k) == path.take(k) by {
        assert(longer.take(k) =~= path.take(k));
    }
    if searched(start, longer) {
        assert forall|k: int| 0 <= k < path.len() implies !is_redundant(#[trigger] path.take(k), path[k]) by {
            assert(!is_redundant(longer.take(k), longer[k]));
        }
        assert(!is_redundant(longer.take(path.len() as int), longer[path.len() as int]));
        if revisits(start, path) {
            let (i, j) = choose|i: int, j: int|
                0 <= i < j <= path.len() && #[trigger] applied(start, path.take(i)) == #[trigger] applied(
                    start,
                    path.take(j),
                );
            assert(applied(start, longer.take(i)) == applied(start, longer.take(j)));
        }
        assert forall|j: int| 0 <= j <= path.len() implies #[trigger] applied(start, path.take(j)) != applied(
            start,
            longer,
        ) by {
            if applied(start, path.take(j)) == applied(start, longer) {
                assert(applied(start, longer.take(j)) == applied(start, longer.take(longer.len() as int)));
            }
        }
    }
    if searched(start, path) && !is_redundant(path, m) && (forall|j: int|
        0 <= j <= path.len() ==> #[trigger] applied(start, path.take(j)) != applied(start, longer)) {
        assert forall|k: int| 0 <= k < longer.len() implies !is_redundant(#[trigger] longer.take(k), longer[k]) by {
            if k < path.len() {
                assert(!is_redundant(path.take(k), path[k]));
            }
        }
        if revisits(start, longer) {
            let (i, j) = choose|i: int, j: int|
                0 <= i < j <= longer.len() && #[trigger] applied(start, longer.take(i)) == #[trigger] applied(
                    start,
                    longer.take(j),
                );
            if j <= path.len() {
                assert(applied(start, path.take(i)) == applied(start, path.take(j)));
            } else {
                assert(applied(start, path.take(i)) == applied(start, longer));
            }
        }
    }
}

/// The search follows the sequence of no turns.
pub proof fn lemma_searched_empty(start: Seq<Color>)
    ensures
        searched(start, Seq::empty()),
{
}

/// Two sequences that are one sequence once the same turns are put after
/// each are one sequence.
pub proof fn lemma_same_left(a: Seq<Rotation>, b: Seq<Rotation>, right: Seq<Rotation>)
    requires
        a + right == b + right,
    ensures
        a == b,
{
    assert((a + right).len() == a.len() + right.len());
    assert((b + right).len() == b.len() + right.len());
    assert forall|i: int| 0 <= i < a.len() implies a[i] == b[i] by {
        assert((a + right)[i] == a[i]);
        assert((b + right)[i] == b[i]);
    }
    assert(a =~= b);
}

/// The search follows every beginning of a sequence that it follows.
pub proof fn lemma_searched_prefix(start: Seq<Color>, turns: Seq<Rotation>, prefix: Seq<Rotation>)
    requires
        searched(start, turns),
        prefix.is_prefix_of(turns),
    ensures
        searched(start, prefix),
{
    assert forall|k: int| 0 <= k <= prefix.len() implies #[trigger] prefix.take(k) == turns.take(k) by {
        assert(prefix.take(k) =~= turns.take(k));
    }
    assert forall|k: int| 0 <= k < prefix.len() implies !is_redundant(#[trigger] prefix.take(k), prefix[k]) by {
        assert(!is_redundant(turns.take(k), turns[k]));
    }
    if revisits(start, prefix) {
        let (i, j) = choose|i: int, j: int|
            0 <= i < j <= prefix.len() && #[trigger] applied(start, prefix.take(i)) == #[trigger] applied(
                start,
                prefix.take(j),
            );
        assert(applied(start, turns.take(i)) == applied(start, turns.take(j)));
    }
}

/// Turning a cube gives a cube.
pub proof fn lemma_applied_is_cube(cube: Seq<Color>, turns: Seq<Rotation>)
    requires
        is_cube(cube),
    ensures
        is_cube(applied(cube, turns)),
    decreases turns.len(),
{
    if turns.len() > 0 {
        lemma_applied_is_cube(cube, turns.drop_last());
        let before = applied(cube, turns.drop_last());
        let m = turns.last();
        lemma_index_bijection(m, 0);
        assert forall|p: int| 0 <= p < 54 && is_centre(p) implies turned(before, m)[p] == face_color(p) by {
            lemma_source_is_facelet(m.spec_index(), p);
        }
    }
}

/// A sequence of one turn turns the cube once.
pub proof fn lemma_applied_one(cube: Seq<Color>, m: Rotation)
    ensures
        applied(cube, seq![m]) == turned(cube, m),
{
    assert(seq![m] =~= Seq::<Rotation>::empty().push(m));
    lemma_applied_push(cube, Seq::<Rotation>::empty(), m);
    assert(applied(cube, Seq::<Rotation>::empty()) == cube);
}

/// Two sequences of turns, one after the other, turn the cube as the one and
/// then the other.
pub proof fn lemma_applied_concat(cube: Seq<Color>, first: Seq<Rotation>, second: Seq<Rotation>)
    ensures
        applied(cube, first + second) == applied(applied(cube, first), second),
    decreases second.len(),
{
    if second.len() == 0 {
        assert(first + second =~= first);
    } else {
        assert((first + second).drop_last() =~= first + second.drop_last());
        lemma_applied_concat(cube, first, second.drop_last());
    }
}

/// A sequence of turns and then the same sequence undone leave a cube as it
/// was.
pub proof fn lemma_applied_undone(cube: Seq<Color>, turns: Seq<Rotation>)
    requires
        is_cube(cube),
    ensures
        applied(applied(cube, turns), undone(turns)) == cube,
    decreases turns.len(),
{
    if turns.len() == 0 {
        assert(undone(turns) =~= Seq::<Rotation>::empty());
    } else {
        let shorter = turns.drop_last();
        let m = turns.last();
        let before = applied(cube, shorter);
        lemma_applied_is_cube(cube, shorter);
        assert(undone(turns) =~= seq![m.spec_reverse()] + undone(shorter));
        lemma_applied_concat(applied(cube, turns), seq![m.spec_reverse()], undone(shorter));
        lemma_applied_one(applied(cube, turns), m.spec_reverse());
        lemma_rotate_then_reverse(before, m);
        lemma_applied_undone(cube, shorter);
    }
}

/// Every solution has the length that was asked for, and leads from the
/// initial configuration to the desired one.
pub proof fn lemma_solution_leads_to_target(from: Seq<Color>, to: Seq<Color>, count: nat, turns: Seq<Rotation>)
    requires
        is_cube(from),
        is_cube(to),
        is_solution(from, to, count, turns),
    ensures
        turns.len() == count,
        applied(from, turns) == to,
    decreases count,
{
    if count == 0 {
    } else if count == 1 {
        assert(turns =~= seq![turns[0]]);
        lemma_applied_one(from, turns[0]);
    } else {
        let half = (count / 2) as int;
        let left = turns.take(half);
        let right = turns.skip(half);
        let back = undone(right);
        let middle = applied(to, back);
        lemma_applied_is_cube(to, back);
        lemma_solution_leads_to_target(from, middle, count / 2, left);
        lemma_applied_undone(to, back);
        lemma_undone_twice(right);
        assert(turns =~= left + right);
        lemma_applied_concat(from, left, right);
    }
}

/// On the way through a solution the cube is never in one configuration
/// twice. A single turn between two cubes that are the same is left out: the
/// search takes every turn that leads from the one configuration to the
/// other, and asks no more of it.
pub proof fn lemma_solution_never_revisits(from: Seq<Color>, to: Seq<Color>, count: nat, turns: Seq<Rotation>)
    requires
        is_solution(from, to, count, turns),
        count != 1 || from != to,
    ensures
        !revisits(from, turns),
{
    if count == 1 && revisits(from, turns) {
        let (i, j) = choose|i: int, j: int|
            0 <= i < j <= turns.len() && #[trigger] applied(from, turns.take(i)) == #[trigger] applied(
                from,
                turns.take(j),
            );
        assert(turns.take(0) =~= Seq::<Rotation>::empty());
        assert(turns.take(1) =~= seq![turns[0]]);
        lemma_applied_one(from, turns[0]);
        assert(applied(from, Seq::<Rotation>::empty()) == from);
    }
}

/// Whether the pruner flags no turn within the parts into which the search
/// cuts a sequence of `count` turns: the second half, and likewise the parts
/// of the first half, down to parts of one turn.
pub open spec fn parts_unflagged(count: nat, turns: Seq<Rotation>) -> bool
    decreases count,
{
    count < 2 || (unflagged(turns.skip((count / 2) as int)) && parts_unflagged(
        count / 2,
        turns.take((count / 2) as int),
    ))
}

/// The pruner flags no turn within a part of a solution, each turn taken
/// after the turns of its part that stand before it. Where two parts meet
/// nothing of the kind holds: three turns of one face in a row may stand
/// across the middle of a solution.
pub proof fn lemma_solution_parts_unflagged(from: Seq<Color>, to: Seq<Color>, count: nat, turns: Seq<Rotation>)
    requires
        is_solution(from, to, count, turns),
    ensures
        parts_unflagged(count, turns),
    decreases count,
{
    if count >= 2 {
        let half = (count / 2) as int;
        let back = way_back(count, turns);
        lemma_unflagged_undone(back);
        lemma_undone_twice(turns.skip(half));
        lemma_solution_parts_unflagged(from, applied(to, back), count / 2, turns.take(half));
    }
}

/// The second part of a solution of two or more turns, undone, is a way that
/// the search follows from the desired configuration: the pruner flags no
/// turn of it.
pub proof fn lemma_solution_way_back(from: Seq<Color>, to: Seq<Color>, count: nat, turns: Seq<Rotation>)
    requires
        is_solution(from, to, count, turns),
        count >= 2,
    ensures
        unflagged(way_back(count, turns)),
        !revisits(to, way_back(count, turns)),
        way_back(count, turns).len() == count - count / 2,
{
}

/// The forward pass in parts. If at least one turn is to be made, the middle
/// states are the configurations that the twelve parts of the forward pass
/// reach, one part for each first turn.
pub proof fn lemma_forward_in_parts(start: Seq<Color>, depth: int, cube: Seq<Color>)
    requires
        depth >= 1,
    ensures
        middle_set(start, depth).contains(cube) <==> exists|m: Rotation| #[trigger]
            reached(start, seq![m], depth).contains(cube),
{
    let none = Seq::<Rotation>::empty();
    if middle_set(start, depth).contains(cube) {
        let turns = choose|turns: Seq<Rotation>| reaches(start, none, depth, turns, cube);
        assert(seq![turns[0]].is_prefix_of(turns));
        assert(reaches(start, seq![turns[0]], depth, turns, cube));
        assert(reached(start, seq![turns[0]], depth).contains(cube));
    }
    if exists|m: Rotation| #[trigger] reached(start, seq![m], depth).contains(cube) {
        let m = choose|m: Rotation| #[trigger] reached(start, seq![m], depth).contains(cube);
        let turns = choose|turns: Seq<Rotation>| reaches(start, seq![m], depth, turns, cube);
        assert(none.is_prefix_of(turns));
        assert(reaches(start, none, depth, turns, cube));
    }
}

/// The backward pass in parts. The solutions of two or more turns are the
/// sequences that the twelve parts of the backward pass give, one part for
/// each first turn of the way back.
pub proof fn lemma_backward_in_parts(from: Seq<Color>, to: Seq<Color>, count: nat, turns: Seq<Rotation>)
    requires
        count >= 2,
    ensures
        is_solution(from, to, count, turns) <==> exists|m: Rotation| #[trigger]
            found_by(from, to, count, seq![m], turns),
{
    if is_solution(from, to, count, turns) {
        let back = way_back(count, turns);
        assert(seq![back[0]].is_prefix_of(back));
        assert(found_by(from, to, count, seq![back[0]], turns));
    }
}

/// A way of full length reaches one configuration: its end.
pub proof fn lemma_reached_leaf(start: Seq<Color>, path: Seq<Rotation>, depth: int)
    requires
        path.len() == depth,
        searched(start, path),
    ensures
        reached(start, path, depth) == set![applied(start, path)],
{
    assert forall|cube: Seq<Color>| reached(start, path, depth).contains(cube) <==> cube == applied(start, path) by {
        if reached(start, path, depth).contains(cube) {
            let turns = choose|turns: Seq<Rotation>| reaches(start, path, depth, turns, cube);
            assert(turns =~= path);
        }
        if cube == applied(start, path) {
            assert(reaches(start, path, depth, path, cube));
        }
    }
    assert(reached(start, path, depth) =~= set![applied(start, path)]);
}

/// Nothing is reached on a way that the search does not follow.
pub proof fn lemma_reached_dead(start: Seq<Color>, path: Seq<Rotation>, depth: int)
    requires
        !searched(start, path),
    ensures
        reached(start, path, depth) == Set::<Seq<Color>>::empty(),
{
    assert forall|cube: Seq<Color>| !reached(start, path, depth).contains(cube) by {
        if reached(start, path, depth).contains(cube) {
            let turns = choose|turns: Seq<Rotation>| reaches(start, path, depth, turns, cube);
            lemma_searched_prefix(start, turns, path);
        }
    }
    assert(reached(start, path, depth) =~= Set::<Seq<Color>>::empty());
}

/// What is reached with the next turn before place `below + 1` is what is
/// reached with it before place `below`, and what is reached with the turn at
/// place `below`.
pub proof fn lemma_reached_step(start: Seq<Color>, path: Seq<Rotation>, depth: int, below: int)
    requires
        path.len() < depth,
        0 <= below < 12,
    ensures
        reached_below(start, path, depth, below + 1) == reached_below(start, path, depth, below).union(
            reached(start, path.push(Rotation::spec_from_index(below)), depth),
        ),
{
    let m = Rotation::spec_from_index(below);
    let longer = path.push(m);
    let at = path.len() as int;
    lemma_index_bijection(m, below);
    assert forall|cube: Seq<Color>|
        reached_below(start, path, depth, below + 1).contains(cube) <==> reached_below(
            start,
            path,
            depth,
            below,
        ).union(reached(start, longer, depth)).contains(cube) by {
        if reached_below(start, path, depth, below + 1).contains(cube) {
            let turns = choose|turns: Seq<Rotation>|
                reaches(start, path, depth, turns, cube) && turns[at].spec_index() < below + 1;
            if turns[at].spec_index() < below {
                assert(reached_below(start, path, depth, below).contains(cube));
            } else {
                lemma_index_bijection(turns[at], below);
                assert(turns[at] == m);
                assert(reaches(start, longer, depth, turns, cube));
                assert(reached(start, longer, depth).contains(cube));
            }
        }
        if reached_below(start, path, depth, below).contains(cube) {
            let turns = choose|turns: Seq<Rotation>|
                reaches(start, path, depth, turns, cube) && turns[at].spec_index() < below;
            assert(reaches(start, path, depth, turns, cube) && turns[at].spec_index() < below + 1);
        }
        if reached(start, longer, depth).contains(cube) {
            let turns = choose|turns: Seq<Rotation>| reaches(start, longer, depth, turns, cube);
            assert(turns[at] == longer[at]);
            assert(reaches(start, path, depth, turns, cube) && turns[at].spec_index() < below + 1);
        }
    }
    assert(reached_below(start, path, depth, below + 1) =~= reached_below(start, path, depth, below).union(
        reached(start, longer, depth),
    ));
}

/// No turn comes before place 0, and every turn before place 12.
pub proof fn lemma_reached_bounds(start: Seq<Color>, path: Seq<Rotation>, depth: int)
    requires
        path.len() < depth,
    ensures
        reached_below(start, path, depth, 0) == Set::<Seq<Color>>::empty(),
        reached_below(start, path, depth, 12) == reached(start, path, depth),
{
    let at = path.len() as int;
    assert forall|cube: Seq<Color>| !reached_below(start, path, depth, 0).contains(cube) by {
        if reached_below(start, path, depth, 0).contains(cube) {
            let turns = choose|turns: Seq<Rotation>|
                reaches(start, path, depth, turns, cube) && turns[at].spec_index() < 0;
            lemma_index_bijection(turns[at], 0);
        }
    }
    assert(reached_below(start, path, depth, 0) =~= Set::<Seq<Color>>::empty());
    assert forall|cube: Seq<Color>|
        reached_below(start, path, depth, 12).contains(cube) <==> reached(start, path, depth).contains(cube) by {
        if reached(start, path, depth).contains(cube) {
            let turns = choose|turns: Seq<Rotation>| reaches(start, path, depth, turns, cube);
            lemma_index_bijection(turns[at], 0);
            assert(reaches(start, path, depth, turns, cube) && turns[at].spec_index() < 12);
        }
    }
    assert(reached_below(start, path, depth, 12) =~= reached(start, path, depth));
}

/// A solution for the first half, with a way back of full length undone
/// after it, is a solution, if the way back is one that the search follows to
/// a middle state and the cube is never in one configuration twice.
pub proof fn lemma_leaf_sound(from: Seq<Color>, to: Seq<Color>, count: nat, path: Seq<Rotation>, left: Seq<Rotation>)
    requires
        count >= 2,
        path.len() == count - count / 2,
        searched(to, path),
        middle_set(from, (count / 2) as int).contains(applied(to, path)),
        is_solution(from, applied(to, path), count / 2, left),
        !revisits(from, left + undone(path)),
    ensures
        found_by(from, to, count, path, left + undone(path)),
{
    let turns = left + undone(path);
    let half = (count / 2) as int;
    lemma_solution_len(from, applied(to, path), count / 2, left);
    lemma_undone_twice(path);
    assert(turns.skip(half) =~= undone(path));
    assert(turns.take(half) =~= left);
}

/// A solution on a way back of full length is a solution for the first half
/// with that way back undone after it.
pub proof fn lemma_leaf_complete(from: Seq<Color>, to: Seq<Color>, count: nat, path: Seq<Rotation>, turns: Seq<Rotation>)
    requires
        count >= 2,
        path.len() == count - count / 2,
        found_by(from, to, count, path, turns),
    ensures
        way_back(count, turns) == path,
        turns == turns.take((count / 2) as int) + undone(path),
        is_solution(from, applied(to, path), count / 2, turns.take((count / 2) as int)),
        middle_set(from, (count / 2) as int).contains(applied(to, path)),
        !revisits(from, turns),
{
    let half = (count / 2) as int;
    let back = way_back(count, turns);
    assert(back =~= path);
    lemma_undone_twice(turns.skip(half));
    assert(turns =~= turns.take(half) + turns.skip(half));
}

/// No solution lies on a way back that the search does not follow.
pub proof fn lemma_found_dead(from: Seq<Color>, to: Seq<Color>, count: nat, path: Seq<Rotation>, turns: Seq<Rotation>)
    requires
        count >= 2,
        !searched(to, path),
    ensures
        !found_by(from, to, count, path, turns),
{
    if found_by(from, to, count, path, turns) {
        lemma_searched_prefix(to, way_back(count, turns), path);
    }
}

/// The solutions with the next turn of the way back before place
/// `below + 1` are those with it before place `below`, and those with the turn
/// at place `below`.
pub proof fn lemma_found_step(
    from: Seq<Color>,
    to: Seq<Color>,
    count: nat,
    path: Seq<Rotation>,
    below: int,
    turns: Seq<Rotation>,
)
    requires
        count >= 2,
        path.len() < count - count / 2,
        0 <= below < 12,
    ensures
        found_below(from, to, count, path, below + 1, turns) <==> found_below(from, to, count, path, below, turns)
            || found_by(from, to, count, path.push(Rotation::spec_from_index(below)), turns),
        found_by(from, to, count, path.push(Rotation::spec_from_index(below)), turns) ==> way_back(
            count,
            turns,
        )[path.len() as int].spec_index() == below,
{
    let m = Rotation::spec_from_index(below);
    let longer = path.push(m);
    let at = path.len() as int;
    let back = way_back(count, turns);
    lemma_index_bijection(m, below);
    if found_below(from, to, count, path, below + 1, turns) && !found_below(from, to, count, path, below, turns) {
        lemma_index_bijection(back[at], below);
        assert(back[at] == m);
        assert(longer.is_prefix_of(back));
    }
    if found_by(from, to, count, longer, turns) {
        assert(back[at] == longer[at]);
        assert(path.is_prefix_of(back));
    }
}

/// No turn comes before place 0, and every turn before place 12.
pub proof fn lemma_found_bounds(from: Seq<Color>, to: Seq<Color>, count: nat, path: Seq<Rotation>, turns: Seq<Rotation>)
    requires
        count >= 2,
        path.len() < count - count / 2,
    ensures
        !found_below(from, to, count, path, 0, turns),
        found_below(from, to, count, path, 12, turns) <==> found_by(from, to, count, path, turns),
{
    lemma_index_bijection(way_back(count, turns)[path.len() as int], 0);
}

} // verus!
