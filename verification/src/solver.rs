//! The search: all sequences of a given length that take one configuration to
//! another, found by meeting in the middle.
use vstd::prelude::*;
use crate::cube::{turned, CubeState};
use crate::rotation::{lemma_index_bijection, Rotation};
use crate::search::{
    distinct_from, found_below, found_by, holds, is_solution, joins_one, lemma_applied_one, lemma_backward_in_parts,
    lemma_forward_in_parts, lemma_found_bounds, lemma_found_dead, lemma_found_step, lemma_leaf_complete,
    lemma_leaf_sound, lemma_reached_bounds, lemma_reached_dead, lemma_reached_leaf, lemma_reached_step,
    lemma_same_left, lemma_searched_empty, lemma_searched_push, middle_set, reached, reached_below, searched,
    way_back,
};
use crate::side::Color;
use crate::solution::{
    applied, contains_state, has_useless_moves, is_rot_useless, lemma_applied_push, revisits, undone, Solution,
};
use crate::state_set::StateSet;

verus! {

/// The forward pass. It follows the search from `state`, which `path` has
/// reached, and puts into `middle_states` every configuration in which the
/// search can be after half of `move_count` turns.
fn first_pass(
    move_count: u8,
    middle_states: &mut StateSet,
    state: CubeState,
    prev_states: &mut Vec<CubeState>,
    path: &mut Vec<Rotation>,
)
    requires
        old(middle_states).wf(),
        old(path)@.len() <= move_count / 2,
        old(prev_states)@.len() == old(path)@.len() + 1,
        forall|k: int|
            0 <= k <= old(path)@.len() ==> #[trigger] old(prev_states)@[k]@ == applied(
                old(prev_states)@[0]@,
                old(path)@.take(k),
            ),
        state == old(prev_states)@[old(path)@.len() as int],
        searched(old(prev_states)@[0]@, old(path)@),
    ensures
        final(middle_states).wf(),
        final(path)@ == old(path)@,
        final(prev_states)@ == old(prev_states)@,
        final(middle_states)@ == old(middle_states)@.union(
            reached(old(prev_states)@[0]@, old(path)@, (move_count / 2) as int),
        ),
    decreases move_count / 2 - old(path)@.len(),
{
    let ghost start = prev_states@[0]@;
    let ghost depth = (move_count / 2) as int;
    proof {
        assert(path@.take(path@.len() as int) =~= path@);
    }
    if path.len() == (move_count / 2) as usize {
        middle_states.insert(state);
        proof {
            lemma_reached_leaf(start, path@, depth);
            assert(middle_states@ =~= old(middle_states)@.union(reached(start, path@, depth)));
        }
        return ;
    }
    proof {
        lemma_reached_bounds(start, path@, depth);
        assert(middle_states@ =~= old(middle_states)@.union(reached_below(start, path@, depth, 0)));
    }
    let mut i: u8 = 0;
    while i < 12
        invariant
            i <= 12,
            middle_states.wf(),
            path@ == old(path)@,
            prev_states@ == old(prev_states)@,
            start == prev_states@[0]@,
            depth == (move_count / 2) as int,
            path@.len() < depth,
            prev_states@.len() == path@.len() + 1,
            forall|k: int| 0 <= k <= path@.len() ==> #[trigger] prev_states@[k]@ == applied(start, path@.take(k)),
            state == prev_states@[path@.len() as int],
            state@ == applied(start, path@),
            searched(start, path@),
            middle_states@ == old(middle_states)@.union(reached_below(start, path@, depth, i as int)),
        decreases 12 - i,
    {
        let rot = Rotation::from_index(i);
        let new_state = state.rotated(rot);
        let ghost longer = path@.push(rot);
        proof {
            lemma_applied_push(start, path@, rot);
            lemma_searched_push(start, path@, rot);
            lemma_reached_step(start, path@, depth, i as int);
        }
        if contains_state(prev_states, &new_state) || is_rot_useless(path, rot) {
            proof {
                assert(!searched(start, longer));
                lemma_reached_dead(start, longer, depth);
                assert(middle_states@ =~= old(middle_states)@.union(reached_below(start, path@, depth, i + 1)));
            }
        } else {
            proof {
                assert forall|j: int| 0 <= j <= path@.len() implies #[trigger] applied(start, path@.take(j))
                    != applied(start, longer) by {
                    assert(prev_states@[j]@ == applied(start, path@.take(j)));
                }
                assert(searched(start, longer));
            }
            path.push(rot);
            prev_states.push(new_state);
            proof {
                assert(path@ =~= longer);
                assert forall|k: int| 0 <= k <= path@.len() implies #[trigger] prev_states@[k]@ == applied(
                    prev_states@[0]@,
                    path@.take(k),
                ) by {
                    if k < path@.len() {
                        assert(path@.take(k) =~= old(path)@.take(k));
                        assert(prev_states@[k] == old(prev_states)@[k]);
                    } else {
                        assert(path@.take(k) =~= longer);
                    }
                }
            }
            first_pass(move_count, middle_states, new_state, prev_states, path);
            prev_states.pop();
            path.pop();
            proof {
                assert(path@ =~= old(path)@);
                assert(prev_states@ =~= old(prev_states)@);
                assert(middle_states@ =~= old(middle_states)@.union(reached_below(start, path@, depth, i + 1)));
            }
        }
        i += 1;
    }
    proof {
        assert(middle_states@ =~= old(middle_states)@.union(reached(start, path@, depth)));
    }
}


/// A sequence of turns undone.
fn undo(path: &Vec<Rotation>) -> (back: Vec<Rotation>)
    ensures
        back@ == undone(path@),
{
    let mut back: Vec<Rotation> = Vec::new();
    let mut i: usize = path.len();
    while i > 0
        invariant
            i <= path@.len(),
            back@.len() == path@.len() - i,
            forall|k: int| 0 <= k < back@.len() ==> back@[k] == path@[path@.len() - 1 - k].spec_reverse(),
        decreases i,
    {
        i -= 1;
        back.push(path[i].reverse());
    }
    assert(back@ =~= undone(path@));
    back
}

/// One sequence of turns after another.
fn joined(left: &Vec<Rotation>, right: &Vec<Rotation>) -> (both: Vec<Rotation>)
    ensures
        both@ == left@ + right@,
{
    let mut both: Vec<Rotation> = Vec::new();
    let mut i: usize = 0;
    while i < left.len()
        invariant
            i <= left@.len(),
            both@ == left@.take(i as int),
        decreases left.len() - i,
    {
        both.push(left[i]);
        i += 1;
        assert(both@ =~= left@.take(i as int));
    }
    assert(left@.take(left@.len() as int) =~= left@);
    let mut j: usize = 0;
    while j < right.len()
        invariant
            j <= right@.len(),
            both@ == left@ + right@.take(j as int),
        decreases right.len() - j,
    {
        both.push(right[j]);
        j += 1;
        assert(both@ =~= left@ + right@.take(j as int));
    }
    assert(right@.take(right@.len() as int) =~= right@);
    both
}

/// The backward pass. It follows the search from `state`, which `path` has
/// reached from the target. Where it has made the second half of the turns
/// and stands in a middle state, it searches the first half from
/// `initial_state` to that state and adds to `found_solutions` each first
/// half with the way back undone, unless the cube would be in some
/// configuration twice.
fn second_pass(
    move_count: u8,
    middle_states: &StateSet,
    found_solutions: &mut Vec<Solution>,
    initial_state: CubeState,
    state: CubeState,
    prev_states: &mut Vec<CubeState>,
    path: &mut Vec<Rotation>,
)
    requires
        move_count >= 2,
        middle_states.wf(),
        middle_states@ == middle_set(initial_state@, (move_count / 2) as int),
        old(path)@.len() <= move_count - move_count / 2,
        old(prev_states)@.len() == old(path)@.len() + 1,
        forall|k: int|
            0 <= k <= old(path)@.len() ==> #[trigger] old(prev_states)@[k]@ == applied(
                old(prev_states)@[0]@,
                old(path)@.take(k),
            ),
        state == old(prev_states)@[old(path)@.len() as int],
        searched(old(prev_states)@[0]@, old(path)@),
    ensures
        final(path)@ == old(path)@,
        final(prev_states)@ == old(prev_states)@,
        final(found_solutions)@.len() >= old(found_solutions)@.len(),
        forall|k: int| 0 <= k < old(found_solutions)@.len() ==> final(found_solutions)@[k] == old(found_solutions)@[k],
        forall|k: int|
            old(found_solutions)@.len() <= k < final(found_solutions)@.len() ==> found_by(
                initial_state@,
                old(prev_states)@[0]@,
                move_count as nat,
                old(path)@,
                #[trigger] final(found_solutions)@[k]@,
            ),
        forall|turns: Seq<Rotation>|
            found_by(initial_state@, old(prev_states)@[0]@, move_count as nat, old(path)@, turns) ==> exists|k: int|
                old(found_solutions)@.len() <= k < final(found_solutions)@.len()
                    && #[trigger] final(found_solutions)@[k]@ == turns,
        distinct_from(final(found_solutions)@, old(found_solutions)@.len() as int),
    decreases move_count, move_count - move_count / 2 - old(path)@.len(),
{
    let ghost from = initial_state@;
    let ghost to = prev_states@[0]@;
    let ghost count = move_count as nat;
    let ghost first = found_solutions@.len() as int;
    let half = move_count / 2;
    proof {
        assert(path@.take(path@.len() as int) =~= path@);
    }
    if path.len() == (move_count - half) as usize {
        if !middle_states.contains(&state) {
            proof {
                assert forall|turns: Seq<Rotation>| !found_by(from, to, count, path@, turns) by {
                    if found_by(from, to, count, path@, turns) {
                        lemma_leaf_complete(from, to, count, path@, turns);
                    }
                }
            }
            return ;
        }
        let l_solutions = solve(initial_state, state, half, false);
        let right = undo(path);
        let mut i: usize = 0;
        while i < l_solutions.len()
            invariant
                i <= l_solutions@.len(),
                from == initial_state@,
                distinct_from(l_solutions@, 0),
                first == old(found_solutions)@.len(),
                found_solutions@.len() >= first,
                forall|k: int| 0 <= k < first ==> found_solutions@[k] == old(found_solutions)@[k],
                forall|k: int|
                    first <= k < found_solutions@.len() ==> joins_one(
                        l_solutions@,
                        right@,
                        i as int,
                        #[trigger] found_solutions@[k]@,
                    ) && !revisits(from, found_solutions@[k]@),
                forall|n: int|
                    0 <= n < i && !revisits(from, l_solutions@[n]@ + right@) ==> holds(
                        found_solutions@,
                        first,
                        #[trigger] l_solutions@[n]@ + right@,
                    ),
                distinct_from(found_solutions@, first),
            decreases l_solutions.len() - i,
        {
            let union = joined(&l_solutions[i].seq, &right);
            let ghost before = found_solutions@;
            if !has_useless_moves(initial_state, &union) {
                found_solutions.push(Solution { seq: union });
                proof {
                    let last = found_solutions@.len() - 1;
                    assert(found_solutions@[last]@ == l_solutions@[i as int]@ + right@);
                    assert forall|k: int| first <= k < found_solutions@.len() implies joins_one(
                        l_solutions@,
                        right@,
                        i + 1,
                        #[trigger] found_solutions@[k]@,
                    ) && !revisits(from, found_solutions@[k]@) by {
                        if k < last {
                            assert(found_solutions@[k] == before[k]);
                            let n = choose|n: int| 0 <= n < i && #[trigger] l_solutions@[n]@ + right@ == before[k]@;
                            assert(0 <= n < i + 1 && l_solutions@[n]@ + right@ == found_solutions@[k]@);
                        } else {
                            assert(0 <= i < i + 1 && l_solutions@[i as int]@ + right@ == found_solutions@[k]@);
                        }
                    }
                    assert forall|n: int| 0 <= n < i + 1 && !revisits(from, l_solutions@[n]@ + right@) implies holds(
                        found_solutions@,
                        first,
                        #[trigger] l_solutions@[n]@ + right@,
                    ) by {
                        if n < i {
                            let k = choose|k: int|
                                first <= k < before.len() && #[trigger] before[k]@ == l_solutions@[n]@ + right@;
                            assert(found_solutions@[k] == before[k]);
                        } else {
                            assert(found_solutions@[last]@ == l_solutions@[n]@ + right@);
                        }
                    }
                    assert forall|a: int, b: int| first <= a < b < found_solutions@.len() implies found_solutions@[a]@
                        != found_solutions@[b]@ by {
                        assert(found_solutions@[a] == before[a]);
                        if b < last {
                            assert(found_solutions@[b] == before[b]);
                        } else {
                            let n = choose|n: int| 0 <= n < i && #[trigger] l_solutions@[n]@ + right@ == before[a]@;
                            assert(l_solutions@[n]@ != l_solutions@[i as int]@);
                            if l_solutions@[n]@ + right@ == l_solutions@[i as int]@ + right@ {
                                lemma_same_left(l_solutions@[n]@, l_solutions@[i as int]@, right@);
                            }
                        }
                    }
                }
            } else {
                proof {
                    assert forall|k: int| first <= k < found_solutions@.len() implies joins_one(
                        l_solutions@,
                        right@,
                        i + 1,
                        #[trigger] found_solutions@[k]@,
                    ) by {
                        let n = choose|n: int|
                            0 <= n < i && #[trigger] l_solutions@[n]@ + right@ == found_solutions@[k]@;
                        assert(0 <= n < i + 1 && l_solutions@[n]@ + right@ == found_solutions@[k]@);
                    }
                }
            }
            i += 1;
        }
        proof {
            assert forall|k: int| first <= k < found_solutions@.len() implies found_by(
                from,
                to,
                count,
                path@,
                #[trigger] found_solutions@[k]@,
            ) by {
                let n = choose|n: int|
                    0 <= n < l_solutions@.len() && #[trigger] l_solutions@[n]@ + right@ == found_solutions@[k]@;
                assert(holds(l_solutions@, 0, l_solutions@[n]@));
                assert(is_solution(from, state@, (count / 2) as nat, l_solutions@[n]@));
                lemma_leaf_sound(from, to, count, path@, l_solutions@[n]@);
            }
            assert forall|turns: Seq<Rotation>| found_by(from, to, count, path@, turns) implies exists|k: int|
                first <= k < found_solutions@.len() && #[trigger] found_solutions@[k]@ == turns by {
                lemma_leaf_complete(from, to, count, path@, turns);
                let left = turns.take((count / 2) as int);
                assert(holds(l_solutions@, 0, left));
                let n = choose|n: int| 0 <= n < l_solutions@.len() && #[trigger] l_solutions@[n]@ == left;
                assert(holds(found_solutions@, first, l_solutions@[n]@ + right@));
            }
        }
        return ;
    }
    proof {
        assert forall|turns: Seq<Rotation>| !found_below(from, to, count, path@, 0, turns) by {
            lemma_found_bounds(from, to, count, path@, turns);
        }
    }
    let mut i: u8 = 0;
    while i < 12
        invariant
            i <= 12,
            move_count >= 2,
            count == move_count as nat,
            middle_states.wf(),
            middle_states@ == middle_set(initial_state@, (move_count / 2) as int),
            from == initial_state@,
            path@ == old(path)@,
            prev_states@ == old(prev_states)@,
            to == prev_states@[0]@,
            path@.len() < count - count / 2,
            prev_states@.len() == path@.len() + 1,
            forall|k: int| 0 <= k <= path@.len() ==> #[trigger] prev_states@[k]@ == applied(to, path@.take(k)),
            state == prev_states@[path@.len() as int],
            state@ == applied(to, path@),
            searched(to, path@),
            first == old(found_solutions)@.len(),
            found_solutions@.len() >= first,
            forall|k: int| 0 <= k < first ==> found_solutions@[k] == old(found_solutions)@[k],
            forall|k: int|
                first <= k < found_solutions@.len() ==> found_below(
                    from,
                    to,
                    count,
                    path@,
                    i as int,
                    #[trigger] found_solutions@[k]@,
                ),
            forall|turns: Seq<Rotation>|
                found_below(from, to, count, path@, i as int, turns) ==> exists|k: int|
                    first <= k < found_solutions@.len() && #[trigger] found_solutions@[k]@ == turns,
            distinct_from(found_solutions@, first),
        decreases 12 - i,
    {
        let rot = Rotation::from_index(i);
        let new_state = state.rotated(rot);
        let ghost longer = path@.push(rot);
        let ghost before = found_solutions@;
        let ghost next = i + 1;
        proof {
            lemma_applied_push(to, path@, rot);
            lemma_searched_push(to, path@, rot);
        }
        if contains_state(prev_states, &new_state) || is_rot_useless(path, rot) {
            proof {
                assert(!searched(to, longer));
                assert forall|turns: Seq<Rotation>|
                    found_below(from, to, count, path@, next, turns) <==> found_below(
                        from,
                        to,
                        count,
                        path@,
                        i as int,
                        turns,
                    ) by {
                    lemma_found_step(from, to, count, path@, i as int, turns);
                    lemma_found_dead(from, to, count, longer, turns);
                }
            }
        } else {
            proof {
                assert forall|j: int| 0 <= j <= path@.len() implies #[trigger] applied(to, path@.take(j)) != applied(
                    to,
                    longer,
                ) by {
                    assert(prev_states@[j]@ == applied(to, path@.take(j)));
                }
                assert(searched(to, longer));
            }
            path.push(rot);
            prev_states.push(new_state);
            proof {
                assert(path@ =~= longer);
                assert forall|k: int| 0 <= k <= path@.len() implies #[trigger] prev_states@[k]@ == applied(
                    prev_states@[0]@,
                    path@.take(k),
                ) by {
                    if k < path@.len() {
                        assert(path@.take(k) =~= old(path)@.take(k));
                        assert(prev_states@[k] == old(prev_states)@[k]);
                    } else {
                        assert(path@.take(k) =~= longer);
                    }
                }
            }
            second_pass(move_count, middle_states, found_solutions, initial_state, new_state, prev_states, path);
            prev_states.pop();
            path.pop();
            proof {
                assert(path@ =~= old(path)@);
                assert(prev_states@ =~= old(prev_states)@);
                assert forall|k: int| first <= k < found_solutions@.len() implies found_below(
                    from,
                    to,
                    count,
                    path@,
                    next,
                    #[trigger] found_solutions@[k]@,
                ) by {
                    lemma_found_step(from, to, count, path@, i as int, found_solutions@[k]@);
                    if k < before.len() {
                        assert(found_solutions@[k] == before[k]);
                    }
                }
                assert forall|turns: Seq<Rotation>|
                    found_below(from, to, count, path@, next, turns) implies exists|k: int|
                    first <= k < found_solutions@.len() && #[trigger] found_solutions@[k]@ == turns by {
                    lemma_found_step(from, to, count, path@, i as int, turns);
                    if found_below(from, to, count, path@, i as int, turns) {
                        let k = choose|k: int| first <= k < before.len() && #[trigger] before[k]@ == turns;
                        assert(found_solutions@[k] == before[k]);
                    }
                }
                assert forall|a: int, b: int| first <= a < b < found_solutions@.len() implies found_solutions@[a]@
                    != found_solutions@[b]@ by {
                    if a < before.len() && b >= before.len() {
                        assert(found_solutions@[a] == before[a]);
                        lemma_found_step(from, to, count, path@, i as int, found_solutions@[b]@);
                        assert(found_below(from, to, count, path@, i as int, found_solutions@[a]@));
                    } else if b < before.len() {
                        assert(found_solutions@[a] == before[a]);
                        assert(found_solutions@[b] == before[b]);
                    }
                }
            }
        }
        i += 1;
    }
    proof {
        assert forall|k: int| first <= k < found_solutions@.len() implies found_by(
            from,
            to,
            count,
            path@,
            #[trigger] found_solutions@[k]@,
        ) by {
            lemma_found_bounds(from, to, count, path@, found_solutions@[k]@);
        }
        assert forall|turns: Seq<Rotation>| found_by(from, to, count, path@, turns) implies exists|k: int|
            first <= k < found_solutions@.len() && #[trigger] found_solutions@[k]@ == turns by {
            lemma_found_bounds(from, to, count, path@, turns);
        }
    }
}

/// All sequences of `move_count` turns that the search gives from
/// `initial_state` to `desired_state`, each once.
///
/// With `multi_threaded` each pass is made in its twelve parts, as
/// `solve_in_parts` makes them. The library starts no thread: here the parts
/// come one after the other, and the outcome is the same either way.
pub fn solve(initial_state: CubeState, desired_state: CubeState, move_count: u8, multi_threaded: bool) -> (found_solutions:
    Vec<Solution>)
    ensures
        forall|turns: Seq<Rotation>|
            is_solution(initial_state@, desired_state@, move_count as nat, turns) <==> holds(
                found_solutions@,
                0,
                turns,
            ),
        distinct_from(found_solutions@, 0),
    decreases move_count, 200int,
{
    if multi_threaded && move_count >= 2 {
        return solve_in_parts(initial_state, desired_state, move_count);
    }
    let mut found_solutions: Vec<Solution> = Vec::new();
    if move_count == 0 {
        if initial_state.equals(&desired_state) {
            found_solutions.push(Solution { seq: Vec::new() });
            proof {
                assert forall|turns: Seq<Rotation>|
                    is_solution(initial_state@, desired_state@, 0, turns) implies exists|k: int|
                    0 <= k < found_solutions@.len() && #[trigger] found_solutions@[k]@ == turns by {
                    assert(found_solutions@[0]@ =~= turns);
                }
            }
        }
        return found_solutions;
    }
    if move_count == 1 {
        let mut i: u8 = 0;
        while i < 12
            invariant
                i <= 12,
                forall|k: int|
                    0 <= k < found_solutions@.len() ==> (#[trigger] found_solutions@[k]@).len() == 1 && turned(
                        initial_state@,
                        found_solutions@[k]@[0],
                    ) == desired_state@ && found_solutions@[k]@[0].spec_index() < i,
                forall|m: Rotation|
                    m.spec_index() < i && turned(initial_state@, m) == desired_state@ ==> exists|k: int|
                        0 <= k < found_solutions@.len() && #[trigger] found_solutions@[k]@ == seq![m],
                distinct_from(found_solutions@, 0),
            decreases 12 - i,
        {
            let rot = Rotation::from_index(i);
            let state = initial_state.rotated(rot);
            let ghost before = found_solutions@;
            if state.equals(&desired_state) {
                let mut seq: Vec<Rotation> = Vec::new();
                seq.push(rot);
                found_solutions.push(Solution { seq });
                proof {
                    let last = found_solutions@.len() - 1;
                    assert(found_solutions@[last]@ =~= seq![rot]);
                    assert forall|k: int| 0 <= k < last implies found_solutions@[k] == before[k] by {}
                    assert forall|m: Rotation|
                        m.spec_index() < i + 1 && turned(initial_state@, m) == desired_state@ implies exists|k: int|
                        0 <= k < found_solutions@.len() && #[trigger] found_solutions@[k]@ == seq![m] by {
                        if m.spec_index() < i {
                            let k = choose|k: int| 0 <= k < before.len() && #[trigger] before[k]@ == seq![m];
                            assert(found_solutions@[k] == before[k]);
                        } else {
                            lemma_index_bijection(m, i as int);
                            assert(m == rot);
                        }
                    }
                }
            } else {
                proof {
                    assert forall|m: Rotation|
                        m.spec_index() < i + 1 && turned(initial_state@, m) == desired_state@ implies exists|k: int|
                        0 <= k < found_solutions@.len() && #[trigger] found_solutions@[k]@ == seq![m] by {
                        if m.spec_index() >= i {
                            lemma_index_bijection(m, i as int);
                            assert(m == rot);
                        }
                    }
                }
            }
            i += 1;
        }
        proof {
            assert forall|turns: Seq<Rotation>|
                is_solution(initial_state@, desired_state@, 1, turns) implies exists|k: int|
                0 <= k < found_solutions@.len() && #[trigger] found_solutions@[k]@ == turns by {
                lemma_index_bijection(turns[0], 0);
                assert(turns =~= seq![turns[0]]);
            }
        }
        return found_solutions;
    }
    let mut middle_states = StateSet::new();
    let mut prev_states: Vec<CubeState> = Vec::new();
    prev_states.push(initial_state);
    let mut path: Vec<Rotation> = Vec::new();
    proof {
        assert(path@.take(0) =~= path@);
        assert(applied(initial_state@, path@) == initial_state@);
        lemma_searched_empty(initial_state@);
    }
    first_pass(move_count, &mut middle_states, initial_state, &mut prev_states, &mut path);
    proof {
        assert(path@ =~= Seq::<Rotation>::empty());
        assert(middle_states@ =~= middle_set(initial_state@, (move_count / 2) as int));
    }
    let mut prev_states: Vec<CubeState> = Vec::new();
    prev_states.push(desired_state);
    proof {
        lemma_searched_empty(desired_state@);
    }
    let ghost none = path@;
    let ghost target = prev_states@[0]@;
    second_pass(
        move_count,
        &middle_states,
        &mut found_solutions,
        initial_state,
        desired_state,
        &mut prev_states,
        &mut path,
    );
    proof {
        assert forall|turns: Seq<Rotation>|
            is_solution(initial_state@, desired_state@, move_count as nat, turns) implies exists|k: int|
            0 <= k < found_solutions@.len() && #[trigger] found_solutions@[k]@ == turns by {
            assert(none.is_prefix_of(way_back(move_count as nat, turns)));
            assert(found_by(initial_state@, target, move_count as nat, none, turns));
        }
        assert forall|k: int| 0 <= k < found_solutions@.len() implies is_solution(
            initial_state@,
            desired_state@,
            move_count as nat,
            #[trigger] found_solutions@[k]@,
        ) by {
            assert(found_by(initial_state@, target, move_count as nat, none, found_solutions@[k]@));
        }
    }
    found_solutions
}


/// The part of the forward pass that begins with the turn `rot`: the middle
/// states that the search reaches on ways whose first turn is `rot`. The
/// twelve parts together are the whole forward pass, and no part needs
/// another: they may run side by side.
pub fn first_pass_from(initial_state: CubeState, rot: Rotation, move_count: u8) -> (middle_states: StateSet)
    requires
        move_count >= 2,
    ensures
        middle_states.wf(),
        middle_states@ == reached(initial_state@, seq![rot], (move_count / 2) as int),
{
    let mut middle_states = StateSet::new();
    let state = initial_state.rotated(rot);
    let ghost way = seq![rot];
    proof {
        assert(way =~= Seq::<Rotation>::empty().push(rot));
        lemma_searched_empty(initial_state@);
        lemma_searched_push(initial_state@, Seq::<Rotation>::empty(), rot);
        lemma_applied_one(initial_state@, rot);
        assert(Seq::<Rotation>::empty().take(0) =~= Seq::<Rotation>::empty());
        assert(applied(initial_state@, Seq::<Rotation>::empty()) == initial_state@);
    }
    let mut path: Vec<Rotation> = Vec::new();
    if state.equals(&initial_state) || is_rot_useless(&path, rot) {
        proof {
            lemma_reached_dead(initial_state@, way, (move_count / 2) as int);
        }
        return middle_states;
    }
    let mut prev_states: Vec<CubeState> = Vec::new();
    prev_states.push(initial_state);
    prev_states.push(state);
    path.push(rot);
    proof {
        assert(path@ =~= way);
        assert(path@.take(0) =~= Seq::<Rotation>::empty());
        assert(path@.take(1) =~= way);
        assert(searched(initial_state@, way));
    }
    first_pass(move_count, &mut middle_states, state, &mut prev_states, &mut path);
    proof {
        assert(middle_states@ =~= reached(initial_state@, way, (move_count / 2) as int));
    }
    middle_states
}

/// The part of the backward pass that begins with the turn `rot`: the
/// solutions whose way back from `desired_state` begins with `rot`, each
/// once. `middle_states` must be what the whole forward pass has found. The
/// twelve parts together are the whole backward pass, and no part needs
/// another: they may run side by side.
pub fn second_pass_from(
    initial_state: CubeState,
    desired_state: CubeState,
    rot: Rotation,
    move_count: u8,
    middle_states: &StateSet,
) -> (found_solutions: Vec<Solution>)
    requires
        move_count >= 2,
        middle_states.wf(),
        middle_states@ == middle_set(initial_state@, (move_count / 2) as int),
    ensures
        forall|turns: Seq<Rotation>|
            found_by(initial_state@, desired_state@, move_count as nat, seq![rot], turns) <==> holds(
                found_solutions@,
                0,
                turns,
            ),
        distinct_from(found_solutions@, 0),
    decreases move_count, 180int,
{
    let mut found_solutions: Vec<Solution> = Vec::new();
    let state = desired_state.rotated(rot);
    let ghost way = seq![rot];
    proof {
        assert(way =~= Seq::<Rotation>::empty().push(rot));
        lemma_searched_empty(desired_state@);
        lemma_searched_push(desired_state@, Seq::<Rotation>::empty(), rot);
        lemma_applied_one(desired_state@, rot);
        assert(Seq::<Rotation>::empty().take(0) =~= Seq::<Rotation>::empty());
        assert(applied(desired_state@, Seq::<Rotation>::empty()) == desired_state@);
    }
    let mut path: Vec<Rotation> = Vec::new();
    if state.equals(&desired_state) || is_rot_useless(&path, rot) {
        proof {
            assert forall|turns: Seq<Rotation>|
                !found_by(initial_state@, desired_state@, move_count as nat, way, turns) by {
                lemma_found_dead(initial_state@, desired_state@, move_count as nat, way, turns);
            }
        }
        return found_solutions;
    }
    let mut prev_states: Vec<CubeState> = Vec::new();
    prev_states.push(desired_state);
    prev_states.push(state);
    path.push(rot);
    proof {
        assert(path@ =~= way);
        assert(path@.take(0) =~= Seq::<Rotation>::empty());
        assert(path@.take(1) =~= way);
        assert(searched(desired_state@, way));
    }
    let ghost begun = path@;
    let ghost target = prev_states@[0]@;
    second_pass(
        move_count,
        middle_states,
        &mut found_solutions,
        initial_state,
        state,
        &mut prev_states,
        &mut path,
    );
    proof {
        assert forall|turns: Seq<Rotation>|
            found_by(initial_state@, desired_state@, move_count as nat, way, turns) implies holds(
            found_solutions@,
            0,
            turns,
        ) by {
            assert(found_by(initial_state@, target, move_count as nat, begun, turns));
        }
        assert forall|turns: Seq<Rotation>| holds(found_solutions@, 0, turns) implies found_by(
            initial_state@,
            desired_state@,
            move_count as nat,
            way,
            turns,
        ) by {
            let k = choose|k: int| 0 <= k < found_solutions@.len() && #[trigger] found_solutions@[k]@ == turns;
            assert(found_by(initial_state@, target, move_count as nat, begun, found_solutions@[k]@));
        }
    }
    found_solutions
}

/// The search for two turns or more, with each pass made in its twelve parts,
/// one after the other. A caller with threads makes the parts of a pass side
/// by side and puts together what they give in the same way.
pub fn solve_in_parts(initial_state: CubeState, desired_state: CubeState, move_count: u8) -> (found_solutions: Vec<
    Solution,
>)
    requires
        move_count >= 2,
    ensures
        forall|turns: Seq<Rotation>|
            is_solution(initial_state@, desired_state@, move_count as nat, turns) <==> holds(
                found_solutions@,
                0,
                turns,
            ),
        distinct_from(found_solutions@, 0),
    decreases move_count, 190int,
{
    let ghost from = initial_state@;
    let ghost to = desired_state@;
    let ghost count = move_count as nat;
    let ghost depth = (move_count / 2) as int;
    let mut middle_states = StateSet::new();
    let mut i: u8 = 0;
    while i < 12
        invariant
            i <= 12,
            move_count >= 2,
            from == initial_state@,
            depth == (move_count / 2) as int,
            middle_states.wf(),
            forall|cube: Seq<Color>| #[trigger]
                middle_states@.contains(cube) <==> exists|m: Rotation| #[trigger]
                    reached(from, seq![m], depth).contains(cube) && m.spec_index() < i,
        decreases 12 - i,
    {
        let rot = Rotation::from_index(i);
        let part = first_pass_from(initial_state, rot, move_count);
        let ghost before = middle_states@;
        middle_states.merge(&part);
        proof {
            assert forall|cube: Seq<Color>| #[trigger]
                middle_states@.contains(cube) <==> exists|m: Rotation| #[trigger]
                    reached(from, seq![m], depth).contains(cube) && m.spec_index() < i + 1 by {
                if before.contains(cube) {
                    let m = choose|m: Rotation| #[trigger]
                        reached(from, seq![m], depth).contains(cube) && m.spec_index() < i;
                    assert(reached(from, seq![m], depth).contains(cube) && m.spec_index() < i + 1);
                }
                if part@.contains(cube) {
                    assert(reached(from, seq![rot], depth).contains(cube) && rot.spec_index() < i + 1);
                }
                if exists|m: Rotation| #[trigger]
                    reached(from, seq![m], depth).contains(cube) && m.spec_index() < i + 1 {
                    let m = choose|m: Rotation| #[trigger]
                        reached(from, seq![m], depth).contains(cube) && m.spec_index() < i + 1;
                    if m.spec_index() == i {
                        lemma_index_bijection(m, i as int);
                    } else {
                        assert(reached(from, seq![m], depth).contains(cube) && m.spec_index() < i);
                    }
                }
            }
        }
        i += 1;
    }
    proof {
        assert forall|cube: Seq<Color>| middle_states@.contains(cube) <==> middle_set(from, depth).contains(cube) by {
            lemma_forward_in_parts(from, depth, cube);
            if middle_set(from, depth).contains(cube) {
                let m = choose|m: Rotation| #[trigger] reached(from, seq![m], depth).contains(cube);
                lemma_index_bijection(m, 0);
                assert(reached(from, seq![m], depth).contains(cube) && m.spec_index() < 12);
            }
        }
        assert(middle_states@ =~= middle_set(from, depth));
    }
    let mut found_solutions: Vec<Solution> = Vec::new();
    let mut i: u8 = 0;
    while i < 12
        invariant
            i <= 12,
            move_count >= 2,
            from == initial_state@,
            to == desired_state@,
            count == move_count as nat,
            middle_states.wf(),
            middle_states@ == middle_set(from, (move_count / 2) as int),
            forall|turns: Seq<Rotation>| #[trigger]
                holds(found_solutions@, 0, turns) <==> exists|m: Rotation| #[trigger]
                    found_by(from, to, count, seq![m], turns) && m.spec_index() < i,
            distinct_from(found_solutions@, 0),
        decreases 12 - i,
    {
        let rot = Rotation::from_index(i);
        let mut part = second_pass_from(initial_state, desired_state, rot, move_count, &middle_states);
        let ghost before = found_solutions@;
        let ghost more = part@;
        found_solutions.append(&mut part);
        proof {
            assert forall|turns: Seq<Rotation>| #[trigger]
                holds(found_solutions@, 0, turns) <==> exists|m: Rotation| #[trigger]
                    found_by(from, to, count, seq![m], turns) && m.spec_index() < i + 1 by {
                if holds(found_solutions@, 0, turns) {
                    let k = choose|k: int| 0 <= k < found_solutions@.len() && #[trigger] found_solutions@[k]@ == turns;
                    if k < before.len() {
                        assert(before[k]@ == turns);
                        assert(holds(before, 0, turns));
                        let m = choose|m: Rotation| #[trigger]
                            found_by(from, to, count, seq![m], turns) && m.spec_index() < i;
                        assert(found_by(from, to, count, seq![m], turns) && m.spec_index() < i + 1);
                    } else {
                        assert(more[k - before.len()]@ == turns);
                        assert(holds(more, 0, turns));
                        assert(found_by(from, to, count, seq![rot], turns) && rot.spec_index() < i + 1);
                    }
                }
                if exists|m: Rotation| #[trigger]
                    found_by(from, to, count, seq![m], turns) && m.spec_index() < i + 1 {
                    let m = choose|m: Rotation| #[trigger]
                        found_by(from, to, count, seq![m], turns) && m.spec_index() < i + 1;
                    if m.spec_index() == i {
                        lemma_index_bijection(m, i as int);
                        assert(holds(more, 0, turns));
                        let k = choose|k: int| 0 <= k < more.len() && #[trigger] more[k]@ == turns;
                        assert(found_solutions@[before.len() + k]@ == turns);
                    } else {
                        assert(found_by(from, to, count, seq![m], turns) && m.spec_index() < i);
                        assert(holds(before, 0, turns));
                        let k = choose|k: int| 0 <= k < before.len() && #[trigger] before[k]@ == turns;
                        assert(found_solutions@[k]@ == turns);
                    }
                }
            }
            assert forall|a: int, b: int| 0 <= a < b < found_solutions@.len() implies found_solutions@[a]@
                != found_solutions@[b]@ by {
                if a < before.len() && b >= before.len() {
                    assert(before[a]@ == found_solutions@[a]@);
                    assert(more[b - before.len()]@ == found_solutions@[b]@);
                    assert(holds(before, 0, before[a]@));
                    assert(holds(more, 0, more[b - before.len()]@));
                    let m = choose|m: Rotation| #[trigger]
                        found_by(from, to, count, seq![m], before[a]@) && m.spec_index() < i;
                    if before[a]@ == more[b - before.len()]@ {
                        let back = way_back(count, before[a]@);
                        assert(seq![m][0] == back[0]);
                        assert(seq![rot][0] == back[0]);
                    }
                } else if b < before.len() {
                    assert(before[a]@ == found_solutions@[a]@);
                    assert(before[b]@ == found_solutions@[b]@);
                } else {
                    assert(more[a - before.len()]@ == found_solutions@[a]@);
                    assert(more[b - before.len()]@ == found_solutions@[b]@);
                }
            }
        }
        i += 1;
    }
    proof {
        assert forall|turns: Seq<Rotation>|
            is_solution(from, to, count, turns) <==> holds(found_solutions@, 0, turns) by {
            lemma_backward_in_parts(from, to, count, turns);
            if is_solution(from, to, count, turns) {
                let m = choose|m: Rotation| #[trigger] found_by(from, to, count, seq![m], turns);
                lemma_index_bijection(m, 0);
                assert(found_by(from, to, count, seq![m], turns) && m.spec_index() < 12);
            }
        }
    }
    found_solutions
}

} // verus!
