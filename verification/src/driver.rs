//! The search over a range of lengths, with the solutions in order.
use vstd::prelude::*;
use crate::cube::CubeState;
use crate::rotation::Rotation;
use crate::side::Color;
use crate::solution::{lemma_lex_total, lemma_lex_transitive, lex_less, Solution};
use crate::search::{holds, is_solution};
use crate::solver::solve;

verus! {

/// The range of lengths is empty: the least number of turns is greater than
/// the greatest.
#[derive(Clone, Copy, PartialEq, Eq, Debug, Structural)]
pub struct InvalidRange;

/// Whether a list of solutions stands in the dictionary order, each sequence
/// before the next. No sequence stands in such a list twice.
pub open spec fn in_order(found: Seq<Solution>) -> bool {
    forall|i: int, j: int| 0 <= i < j < found.len() ==> lex_less(found[i]@, found[j]@)
}

/// Whether the search for some length from `least` to `most` gives `turns`.
pub open spec fn is_solution_within(
    from: Seq<Color>,
    to: Seq<Color>,
    least: int,
    most: int,
    turns: Seq<Rotation>,
) -> bool {
    exists|count: nat| least <= count <= most && is_solution(from, to, count, turns)
}

/// Puts a solution into a list that stands in order, at its place, unless the
/// list holds the same sequence already.
pub fn insert_in_order(found: &mut Vec<Solution>, solution: Solution)
    requires
        in_order(old(found)@),
    ensures
        in_order(final(found)@),
        forall|turns: Seq<Rotation>|
            holds(final(found)@, 0, turns) <==> holds(old(found)@, 0, turns) || turns == solution@,
{
    let mut at: usize = 0;
    while at < found.len() && found[at].less_than(&solution)
        invariant
            at <= found@.len(),
            found@ == old(found)@,
            forall|k: int| 0 <= k < at ==> lex_less(found@[k]@, solution@),
        decreases found.len() - at,
    {
        at += 1;
    }
    let ghost turns = solution@;
    if at < found.len() && found[at].same_turns(&solution) {
        return ;
    }
    proof {
        if at < found@.len() {
            lemma_lex_total(found@[at as int]@, turns);
            assert forall|k: int| at <= k < found@.len() implies lex_less(turns, found@[k]@) by {
                if k > at {
                    lemma_lex_transitive(turns, found@[at as int]@, found@[k]@);
                }
            }
        }
    }
    found.insert(at, solution);
    proof {
        assert(found@[at as int]@ == turns);
        assert forall|i: int, j: int| 0 <= i < j < found@.len() implies lex_less(found@[i]@, found@[j]@) by {
            if i < at && j > at {
                assert(found@[i] == old(found)@[i]);
                assert(found@[j] == old(found)@[j - 1]);
            } else if i < at && j < at {
                assert(found@[i] == old(found)@[i]);
                assert(found@[j] == old(found)@[j]);
            } else if i > at {
                assert(found@[i] == old(found)@[i - 1]);
                assert(found@[j] == old(found)@[j - 1]);
            } else if i == at {
                assert(found@[j] == old(found)@[j - 1]);
            } else {
                assert(found@[i] == old(found)@[i]);
            }
        }
        assert forall|other: Seq<Rotation>|
            holds(found@, 0, other) <==> holds(old(found)@, 0, other) || other == turns by {
            if holds(found@, 0, other) {
                let k = choose|k: int| 0 <= k < found@.len() && #[trigger] found@[k]@ == other;
                if k < at {
                    assert(old(found)@[k]@ == other);
                } else if k > at {
                    assert(old(found)@[k - 1]@ == other);
                }
            }
            if holds(old(found)@, 0, other) {
                let k = choose|k: int| 0 <= k < old(found)@.len() && #[trigger] old(found)@[k]@ == other;
                if k < at {
                    assert(found@[k]@ == other);
                } else {
                    assert(found@[k + 1]@ == other);
                }
            }
        }
    }
}

/// All sequences of `min_moves` to `max_moves` turns that the search gives
/// from `initial_state` to `desired_state`, in the dictionary order, each
/// once.
pub fn solve_range(initial_state: CubeState, desired_state: CubeState, min_moves: u8, max_moves: u8) -> (result: Result<
    Vec<Solution>,
    InvalidRange,
>)
    ensures
        match result {
            Err(_) => min_moves > max_moves,
            Ok(found) => {
                &&& min_moves <= max_moves
                &&& in_order(found@)
                &&& forall|turns: Seq<Rotation>|
                    holds(found@, 0, turns) <==> is_solution_within(
                        initial_state@,
                        desired_state@,
                        min_moves as int,
                        max_moves as int,
                        turns,
                    )
            },
        },
{
    if min_moves > max_moves {
        return Err(InvalidRange);
    }
    let mut found: Vec<Solution> = Vec::new();
    let mut count: u16 = min_moves as u16;
    while count <= max_moves as u16
        invariant
            min_moves <= count <= max_moves + 1,
            in_order(found@),
            forall|turns: Seq<Rotation>|
                holds(found@, 0, turns) <==> is_solution_within(
                    initial_state@,
                    desired_state@,
                    min_moves as int,
                    count - 1,
                    turns,
                ),
        decreases max_moves + 1 - count,
    {
        let mut more = solve(initial_state, desired_state, count as u8, false);
        let ghost all = more@;
        let ghost before = found@;
        proof {
            assert forall|turns: Seq<Rotation>|
                holds(all, 0, turns) <==> is_solution(initial_state@, desired_state@, count as nat, turns) by {}
        }
        while more.len() > 0
            invariant
                more@.len() <= all.len(),
                more@ == all.take(more@.len() as int),
                in_order(found@),
                forall|turns: Seq<Rotation>|
                    holds(found@, 0, turns) <==> holds(before, 0, turns) || holds(all, more@.len() as int, turns),
            decreases more.len(),
        {
            let ghost rest = more@.len() - 1;
            let ghost so_far = found@;
            proof {
                assert forall|turns: Seq<Rotation>|
                    holds(so_far, 0, turns) <==> holds(before, 0, turns) || holds(all, rest + 1, turns) by {}
            }
            let solution = more.pop().unwrap();
            assert(solution == all[rest]);
            let ghost added = solution@;
            insert_in_order(&mut found, solution);
            proof {
                assert(more@ =~= all.take(rest));
                assert forall|turns: Seq<Rotation>|
                    holds(found@, 0, turns) <==> holds(before, 0, turns) || holds(all, rest, turns) by {
                    assert(holds(found@, 0, turns) <==> holds(so_far, 0, turns) || turns == added);
                    assert(holds(so_far, 0, turns) <==> holds(before, 0, turns) || holds(all, rest + 1, turns));
                    if holds(all, rest + 1, turns) {
                        let k = choose|k: int| rest + 1 <= k < all.len() && #[trigger] all[k]@ == turns;
                        assert(rest <= k < all.len() && all[k]@ == turns);
                    }
                    if holds(all, rest, turns) && turns != all[rest]@ {
                        let k = choose|k: int| rest <= k < all.len() && #[trigger] all[k]@ == turns;
                        assert(rest + 1 <= k < all.len() && all[k]@ == turns);
                    }
                    if turns == all[rest]@ {
                        assert(rest <= rest < all.len() && all[rest]@ == turns);
                    }
                }
            }
        }
        proof {
            let ghost next = count as int;
            assert forall|turns: Seq<Rotation>|
                holds(found@, 0, turns) <==> is_solution_within(
                    initial_state@,
                    desired_state@,
                    min_moves as int,
                    next,
                    turns,
                ) by {
                if holds(before, 0, turns) {
                    let c = choose|c: nat|
                        min_moves <= c <= count - 1 && is_solution(initial_state@, desired_state@, c, turns);
                    assert(min_moves <= c <= next && is_solution(initial_state@, desired_state@, c, turns));
                }
                if holds(all, 0, turns) {
                    assert(min_moves <= count as nat <= next && is_solution(
                        initial_state@,
                        desired_state@,
                        count as nat,
                        turns,
                    ));
                }
                if is_solution_within(initial_state@, desired_state@, min_moves as int, next, turns) {
                    let c = choose|c: nat|
                        min_moves <= c <= next && is_solution(initial_state@, desired_state@, c, turns);
                    if c != count {
                        assert(min_moves <= c <= count - 1 && is_solution(initial_state@, desired_state@, c, turns));
                        assert(is_solution_within(
                            initial_state@,
                            desired_state@,
                            min_moves as int,
                            count - 1,
                            turns,
                        ));
                    }
                }
            }
        }
        count += 1;
    }
    Ok(found)
}

} // verus!
