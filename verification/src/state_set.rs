//! A set of cube configurations, found again by their fingerprints.
use std::collections::HashMap;
use vstd::prelude::*;
use crate::cube::{lemma_same_view, CubeState};
use crate::side::Color;

verus! {

/// A set of configurations.
///
/// The configurations lie in a list, in the order in which they came. A table
/// leads from a fingerprint to the first configuration that has it; the few
/// that share a fingerprint with an earlier one are listed apart.
pub struct StateSet {
    items: Vec<CubeState>,
    index: HashMap<u64, usize>,
    clashes: Vec<usize>,
}

impl View for StateSet {
    type V = Set<Seq<Color>>;

    closed spec fn view(&self) -> Set<Seq<Color>> {
        Set::new(|cube: Seq<Color>| exists|i: int| 0 <= i < self.items@.len() && #[trigger] self.items@[i]@ == cube)
    }
}

impl StateSet {
    /// Whether the table and the list of clashes lead to every configuration
    /// of the set. Every set that this module hands out is well formed.
    pub closed spec fn wf(&self) -> bool {
        &&& forall|i: int| 0 <= i < self.items@.len() ==> (#[trigger] self.items@[i]).valid()
        &&& forall|key: u64| #[trigger]
            self.index@.contains_key(key) ==> self.index@[key] < self.items@.len()
                && self.items@[self.index@[key] as int].spec_fingerprint() == key
        &&& forall|c: int| 0 <= c < self.clashes@.len() ==> #[trigger] self.clashes@[c] < self.items@.len()
        &&& forall|i: int|
            0 <= i < self.items@.len() ==> self.index@.contains_key((#[trigger] self.items@[i]).spec_fingerprint())
                && (self.index@[self.items@[i].spec_fingerprint()] == i || exists|c: int|
                    0 <= c < self.clashes@.len() && #[trigger] self.clashes@[c] == i)
    }

    /// The empty set.
    pub fn new() -> (set: StateSet)
        ensures
            set.wf(),
            set@ == Set::<Seq<Color>>::empty(),
    {
        let set = StateSet { items: Vec::new(), index: HashMap::new(), clashes: Vec::new() };
        assert(set@ =~= Set::<Seq<Color>>::empty());
        set
    }

    /// Whether the set holds a configuration with the colours of `state`.
    pub fn contains(&self, state: &CubeState) -> (found: bool)
        requires
            self.wf(),
        ensures
            found == self@.contains(state@),
    {
        proof {
            use_type_invariant(state);
            assert forall|i: int| 0 <= i < self.items@.len() && #[trigger] self.items@[i]@ == state@ implies self.items@[i]
                == *state by {
                lemma_same_view(self.items@[i], *state);
            }
        }
        let key = state.fingerprint();
        match self.index.get(&key) {
            None => false,
            Some(first) => {
                if self.items[*first].equals(state) {
                    return true;
                }
                let mut c: usize = 0;
                while c < self.clashes.len()
                    invariant
                        self.wf(),
                        c <= self.clashes@.len(),
                        forall|k: int| 0 <= k < c ==> self.items@[#[trigger] self.clashes@[k] as int]@ != state@,
                    decreases self.clashes.len() - c,
                {
                    if self.items[self.clashes[c]].equals(state) {
                        return true;
                    }
                    c += 1;
                }
                false
            },
        }
    }

    /// Puts a configuration into the set. Says whether it was new.
    pub fn insert(&mut self, state: CubeState) -> (added: bool)
        requires
            old(self).wf(),
        ensures
            final(self).wf(),
            final(self)@ == old(self)@.insert(state@),
            added == !old(self)@.contains(state@),
    {
        if self.contains(&state) {
            assert(self@ =~= self@.insert(state@));
            return false;
        }
        proof {
            use_type_invariant(&state);
        }
        let key = state.fingerprint();
        let at = self.items.len();
        if self.index.contains_key(&key) {
            self.clashes.push(at);
            self.items.push(state);
            proof {
                assert(self.clashes@[self.clashes@.len() - 1] == at);
                assert forall|i: int| 0 <= i < self.items@.len() implies self.index@.contains_key(
                    (#[trigger] self.items@[i]).spec_fingerprint(),
                ) && (self.index@[self.items@[i].spec_fingerprint()] == i || exists|c: int|
                    0 <= c < self.clashes@.len() && #[trigger] self.clashes@[c] == i) by {
                    if i < at {
                        assert(self.items@[i] == old(self).items@[i]);
                        if old(self).index@[old(self).items@[i].spec_fingerprint()] != i {
                            let c = choose|c: int| 0 <= c < old(self).clashes@.len() && #[trigger] old(self).clashes@[c] == i;
                            assert(self.clashes@[c] == i);
                        }
                    }
                }
            }
        } else {
            self.index.insert(key, at);
            self.items.push(state);
            proof {
                assert forall|i: int| 0 <= i < self.items@.len() implies self.index@.contains_key(
                    (#[trigger] self.items@[i]).spec_fingerprint(),
                ) && (self.index@[self.items@[i].spec_fingerprint()] == i || exists|c: int|
                    0 <= c < self.clashes@.len() && #[trigger] self.clashes@[c] == i) by {
                    if i < at {
                        assert(self.items@[i] == old(self).items@[i]);
                        if old(self).index@[old(self).items@[i].spec_fingerprint()] != i {
                            let c = choose|c: int| 0 <= c < old(self).clashes@.len() && #[trigger] old(self).clashes@[c] == i;
                            assert(self.clashes@[c] == i);
                        }
                    }
                }
            }
        }
        proof {
            assert(self.items@[at as int]@ == state@);
            assert forall|cube: Seq<Color>| self@.contains(cube) <==> old(self)@.insert(state@).contains(cube) by {
                if self@.contains(cube) {
                    let i = choose|i: int| 0 <= i < self.items@.len() && #[trigger] self.items@[i]@ == cube;
                    if i < at {
                        assert(old(self).items@[i]@ == cube);
                    }
                }
                if old(self)@.contains(cube) {
                    let i = choose|i: int| 0 <= i < old(self).items@.len() && #[trigger] old(self).items@[i]@ == cube;
                    assert(self.items@[i]@ == cube);
                }
            }
            assert(self@ =~= old(self)@.insert(state@));
        }
        true
    }

    /// Puts every configuration of `other` into the set.
    pub fn merge(&mut self, other: &StateSet)
        requires
            old(self).wf(),
            other.wf(),
        ensures
            final(self).wf(),
            final(self)@ == old(self)@.union(other@),
    {
        let mut i: usize = 0;
        while i < other.items.len()
            invariant
                i <= other.items@.len(),
                self.wf(),
                forall|cube: Seq<Color>| #[trigger]
                    self@.contains(cube) <==> old(self)@.contains(cube) || exists|k: int|
                        0 <= k < i && #[trigger] other.items@[k]@ == cube,
            decreases other.items.len() - i,
        {
            let ghost before = self@;
            self.insert(other.items[i]);
            proof {
                assert forall|cube: Seq<Color>| #[trigger]
                    self@.contains(cube) <==> old(self)@.contains(cube) || exists|k: int|
                        0 <= k < i + 1 && #[trigger] other.items@[k]@ == cube by {
                    if before.contains(cube) && !old(self)@.contains(cube) {
                        let k = choose|k: int| 0 <= k < i && #[trigger] other.items@[k]@ == cube;
                        assert(0 <= k < i + 1 && other.items@[k]@ == cube);
                    }
                    if cube == other.items@[i as int]@ {
                        assert(0 <= i < i + 1 && other.items@[i as int]@ == cube);
                    }
                }
            }
            i += 1;
        }
        assert(self@ =~= old(self)@.union(other@));
    }
}

} // verus!
