//! The expansion cache of the Replace core.
//!
//! Per result-state memo of whether the state has been expanded, its list of
//! outgoing transitions and its final weight, plus one instance-wide slot for
//! the designated start state. Entries are write-once: a slot is filled during
//! a single expansion and never invalidated, which is what makes "expand at
//! most once per state" enforceable.

use vstd::prelude::*;

use crate::{StateId, Tr, Weight};

verus! {

/// One memo slot: expansion flag, cached transitions, cached final weight.
#[derive(Debug)]
pub struct CacheState {
    pub expanded: bool,
    pub trs: Vec<Tr>,
    pub final_weight: Option<Weight>,
}

/// The expansion cache.
#[derive(Debug)]
pub struct CacheImpl {
    states: Vec<CacheState>,
    start: Option<StateId>,
    start_computed: bool,
}

impl CacheImpl {
    /// How many slots exist; slots are created on demand, in identifier order.
    pub closed spec fn spec_len(&self) -> nat {
        self.states@.len()
    }

    /// Whether slot `s` exists and has been expanded.
    pub closed spec fn spec_expanded(&self, s: int) -> bool {
        0 <= s < self.states@.len() && self.states@[s].expanded
    }

    /// The cached transitions of slot `s`.
    pub closed spec fn spec_trs(&self, s: int) -> Seq<Tr>
        recommends
            0 <= s < self.spec_len(),
    {
        self.states@[s].trs@
    }

    /// The cached final weight of slot `s`.
    pub closed spec fn spec_final(&self, s: int) -> Option<Weight>
        recommends
            0 <= s < self.spec_len(),
    {
        self.states@[s].final_weight
    }

    /// Whether the start state has been computed yet.
    pub closed spec fn spec_start_computed(&self) -> bool {
        self.start_computed
    }

    /// The memoised start state; meaningful once computed.
    pub closed spec fn spec_start(&self) -> Option<StateId> {
        self.start
    }

    /// An expanded slot exists.
    pub proof fn lemma_expanded_bound(&self, s: int)
        ensures
            self.spec_expanded(s) ==> 0 <= s < self.spec_len(),
    {
    }

    pub fn new() -> (r: Self)
        ensures
            r.spec_len() == 0,
            !r.spec_start_computed(),
            r.spec_start() is None,
    {
        CacheImpl { states: Vec::new(), start: None, start_computed: false }
    }

    pub fn len(&self) -> (r: usize)
        ensures
            r == self.spec_len(),
    {
        self.states.len()
    }

    /// Whether state `s` has been expanded; unknown states have not been.
    pub fn expanded(&self, s: StateId) -> (r: bool)
        ensures
            r == self.spec_expanded(s as int),
    {
        s < self.states.len() && self.states[s].expanded
    }

    /// Make sure a slot exists for state `s`, creating empty unexpanded slots
    /// for it and any smaller identifiers still missing.
    pub fn ensure_slot(&mut self, s: StateId)
        ensures
            final(self).spec_len() > s as int,
            final(self).spec_len() >= old(self).spec_len(),
            final(self).spec_len() == old(self).spec_len() || final(self).spec_len() == s as int
                + 1,
            forall|t: int|
                0 <= t < old(self).spec_len() ==> final(self).spec_expanded(t) == old(self).spec_expanded(t) && final(self).spec_trs(t) == old(self).spec_trs(t) && final(self).spec_final(t) == old(self).spec_final(t),
            forall|t: int|
                old(self).spec_len() <= t < final(self).spec_len() ==> !final(self).spec_expanded(t) && final(self).spec_trs(t) == Seq::<Tr>::empty() && final(self).spec_final(t) is None,
            final(self).spec_start_computed() == old(self).spec_start_computed(),
            final(self).spec_start() == old(self).spec_start(),
    {
        while self.states.len() <= s
            invariant
                self.spec_len() >= old(self).spec_len(),
                self.spec_len() == old(self).spec_len() || self.spec_len() <= s as int + 1,
                forall|t: int|
                    0 <= t < old(self).spec_len() ==> self.spec_expanded(t) == old(
                        self,
                    ).spec_expanded(t) && self.spec_trs(t) == old(self).spec_trs(t)
                        && self.spec_final(t) == old(self).spec_final(t),
                forall|t: int|
                    old(self).spec_len() <= t < self.spec_len() ==> !self.spec_expanded(t)
                        && self.spec_trs(t) == Seq::<Tr>::empty() && self.spec_final(t) is None,
                self.spec_start_computed() == old(self).spec_start_computed(),
                self.spec_start() == old(self).spec_start(),
            decreases s + 1 - self.states.len(),
        {
            let ghost prev = *self;
            self.states.push(CacheState { expanded: false, trs: Vec::new(), final_weight: None });
            proof {
                assert forall|t: int|
                    old(self).spec_len() <= t < self.spec_len() implies !self.spec_expanded(t)
                    && self.spec_trs(t) == Seq::<Tr>::empty() && self.spec_final(t) is None by {
                    if t < prev.spec_len() {
                        assert(!prev.spec_expanded(t));
                        assert(prev.spec_trs(t) == Seq::<Tr>::empty());
                        assert(prev.spec_final(t) is None);
                        assert(self.states@[t] == prev.states@[t]);
                    } else {
                        assert(self.spec_trs(t) =~= Seq::<Tr>::empty());
                    }
                }
            }
        }
    }

    /// Engine-only: append one transition to an unexpanded slot.
    pub fn push_transition(&mut self, s: StateId, tr: Tr)
        requires
            (s as int) < old(self).spec_len(),
            !old(self).spec_expanded(s as int),
        ensures
            final(self).spec_len() == old(self).spec_len(),
            final(self).spec_trs(s as int) == old(self).spec_trs(s as int).push(tr),
            !final(self).spec_expanded(s as int),
            final(self).spec_final(s as int) == old(self).spec_final(s as int),
            forall|t: int|
                0 <= t < old(self).spec_len() && t != s as int ==> final(self).spec_expanded(t)
                    == old(self).spec_expanded(t) && final(self).spec_trs(t) == old(self).spec_trs(t) && final(self).spec_final(t) == old(self).spec_final(t),
            final(self).spec_start_computed() == old(self).spec_start_computed(),
            final(self).spec_start() == old(self).spec_start(),
    {
        let slot = &mut self.states[s];
        slot.trs.push(tr);
    }

    /// Engine-only: record the final weight of an unexpanded slot.
    pub fn set_final(&mut self, s: StateId, w: Option<Weight>)
        requires
            (s as int) < old(self).spec_len(),
            !old(self).spec_expanded(s as int),
        ensures
            final(self).spec_len() == old(self).spec_len(),
            final(self).spec_final(s as int) == w,
            !final(self).spec_expanded(s as int),
            final(self).spec_trs(s as int) == old(self).spec_trs(s as int),
            forall|t: int|
                0 <= t < old(self).spec_len() && t != s as int ==> final(self).spec_expanded(t)
                    == old(self).spec_expanded(t) && final(self).spec_trs(t) == old(self).spec_trs(t) && final(self).spec_final(t) == old(self).spec_final(t),
            final(self).spec_start_computed() == old(self).spec_start_computed(),
            final(self).spec_start() == old(self).spec_start(),
    {
        let slot = &mut self.states[s];
        slot.final_weight = w;
    }

    /// Engine-only: seal a slot once its expansion is complete.
    pub fn mark_expanded(&mut self, s: StateId)
        requires
            (s as int) < old(self).spec_len(),
        ensures
            final(self).spec_len() == old(self).spec_len(),
            final(self).spec_expanded(s as int),
            final(self).spec_trs(s as int) == old(self).spec_trs(s as int),
            final(self).spec_final(s as int) == old(self).spec_final(s as int),
            forall|t: int|
                0 <= t < old(self).spec_len() && t != s as int ==> final(self).spec_expanded(t)
                    == old(self).spec_expanded(t) && final(self).spec_trs(t) == old(self).spec_trs(t) && final(self).spec_final(t) == old(self).spec_final(t),
            final(self).spec_start_computed() == old(self).spec_start_computed(),
            final(self).spec_start() == old(self).spec_start(),
    {
        let slot = &mut self.states[s];
        slot.expanded = true;
    }

    /// A copy of the cached transitions of state `s`.
    pub fn transitions(&self, s: StateId) -> (r: Vec<Tr>)
        requires
            (s as int) < self.spec_len(),
        ensures
            r@ == self.spec_trs(s as int),
    {
        let slot = &self.states[s];
        let n = slot.trs.len();
        let mut v: Vec<Tr> = Vec::new();
        let mut i: usize = 0;
        while i < n
            invariant
                n == slot.trs@.len(),
                i <= n,
                v@ =~= slot.trs@.subrange(0, i as int),
            decreases n - i,
        {
            v.push(slot.trs[i]);
            i = i + 1;
        }
        proof {
            assert(v@ =~= slot.trs@);
        }
        v
    }

    /// The cached final weight of state `s`.
    pub fn final_weight(&self, s: StateId) -> (r: Option<Weight>)
        requires
            (s as int) < self.spec_len(),
        ensures
            r == self.spec_final(s as int),
    {
        self.states[s].final_weight
    }

    /// Whether the start state has been computed yet.
    pub fn start_computed(&self) -> (r: bool)
        ensures
            r == self.spec_start_computed(),
    {
        self.start_computed
    }

    /// The memoised start state.
    pub fn start(&self) -> (r: Option<StateId>)
        ensures
            r == self.spec_start(),
    {
        self.start
    }

    /// Engine-only: memoise the start state, which may legitimately be absent.
    pub fn set_start(&mut self, st: Option<StateId>)
        requires
            !old(self).spec_start_computed(),
        ensures
            final(self).spec_start_computed(),
            final(self).spec_start() == st,
            final(self).spec_len() == old(self).spec_len(),
            forall|t: int|
                0 <= t < old(self).spec_len() ==> final(self).spec_expanded(t) == old(self).spec_expanded(t) && final(self).spec_trs(t) == old(self).spec_trs(t) && final(self).spec_final(t) == old(self).spec_final(t),
    {
        self.start = st;
        self.start_computed = true;
    }
}

} // verus!
