//! A concrete, fully materialised weighted transducer.
//!
//! States are dense integers in insertion order; each state carries an
//! optional final weight and a list of outgoing transitions. This is both the
//! component type consumed by the Replace engine and the container the eager
//! Replace entry point materialises into.
//!
//! Transition targets are deliberately not validated here: a component that
//! hands out a state beyond its own state count is a faulty collaborator, and
//! the Replace engine surfaces that as an error when it walks the transition.

use vstd::prelude::*;

use crate::{StateId, Tr, Weight};

verus! {

/// One state: its optional final weight and its outgoing transitions.
#[derive(Debug)]
pub struct VectorFstState {
    pub final_weight: Option<Weight>,
    pub trs: Vec<Tr>,
}

/// A concrete transducer with dense integer states.
#[derive(Debug)]
pub struct VectorFst {
    states: Vec<VectorFstState>,
    start: Option<StateId>,
}

impl VectorFst {
    /// The number of states.
    pub closed spec fn spec_num_states(&self) -> nat {
        self.states@.len()
    }

    /// The designated start state, if any.
    pub closed spec fn spec_start(&self) -> Option<StateId> {
        self.start
    }

    /// The final weight of state `q`, absent when `q` is not final.
    pub closed spec fn spec_final_weight(&self, q: int) -> Option<Weight>
        recommends
            0 <= q < self.spec_num_states(),
    {
        self.states@[q].final_weight
    }

    /// Whether state `q` is final.
    pub open spec fn spec_is_final(&self, q: int) -> bool
        recommends
            0 <= q < self.spec_num_states(),
    {
        self.spec_final_weight(q) is Some
    }

    /// The outgoing transitions of state `q`, in insertion order.
    pub closed spec fn spec_trs(&self, q: int) -> Seq<Tr>
        recommends
            0 <= q < self.spec_num_states(),
    {
        self.states@[q].trs@
    }

    /// A start state, where designated, names an existing state.
    pub open spec fn wf(&self) -> bool {
        self.spec_start() matches Some(s) ==> (s as int) < self.spec_num_states()
    }

    /// An empty transducer: no states, no start.
    pub fn new() -> (r: Self)
        ensures
            r.spec_num_states() == 0,
            r.spec_start() is None,
            r.wf(),
    {
        VectorFst { states: Vec::new(), start: None }
    }

    pub fn num_states(&self) -> (r: usize)
        ensures
            r == self.spec_num_states(),
    {
        self.states.len()
    }

    pub fn start(&self) -> (r: Option<StateId>)
        ensures
            r == self.spec_start(),
    {
        self.start
    }

    pub fn final_weight(&self, q: StateId) -> (r: Option<Weight>)
        requires
            (q as int) < self.spec_num_states(),
        ensures
            r == self.spec_final_weight(q as int),
    {
        self.states[q].final_weight
    }

    pub fn is_final(&self, q: StateId) -> (r: bool)
        requires
            (q as int) < self.spec_num_states(),
        ensures
            r == self.spec_is_final(q as int),
    {
        self.states[q].final_weight.is_some()
    }

    pub fn num_trs(&self, q: StateId) -> (r: usize)
        requires
            (q as int) < self.spec_num_states(),
        ensures
            r == self.spec_trs(q as int).len(),
    {
        self.states[q].trs.len()
    }

    /// The `i`-th outgoing transition of state `q`.
    pub fn tr(&self, q: StateId, i: usize) -> (r: Tr)
        requires
            (q as int) < self.spec_num_states(),
            (i as int) < self.spec_trs(q as int).len(),
        ensures
            r == self.spec_trs(q as int)[i as int],
    {
        self.states[q].trs[i]
    }

    /// A copy of the outgoing transitions of state `q`.
    pub fn transitions(&self, q: StateId) -> (r: Vec<Tr>)
        requires
            (q as int) < self.spec_num_states(),
        ensures
            r@ == self.spec_trs(q as int),
    {
        let slot = &self.states[q];
        let n = slot.trs.len();
        let mut v: Vec<Tr> = Vec::new();
        let mut i: usize = 0;
        while i < n
            invariant
                n == slot.trs@.len(),
                i <= n,
                v@ =~= slot.trs@.subrange(0, i as int),
            decreases n - i,
        {
            v.push(slot.trs[i]);
            i = i + 1;
        }
        proof {
            assert(v@ =~= slot.trs@);
        }
        v
    }

    /// Add a fresh state and return its identifier.
    pub fn add_state(&mut self) -> (r: StateId)
        ensures
            r == old(self).spec_num_states(),
            final(self).spec_num_states() == old(self).spec_num_states() + 1,
            final(self).spec_start() == old(self).spec_start(),
            final(self).spec_final_weight(r as int) is None,
            final(self).spec_trs(r as int) == Seq::<Tr>::empty(),
            forall|q: int|
                0 <= q < old(self).spec_num_states() ==> final(self).spec_final_weight(q) == old(self).spec_final_weight(q) && final(self).spec_trs(q) == old(self).spec_trs(q),
            old(self).wf() ==> final(self).wf(),
    {
        let r = self.states.len();
        self.states.push(VectorFstState { final_weight: None, trs: Vec::new() });
        proof {
            assert(self.spec_trs(r as int) =~= Seq::<Tr>::empty());
        }
        r
    }

    /// Designate the start state.
    pub fn set_start(&mut self, s: StateId)
        requires
            (s as int) < old(self).spec_num_states(),
        ensures
            final(self).spec_start() == Some(s),
            final(self).spec_num_states() == old(self).spec_num_states(),
            forall|q: int|
                0 <= q < old(self).spec_num_states() ==> final(self).spec_final_weight(q) == old(self).spec_final_weight(q) && final(self).spec_trs(q) == old(self).spec_trs(q),
            final(self).wf(),
    {
        self.start = Some(s);
    }

    /// Make state `q` final with weight `w`.
    pub fn set_final(&mut self, q: StateId, w: Weight)
        requires
            (q as int) < old(self).spec_num_states(),
        ensures
            final(self).spec_num_states() == old(self).spec_num_states(),
            final(self).spec_start() == old(self).spec_start(),
            final(self).spec_final_weight(q as int) == Some(w),
            final(self).spec_trs(q as int) == old(self).spec_trs(q as int),
            forall|t: int|
                0 <= t < old(self).spec_num_states() && t != q as int ==> final(self).spec_final_weight(t) == old(self).spec_final_weight(t) && final(self).spec_trs(t)
                    == old(self).spec_trs(t),
            old(self).wf() ==> final(self).wf(),
    {
        let slot = &mut self.states[q];
        slot.final_weight = Some(w);
    }

    /// Append one outgoing transition to state `q`. The transition's target is
    /// not validated.
    pub fn add_tr(&mut self, q: StateId, tr: Tr)
        requires
            (q as int) < old(self).spec_num_states(),
        ensures
            final(self).spec_num_states() == old(self).spec_num_states(),
            final(self).spec_start() == old(self).spec_start(),
            final(self).spec_final_weight(q as int) == old(self).spec_final_weight(q as int),
            final(self).spec_trs(q as int) == old(self).spec_trs(q as int).push(tr),
            forall|t: int|
                0 <= t < old(self).spec_num_states() && t != q as int ==> final(self).spec_final_weight(t) == old(self).spec_final_weight(t) && final(self).spec_trs(t)
                    == old(self).spec_trs(t),
            old(self).wf() ==> final(self).wf(),
    {
        let slot = &mut self.states[q];
        slot.trs.push(tr);
    }
}

/// Whether two transducers are identical: same start, same state count, and
/// state by state the same final weight and the same transition list.
pub open spec fn fst_equal(a: &VectorFst, b: &VectorFst) -> bool {
    &&& a.spec_start() == b.spec_start()
    &&& a.spec_num_states() == b.spec_num_states()
    &&& forall|q: int|
        0 <= q < a.spec_num_states() ==> a.spec_final_weight(q) == b.spec_final_weight(q)
            && a.spec_trs(q) == b.spec_trs(q)
}

/// Structural equality on transitions.
pub fn tr_eq(a: Tr, b: Tr) -> (r: bool)
    ensures
        r <==> a == b,
{
    a.ilabel == b.ilabel && a.olabel == b.olabel && a.weight == b.weight && a.nextstate
        == b.nextstate
}

/// Decide whether two transducers are identical, in the sense of `fst_equal`.
pub fn fst_eq(a: &VectorFst, b: &VectorFst) -> (r: bool)
    ensures
        r <==> fst_equal(a, b),
{
    let n = a.num_states();
    if n != b.num_states() {
        return false;
    }
    match (a.start(), b.start()) {
        (None, None) => {},
        (Some(x), Some(y)) => {
            if x != y {
                return false;
            }
        },
        _ => {
            return false;
        },
    }
    let mut q: usize = 0;
    while q < n
        invariant
            n == a.spec_num_states(),
            n == b.spec_num_states(),
            a.spec_start() == b.spec_start(),
            q <= n,
            forall|t: int|
                0 <= t < q ==> a.spec_final_weight(t) == b.spec_final_weight(t) && a.spec_trs(t)
                    == b.spec_trs(t),
        decreases n - q,
    {
        match (a.final_weight(q), b.final_weight(q)) {
            (None, None) => {},
            (Some(x), Some(y)) => {
                if x != y {
                    return false;
                }
            },
            _ => {
                return false;
            },
        }
        let m = a.num_trs(q);
        if m != b.num_trs(q) {
            return false;
        }
        let mut i: usize = 0;
        while i < m
            invariant
                n == a.spec_num_states(),
                n == b.spec_num_states(),
                q < n,
                m == a.spec_trs(q as int).len(),
                m == b.spec_trs(q as int).len(),
                i <= m,
                forall|j: int| 0 <= j < i ==> a.spec_trs(q as int)[j] == b.spec_trs(q as int)[j],
            decreases m - i,
        {
            if !tr_eq(a.tr(q, i), b.tr(q, i)) {
                return false;
            }
            i = i + 1;
        }
        proof {
            assert(a.spec_trs(q as int) =~= b.spec_trs(q as int));
        }
        q = q + 1;
    }
    true
}

/// Every transition target of `f` names a state `f` actually has.
pub open spec fn fst_closed(f: &VectorFst) -> bool {
    forall|q: int, k: int|
        0 <= q < f.spec_num_states() && 0 <= k < f.spec_trs(q).len() ==> ((#[trigger] f.spec_trs(
            q,
        )[k]).nextstate as int) < f.spec_num_states()
}

impl VectorFst {
    /// An identical copy, state by state.
    pub fn duplicate(&self) -> (r: VectorFst)
        requires
            self.wf(),
        ensures
            r.spec_num_states() == self.spec_num_states(),
            r.spec_start() == self.spec_start(),
            forall|q: int|
                0 <= q < self.spec_num_states() ==> r.spec_final_weight(q)
                    == self.spec_final_weight(q) && r.spec_trs(q) == self.spec_trs(q),
            fst_equal(self, &r),
            r.wf(),
    {
        let n = self.num_states();
        let mut r = VectorFst::new();
        let mut q: usize = 0;
        while q < n
            invariant
                self.wf(),
                n == self.spec_num_states(),
                q <= n,
                r.spec_num_states() == q,
                r.spec_start() is None,
                forall|t: int|
                    0 <= t < q ==> r.spec_final_weight(t) == self.spec_final_weight(t)
                        && r.spec_trs(t) == self.spec_trs(t),
            decreases n - q,
        {
            let id = r.add_state();
            let m = self.num_trs(q);
            let mut k: usize = 0;
            while k < m
                invariant
                    n == self.spec_num_states(),
                    q < n,
                    id == q,
                    m == self.spec_trs(q as int).len(),
                    k <= m,
                    r.spec_num_states() == q + 1,
                    r.spec_start() is None,
                    r.spec_final_weight(q as int) is None,
                    r.spec_trs(q as int) =~= self.spec_trs(q as int).subrange(0, k as int),
                    forall|t: int|
                        0 <= t < q ==> r.spec_final_weight(t) == self.spec_final_weight(t)
                            && r.spec_trs(t) == self.spec_trs(t),
                decreases m - k,
            {
                r.add_tr(id, self.tr(q, k));
                k = k + 1;
            }
            proof {
                assert(r.spec_trs(q as int) =~= self.spec_trs(q as int));
            }
            match self.final_weight(q) {
                Some(w) => {
                    r.set_final(id, w);
                },
                None => {},
            }
            q = q + 1;
        }
        match self.start() {
            Some(st) => {
                r.set_start(st);
            },
            None => {},
        }
        r
    }
}

} // verus!
