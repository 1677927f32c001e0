//! Whole-machine iteration surfaces.
//!
//! Enumeration is rendered as materialised vectors: a machine hands out its
//! state identifiers, or one record per state with that state's final weight
//! and transition list. The records appear in state order, so consuming them
//! is equivalent to walking the machine state by state.

use vstd::prelude::*;

use crate::vector_fst::VectorFst;
use crate::{StateId, Tr, Weight};

verus! {

/// One state's worth of data handed out by whole-machine iteration.
#[derive(Debug)]
pub struct FstIterData {
    pub state_id: StateId,
    pub final_weight: Option<Weight>,
    pub trs: Vec<Tr>,
    pub num_trs: usize,
}

/// Enumerating the states of a machine: the identifiers `0, 1, 2, ...` up to
/// the state count, in order.
pub trait StateIterator {
    /// How many states the enumeration covers.
    spec fn spec_states_len(&self) -> nat;

    /// The state identifiers, dense and in order.
    fn states_iter(&self) -> (r: Vec<StateId>)
        ensures
            r@.len() == self.spec_states_len(),
            forall|i: int| 0 <= i < r@.len() ==> r@[i] == i,
    ;
}

/// Iteration over a borrowed machine: one record per state, in state order,
/// carrying the state's final weight and a copy of its transition list.
pub trait FstIterator {
    /// How many states the iteration covers.
    spec fn spec_iter_len(&self) -> nat;

    /// The final weight the record of state `q` carries.
    spec fn spec_iter_final(&self, q: int) -> Option<Weight>;

    /// The transition list the record of state `q` carries.
    spec fn spec_iter_trs(&self, q: int) -> Seq<Tr>;

    fn fst_iter(&self) -> (r: Vec<FstIterData>)
        ensures
            r@.len() == self.spec_iter_len(),
            forall|q: int|
                0 <= q < r@.len() ==> (#[trigger] r@[q]).state_id == q && r@[q].final_weight
                    == self.spec_iter_final(q) && r@[q].trs@ == self.spec_iter_trs(q)
                    && r@[q].num_trs == self.spec_iter_trs(q).len(),
    ;
}

/// Iteration that consumes the machine; the records are the same as those of
/// `FstIterator`.
pub trait FstIntoIterator {
    /// How many states the iteration covers.
    spec fn spec_into_iter_len(&self) -> nat;

    /// The final weight the record of state `q` carries.
    spec fn spec_into_iter_final(&self, q: int) -> Option<Weight>;

    /// The transition list the record of state `q` carries.
    spec fn spec_into_iter_trs(&self, q: int) -> Seq<Tr>;

    fn fst_into_iter(self) -> (r: Vec<FstIterData>)
        ensures
            r@.len() == self.spec_into_iter_len(),
            forall|q: int|
                0 <= q < r@.len() ==> (#[trigger] r@[q]).state_id == q && r@[q].final_weight
                    == self.spec_into_iter_final(q) && r@[q].trs@ == self.spec_into_iter_trs(q)
                    && r@[q].num_trs == self.spec_into_iter_trs(q).len(),
    ;
}

/// One record per state of `f`, in state order.
fn collect_iter_data(f: &VectorFst) -> (r: Vec<FstIterData>)
    ensures
        r@.len() == f.spec_num_states(),
        forall|q: int|
            0 <= q < r@.len() ==> (#[trigger] r@[q]).state_id == q && r@[q].final_weight
                == f.spec_final_weight(q) && r@[q].trs@ == f.spec_trs(q) && r@[q].num_trs
                == f.spec_trs(q).len(),
{
    let n = f.num_states();
    let mut r: Vec<FstIterData> = Vec::new();
    let mut q: usize = 0;
    while q < n
        invariant
            n == f.spec_num_states(),
            q <= n,
            r@.len() == q,
            forall|t: int|
                0 <= t < q ==> (#[trigger] r@[t]).state_id == t && r@[t].final_weight
                    == f.spec_final_weight(t) && r@[t].trs@ == f.spec_trs(t) && r@[t].num_trs
                    == f.spec_trs(t).len(),
        decreases n - q,
    {
        let trs = f.transitions(q);
        let num_trs = trs.len();
        r.push(FstIterData { state_id: q, final_weight: f.final_weight(q), trs, num_trs });
        q = q + 1;
    }
    r
}

impl StateIterator for VectorFst {
    open spec fn spec_states_len(&self) -> nat {
        self.spec_num_states()
    }

    fn states_iter(&self) -> (r: Vec<StateId>) {
        let n = self.num_states();
        let mut v: Vec<StateId> = Vec::new();
        let mut i: usize = 0;
        while i < n
            invariant
                i <= n,
                v@.len() == i,
                forall|j: int| 0 <= j < i ==> v@[j] == j,
            decreases n - i,
        {
            v.push(i);
            i = i + 1;
        }
        v
    }
}

impl FstIterator for VectorFst {
    open spec fn spec_iter_len(&self) -> nat {
        self.spec_num_states()
    }

    open spec fn spec_iter_final(&self, q: int) -> Option<Weight> {
        self.spec_final_weight(q)
    }

    open spec fn spec_iter_trs(&self, q: int) -> Seq<Tr> {
        self.spec_trs(q)
    }

    fn fst_iter(&self) -> (r: Vec<FstIterData>) {
        collect_iter_data(self)
    }
}

impl FstIntoIterator for VectorFst {
    open spec fn spec_into_iter_len(&self) -> nat {
        self.spec_num_states()
    }

    open spec fn spec_into_iter_final(&self, q: int) -> Option<Weight> {
        self.spec_final_weight(q)
    }

    open spec fn spec_into_iter_trs(&self, q: int) -> Seq<Tr> {
        self.spec_trs(q)
    }

    fn fst_into_iter(self) -> (r: Vec<FstIterData>) {
        collect_iter_data(&self)
    }
}

} // verus!
