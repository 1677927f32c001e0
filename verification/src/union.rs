//! Union of two transducers, eagerly and lazily.
//!
//! The union machine keeps the first operand's states under their own
//! identifiers and appends the second operand's states shifted by the first's
//! state count; when both operands have a start state, one epsilon transition
//! of unit weight leads from the first start to the shifted second start, and
//! the first operand's start is the start of the union.

use vstd::prelude::*;

use crate::vector_fst::{fst_closed, fst_equal, tr_eq, VectorFst};
use crate::{StateId, Tr, Weight, EPS_LABEL, WEIGHT_ONE};

verus! {

/// A transition of the second operand, with its target shifted past the first
/// operand's states.
pub open spec fn shifted_tr(n1: int, t: Tr) -> Tr {
    Tr { ilabel: t.ilabel, olabel: t.olabel, weight: t.weight, nextstate: (t.nextstate + n1) as usize }
}

/// The transitions the union machine has at state `s`, given the operands:
/// a first-operand state keeps its own list, with the connecting epsilon
/// transition appended at the start state when both operands have one; a
/// second-operand state carries the shifted copy of its list.
pub open spec fn union_trs_at(a: &VectorFst, b: &VectorFst, s: int, trs: Seq<Tr>) -> bool {
    let n1 = a.spec_num_states() as int;
    if s < n1 {
        if (match (a.spec_start(), b.spec_start()) {
            (Some(s1), Some(s2)) => s == s1 as int,
            _ => false,
        }) {
            trs == a.spec_trs(s).push(
                Tr {
                    ilabel: EPS_LABEL,
                    olabel: EPS_LABEL,
                    weight: WEIGHT_ONE,
                    nextstate: (b.spec_start()->Some_0 + n1) as usize,
                },
            )
        } else {
            trs == a.spec_trs(s)
        }
    } else {
        trs.len() == b.spec_trs(s - n1).len() && (forall|k: int|
            0 <= k < trs.len() ==> #[trigger] trs[k] == shifted_tr(n1, b.spec_trs(s - n1)[k]))
    }
}

/// The final weight the union machine has at state `s`.
pub open spec fn union_final_at(a: &VectorFst, b: &VectorFst, s: int) -> Option<Weight> {
    let n1 = a.spec_num_states() as int;
    if s < n1 {
        a.spec_final_weight(s)
    } else {
        b.spec_final_weight(s - n1)
    }
}

/// What it means for `r` to be the union of `a` and `b`. These clauses pin
/// `r` completely: state count, start, and state by state the transition list
/// and the final weight.
pub open spec fn union_result_ok(a: &VectorFst, b: &VectorFst, r: &VectorFst) -> bool {
    &&& r.spec_num_states() == a.spec_num_states() + b.spec_num_states()
    &&& r.spec_start() == a.spec_start()
    &&& forall|s: int|
        0 <= s < r.spec_num_states() ==> union_trs_at(a, b, s, #[trigger] r.spec_trs(s))
            && r.spec_final_weight(s) == union_final_at(a, b, s)
}

/// The inputs `union` accepts: well-formed operands, a second operand whose
/// transitions stay within its own states, and a combined state count that
/// still fits the machine.
pub open spec fn union_inputs_ok(a: &VectorFst, b: &VectorFst) -> bool {
    &&& a.wf()
    &&& b.wf()
    &&& fst_closed(b)
    &&& a.spec_num_states() + b.spec_num_states() <= usize::MAX
}


/// States `lo <= t < hi` of `r` already carry the union machine's transitions
/// and final weights.
spec fn union_range_ok(a: VectorFst, b: VectorFst, r: VectorFst, lo: int, hi: int) -> bool {
    forall|t: int|
        lo <= t < hi ==> union_trs_at(&a, &b, t, #[trigger] r.spec_trs(t)) && r.spec_final_weight(
            t,
        ) == union_final_at(&a, &b, t)
}

/// Two transducers that are both the union of the same operands are
/// identical.
pub proof fn lemma_union_result_unique(a: &VectorFst, b: &VectorFst, r1: &VectorFst, r2: &VectorFst)
    requires
        union_result_ok(a, b, r1),
        union_result_ok(a, b, r2),
    ensures
        fst_equal(r1, r2),
{
    assert forall|s: int| 0 <= s < r1.spec_num_states() implies r1.spec_final_weight(s)
        == r2.spec_final_weight(s) && r1.spec_trs(s) == r2.spec_trs(s) by {
        assert(union_trs_at(a, b, s, r1.spec_trs(s)));
        assert(union_trs_at(a, b, s, r2.spec_trs(s)));
        let n1 = a.spec_num_states() as int;
        if s >= n1 {
            assert(r1.spec_trs(s) =~= r2.spec_trs(s));
        }
    }
}

/// Replace `fst1` with the union of `fst1` and `fst2`.
pub fn union(fst1: &mut VectorFst, fst2: &VectorFst)
    requires
        union_inputs_ok(old(fst1), fst2),
    ensures
        final(fst1).wf(),
        union_result_ok(old(fst1), fst2, final(fst1)),
{
    let n1 = fst1.num_states();
    let n2 = fst2.num_states();
    let mut q: usize = 0;
    while q < n2
        invariant
            union_inputs_ok(old(fst1), fst2),
            n1 == old(fst1).spec_num_states(),
            n2 == fst2.spec_num_states(),
            q <= n2,
            fst1.wf(),
            fst1.spec_num_states() == n1 + q,
            fst1.spec_start() == old(fst1).spec_start(),
            forall|t: int|
                0 <= t < n1 ==> #[trigger] fst1.spec_trs(t) == old(fst1).spec_trs(t)
                    && fst1.spec_final_weight(t) == old(fst1).spec_final_weight(t),
            union_range_ok(*old(fst1), *fst2, *fst1, n1 as int, n1 + q),
        decreases n2 - q,
    {
        let id = fst1.add_state();
        match fst2.final_weight(q) {
            Some(w) => {
                fst1.set_final(id, w);
            },
            None => {},
        }
        let m = fst2.num_trs(q);
        let mut k: usize = 0;
        while k < m
            invariant
                union_inputs_ok(old(fst1), fst2),
                n1 == old(fst1).spec_num_states(),
                n2 == fst2.spec_num_states(),
                q < n2,
                id == n1 + q,
                m == fst2.spec_trs(q as int).len(),
                k <= m,
                fst1.wf(),
                fst1.spec_num_states() == n1 + q + 1,
                fst1.spec_start() == old(fst1).spec_start(),
                fst1.spec_final_weight(id as int) == fst2.spec_final_weight(q as int),
                fst1.spec_trs(id as int).len() == k,
                forall|j: int|
                    0 <= j < k ==> #[trigger] fst1.spec_trs(id as int)[j] == shifted_tr(
                        n1 as int,
                        fst2.spec_trs(q as int)[j],
                    ),
                forall|t: int|
                    0 <= t < n1 ==> #[trigger] fst1.spec_trs(t) == old(fst1).spec_trs(t)
                        && fst1.spec_final_weight(t) == old(fst1).spec_final_weight(t),
                union_range_ok(*old(fst1), *fst2, *fst1, n1 as int, n1 + q),
            decreases m - k,
        {
            let t = fst2.tr(q, k);
            proof {
                assert((t.nextstate as int) < n2);
            }
            fst1.add_tr(id, Tr::new(t.ilabel, t.olabel, t.weight, t.nextstate + n1));
            k = k + 1;
        }
        proof {
            assert(union_trs_at(old(fst1), fst2, id as int, fst1.spec_trs(id as int)));
            assert(union_range_ok(*old(fst1), *fst2, *fst1, n1 as int, n1 + q + 1));
        }
        q = q + 1;
    }
    match (fst1.start(), fst2.start()) {
        (Some(s1), Some(s2)) => {
            let ghost pre = *fst1;
            fst1.add_tr(s1, Tr::new(EPS_LABEL, EPS_LABEL, WEIGHT_ONE, s2 + n1));
            proof {
                assert forall|s: int| 0 <= s < fst1.spec_num_states() implies union_trs_at(
                    old(fst1),
                    fst2,
                    s,
                    #[trigger] fst1.spec_trs(s),
                ) && fst1.spec_final_weight(s) == union_final_at(old(fst1), fst2, s) by {
                    if s == s1 as int {
                        assert(fst1.spec_trs(s) == pre.spec_trs(s).push(
                            Tr {
                                ilabel: EPS_LABEL,
                                olabel: EPS_LABEL,
                                weight: WEIGHT_ONE,
                                nextstate: (s2 + n1) as usize,
                            },
                        ));
                        assert(pre.spec_trs(s) == old(fst1).spec_trs(s));
                    } else if s < n1 {
                        assert(fst1.spec_trs(s) == pre.spec_trs(s));
                        assert(pre.spec_trs(s) == old(fst1).spec_trs(s));
                    } else {
                        assert(fst1.spec_trs(s) == pre.spec_trs(s));
                        assert(union_trs_at(old(fst1), fst2, s, pre.spec_trs(s)));
                        assert(pre.spec_final_weight(s) == union_final_at(old(fst1), fst2, s));
                    }
                }
            }
        },
        _ => {
            proof {
                assert forall|s: int| 0 <= s < fst1.spec_num_states() implies union_trs_at(
                    old(fst1),
                    fst2,
                    s,
                    #[trigger] fst1.spec_trs(s),
                ) && fst1.spec_final_weight(s) == union_final_at(old(fst1), fst2, s) by {
                    if s < n1 {
                        assert(fst1.spec_trs(s) == old(fst1).spec_trs(s));
                    } else {
                        assert(union_trs_at(old(fst1), fst2, s, fst1.spec_trs(s)));
                    }
                }
            }
        },
    }
}

/// The lazy union of two transducers: it owns its operands and computes each
/// answer directly from them, with no cache needed since no interning takes
/// place.
pub struct UnionFst {
    fst1: VectorFst,
    fst2: VectorFst,
}

impl UnionFst {
    /// The first operand.
    pub closed spec fn spec_fst1(&self) -> VectorFst {
        self.fst1
    }

    /// The second operand.
    pub closed spec fn spec_fst2(&self) -> VectorFst {
        self.fst2
    }

    pub open spec fn wf(&self) -> bool {
        union_inputs_ok(&self.spec_fst1(), &self.spec_fst2())
    }

    pub fn new(fst1: VectorFst, fst2: VectorFst) -> (r: Self)
        requires
            union_inputs_ok(&fst1, &fst2),
        ensures
            r.spec_fst1() == fst1,
            r.spec_fst2() == fst2,
            r.wf(),
    {
        UnionFst { fst1, fst2 }
    }

    pub fn start(&self) -> (r: Option<StateId>)
        ensures
            r == self.spec_fst1().spec_start(),
    {
        self.fst1.start()
    }

    pub fn num_states(&self) -> (r: usize)
        requires
            self.wf(),
        ensures
            r == self.spec_fst1().spec_num_states() + self.spec_fst2().spec_num_states(),
    {
        self.fst1.num_states() + self.fst2.num_states()
    }

    pub fn final_weight(&self, s: StateId) -> (r: Option<Weight>)
        requires
            self.wf(),
            (s as int) < self.spec_fst1().spec_num_states() + self.spec_fst2().spec_num_states(),
        ensures
            r == union_final_at(&self.spec_fst1(), &self.spec_fst2(), s as int),
    {
        let n1 = self.fst1.num_states();
        if s < n1 {
            self.fst1.final_weight(s)
        } else {
            self.fst2.final_weight(s - n1)
        }
    }

    /// The outgoing transitions of state `s` of the union machine.
    pub fn transitions(&self, s: StateId) -> (r: Vec<Tr>)
        requires
            self.wf(),
            (s as int) < self.spec_fst1().spec_num_states() + self.spec_fst2().spec_num_states(),
        ensures
            union_trs_at(&self.spec_fst1(), &self.spec_fst2(), s as int, r@),
    {
        let n1 = self.fst1.num_states();
        if s < n1 {
            let mut r = self.fst1.transitions(s);
            match (self.fst1.start(), self.fst2.start()) {
                (Some(s1), Some(s2)) => {
                    if s == s1 {
                        r.push(Tr::new(EPS_LABEL, EPS_LABEL, WEIGHT_ONE, s2 + n1));
                    }
                },
                _ => {},
            }
            r
        } else {
            let q = s - n1;
            let m = self.fst2.num_trs(q);
            let mut r: Vec<Tr> = Vec::new();
            let mut k: usize = 0;
            while k < m
                invariant
                    self.wf(),
                    n1 == self.spec_fst1().spec_num_states(),
                    (q as int) < self.spec_fst2().spec_num_states(),
                    m == self.spec_fst2().spec_trs(q as int).len(),
                    k <= m,
                    r@.len() == k,
                    forall|j: int|
                        0 <= j < k ==> #[trigger] r@[j] == shifted_tr(
                            n1 as int,
                            self.spec_fst2().spec_trs(q as int)[j],
                        ),
                decreases m - k,
            {
                let t = self.fst2.tr(q, k);
                proof {
                    assert((t.nextstate as int) < self.spec_fst2().spec_num_states());
                }
                r.push(Tr::new(t.ilabel, t.olabel, t.weight, t.nextstate + n1));
                k = k + 1;
            }
            r
        }
    }
}

/// Decide whether the materialised `f` is exactly the union machine described
/// by `lazy`'s operands, state by state.
pub fn compare_fst_static_lazy(f: &VectorFst, lazy: &UnionFst) -> (r: bool)
    requires
        lazy.wf(),
    ensures
        r <==> union_result_ok(&lazy.spec_fst1(), &lazy.spec_fst2(), f),
{
    let ghost a = lazy.spec_fst1();
    let ghost b = lazy.spec_fst2();
    let n = lazy.num_states();
    if f.num_states() != n {
        return false;
    }
    match (f.start(), lazy.start()) {
        (None, None) => {},
        (Some(x), Some(y)) => {
            if x != y {
                return false;
            }
        },
        _ => {
            return false;
        },
    }
    let mut s: usize = 0;
    while s < n
        invariant
            lazy.wf(),
            a == lazy.spec_fst1(),
            b == lazy.spec_fst2(),
            n == a.spec_num_states() + b.spec_num_states(),
            f.spec_num_states() == n,
            f.spec_start() == a.spec_start(),
            s <= n,
            union_range_ok(a, b, *f, 0, s as int),
        decreases n - s,
    {
        let want = lazy.transitions(s);
        let have = f.transitions(s);
        let m = want.len();
        if have.len() != m {
            proof {
                if union_result_ok(&a, &b, f) {
                    assert(union_trs_at(&a, &b, s as int, f.spec_trs(s as int)));
                    lemma_union_trs_unique(&a, &b, s as int, want@, f.spec_trs(s as int));
                }
            }
            return false;
        }
        let mut k: usize = 0;
        while k < m
            invariant
                lazy.wf(),
                a == lazy.spec_fst1(),
                b == lazy.spec_fst2(),
                (s as int) < a.spec_num_states() + b.spec_num_states(),
                f.spec_num_states() == a.spec_num_states() + b.spec_num_states(),
                union_trs_at(&a, &b, s as int, want@),
                have@ == f.spec_trs(s as int),
                m == want@.len(),
                have@.len() == m,
                k <= m,
                forall|j: int| 0 <= j < k ==> have@[j] == #[trigger] want@[j],
            decreases m - k,
        {
            if !tr_eq(have[k], want[k]) {
                proof {
                    if union_result_ok(&a, &b, f) {
                        assert(union_trs_at(&a, &b, s as int, f.spec_trs(s as int)));
                        lemma_union_trs_unique(&a, &b, s as int, want@, f.spec_trs(s as int));
                    }
                }
                return false;
            }
            k = k + 1;
        }
        proof {
            assert(have@ =~= want@);
        }
        let fw = f.final_weight(s);
        let lw = lazy.final_weight(s);
        let same_final = match (fw, lw) {
            (None, None) => true,
            (Some(x), Some(y)) => x == y,
            _ => false,
        };
        if !same_final {
            proof {
                if union_result_ok(&a, &b, f) {
                    assert(f.spec_final_weight(s as int) == union_final_at(&a, &b, s as int));
                }
            }
            return false;
        }
        proof {
            assert(have@ =~= want@);
            assert(union_trs_at(&a, &b, s as int, f.spec_trs(s as int)));
            assert(f.spec_final_weight(s as int) == union_final_at(&a, &b, s as int));
            assert forall|t: int|
                0 <= t < s + 1 implies union_trs_at(&a, &b, t, #[trigger] f.spec_trs(t))
                && f.spec_final_weight(t) == union_final_at(&a, &b, t) by {
                if t < s {
                    assert(union_range_ok(a, b, *f, 0, s as int));
                }
            }
            assert(union_range_ok(a, b, *f, 0, s + 1));
        }
        s = s + 1;
    }
    proof {
        assert(union_range_ok(a, b, *f, 0, n as int));
        assert forall|t: int| 0 <= t < f.spec_num_states() implies union_trs_at(
            &a,
            &b,
            t,
            #[trigger] f.spec_trs(t),
        ) && f.spec_final_weight(t) == union_final_at(&a, &b, t) by {
            assert(0 <= t < n as int);
        }
        assert(union_result_ok(&a, &b, f));
        assert(a == lazy.spec_fst1() && b == lazy.spec_fst2());
    }
    true
}

/// Any two transition lists that fit `union_trs_at` for the same state are
/// equal.
proof fn lemma_union_trs_unique(a: &VectorFst, b: &VectorFst, s: int, t1: Seq<Tr>, t2: Seq<Tr>)
    requires
        union_trs_at(a, b, s, t1),
        union_trs_at(a, b, s, t2),
    ensures
        t1 == t2,
{
    if s >= a.spec_num_states() as int {
        assert(t1 =~= t2);
    }
}

/// `union_result_ok` only looks at the operands and the result through their
/// states, so it respects state-by-state equality of all three.
pub proof fn lemma_union_result_congruence(
    a1: &VectorFst,
    a2: &VectorFst,
    b1: &VectorFst,
    b2: &VectorFst,
    r1: &VectorFst,
    r2: &VectorFst,
)
    requires
        fst_equal(a1, a2),
        fst_equal(b1, b2),
        fst_equal(r1, r2),
    ensures
        union_result_ok(a1, b1, r1) <==> union_result_ok(a2, b2, r2),
{
    if union_result_ok(a1, b1, r1) {
        assert forall|s: int| 0 <= s < r2.spec_num_states() implies union_trs_at(
            a2,
            b2,
            s,
            #[trigger] r2.spec_trs(s),
        ) && r2.spec_final_weight(s) == union_final_at(a2, b2, s) by {
            assert(union_trs_at(a1, b1, s, r1.spec_trs(s)));
            assert(r2.spec_trs(s) == r1.spec_trs(s));
            assert(r2.spec_final_weight(s) == r1.spec_final_weight(s));
            let n1 = a1.spec_num_states() as int;
            if s < n1 {
                assert(a2.spec_trs(s) == a1.spec_trs(s));
                assert(a2.spec_final_weight(s) == a1.spec_final_weight(s));
            } else {
                assert(b2.spec_trs(s - n1) == b1.spec_trs(s - n1));
                assert(b2.spec_final_weight(s - n1) == b1.spec_final_weight(s - n1));
            }
        }
        assert(union_result_ok(a2, b2, r2));
    }
    if union_result_ok(a2, b2, r2) {
        assert forall|s: int| 0 <= s < r1.spec_num_states() implies union_trs_at(
            a1,
            b1,
            s,
            #[trigger] r1.spec_trs(s),
        ) && r1.spec_final_weight(s) == union_final_at(a1, b1, s) by {
            assert(union_trs_at(a2, b2, s, r2.spec_trs(s)));
            assert(r1.spec_trs(s) == r2.spec_trs(s));
            assert(r1.spec_final_weight(s) == r2.spec_final_weight(s));
            let n1 = a1.spec_num_states() as int;
            if s < n1 {
                assert(a1.spec_trs(s) == a2.spec_trs(s));
                assert(a1.spec_final_weight(s) == a2.spec_final_weight(s));
            } else {
                assert(b1.spec_trs(s - n1) == b2.spec_trs(s - n1));
                assert(b1.spec_final_weight(s - n1) == b2.spec_final_weight(s - n1));
            }
        }
        assert(union_result_ok(a1, b1, r1));
    }
}

} // verus!
