//! Bundled test data for the union operation, and the checks that run over
//! it: the eager union against its expected result, and the lazy union
//! against its expected result.

use vstd::prelude::*;

use crate::union::{
    compare_fst_static_lazy,
    lemma_union_result_congruence,
    lemma_union_result_unique,
    union,
    union_inputs_ok,
    union_result_ok,
    UnionFst,
};
use crate::vector_fst::{fst_eq, fst_equal, VectorFst};

verus! {

/// One union test datum: the second operand, and the expected results of the
/// eager and the lazy union of the suite's base transducer with it.
pub struct UnionTestData {
    pub fst_2: VectorFst,
    pub result_static: VectorFst,
    pub result_lazy: VectorFst,
}

/// A test-suite bundle: the base transducer and the union test data over it.
pub struct FstTestData {
    pub name: String,
    pub raw: VectorFst,
    pub union: Vec<UnionTestData>,
}

impl FstTestData {
    pub fn new(name: String, raw: VectorFst, union_data: Vec<UnionTestData>) -> (r: Self)
        ensures
            r.name == name,
            r.raw == raw,
            r.union == union_data,
    {
        FstTestData { name, raw, union: union_data }
    }
}

/// The inputs the union tests need: a well-formed base transducer and, for
/// each datum, a well-formed second operand with in-range transition targets
/// that fits beside the base.
pub open spec fn union_test_inputs_ok(d: &FstTestData) -> bool {
    &&& d.raw.wf()
    &&& forall|i: int|
        0 <= i < d.union@.len() ==> union_inputs_ok(&d.raw, &(#[trigger] d.union@[i]).fst_2)
}

/// Check every eager-union test datum: the union of the base transducer with
/// `fst_2` must be identical, state by state, to `result_static`.
pub fn test_union(test_data: &FstTestData) -> (r: bool)
    requires
        union_test_inputs_ok(test_data),
    ensures
        r <==> (forall|i: int|
            0 <= i < test_data.union@.len() ==> union_result_ok(
                &test_data.raw,
                &(#[trigger] test_data.union@[i]).fst_2,
                &test_data.union@[i].result_static,
            )),
{
    let n = test_data.union.len();
    let mut i: usize = 0;
    while i < n
        invariant
            union_test_inputs_ok(test_data),
            n == test_data.union@.len(),
            i <= n,
            forall|j: int|
                0 <= j < i ==> union_result_ok(
                    &test_data.raw,
                    &(#[trigger] test_data.union@[j]).fst_2,
                    &test_data.union@[j].result_static,
                ),
        decreases n - i,
    {
        let mut fst_res_static = test_data.raw.duplicate();
        let ghost dup0 = fst_res_static;
        proof {
            assert(union_inputs_ok(&test_data.raw, &test_data.union@[i as int].fst_2));
        }
        union(&mut fst_res_static, &test_data.union[i].fst_2);
        let ok = fst_eq(&fst_res_static, &test_data.union[i].result_static);
        proof {
            assert(fst_equal(&dup0, &test_data.raw));
            assert(fst_equal(
                &test_data.union@[i as int].fst_2,
                &test_data.union@[i as int].fst_2,
            ));
            assert(fst_equal(&fst_res_static, &fst_res_static));
            lemma_union_result_congruence(
                &dup0,
                &test_data.raw,
                &test_data.union@[i as int].fst_2,
                &test_data.union@[i as int].fst_2,
                &fst_res_static,
                &fst_res_static,
            );
        }
        if !ok {
            proof {
                if union_result_ok(
                    &test_data.raw,
                    &test_data.union@[i as int].fst_2,
                    &test_data.union@[i as int].result_static,
                ) {
                    lemma_union_result_unique(
                        &test_data.raw,
                        &test_data.union@[i as int].fst_2,
                        &fst_res_static,
                        &test_data.union@[i as int].result_static,
                    );
                }
            }
            return false;
        }
        proof {
            lemma_union_result_unique(
                &test_data.raw,
                &test_data.union@[i as int].fst_2,
                &fst_res_static,
                &fst_res_static,
            );
            assert(union_result_ok(
                &test_data.raw,
                &test_data.union@[i as int].fst_2,
                &test_data.union@[i as int].result_static,
            )) by {
                lemma_union_result_congruence(
                    &test_data.raw,
                    &test_data.raw,
                    &test_data.union@[i as int].fst_2,
                    &test_data.union@[i as int].fst_2,
                    &fst_res_static,
                    &test_data.union@[i as int].result_static,
                );
            }
        }
        i = i + 1;
    }
    true
}

/// Check every lazy-union test datum: the lazy union of the base transducer
/// with `fst_2` must agree, state by state, with `result_lazy`.
pub fn test_union_lazy(test_data: &FstTestData) -> (r: bool)
    requires
        union_test_inputs_ok(test_data),
    ensures
        r <==> (forall|i: int|
            0 <= i < test_data.union@.len() ==> union_result_ok(
                &test_data.raw,
                &(#[trigger] test_data.union@[i]).fst_2,
                &test_data.union@[i].result_lazy,
            )),
{
    let n = test_data.union.len();
    let mut i: usize = 0;
    while i < n
        invariant
            union_test_inputs_ok(test_data),
            n == test_data.union@.len(),
            i <= n,
            forall|j: int|
                0 <= j < i ==> union_result_ok(
                    &test_data.raw,
                    &(#[trigger] test_data.union@[j]).fst_2,
                    &test_data.union@[j].result_lazy,
                ),
        decreases n - i,
    {
        proof {
            assert(union_inputs_ok(&test_data.raw, &test_data.union@[i as int].fst_2));
        }
        let dup_raw = test_data.raw.duplicate();
        let dup_f2 = test_data.union[i].fst_2.duplicate();
        let union_lazy_fst = UnionFst::new(dup_raw, dup_f2);
        let ok = compare_fst_static_lazy(&test_data.union[i].result_lazy, &union_lazy_fst);
        proof {
            assert(fst_equal(&union_lazy_fst.spec_fst1(), &test_data.raw));
            assert(fst_equal(&union_lazy_fst.spec_fst2(), &test_data.union@[i as int].fst_2));
            assert(fst_equal(
                &test_data.union@[i as int].result_lazy,
                &test_data.union@[i as int].result_lazy,
            ));
            lemma_union_result_congruence(
                &union_lazy_fst.spec_fst1(),
                &test_data.raw,
                &union_lazy_fst.spec_fst2(),
                &test_data.union@[i as int].fst_2,
                &test_data.union@[i as int].result_lazy,
                &test_data.union@[i as int].result_lazy,
            );
        }
        if !ok {
            return false;
        }
        i = i + 1;
    }
    true
}

} // verus!
