//! Tests for the eager and lazy union, and the test-data bundle around them.

use replace_fst::test_data::{test_union, test_union_lazy, FstTestData, UnionTestData};
use replace_fst::union::{compare_fst_static_lazy, union, UnionFst};
use replace_fst::vector_fst::{fst_eq, VectorFst};
use replace_fst::{Label, StateId, Tr, Weight, EPS_LABEL, WEIGHT_ONE};

fn build_fst(
    num_states: usize,
    start: Option<StateId>,
    finals: &[(StateId, Weight)],
    trs: &[(StateId, Label, Label, Weight, StateId)],
) -> VectorFst {
    let mut f = VectorFst::new();
    for _ in 0..num_states {
        f.add_state();
    }
    if let Some(s) = start {
        f.set_start(s);
    }
    for &(q, w) in finals {
        f.set_final(q, w);
    }
    for &(q, i, o, w, ns) in trs {
        f.add_tr(q, Tr::new(i, o, w, ns));
    }
    f
}

fn raw_fst() -> VectorFst {
    build_fst(2, Some(0), &[(1, 3)], &[(0, 5, 5, 7, 1)])
}

fn second_fst() -> VectorFst {
    build_fst(2, Some(0), &[(1, 4)], &[(0, 6, 6, 9, 1)])
}

/// The union of `raw_fst` and `second_fst`, written out by hand: the second
/// operand's states are shifted by two, and one epsilon transition of unit
/// weight connects the starts.
fn expected_union() -> VectorFst {
    build_fst(
        4,
        Some(0),
        &[(1, 3), (3, 4)],
        &[
            (0, 5, 5, 7, 1),
            (0, EPS_LABEL, EPS_LABEL, WEIGHT_ONE, 2),
            (2, 6, 6, 9, 3),
        ],
    )
}

#[test]
fn union_of_two_small_machines() {
    let mut f = raw_fst();
    union(&mut f, &second_fst());
    assert!(fst_eq(&f, &expected_union()));
}

#[test]
fn union_with_startless_second_operand() {
    // No connecting epsilon transition is added; the second operand's states
    // are still appended, unreachable.
    let mut f = raw_fst();
    let b = build_fst(1, None, &[(0, 2)], &[]);
    union(&mut f, &b);
    let expected = build_fst(3, Some(0), &[(1, 3), (2, 2)], &[(0, 5, 5, 7, 1)]);
    assert!(fst_eq(&f, &expected));
}

#[test]
fn lazy_union_agrees_with_eager_union() {
    let lazy = UnionFst::new(raw_fst(), second_fst());
    assert_eq!(lazy.start(), Some(0));
    assert_eq!(lazy.num_states(), 4);
    assert_eq!(lazy.final_weight(1), Some(3));
    assert_eq!(lazy.final_weight(2), None);
    assert_eq!(lazy.final_weight(3), Some(4));
    let trs0 = lazy.transitions(0);
    assert_eq!(trs0.len(), 2);
    assert_eq!(trs0[1], Tr::new(EPS_LABEL, EPS_LABEL, WEIGHT_ONE, 2));
    let trs2 = lazy.transitions(2);
    assert_eq!(trs2[0], Tr::new(6, 6, 9, 3));
    assert!(compare_fst_static_lazy(&expected_union(), &lazy));
}

#[test]
fn compare_rejects_wrong_machine() {
    let lazy = UnionFst::new(raw_fst(), second_fst());
    // Same shape but one wrong weight.
    let wrong = build_fst(
        4,
        Some(0),
        &[(1, 3), (3, 4)],
        &[
            (0, 5, 5, 8, 1),
            (0, EPS_LABEL, EPS_LABEL, WEIGHT_ONE, 2),
            (2, 6, 6, 9, 3),
        ],
    );
    assert!(!compare_fst_static_lazy(&wrong, &lazy));
}

#[test]
fn test_union_accepts_correct_data() {
    let data = FstTestData::new(
        String::from("small"),
        raw_fst(),
        vec![UnionTestData {
            fst_2: second_fst(),
            result_static: expected_union(),
            result_lazy: expected_union(),
        }],
    );
    assert!(test_union(&data));
    assert!(test_union_lazy(&data));
}

#[test]
fn test_union_rejects_wrong_data() {
    // The expected static result misses a final weight.
    let wrong = build_fst(
        4,
        Some(0),
        &[(1, 3)],
        &[
            (0, 5, 5, 7, 1),
            (0, EPS_LABEL, EPS_LABEL, WEIGHT_ONE, 2),
            (2, 6, 6, 9, 3),
        ],
    );
    let data = FstTestData::new(
        String::from("wrong"),
        raw_fst(),
        vec![UnionTestData {
            fst_2: second_fst(),
            result_static: wrong.duplicate(),
            result_lazy: wrong,
        }],
    );
    assert!(!test_union(&data));
    assert!(!test_union_lazy(&data));
}
