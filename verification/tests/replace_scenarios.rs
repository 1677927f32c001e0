//! End-to-end scenarios for the Replace transducer.

use replace_fst::replace::{replace, ReplaceFst};
use replace_fst::ReplaceError;
use replace_fst::vector_fst::{fst_eq, VectorFst};
use replace_fst::{Label, StateId, Tr, Weight};

/// Build a transducer from a start state, final `(state, weight)` pairs, and
/// transitions `(src, ilabel, olabel, weight, dst)`.
fn build_fst(
    num_states: usize,
    start: Option<StateId>,
    finals: &[(StateId, Weight)],
    trs: &[(StateId, Label, Label, Weight, StateId)],
) -> VectorFst {
    let mut f = VectorFst::new();
    for _ in 0..num_states {
        f.add_state();
    }
    if let Some(s) = start {
        f.set_start(s);
    }
    for &(q, w) in finals {
        f.set_final(q, w);
    }
    for &(q, i, o, w, ns) in trs {
        f.add_tr(q, Tr::new(i, o, w, ns));
    }
    f
}

#[test]
fn single_component_no_nonterminals() {
    // One component, labels far below the non-terminal range: the result is
    // the component itself, with no call or return transitions introduced.
    let a = build_fst(2, Some(0), &[(1, 0)], &[(0, 1, 1, 0, 1)]);
    let result = replace(vec![(10, a)], 10, false).unwrap();
    let expected = build_fst(2, Some(0), &[(1, 0)], &[(0, 1, 1, 0, 1)]);
    assert!(fst_eq(&result, &expected));
}

#[test]
fn range_pruning_out_of_range_labels() {
    // Labels both below and above the registered range [10, 10] rewrite as
    // pure terminals: the result equals the root component.
    let a = build_fst(
        2,
        Some(0),
        &[(1, 0)],
        &[(0, 1, 1, 0, 1), (0, 3, 99, 0, 1)],
    );
    let result = replace(vec![(10, a)], 10, false).unwrap();
    let expected = build_fst(
        2,
        Some(0),
        &[(1, 0)],
        &[(0, 1, 1, 0, 1), (0, 3, 99, 0, 1)],
    );
    assert!(fst_eq(&result, &expected));
}

#[test]
fn in_range_unregistered_label_is_terminal() {
    // Registered labels 10 and 20; label 15 lies inside the range but is not
    // registered, so it rewrites as a pure terminal.
    let a = build_fst(2, Some(0), &[(1, 0)], &[(0, 4, 15, 0, 1)]);
    let b = build_fst(1, Some(0), &[(0, 0)], &[]);
    let result = replace(vec![(10, a), (20, b)], 10, false).unwrap();
    let expected = build_fst(2, Some(0), &[(1, 0)], &[(0, 4, 15, 0, 1)]);
    assert!(fst_eq(&result, &expected));
}

#[test]
fn two_level_epsilon_on_replace() {
    // A calls B through non-terminal 20; with `epsilon_on_replace = true`
    // both call labels become epsilon, B's own terminal keeps its labels, and
    // the return transition carries epsilon on both sides.
    let a = build_fst(2, Some(0), &[(1, 0)], &[(0, 1, 20, 0, 1)]);
    let b = build_fst(2, Some(0), &[(1, 0)], &[(0, 2, 2, 0, 1)]);
    let result = replace(vec![(10, a), (20, b)], 10, true).unwrap();
    let expected = build_fst(
        4,
        Some(0),
        &[(3, 0)],
        &[
            (0, 0, 0, 0, 1), // call into B: both labels epsilon
            (1, 2, 2, 0, 2), // B's terminal transition
            (2, 0, 0, 0, 3), // return to A, epsilon on both sides
        ],
    );
    assert!(fst_eq(&result, &expected));
}

#[test]
fn two_level_default_label_policy() {
    // Same components with `epsilon_on_replace = false`: the call transition
    // keeps its input label and carries epsilon output (the `Input` policy),
    // and the return transition is still fully epsilon.
    let a = build_fst(2, Some(0), &[(1, 0)], &[(0, 1, 20, 0, 1)]);
    let b = build_fst(2, Some(0), &[(1, 0)], &[(0, 2, 2, 0, 1)]);
    let result = replace(vec![(10, a), (20, b)], 10, false).unwrap();
    let expected = build_fst(
        4,
        Some(0),
        &[(3, 0)],
        &[
            (0, 1, 0, 0, 1), // call keeps input 1, epsilon output
            (1, 2, 2, 0, 2),
            (2, 0, 0, 0, 3),
        ],
    );
    assert!(fst_eq(&result, &expected));
}

#[test]
fn self_recursion_with_base_case() {
    // A calls itself; the lazy facade expands one state at a time and each
    // level of the call chain materialises exactly one new prefix.
    let a = build_fst(2, Some(0), &[(1, 0)], &[(0, 1, 1, 0, 1), (0, 2, 10, 0, 1)]);
    let mut f = ReplaceFst::new(vec![(10, a)], 10, false).unwrap();
    let start = f.start().unwrap();
    assert_eq!(start, 0);
    assert_eq!(f.num_known_prefixes(), 1);

    // Depth 0: the start state has the base transition and the call.
    let trs0 = f.transitions(0).unwrap();
    assert_eq!(trs0.len(), 2);
    assert_eq!((trs0[0].ilabel, trs0[0].olabel, trs0[0].nextstate), (1, 1, 1));
    assert_eq!((trs0[1].ilabel, trs0[1].olabel, trs0[1].nextstate), (2, 0, 2));
    assert_eq!(f.num_known_prefixes(), 2);

    // Depth 1 and 2: each expansion of the callee start pushes one frame.
    let trs2 = f.transitions(2).unwrap();
    assert_eq!((trs2[0].ilabel, trs2[0].olabel, trs2[0].nextstate), (1, 1, 3));
    assert_eq!((trs2[1].ilabel, trs2[1].olabel, trs2[1].nextstate), (2, 0, 4));
    assert_eq!(f.num_known_prefixes(), 3);
    let trs4 = f.transitions(4).unwrap();
    assert_eq!((trs4[0].ilabel, trs4[0].olabel, trs4[0].nextstate), (1, 1, 5));
    assert_eq!((trs4[1].ilabel, trs4[1].olabel, trs4[1].nextstate), (2, 0, 6));
    assert_eq!(f.num_known_prefixes(), 4);

    // Returning from the first call leads back to the already-known state 1:
    // the popped prefix is interned to its original identifier.
    let trs3 = f.transitions(3).unwrap();
    assert_eq!(trs3.len(), 1);
    assert_eq!(
        (trs3[0].ilabel, trs3[0].olabel, trs3[0].weight, trs3[0].nextstate),
        (0, 0, 0, 1)
    );

    // Finality sits only at the empty prefix.
    assert_eq!(f.final_weight(1).unwrap(), Some(0));
    assert_eq!(f.final_weight(3).unwrap(), None);
}

#[test]
fn unknown_root_is_rejected() {
    let a = build_fst(2, Some(0), &[(1, 0)], &[(0, 1, 1, 0, 1)]);
    let err = replace(vec![(10, a)], 99, false).unwrap_err();
    assert_eq!(err, ReplaceError::UnknownRoot(99));

    let b = build_fst(2, Some(0), &[(1, 0)], &[(0, 1, 1, 0, 1)]);
    assert!(ReplaceFst::new(vec![(10, b)], 99, false).is_err());
}

#[test]
fn callee_without_start_suppresses_call() {
    // B has no start state, so the call on 20 is suppressed entirely: the
    // result's start state has no outgoing transitions.
    let a = build_fst(2, Some(0), &[], &[(0, 1, 20, 0, 1)]);
    let b = build_fst(1, None, &[(0, 0)], &[]);
    let mut f = ReplaceFst::new(vec![(10, a), (20, b)], 10, false).unwrap();
    let start = f.start().unwrap();
    let trs = f.transitions(start).unwrap();
    assert!(trs.is_empty());

    let a2 = build_fst(2, Some(0), &[], &[(0, 1, 20, 0, 1)]);
    let b2 = build_fst(1, None, &[(0, 0)], &[]);
    let result = replace(vec![(10, a2), (20, b2)], 10, false).unwrap();
    assert_eq!(result.num_states(), 1);
    assert_eq!(result.start(), Some(0));
    assert_eq!(result.num_trs(0), 0);
}

#[test]
fn repeat_queries_are_answered_from_cache() {
    // Expansion runs at most once per state: repeat queries return the same
    // answer and materialise nothing new.
    let a = build_fst(2, Some(0), &[(1, 0)], &[(0, 1, 20, 0, 1)]);
    let b = build_fst(2, Some(0), &[(1, 0)], &[(0, 2, 2, 0, 1)]);
    let mut f = ReplaceFst::new(vec![(10, a), (20, b)], 10, true).unwrap();
    let s0 = f.start().unwrap();
    assert_eq!(f.start(), Some(s0));
    let first = f.transitions(s0).unwrap();
    let known_states = f.num_known_states();
    let known_prefixes = f.num_known_prefixes();
    let second = f.transitions(s0).unwrap();
    assert_eq!(first.len(), second.len());
    for k in 0..first.len() {
        assert_eq!(first[k], second[k]);
    }
    assert_eq!(f.num_known_states(), known_states);
    assert_eq!(f.num_known_prefixes(), known_prefixes);
    assert_eq!(f.final_weight(s0).unwrap(), f.final_weight(s0).unwrap());
}

#[test]
fn component_state_out_of_range_is_reported() {
    // A transition that leaves its component's state space is a faulty
    // collaborator; the expansion that walks into it fails.
    let a = build_fst(1, Some(0), &[], &[(0, 1, 1, 0, 5)]);
    let err = replace(vec![(10, a)], 10, false).unwrap_err();
    assert_eq!(err, ReplaceError::ComponentStateOutOfRange(0, 5));
}

#[test]
fn eager_replace_matches_lazy_materialisation() {
    // Driving the facade by hand gives the same machine the eager entry
    // point produces.
    let a = build_fst(2, Some(0), &[(1, 0)], &[(0, 1, 20, 0, 1)]);
    let b = build_fst(2, Some(0), &[(1, 0)], &[(0, 2, 2, 0, 1)]);
    let eager = replace(vec![(10, a), (20, b)], 10, false).unwrap();
    let a2 = build_fst(2, Some(0), &[(1, 0)], &[(0, 1, 20, 0, 1)]);
    let b2 = build_fst(2, Some(0), &[(1, 0)], &[(0, 2, 2, 0, 1)]);
    let mut f = ReplaceFst::new(vec![(10, a2), (20, b2)], 10, false).unwrap();
    let lazy = f.compute().unwrap();
    assert!(fst_eq(&eager, &lazy));
}

#[test]
fn duplicate_labels_later_registration_wins() {
    // Registering the same non-terminal twice: the later component wins the
    // lookup, so the root expands to the second machine.
    let first = build_fst(2, Some(0), &[(1, 0)], &[(0, 1, 1, 0, 1)]);
    let second = build_fst(2, Some(0), &[(1, 0)], &[(0, 2, 2, 5, 1)]);
    let result = replace(vec![(10, first), (10, second)], 10, false).unwrap();
    let expected = build_fst(2, Some(0), &[(1, 0)], &[(0, 2, 2, 5, 1)]);
    assert!(fst_eq(&result, &expected));
}
