//! Tests for the basic types, the configuration surface, the interners, and
//! the iteration surfaces.

use replace_fst::iterators::{FstIntoIterator, FstIterator, StateIterator};
use replace_fst::replace::{
    epsilon_on_input, epsilon_on_output, replace_transducer, ReplaceFstOptions, ReplaceLabelType,
};
use replace_fst::state_table::{
    prefix_eq, prefix_tuple_eq, replace_state_tuple_eq, PrefixTuple, ReplaceStackPrefix,
    ReplaceStateTable, ReplaceStateTuple, TupleTable,
};
use replace_fst::vector_fst::{fst_eq, VectorFst};
use replace_fst::{Tr, EPS_LABEL, WEIGHT_ONE};

#[test]
fn options_with_epsilon_on_replace() {
    let opts = ReplaceFstOptions::new(7, true);
    assert_eq!(opts.root, 7);
    assert_eq!(opts.call_label_type, ReplaceLabelType::ReplaceLabelNeither);
    assert_eq!(opts.return_label_type, ReplaceLabelType::ReplaceLabelNeither);
    assert_eq!(opts.call_output_label, Some(0));
    assert_eq!(opts.return_label, 0);
}

#[test]
fn options_without_epsilon_on_replace() {
    let opts = ReplaceFstOptions::new(7, false);
    assert_eq!(opts.call_label_type, ReplaceLabelType::ReplaceLabelInput);
    assert_eq!(opts.return_label_type, ReplaceLabelType::ReplaceLabelNeither);
    assert_eq!(opts.call_output_label, None);
    assert_eq!(opts.return_label, 0);
}

#[test]
fn label_policies() {
    assert!(epsilon_on_input(ReplaceLabelType::ReplaceLabelNeither));
    assert!(epsilon_on_input(ReplaceLabelType::ReplaceLabelOutput));
    assert!(!epsilon_on_input(ReplaceLabelType::ReplaceLabelInput));
    assert!(!epsilon_on_input(ReplaceLabelType::ReplaceLabelBoth));
    assert!(epsilon_on_output(ReplaceLabelType::ReplaceLabelNeither));
    assert!(epsilon_on_output(ReplaceLabelType::ReplaceLabelInput));
    assert!(!epsilon_on_output(ReplaceLabelType::ReplaceLabelOutput));
    assert!(!epsilon_on_output(ReplaceLabelType::ReplaceLabelBoth));
    assert!(replace_transducer(
        ReplaceLabelType::ReplaceLabelInput,
        ReplaceLabelType::ReplaceLabelNeither,
        None
    ));
    assert!(!replace_transducer(
        ReplaceLabelType::ReplaceLabelNeither,
        ReplaceLabelType::ReplaceLabelNeither,
        None
    ));
    assert!(replace_transducer(
        ReplaceLabelType::ReplaceLabelBoth,
        ReplaceLabelType::ReplaceLabelNeither,
        Some(3)
    ));
}

#[test]
fn interner_assigns_stable_identifiers() {
    // State identity: the same tuple always receives the same identifier.
    let mut table = TupleTable::new();
    let t1 = ReplaceStateTuple::new(0, Some(1), Some(2));
    let t2 = ReplaceStateTuple::new(0, Some(1), Some(3));
    let id1 = table.find_id(t1);
    let id2 = table.find_id(t2);
    assert_eq!(id1, 0);
    assert_eq!(id2, 1);
    assert_eq!(table.find_id(t1), id1);
    assert_eq!(table.find_id(t2), id2);
    assert_eq!(table.len(), 2);
    assert!(replace_state_tuple_eq(table.find_tuple(id1), t1));
}

#[test]
fn prefix_push_pop_roundtrip() {
    // Round-trip prefix: pushing a frame and popping it leads back to the
    // same interned identifier.
    let mut tables = ReplaceStateTable::new();
    let mut p = ReplaceStackPrefix::new();
    p.push(Some(0), Some(1));
    let base = tables.prefix_table.find_id(p);

    let mut child = tables.prefix_table.find_tuple(base);
    child.push(Some(0), Some(2));
    let pushed = tables.prefix_table.find_id(child);
    assert_ne!(base, pushed);

    let mut back = tables.prefix_table.find_tuple(pushed);
    assert!(prefix_tuple_eq(
        back.top(),
        PrefixTuple { fst_id: Some(0), nextstate: Some(2) }
    ));
    back.pop();
    assert_eq!(tables.prefix_table.find_id(back), base);
    assert_eq!(tables.prefix_table.len(), 2);
}

#[test]
fn prefix_equality_is_structural() {
    let mut p1 = ReplaceStackPrefix::new();
    let mut p2 = ReplaceStackPrefix::new();
    assert!(prefix_eq(&p1, &p2));
    p1.push(Some(4), Some(5));
    assert!(!prefix_eq(&p1, &p2));
    p2.push(Some(4), Some(5));
    assert!(prefix_eq(&p1, &p2));
    assert_eq!(p1.len(), 1);
}

#[test]
fn vector_fst_accessors_and_duplicate() {
    let mut f = VectorFst::new();
    let s0 = f.add_state();
    let s1 = f.add_state();
    f.set_start(s0);
    f.set_final(s1, 9);
    f.add_tr(s0, Tr::new(1, 2, 3, s1));
    assert_eq!(f.num_states(), 2);
    assert_eq!(f.start(), Some(0));
    assert!(f.is_final(s1));
    assert!(!f.is_final(s0));
    assert_eq!(f.final_weight(s1), Some(9));
    assert_eq!(f.num_trs(s0), 1);
    assert_eq!(f.tr(s0, 0), Tr::new(1, 2, 3, 1));
    assert_eq!(f.transitions(s0), vec![Tr::new(1, 2, 3, 1)]);
    let copy = f.duplicate();
    assert!(fst_eq(&f, &copy));
}

#[test]
fn iteration_surfaces() {
    let mut f = VectorFst::new();
    let s0 = f.add_state();
    let s1 = f.add_state();
    f.set_start(s0);
    f.set_final(s1, 2);
    f.add_tr(s0, Tr::new(1, 1, 0, s1));

    assert_eq!(f.states_iter(), vec![0, 1]);

    let records = f.fst_iter();
    assert_eq!(records.len(), 2);
    assert_eq!(records[0].state_id, 0);
    assert_eq!(records[0].final_weight, None);
    assert_eq!(records[0].num_trs, 1);
    assert_eq!(records[0].trs, vec![Tr::new(1, 1, 0, 1)]);
    assert_eq!(records[1].state_id, 1);
    assert_eq!(records[1].final_weight, Some(2));
    assert_eq!(records[1].num_trs, 0);

    let owned = f.fst_into_iter();
    assert_eq!(owned.len(), 2);
    assert_eq!(owned[1].final_weight, Some(2));
}

#[test]
fn constants_and_transition_equality() {
    assert_eq!(EPS_LABEL, 0);
    assert_eq!(WEIGHT_ONE, 0);
    let t = Tr::new(1, 2, 3, 4);
    assert_eq!(t.ilabel, 1);
    assert_eq!(t.olabel, 2);
    assert_eq!(t.weight, 3);
    assert_eq!(t.nextstate, 4);
    assert_eq!(t, Tr::new(1, 2, 3, 4));
    assert_ne!(t, Tr::new(1, 2, 3, 5));
}
