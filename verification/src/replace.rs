//! The lazy recursive Replace transducer.
//!
//! Replace takes an ordered collection of `(non-terminal label, component)`
//! pairs and a designated root label. The result is the transducer obtained by
//! recursively substituting, at every transition whose output label is a
//! registered non-terminal, the component registered under that label. Result
//! states are triples `(call-stack prefix, component, component state)`,
//! interned to dense integers and materialised on demand.
//!
//! The module is organised in three layers: a pure mathematical model
//! (`ReplaceSpec`, `AbsState`, `AbsTr`) that defines what the expansion of a
//! result state is; the engine (`ReplaceFstImpl`) that computes it with
//! interners and the expansion cache; and the facade (`ReplaceFst`) together
//! with the eager entry point `replace`.

use vstd::prelude::*;

use crate::cache::CacheImpl;
use crate::state_table::{
    table_wf,
    spec_intern,
    PrefixTuple,
    ReplaceStackPrefix,
    ReplaceStateTable,
    ReplaceStateTuple,
};
use crate::vector_fst::VectorFst;
use crate::{Label, ReplaceError, StateId, Tr, Weight, EPS_LABEL};

verus! {

/// What labels the call or return transition carries.
#[derive(Clone, Copy, Debug, PartialEq, Eq, Structural)]
pub enum ReplaceLabelType {
    /// Epsilon labels on both input and output.
    ReplaceLabelNeither,
    /// Non-epsilon label on input and epsilon on output.
    ReplaceLabelInput,
    /// Epsilon on input and non-epsilon label on output.
    ReplaceLabelOutput,
    /// Non-epsilon labels on both input and output.
    ReplaceLabelBoth,
}

/// Whether this label policy puts epsilon on the input side.
pub open spec fn spec_epsilon_on_input(label_type: ReplaceLabelType) -> bool {
    label_type == ReplaceLabelType::ReplaceLabelNeither || label_type
        == ReplaceLabelType::ReplaceLabelOutput
}

/// Whether this label policy puts epsilon on the output side.
pub open spec fn spec_epsilon_on_output(label_type: ReplaceLabelType) -> bool {
    label_type == ReplaceLabelType::ReplaceLabelNeither || label_type
        == ReplaceLabelType::ReplaceLabelInput
}

/// Returns true if the label policy results in an epsilon input label.
pub fn epsilon_on_input(label_type: ReplaceLabelType) -> (r: bool)
    ensures
        r == spec_epsilon_on_input(label_type),
{
    label_type == ReplaceLabelType::ReplaceLabelNeither || label_type
        == ReplaceLabelType::ReplaceLabelOutput
}

/// Returns true if the label policy results in an epsilon output label.
pub fn epsilon_on_output(label_type: ReplaceLabelType) -> (r: bool)
    ensures
        r == spec_epsilon_on_output(label_type),
{
    label_type == ReplaceLabelType::ReplaceLabelNeither || label_type
        == ReplaceLabelType::ReplaceLabelInput
}

/// Whether this configuration can relabel some transition, so the result is a
/// transducer even over acceptor components.
pub fn replace_transducer(
    call_label_type: ReplaceLabelType,
    return_label_type: ReplaceLabelType,
    call_output_label: Option<Label>,
) -> (r: bool)
    ensures
        r == (call_label_type == ReplaceLabelType::ReplaceLabelInput || call_label_type
            == ReplaceLabelType::ReplaceLabelOutput || (call_label_type
            == ReplaceLabelType::ReplaceLabelBoth && call_output_label is Some)
            || return_label_type == ReplaceLabelType::ReplaceLabelInput || return_label_type
            == ReplaceLabelType::ReplaceLabelOutput),
{
    call_label_type == ReplaceLabelType::ReplaceLabelInput || call_label_type
        == ReplaceLabelType::ReplaceLabelOutput || (call_label_type
        == ReplaceLabelType::ReplaceLabelBoth && call_output_label.is_some())
        || return_label_type == ReplaceLabelType::ReplaceLabelInput || return_label_type
        == ReplaceLabelType::ReplaceLabelOutput
}

/// The full configuration surface of a Replace instance.
#[derive(Clone, Copy, Debug)]
pub struct ReplaceFstOptions {
    /// Root non-terminal label for expansion.
    pub root: Label,
    /// How to label the call transition.
    pub call_label_type: ReplaceLabelType,
    /// How to label the synthetic return transition.
    pub return_label_type: ReplaceLabelType,
    /// Output label to put on the call transition; when absent, the existing
    /// label on the rewritten transition is kept.
    pub call_output_label: Option<Label>,
    /// Label to put on the return transition.
    pub return_label: Label,
}

impl ReplaceFstOptions {
    /// The ergonomic constructor: `epsilon_on_replace` decides whether call
    /// transitions keep their input label or are fully epsilon.
    pub fn new(root: Label, epsilon_on_replace: bool) -> (r: Self)
        ensures
            r == spec_options(root, epsilon_on_replace),
    {
        ReplaceFstOptions {
            root,
            call_label_type: if epsilon_on_replace {
                ReplaceLabelType::ReplaceLabelNeither
            } else {
                ReplaceLabelType::ReplaceLabelInput
            },
            return_label_type: ReplaceLabelType::ReplaceLabelNeither,
            call_output_label: if epsilon_on_replace {
                Some(0usize)
            } else {
                None
            },
            return_label: 0,
        }
    }
}

/// What `ReplaceFstOptions::new` produces.
pub open spec fn spec_options(root: Label, epsilon_on_replace: bool) -> ReplaceFstOptions {
    ReplaceFstOptions {
        root,
        call_label_type: if epsilon_on_replace {
            ReplaceLabelType::ReplaceLabelNeither
        } else {
            ReplaceLabelType::ReplaceLabelInput
        },
        return_label_type: ReplaceLabelType::ReplaceLabelNeither,
        call_output_label: if epsilon_on_replace {
            Some(0usize)
        } else {
            None
        },
        return_label: 0,
    }
}

/// The mathematical reading of a result state: the call-stack prefix written
/// out in full, together with the component and the component state.
#[verifier::ext_equal]
pub ghost struct AbsState {
    pub prefix: Seq<PrefixTuple>,
    pub fst_id: Option<usize>,
    pub fst_state: Option<usize>,
}

/// The mathematical reading of a rewritten transition: labels, weight, and the
/// destination as an abstract state.
#[verifier::ext_equal]
pub ghost struct AbsTr {
    pub ilabel: Label,
    pub olabel: Label,
    pub weight: Weight,
    pub dest: AbsState,
}

/// A live abstract state: both the component and the component state are
/// present.
pub open spec fn abs_live(a: AbsState) -> bool {
    a.fst_id is Some && a.fst_state is Some
}

/// The pure model of a Replace instance: its normalised configuration and its
/// immutable component table. Everything a result state expands to is a
/// function of this model and the state's abstract reading alone.
#[verifier::ext_equal]
pub ghost struct ReplaceSpec {
    pub call_label_type: ReplaceLabelType,
    pub return_label_type: ReplaceLabelType,
    pub call_output_label: Option<Label>,
    pub return_label: Label,
    pub fsts: Seq<VectorFst>,
    /// The registered non-terminal labels, strictly ascending.
    pub nt_labels: Seq<Label>,
    /// The registration list `(label, component index)` in input order; on
    /// duplicate labels the later entry wins.
    pub nt_pairs: Seq<(Label, usize)>,
    /// The component index the root label resolves to.
    pub root: usize,
}

/// The component index a label resolves to: the last registration wins.
pub open spec fn spec_last_index(pairs: Seq<(Label, usize)>, l: Label) -> Option<usize>
    decreases pairs.len(),
{
    if pairs.len() == 0 {
        None
    } else if pairs.last().0 == l {
        Some(pairs.last().1)
    } else {
        spec_last_index(pairs.drop_last(), l)
    }
}

/// A strictly ascending sequence of labels: sorted, hence duplicate-free.
pub open spec fn sorted_distinct(s: Seq<Label>) -> bool {
    forall|i: int, j: int| 0 <= i < j < s.len() ==> s[i] < s[j]
}

impl ReplaceSpec {
    /// The registered component index of `l`, if any.
    pub open spec fn spec_nt_index(self, l: Label) -> Option<usize> {
        spec_last_index(self.nt_pairs, l)
    }

    /// The smallest registered non-terminal label.
    pub open spec fn min_nt(self) -> Label
        recommends
            self.nt_labels.len() > 0,
    {
        self.nt_labels[0]
    }

    /// The largest registered non-terminal label.
    pub open spec fn max_nt(self) -> Label
        recommends
            self.nt_labels.len() > 0,
    {
        self.nt_labels.last()
    }

    /// An output label that does not trigger a call: epsilon, out of the
    /// registered range, or in range but not registered.
    pub open spec fn is_terminal_label(self, o: Label) -> bool {
        o == EPS_LABEL || o < self.min_nt() || o > self.max_nt() || self.spec_nt_index(o) is None
    }

    /// Well-formedness of the model: the root resolves, the label set is the
    /// sorted view of the registered labels, registrations point into the
    /// component table, and every component is well formed.
    pub open spec fn wf(self) -> bool {
        &&& (self.root as int) < self.fsts.len()
        &&& self.nt_labels.len() > 0
        &&& sorted_distinct(self.nt_labels)
        &&& forall|j: int|
            0 <= j < self.nt_pairs.len() ==> ((#[trigger] self.nt_pairs[j]).1 as int)
                < self.fsts.len()
        &&& forall|i: int|
            0 <= i < self.nt_labels.len() ==> self.spec_nt_index(
                #[trigger] self.nt_labels[i],
            ) is Some
        &&& forall|j: int|
            0 <= j < self.nt_pairs.len() ==> self.nt_labels.contains(
                (#[trigger] self.nt_pairs[j]).0,
            )
        &&& forall|c: int| 0 <= c < self.fsts.len() ==> (#[trigger] self.fsts[c]).wf()
    }

    /// The abstract start state: the root component's start under the empty
    /// prefix, absent when there are no components or the root has no start.
    pub open spec fn spec_abs_start(self) -> Option<AbsState> {
        if self.fsts.len() == 0 {
            None
        } else {
            match self.fsts[self.root as int].spec_start() {
                Some(q0) => Some(
                    AbsState {
                        prefix: Seq::empty(),
                        fst_id: Some(self.root),
                        fst_state: Some(q0),
                    },
                ),
                None => None,
            }
        }
    }

    /// The pure-terminal rewrite: labels and weight are kept and only the
    /// component state advances.
    pub open spec fn terminal_arc(a: AbsState, tr: Tr) -> AbsTr {
        AbsTr {
            ilabel: tr.ilabel,
            olabel: tr.olabel,
            weight: tr.weight,
            dest: AbsState { prefix: a.prefix, fst_id: a.fst_id, fst_state: Some(tr.nextstate) },
        }
    }

    /// The per-transition rewrite of a component transition `tr` out of the
    /// live abstract state `a`. `None` suppresses the transition (a call to a
    /// callee without a start state).
    pub open spec fn spec_compute_arc(self, a: AbsState, tr: Tr) -> Option<AbsTr>
        recommends
            abs_live(a),
    {
        if self.is_terminal_label(tr.olabel) {
            Some(Self::terminal_arc(a, tr))
        } else {
            match self.spec_nt_index(tr.olabel) {
                None => Some(Self::terminal_arc(a, tr)),
                Some(nt) => match self.fsts[nt as int].spec_start() {
                    None => None,
                    Some(q0) => Some(
                        AbsTr {
                            ilabel: if spec_epsilon_on_input(self.call_label_type) {
                                0
                            } else {
                                tr.ilabel
                            },
                            olabel: if spec_epsilon_on_output(self.call_label_type) {
                                0
                            } else {
                                match self.call_output_label {
                                    Some(l) => l,
                                    None => tr.olabel,
                                }
                            },
                            weight: tr.weight,
                            dest: AbsState {
                                prefix: a.prefix.push(
                                    PrefixTuple {
                                        fst_id: a.fst_id,
                                        nextstate: Some(tr.nextstate),
                                    },
                                ),
                                fst_id: Some(nt),
                                fst_state: Some(q0),
                            },
                        },
                    ),
                },
            }
        }
    }

    /// The synthetic return transition of `a`: present exactly when the
    /// underlying component state is final and the prefix is non-empty. The
    /// target pops the innermost frame and resumes there; the weight is the
    /// component's final weight.
    pub open spec fn spec_final_arc(self, a: AbsState) -> Option<AbsTr> {
        match (a.fst_id, a.fst_state) {
            (Some(c), Some(q)) => {
                if (c as int) < self.fsts.len() && (q as int) < self.fsts[c as int].spec_num_states()
                    && self.fsts[c as int].spec_is_final(q as int) && a.prefix.len() > 0 {
                    match self.fsts[c as int].spec_final_weight(q as int) {
                        Some(w) => Some(
                            AbsTr {
                                ilabel: if spec_epsilon_on_input(self.return_label_type) {
                                    0
                                } else {
                                    self.return_label
                                },
                                olabel: if spec_epsilon_on_output(self.return_label_type) {
                                    0
                                } else {
                                    self.return_label
                                },
                                weight: w,
                                dest: AbsState {
                                    prefix: a.prefix.drop_last(),
                                    fst_id: a.prefix.last().fst_id,
                                    fst_state: a.prefix.last().nextstate,
                                },
                            },
                        ),
                        None => None,
                    }
                } else {
                    None
                }
            },
            _ => None,
        }
    }

    /// The rewrites of the first `n` component transitions of `a`, in order.
    pub open spec fn spec_arcs_upto(self, a: AbsState, trs: Seq<Tr>, n: int) -> Seq<AbsTr>
        decreases n,
    {
        if n <= 0 {
            Seq::empty()
        } else {
            self.spec_arcs_upto(a, trs, n - 1) + opt_to_seq(self.spec_compute_arc(a, trs[n - 1]))
        }
    }

    /// Everything state `a` expands to: the return transition first, if any,
    /// then the rewritten component transitions in their native order. Dead or
    /// out-of-range states expand to nothing.
    pub open spec fn spec_expand_trs(self, a: AbsState) -> Seq<AbsTr> {
        match (a.fst_id, a.fst_state) {
            (Some(c), Some(q)) => {
                if (c as int) < self.fsts.len() && (q as int)
                    < self.fsts[c as int].spec_num_states() {
                    let trs = self.fsts[c as int].spec_trs(q as int);
                    opt_to_seq(self.spec_final_arc(a)) + self.spec_arcs_upto(
                        a,
                        trs,
                        trs.len() as int,
                    )
                } else {
                    Seq::empty()
                }
            },
            _ => Seq::empty(),
        }
    }

    /// The final weight of `a`: the component's final weight at the underlying
    /// state when the prefix is empty, absent otherwise.
    pub open spec fn spec_final_weight(self, a: AbsState) -> Option<Weight> {
        match (a.fst_id, a.fst_state) {
            (Some(c), Some(q)) => {
                if (c as int) < self.fsts.len() && (q as int) < self.fsts[c as int].spec_num_states()
                    && a.prefix.len() == 0 {
                    self.fsts[c as int].spec_final_weight(q as int)
                } else {
                    None
                }
            },
            _ => None,
        }
    }
}

/// An optional transition as a sequence of zero or one transitions.
pub open spec fn opt_to_seq(o: Option<AbsTr>) -> Seq<AbsTr> {
    match o {
        Some(t) => seq![t],
        None => Seq::empty(),
    }
}

/// Finality placement: a state has a final weight iff its prefix is empty and
/// its underlying component state is final, and the weight is then the
/// component's final weight there.
pub proof fn lemma_finality_placement(m: ReplaceSpec, a: AbsState)
    requires
        m.wf(),
        a.fst_id matches Some(c) && (c as int) < m.fsts.len(),
        a.fst_state matches Some(q) && (a.fst_id matches Some(c) && (q as int) < m.fsts[
            c as int
        ].spec_num_states()),
    ensures
        m.spec_final_weight(a) is Some <==> (a.prefix.len() == 0 && m.fsts[
            a.fst_id->Some_0 as int
        ].spec_is_final(a.fst_state->Some_0 as int)),
        a.prefix.len() == 0 ==> m.spec_final_weight(a) == m.fsts[
            a.fst_id->Some_0 as int
        ].spec_final_weight(a.fst_state->Some_0 as int),
{
}

/// Return-on-finality: a live state whose underlying state is final and whose
/// prefix is non-empty expands to exactly one synthetic return transition,
/// placed first, whose target has the prefix popped and resumes at the
/// innermost frame; every further transition of the expansion is the rewrite
/// of a component transition.
pub proof fn lemma_return_on_finality(m: ReplaceSpec, a: AbsState)
    requires
        m.wf(),
        a.fst_id matches Some(c) && (c as int) < m.fsts.len(),
        a.fst_state matches Some(q) && (a.fst_id matches Some(c) && (q as int) < m.fsts[
            c as int
        ].spec_num_states()),
        m.fsts[a.fst_id->Some_0 as int].spec_is_final(a.fst_state->Some_0 as int),
        a.prefix.len() > 0,
    ensures
        m.spec_final_arc(a) is Some,
        m.spec_final_arc(a)->Some_0.dest.prefix == a.prefix.drop_last(),
        m.spec_final_arc(a)->Some_0.dest.fst_id == a.prefix.last().fst_id,
        m.spec_final_arc(a)->Some_0.dest.fst_state == a.prefix.last().nextstate,
        m.spec_expand_trs(a).len() >= 1,
        m.spec_expand_trs(a)[0] == m.spec_final_arc(a)->Some_0,
        m.spec_expand_trs(a) == seq![m.spec_final_arc(a)->Some_0] + m.spec_arcs_upto(
            a,
            m.fsts[a.fst_id->Some_0 as int].spec_trs(a.fst_state->Some_0 as int),
            m.fsts[a.fst_id->Some_0 as int].spec_trs(a.fst_state->Some_0 as int).len() as int,
        ),
{
    let c = a.fst_id->Some_0;
    let q = a.fst_state->Some_0;
    assert(m.fsts[c as int].spec_final_weight(q as int) is Some);
}

/// Label-policy idempotence: under the `epsilon_on_replace` construction both
/// the call policy and the return policy collapse to `ReplaceLabelNeither`, so
/// every call transition carries epsilon on both sides, and the return
/// transition always does since the ergonomic constructor fixes the return
/// label to `0`.
pub proof fn lemma_epsilon_on_replace_labels(m: ReplaceSpec, a: AbsState, tr: Tr)
    requires
        m.call_label_type == ReplaceLabelType::ReplaceLabelNeither,
        m.return_label_type == ReplaceLabelType::ReplaceLabelNeither,
        !m.is_terminal_label(tr.olabel),
    ensures
        m.spec_compute_arc(a, tr) matches Some(at) ==> at.ilabel == 0 && at.olabel == 0,
        m.spec_final_arc(a) matches Some(rt) ==> rt.ilabel == 0 && rt.olabel == 0,
{
}

/// Under the ergonomic constructor the return policy is always
/// `ReplaceLabelNeither` (its return label is fixed to `0`), and with
/// `epsilon_on_replace` set the call policy collapses to
/// `ReplaceLabelNeither` too, since the configured call output label is `0`.
pub proof fn lemma_epsilon_on_replace_policy(
    m: ReplaceSpec,
    list: Seq<(Label, VectorFst)>,
    root: Label,
    epsilon_on_replace: bool,
)
    requires
        model_of_inputs(m, list, spec_options(root, epsilon_on_replace)),
    ensures
        m.return_label_type == ReplaceLabelType::ReplaceLabelNeither,
        m.return_label == 0,
        epsilon_on_replace ==> m.call_label_type == ReplaceLabelType::ReplaceLabelNeither
            && m.call_output_label == Some(0usize),
{
}

/// Range pruning equivalence: a transition whose output label is epsilon or
/// outside the registered range rewrites exactly as the pure-terminal branch;
/// so does one whose label is in range but not registered.
pub proof fn lemma_range_pruning(m: ReplaceSpec, a: AbsState, tr: Tr)
    requires
        m.nt_labels.len() > 0,
        tr.olabel == EPS_LABEL || tr.olabel < m.min_nt() || tr.olabel > m.max_nt()
            || m.spec_nt_index(tr.olabel) is None,
    ensures
        m.spec_compute_arc(a, tr) == Some(ReplaceSpec::terminal_arc(a, tr)),
{
}

/// `pre` is a prefix of `post`: identifiers already issued keep their entries.
pub open spec fn seq_extends<T>(pre: Seq<T>, post: Seq<T>) -> bool {
    pre.len() <= post.len() && forall|i: int| 0 <= i < pre.len() ==> post[i] == pre[i]
}

/// `q` is one call/return step away from `base`: a frame pushed onto it, or
/// its innermost frame popped.
pub open spec fn prefix_step(base: Seq<PrefixTuple>, q: Seq<PrefixTuple>) -> bool {
    (exists|fr: PrefixTuple| q == #[trigger] base.push(fr)) || q == base.drop_last()
}

/// The abstract reading of an interned tuple under a prefix table.
pub open spec fn abs_of_tuple(prefixes: Seq<Seq<PrefixTuple>>, t: ReplaceStateTuple) -> AbsState
    recommends
        (t.prefix_id as int) < prefixes.len(),
{
    AbsState { prefix: prefixes[t.prefix_id as int], fst_id: t.fst_id, fst_state: t.fst_state }
}

/// A frame may only name a component that exists.
pub open spec fn frame_ok(m: ReplaceSpec, f: PrefixTuple) -> bool {
    f.fst_id matches Some(c) ==> (c as int) < m.fsts.len()
}

/// A live tuple points at a state its component actually has.
pub open spec fn tuple_in_range(m: ReplaceSpec, t: ReplaceStateTuple) -> bool {
    match (t.fst_id, t.fst_state) {
        (Some(c), Some(q)) => (c as int) < m.fsts.len() && (q as int) < m.fsts[
            c as int
        ].spec_num_states(),
        _ => true,
    }
}

/// A frame resumes at a state its component actually has.
pub open spec fn frame_in_range(m: ReplaceSpec, f: PrefixTuple) -> bool {
    match (f.fst_id, f.nextstate) {
        (Some(c), Some(q)) => (c as int) < m.fsts.len() && (q as int) < m.fsts[
            c as int
        ].spec_num_states(),
        _ => true,
    }
}

/// Every transition of every component stays within that component's states.
/// This is the healthy case; a component that breaks it is a faulty
/// collaborator and surfaces as `ComponentStateOutOfRange`.
pub open spec fn components_closed(m: ReplaceSpec) -> bool {
    forall|c: int, q: int, k: int|
        0 <= c < m.fsts.len() && 0 <= q < m.fsts[c].spec_num_states() && 0 <= k < m.fsts[
            c
        ].spec_trs(q).len() ==> ((#[trigger] m.fsts[c].spec_trs(q)[k]).nextstate as int) < m.fsts[
            c
        ].spec_num_states()
}

/// How a freshly constructed engine model relates to the construction inputs:
/// components and registrations in input order, the label set sorted and with
/// exactly the registered labels, the root resolved with later registrations
/// winning, and the label-type configuration normalised so that "policy says
/// epsilon" coincides with "the produced label is zero".
pub open spec fn model_of_inputs(
    m: ReplaceSpec,
    list: Seq<(Label, VectorFst)>,
    opts: ReplaceFstOptions,
) -> bool {
    &&& m.fsts == Seq::new(list.len(), |i: int| list[i].1)
    &&& m.nt_pairs == Seq::new(list.len(), |i: int| (list[i].0, i as usize))
    &&& sorted_distinct(m.nt_labels)
    &&& forall|i: int|
        0 <= i < m.nt_labels.len() ==> exists|j: int|
            0 <= j < list.len() && (#[trigger] list[j]).0 == #[trigger] m.nt_labels[i]
    &&& forall|j: int| 0 <= j < list.len() ==> m.nt_labels.contains((#[trigger] list[j]).0)
    &&& spec_last_index(m.nt_pairs, opts.root) == Some(m.root)
    &&& m.call_output_label == opts.call_output_label
    &&& m.return_label == opts.return_label
    &&& m.call_label_type == (if opts.call_output_label == Some(0usize) {
        ReplaceLabelType::ReplaceLabelNeither
    } else {
        opts.call_label_type
    })
    &&& m.return_label_type == (if opts.return_label == 0 {
        ReplaceLabelType::ReplaceLabelNeither
    } else {
        opts.return_label_type
    })
}

/// The Replace engine: configuration, component table, the two interners, and
/// the expansion cache.
pub struct ReplaceFstImpl {
    cache_impl: CacheImpl,
    call_label_type_: ReplaceLabelType,
    return_label_type_: ReplaceLabelType,
    call_output_label_: Option<Label>,
    return_label_: Label,
    fst_array: Vec<VectorFst>,
    nonterminal_set: Vec<Label>,
    nonterminal_pairs: Vec<(Label, usize)>,
    root: usize,
    state_table: ReplaceStateTable,
}

impl ReplaceFstImpl {
    /// The pure model this engine computes against.
    pub closed spec fn spec_model(&self) -> ReplaceSpec {
        ReplaceSpec {
            call_label_type: self.call_label_type_,
            return_label_type: self.return_label_type_,
            call_output_label: self.call_output_label_,
            return_label: self.return_label_,
            fsts: self.fst_array@,
            nt_labels: self.nonterminal_set@,
            nt_pairs: self.nonterminal_pairs@,
            root: self.root,
        }
    }

    /// The interned prefixes, by identifier.
    pub closed spec fn spec_prefixes(&self) -> Seq<Seq<PrefixTuple>> {
        self.state_table.prefix_table@
    }

    /// The interned result-state tuples, by identifier.
    pub closed spec fn spec_tuples(&self) -> Seq<ReplaceStateTuple> {
        self.state_table.tuple_table@
    }

    /// The expansion cache.
    pub closed spec fn spec_cache(&self) -> CacheImpl {
        self.cache_impl
    }

    /// The abstract reading of issued state `s`.
    pub open spec fn spec_abs_of_id(&self, s: int) -> AbsState
        recommends
            0 <= s < self.spec_tuples().len(),
    {
        abs_of_tuple(self.spec_prefixes(), self.spec_tuples()[s])
    }

    /// An issued tuple references an interned prefix and an existing component.
    pub open spec fn tuple_ok(&self, t: ReplaceStateTuple) -> bool {
        &&& (t.prefix_id as int) < self.spec_prefixes().len()
        &&& (t.fst_id matches Some(c) ==> (c as int) < self.spec_model().fsts.len())
    }

    /// A cached transition agrees with its abstract counterpart: same labels
    /// and weight, and its target identifier reads back as the abstract
    /// destination.
    pub open spec fn tr_matches(&self, ct: Tr, at: AbsTr) -> bool {
        &&& ct.ilabel == at.ilabel
        &&& ct.olabel == at.olabel
        &&& ct.weight == at.weight
        &&& (ct.nextstate as int) < self.spec_tuples().len()
        &&& self.spec_abs_of_id(ct.nextstate as int) == at.dest
    }

    /// An expanded slot holds exactly the expansion of its abstract state: the
    /// underlying component state was in range, the cached transitions match
    /// the model's expansion element by element, and the cached final weight
    /// is the model's.
    pub open spec fn state_cached_ok(&self, s: int) -> bool {
        let a = self.spec_abs_of_id(s);
        let strs = self.spec_model().spec_expand_trs(a);
        &&& tuple_in_range(self.spec_model(), self.spec_tuples()[s])
        &&& self.spec_cache().spec_trs(s).len() == strs.len()
        &&& forall|j: int|
            0 <= j < strs.len() ==> self.tr_matches(
                #[trigger] self.spec_cache().spec_trs(s)[j],
                strs[j],
            )
        &&& self.spec_cache().spec_final(s) == self.spec_model().spec_final_weight(a)
    }

    /// The memoised start state, once computed, reads back as the model's
    /// abstract start.
    pub open spec fn start_ok(&self) -> bool {
        self.spec_cache().spec_start_computed() ==> match (
            self.spec_cache().spec_start(),
            self.spec_model().spec_abs_start(),
        ) {
            (None, None) => true,
            (Some(id), Some(a0)) => (id as int) < self.spec_tuples().len() && self.spec_abs_of_id(
                id as int,
            ) == a0,
            _ => false,
        }
    }

    /// The engine invariant: a well-formed model, injective interners, the
    /// empty prefix at identifier zero, tuples and frames that reference only
    /// existing entries, and a cache whose expanded slots are correct.
    pub open spec fn wf(&self) -> bool {
        &&& self.spec_model().wf()
        &&& table_wf(self.spec_prefixes())
        &&& table_wf(self.spec_tuples())
        &&& (self.spec_prefixes().len() > 0 ==> self.spec_prefixes()[0] == Seq::<
            PrefixTuple,
        >::empty())
        &&& (self.spec_tuples().len() > 0 ==> self.spec_prefixes().len() > 0)
        &&& forall|s: int|
            0 <= s < self.spec_tuples().len() ==> self.tuple_ok(#[trigger] self.spec_tuples()[s])
        &&& forall|p: int, j: int|
            0 <= p < self.spec_prefixes().len() && 0 <= j < self.spec_prefixes()[p].len()
                ==> frame_ok(self.spec_model(), #[trigger] self.spec_prefixes()[p][j])
        &&& self.spec_cache().spec_len() <= self.spec_tuples().len()
        &&& self.start_ok()
        &&& forall|s: int|
            0 <= s < self.spec_cache().spec_len() && #[trigger] self.spec_cache().spec_expanded(s)
                ==> self.state_cached_ok(s)
    }

    /// The healthy regime: the components are closed and every issued tuple
    /// and frame stays within its component's states. In this regime no
    /// expansion ever fails.
    pub open spec fn spec_in_range(&self) -> bool {
        &&& components_closed(self.spec_model())
        &&& forall|s: int|
            0 <= s < self.spec_tuples().len() ==> tuple_in_range(
                self.spec_model(),
                #[trigger] self.spec_tuples()[s],
            )
        &&& forall|p: int, j: int|
            0 <= p < self.spec_prefixes().len() && 0 <= j < self.spec_prefixes()[p].len()
                ==> frame_in_range(self.spec_model(), #[trigger] self.spec_prefixes()[p][j])
    }
}

/// Growing the interners conservatively preserves the engine invariant and the
/// abstract reading of every already-issued identifier, as long as the new
/// entries are themselves in order and the model and the cache stay untouched.
proof fn lemma_wf_growth(pre: ReplaceFstImpl, post: ReplaceFstImpl)
    requires
        pre.wf(),
        post.spec_model() == pre.spec_model(),
        post.spec_cache() == pre.spec_cache(),
        table_wf(post.spec_prefixes()),
        table_wf(post.spec_tuples()),
        seq_extends(pre.spec_prefixes(), post.spec_prefixes()),
        seq_extends(pre.spec_tuples(), post.spec_tuples()),
        post.spec_prefixes().len() > 0 ==> post.spec_prefixes()[0] == Seq::<PrefixTuple>::empty(),
        post.spec_tuples().len() > 0 ==> post.spec_prefixes().len() > 0,
        forall|s: int|
            pre.spec_tuples().len() <= s < post.spec_tuples().len() ==> post.tuple_ok(
                #[trigger] post.spec_tuples()[s],
            ),
        forall|p: int, j: int|
            pre.spec_prefixes().len() <= p < post.spec_prefixes().len() && 0 <= j
                < post.spec_prefixes()[p].len() ==> frame_ok(
                post.spec_model(),
                #[trigger] post.spec_prefixes()[p][j],
            ),
    ensures
        post.wf(),
        forall|s: int|
            0 <= s < pre.spec_tuples().len() ==> post.spec_abs_of_id(s) == pre.spec_abs_of_id(s),
{
    assert forall|s: int| 0 <= s < post.spec_tuples().len() implies post.tuple_ok(
        #[trigger] post.spec_tuples()[s],
    ) by {
        if s < pre.spec_tuples().len() {
            assert(pre.tuple_ok(pre.spec_tuples()[s]));
            assert(post.spec_tuples()[s] == pre.spec_tuples()[s]);
        }
    }
    assert forall|p: int, j: int|
        0 <= p < post.spec_prefixes().len() && 0 <= j < post.spec_prefixes()[p].len() implies
        frame_ok(post.spec_model(), #[trigger] post.spec_prefixes()[p][j]) by {
        if p < pre.spec_prefixes().len() {
            assert(post.spec_prefixes()[p] == pre.spec_prefixes()[p]);
            assert(frame_ok(pre.spec_model(), pre.spec_prefixes()[p][j]));
        }
    }
    assert forall|s: int| 0 <= s < pre.spec_tuples().len() implies post.spec_abs_of_id(s)
        == pre.spec_abs_of_id(s) by {
        assert(pre.tuple_ok(pre.spec_tuples()[s]));
        assert(post.spec_tuples()[s] == pre.spec_tuples()[s]);
        let pid = pre.spec_tuples()[s].prefix_id as int;
        assert(post.spec_prefixes()[pid] == pre.spec_prefixes()[pid]);
    }
    assert forall|s: int|
        0 <= s < post.spec_cache().spec_len() && #[trigger] post.spec_cache().spec_expanded(
            s,
        ) implies post.state_cached_ok(s) by {
        assert(pre.spec_cache().spec_expanded(s));
        assert(pre.state_cached_ok(s));
        let a = pre.spec_abs_of_id(s);
        let strs = pre.spec_model().spec_expand_trs(a);
        assert(post.spec_abs_of_id(s) == a);
        assert forall|j: int| 0 <= j < strs.len() implies post.tr_matches(
            #[trigger] post.spec_cache().spec_trs(s)[j],
            strs[j],
        ) by {
            assert(pre.tr_matches(pre.spec_cache().spec_trs(s)[j], strs[j]));
            let d = pre.spec_cache().spec_trs(s)[j].nextstate as int;
            assert(post.spec_abs_of_id(d) == pre.spec_abs_of_id(d));
        }
    }
    if post.spec_cache().spec_start_computed() {
        match (post.spec_cache().spec_start(), post.spec_model().spec_abs_start()) {
            (Some(id), Some(a0)) => {
                assert(post.spec_abs_of_id(id as int) == pre.spec_abs_of_id(id as int));
            },
            _ => {},
        }
    }
}

/// `spec_last_index` finds nothing exactly when no registration carries the
/// label.
pub proof fn lemma_last_index_none(pairs: Seq<(Label, usize)>, l: Label)
    ensures
        (spec_last_index(pairs, l) is None) <==> (forall|j: int|
            0 <= j < pairs.len() ==> (#[trigger] pairs[j]).0 != l),
    decreases pairs.len(),
{
    if pairs.len() > 0 {
        lemma_last_index_none(pairs.drop_last(), l);
        assert(forall|j: int|
            0 <= j < pairs.len() - 1 ==> pairs.drop_last()[j] == #[trigger] pairs[j]);
    }
}

/// What `spec_last_index` returns comes from some registration with the label.
pub proof fn lemma_last_index_some(pairs: Seq<(Label, usize)>, l: Label)
    requires
        spec_last_index(pairs, l) is Some,
    ensures
        exists|j: int|
            0 <= j < pairs.len() && (#[trigger] pairs[j]).0 == l && pairs[j].1 == spec_last_index(
                pairs,
                l,
            )->Some_0,
    decreases pairs.len(),
{
    if pairs.len() > 0 {
        if pairs.last().0 == l {
            assert(pairs[pairs.len() - 1].0 == l);
        } else {
            lemma_last_index_some(pairs.drop_last(), l);
            let j = choose|j: int|
                0 <= j < pairs.drop_last().len() && (#[trigger] pairs.drop_last()[j]).0 == l
                    && pairs.drop_last()[j].1 == spec_last_index(pairs.drop_last(), l)->Some_0;
            assert(pairs[j] == pairs.drop_last()[j]);
        }
    }
}

/// Insert a label into a strictly ascending vector, keeping it sorted and
/// duplicate-free.
fn sorted_insert(v: &mut Vec<Label>, l: Label)
    requires
        sorted_distinct(old(v)@),
    ensures
        sorted_distinct(final(v)@),
        forall|x: Label| final(v)@.contains(x) <==> (old(v)@.contains(x) || x == l),
        final(v)@.len() > 0,
{
    let n = v.len();
    let mut i: usize = 0;
    while i < n
        invariant_except_break
            i <= n,
            n == v@.len(),
            *v == *old(v),
            sorted_distinct(v@),
            forall|j: int| 0 <= j < i ==> v@[j] < l,
        ensures
            i <= n,
            n == v@.len(),
            *v == *old(v),
            sorted_distinct(v@),
            forall|j: int| 0 <= j < i ==> v@[j] < l,
            i < n ==> v@[i as int] >= l,
        decreases n - i,
    {
        if v[i] >= l {
            break ;
        }
        i = i + 1;
    }
    if i < n {
        if v[i] == l {
            proof {
                assert(v@.contains(l)) by {
                    assert(v@[i as int] == l);
                }
                assert(forall|x: Label| v@.contains(x) <==> (old(v)@.contains(x) || x == l));
            }
            return ;
        }
    }
    let ghost pre = v@;
    v.insert(i, l);
    proof {
        assert forall|a: int, b: int| 0 <= a < b < v@.len() implies v@[a] < v@[b] by {
            if b < i {
                assert(v@[a] == pre[a] && v@[b] == pre[b]);
            } else if a < i && b == i {
                assert(v@[a] == pre[a] && v@[b] == l);
            } else if a < i && b > i {
                assert(v@[a] == pre[a] && v@[b] == pre[b - 1]);
                assert(pre[a] < l);
                if i < n {
                    assert(pre[i as int] > l);
                }
            } else if a == i {
                assert(v@[a] == l && v@[b] == pre[b - 1]);
                assert(pre[b - 1] >= pre[i as int] || b - 1 == i);
                assert(pre[i as int] > l || b - 1 == i);
                if b - 1 > i {
                    assert(pre[i as int] < pre[b - 1]);
                }
            } else {
                assert(v@[a] == pre[a - 1] && v@[b] == pre[b - 1]);
            }
        }
        assert forall|x: Label| v@.contains(x) <==> (pre.contains(x) || x == l) by {
            if v@.contains(x) {
                let idx = choose|idx: int| 0 <= idx < v@.len() && v@[idx] == x;
                if idx < i {
                    assert(pre[idx] == x);
                    assert(pre.contains(x));
                } else if idx == i {
                    assert(x == l);
                } else {
                    assert(pre[idx - 1] == x);
                    assert(pre.contains(x));
                }
            }
            if pre.contains(x) {
                let idx = choose|idx: int| 0 <= idx < pre.len() && pre[idx] == x;
                if idx < i {
                    assert(v@[idx] == x);
                    assert(v@.contains(x));
                } else {
                    assert(v@[idx + 1] == x);
                    assert(v@.contains(x));
                }
            }
            if x == l {
                assert(v@[i as int] == l);
                assert(v@.contains(x));
            }
        }
        assert(v@[i as int] == l);
    }
}

/// The registered component index of `l`: later registrations win.
fn find_last_pair(pairs: &Vec<(Label, usize)>, l: Label) -> (r: Option<usize>)
    ensures
        r == spec_last_index(pairs@, l),
{
    let mut j = pairs.len();
    proof {
        assert(pairs@.subrange(0, pairs@.len() as int) =~= pairs@);
    }
    while j > 0
        invariant
            j <= pairs@.len(),
            spec_last_index(pairs@, l) == spec_last_index(pairs@.subrange(0, j as int), l),
        decreases j,
    {
        let jj = j - 1;
        let pair = pairs[jj];
        if pair.0 == l {
            proof {
                assert(pairs@.subrange(0, j as int).last() == pairs@[jj as int]);
            }
            return Some(pair.1);
        }
        proof {
            assert(pairs@.subrange(0, j as int).last() == pairs@[jj as int]);
            assert(pairs@.subrange(0, j as int).drop_last() =~= pairs@.subrange(0, jj as int));
        }
        j = jj;
    }
    proof {
        assert(pairs@.subrange(0, 0) =~= Seq::<(Label, usize)>::empty());
    }
    None
}


impl ReplaceFstImpl {
    /// Build an engine from the registration list and the options. Populates
    /// the component table in input order together with the label lookup
    /// structures, resolves the root, and normalises the label-type
    /// configuration. Fails with `UnknownRoot` exactly when the root label was
    /// never registered.
    pub(crate) fn new(fst_list: Vec<(Label, VectorFst)>, opts: ReplaceFstOptions) -> (r: Result<
        Self,
        ReplaceError,
    >)
        requires
            forall|i: int| 0 <= i < fst_list@.len() ==> (#[trigger] fst_list@[i]).1.wf(),
        ensures
            (r is Err) <==> (forall|j: int|
                0 <= j < fst_list@.len() ==> (#[trigger] fst_list@[j]).0 != opts.root),
            r matches Err(e) ==> e == ReplaceError::UnknownRoot(opts.root),
            r matches Ok(e) ==> {
                &&& e.wf()
                &&& model_of_inputs(e.spec_model(), fst_list@, opts)
                &&& e.spec_tuples().len() == 0
                &&& e.spec_prefixes().len() == 0
                &&& e.spec_cache().spec_len() == 0
                &&& !e.spec_cache().spec_start_computed()
                &&& e.discovery_ok()
                &&& (components_closed(e.spec_model()) ==> e.spec_in_range())
            },
    {
        let ghost orig = fst_list@;
        let mut fst_list = fst_list;
        let cache_impl = CacheImpl::new();
        let mut call_label_type_ = opts.call_label_type;
        let mut return_label_type_ = opts.return_label_type;
        let call_output_label_ = opts.call_output_label;
        let return_label_ = opts.return_label;
        match call_output_label_ {
            Some(v) => {
                if v == EPS_LABEL {
                    call_label_type_ = ReplaceLabelType::ReplaceLabelNeither;
                }
            },
            None => {},
        }
        if return_label_ == 0 {
            return_label_type_ = ReplaceLabelType::ReplaceLabelNeither;
        }
        let mut fst_array: Vec<VectorFst> = Vec::new();
        let mut nonterminal_set: Vec<Label> = Vec::new();
        let mut nonterminal_pairs: Vec<(Label, usize)> = Vec::new();
        proof {
            assert(fst_list@ =~= orig.subrange(0, orig.len() as int));
        }
        while fst_list.len() > 0
            invariant
                fst_array@.len() + fst_list@.len() == orig.len(),
                fst_array@.len() == nonterminal_pairs@.len(),
                fst_list@ == orig.subrange(fst_array@.len() as int, orig.len() as int),
                forall|i: int|
                    0 <= i < fst_array@.len() ==> fst_array@[i] == (#[trigger] orig[i]).1,
                forall|i: int|
                    0 <= i < nonterminal_pairs@.len() ==> #[trigger] nonterminal_pairs@[i] == (
                        orig[i].0,
                        i as usize,
                    ),
                sorted_distinct(nonterminal_set@),
                forall|i: int|
                    0 <= i < nonterminal_set@.len() ==> exists|j: int|
                        0 <= j < fst_array@.len() && (#[trigger] orig[j]).0
                            == #[trigger] nonterminal_set@[i],
                forall|j: int|
                    0 <= j < fst_array@.len() ==> nonterminal_set@.contains((#[trigger] orig[j]).0),
                forall|i: int| 0 <= i < orig.len() ==> (#[trigger] orig[i]).1.wf(),
            decreases fst_list.len(),
        {
            let ghost k = fst_array@.len() as int;
            let ghost pre_set = nonterminal_set@;
            let (label, fst) = fst_list.remove(0);
            proof {
                assert(orig.subrange(k, orig.len() as int)[0] == orig[k]);
                assert(fst_list@ =~= orig.subrange(k + 1, orig.len() as int));
            }
            let idx = fst_array.len();
            nonterminal_pairs.push((label, idx));
            sorted_insert(&mut nonterminal_set, label);
            fst_array.push(fst);
            proof {
                assert(label == orig[k].0);
                assert forall|i: int| 0 <= i < nonterminal_set@.len() implies exists|j: int|
                    0 <= j < fst_array@.len() && (#[trigger] orig[j]).0
                        == #[trigger] nonterminal_set@[i] by {
                    let x = nonterminal_set@[i];
                    assert(nonterminal_set@.contains(x));
                    if pre_set.contains(x) {
                        let ii = choose|ii: int| 0 <= ii < pre_set.len() && pre_set[ii] == x;
                        assert(exists|j: int|
                            0 <= j < k && (#[trigger] orig[j]).0 == pre_set[ii]);
                    } else {
                        assert(x == label);
                        assert((orig[k]).0 == x);
                    }
                }
                assert forall|j: int| 0 <= j < fst_array@.len() implies nonterminal_set@.contains(
                    (#[trigger] orig[j]).0,
                ) by {
                    if j < k {
                        assert(pre_set.contains(orig[j].0));
                    } else {
                        assert(orig[j].0 == label);
                    }
                }
            }
        }
        let total = nonterminal_pairs.len();
        match find_last_pair(&nonterminal_pairs, opts.root) {
            None => {
                proof {
                    lemma_last_index_none(nonterminal_pairs@, opts.root);
                    assert forall|j: int| 0 <= j < orig.len() implies (#[trigger] orig[j]).0
                        != opts.root by {
                        assert(nonterminal_pairs@[j] == (orig[j].0, j as usize));
                    }
                }
                Err(ReplaceError::UnknownRoot(opts.root))
            },
            Some(root) => {
                let e = ReplaceFstImpl {
                    cache_impl,
                    call_label_type_,
                    return_label_type_,
                    call_output_label_,
                    return_label_,
                    fst_array,
                    nonterminal_set,
                    nonterminal_pairs,
                    root,
                    state_table: ReplaceStateTable::new(),
                };
                proof {
                    let m = e.spec_model();
                    assert(m.nt_pairs.len() == total);
                    lemma_last_index_some(m.nt_pairs, opts.root);
                    let j0 = choose|j: int|
                        0 <= j < m.nt_pairs.len() && (#[trigger] m.nt_pairs[j]).0 == opts.root
                            && m.nt_pairs[j].1 == spec_last_index(m.nt_pairs, opts.root)->Some_0;
                    assert(m.nt_pairs[j0] == (orig[j0].0, j0 as usize));
                    assert((root as int) == j0);
                    assert((orig[j0]).0 == opts.root);
                    assert(m.nt_labels.contains(opts.root));
                    assert(m.nt_labels.len() > 0);
                    assert forall|i: int| 0 <= i < m.nt_labels.len() implies m.spec_nt_index(
                        #[trigger] m.nt_labels[i],
                    ) is Some by {
                        let x = m.nt_labels[i];
                        let jx = choose|j: int| 0 <= j < orig.len() && (#[trigger] orig[j]).0 == x;
                        assert(m.nt_pairs[jx] == (orig[jx].0, jx as usize));
                        lemma_last_index_none(m.nt_pairs, x);
                    }
                    assert forall|j: int| 0 <= j < m.nt_pairs.len() implies m.nt_labels.contains(
                        (#[trigger] m.nt_pairs[j]).0,
                    ) by {
                        assert(m.nt_pairs[j] == (orig[j].0, j as usize));
                    }
                    assert forall|j: int|
                        0 <= j < m.nt_pairs.len() implies ((#[trigger] m.nt_pairs[j]).1 as int)
                        < m.fsts.len() by {
                        assert(m.nt_pairs[j] == (orig[j].0, j as usize));
                    }
                    assert((m.root as int) < m.fsts.len());
                    assert(m.nt_labels.len() > 0);
                    assert(sorted_distinct(m.nt_labels));
                    assert(forall|j: int|
                        0 <= j < m.nt_pairs.len() ==> ((#[trigger] m.nt_pairs[j]).1 as int)
                            < m.fsts.len());
                    assert(forall|i: int|
                        0 <= i < m.nt_labels.len() ==> m.spec_nt_index(
                            #[trigger] m.nt_labels[i],
                        ) is Some);
                    assert(forall|j: int|
                        0 <= j < m.nt_pairs.len() ==> m.nt_labels.contains(
                            (#[trigger] m.nt_pairs[j]).0,
                        ));
                    assert forall|c: int| 0 <= c < m.fsts.len() implies (
                    #[trigger] m.fsts[c]).wf() by {
                        assert(m.fsts[c] == orig[c].1);
                    }
                    assert(m.wf());
                    assert(m.fsts =~= Seq::new(orig.len(), |i: int| orig[i].1));
                    assert(m.nt_pairs =~= Seq::new(orig.len(), |i: int| (orig[i].0, i as usize)));
                    assert(e.wf());
                    assert(model_of_inputs(m, orig, opts));
                }
                Ok(e)
            },
        }
    }
}

impl ReplaceFstImpl {
    /// How many result states have been issued so far.
    pub fn num_known_states(&self) -> (r: usize)
        ensures
            r == self.spec_tuples().len(),
    {
        self.state_table.tuple_table.len()
    }

    /// How many distinct call-stack prefixes have been interned so far.
    pub fn num_known_prefixes(&self) -> (r: usize)
        ensures
            r == self.spec_prefixes().len(),
    {
        self.state_table.prefix_table.len()
    }

    /// The registered component index of `label`, if any.
    fn get_nonterminal(&self, label: Label) -> (r: Option<usize>)
        ensures
            r == self.spec_model().spec_nt_index(label),
    {
        find_last_pair(&self.nonterminal_pairs, label)
    }

    /// Intern a prefix and return its identifier.
    fn get_prefix_id(&mut self, prefix: ReplaceStackPrefix) -> (id: StateId)
        requires
            old(self).wf(),
            prefix@.len() == 0 || old(self).spec_prefixes().len() > 0,
            forall|j: int|
                0 <= j < prefix@.len() ==> frame_ok(old(self).spec_model(), #[trigger] prefix@[j]),
        ensures
            final(self).wf(),
            final(self).spec_model() == old(self).spec_model(),
            final(self).spec_cache() == old(self).spec_cache(),
            final(self).spec_tuples() == old(self).spec_tuples(),
            final(self).spec_prefixes() == spec_intern(old(self).spec_prefixes(), prefix@),
            seq_extends(old(self).spec_prefixes(), final(self).spec_prefixes()),
            (id as int) < final(self).spec_prefixes().len(),
            final(self).spec_prefixes()[id as int] == prefix@,
            old(self).spec_prefixes().contains(prefix@) ==> final(self).spec_prefixes() == old(self).spec_prefixes(),
            forall|s: int|
                0 <= s < old(self).spec_tuples().len() ==> final(self).spec_abs_of_id(s) == old(self).spec_abs_of_id(s),
            (old(self).spec_in_range() && (forall|j: int|
                0 <= j < prefix@.len() ==> frame_in_range(
                    old(self).spec_model(),
                    #[trigger] prefix@[j],
                ))) ==> final(self).spec_in_range(),
    {
        let ghost pre = *self;
        let id = self.state_table.prefix_table.find_id(prefix);
        proof {
            if pre.spec_prefixes().len() == 0 {
                assert(prefix@.len() == 0);
                assert(prefix@ =~= Seq::<PrefixTuple>::empty());
                assert(self.spec_prefixes()[0] == prefix@);
            }
            assert forall|p: int, j: int|
                pre.spec_prefixes().len() <= p < self.spec_prefixes().len() && 0 <= j
                    < self.spec_prefixes()[p].len() implies frame_ok(
                self.spec_model(),
                #[trigger] self.spec_prefixes()[p][j],
            ) by {
                assert(self.spec_prefixes()[p] == prefix@);
            }
            lemma_wf_growth(pre, *self);
            if pre.spec_in_range() && (forall|j: int|
                0 <= j < prefix@.len() ==> frame_in_range(
                    pre.spec_model(),
                    #[trigger] prefix@[j],
                )) {
                assert forall|p: int, j: int|
                    0 <= p < self.spec_prefixes().len() && 0 <= j
                        < self.spec_prefixes()[p].len() implies frame_in_range(
                    self.spec_model(),
                    #[trigger] self.spec_prefixes()[p][j],
                ) by {
                    if p < pre.spec_prefixes().len() {
                        assert(self.spec_prefixes()[p] == pre.spec_prefixes()[p]);
                        assert(frame_in_range(pre.spec_model(), pre.spec_prefixes()[p][j]));
                    } else {
                        assert(self.spec_prefixes()[p] == prefix@);
                    }
                }
            }
        }
        id
    }

    /// Intern a result-state tuple and return its identifier.
    fn intern_tuple(&mut self, t: ReplaceStateTuple) -> (id: StateId)
        requires
            old(self).wf(),
            old(self).spec_prefixes().len() > 0,
            (t.prefix_id as int) < old(self).spec_prefixes().len(),
            t.fst_id matches Some(c) ==> (c as int) < old(self).spec_model().fsts.len(),
        ensures
            final(self).wf(),
            final(self).spec_model() == old(self).spec_model(),
            final(self).spec_cache() == old(self).spec_cache(),
            final(self).spec_prefixes() == old(self).spec_prefixes(),
            final(self).spec_tuples() == spec_intern(old(self).spec_tuples(), t),
            seq_extends(old(self).spec_tuples(), final(self).spec_tuples()),
            (id as int) < final(self).spec_tuples().len(),
            final(self).spec_tuples()[id as int] == t,
            final(self).spec_abs_of_id(id as int) == abs_of_tuple(old(self).spec_prefixes(), t),
            forall|s: int|
                0 <= s < old(self).spec_tuples().len() ==> final(self).spec_abs_of_id(s) == old(self).spec_abs_of_id(s),
            (old(self).spec_in_range() && tuple_in_range(old(self).spec_model(), t)) ==> final(self).spec_in_range(),
    {
        let ghost pre = *self;
        let id = self.state_table.tuple_table.find_id(t);
        proof {
            assert forall|s: int|
                pre.spec_tuples().len() <= s < self.spec_tuples().len() implies self.tuple_ok(
                #[trigger] self.spec_tuples()[s],
            ) by {
                assert(self.spec_tuples()[s] == t);
            }
            lemma_wf_growth(pre, *self);
            if pre.spec_in_range() && tuple_in_range(pre.spec_model(), t) {
                assert forall|s: int|
                    0 <= s < self.spec_tuples().len() implies tuple_in_range(
                    self.spec_model(),
                    #[trigger] self.spec_tuples()[s],
                ) by {
                    if s < pre.spec_tuples().len() {
                        assert(tuple_in_range(pre.spec_model(), pre.spec_tuples()[s]));
                    } else {
                        assert(self.spec_tuples()[s] == t);
                    }
                }
            }
        }
        id
    }

    /// Push a return frame onto a prefix and intern the result.
    fn push_prefix(
        &mut self,
        prefix: ReplaceStackPrefix,
        fst_id: Option<Label>,
        nextstate: Option<StateId>,
    ) -> (id: StateId)
        requires
            old(self).wf(),
            old(self).spec_prefixes().len() > 0,
            forall|j: int|
                0 <= j < prefix@.len() ==> frame_ok(old(self).spec_model(), #[trigger] prefix@[j]),
            frame_ok(old(self).spec_model(), PrefixTuple { fst_id, nextstate }),
        ensures
            final(self).wf(),
            final(self).spec_model() == old(self).spec_model(),
            final(self).spec_cache() == old(self).spec_cache(),
            final(self).spec_tuples() == old(self).spec_tuples(),
            seq_extends(old(self).spec_prefixes(), final(self).spec_prefixes()),
            final(self).spec_prefixes() == spec_intern(
                old(self).spec_prefixes(),
                prefix@.push(PrefixTuple { fst_id, nextstate }),
            ),
            (id as int) < final(self).spec_prefixes().len(),
            final(self).spec_prefixes()[id as int] == prefix@.push(
                PrefixTuple { fst_id, nextstate },
            ),
            forall|s: int|
                0 <= s < old(self).spec_tuples().len() ==> final(self).spec_abs_of_id(s) == old(self).spec_abs_of_id(s),
            (old(self).spec_in_range() && (forall|j: int|
                0 <= j < prefix@.len() ==> frame_in_range(
                    old(self).spec_model(),
                    #[trigger] prefix@[j],
                )) && frame_in_range(old(self).spec_model(), PrefixTuple { fst_id, nextstate }))
                ==> final(self).spec_in_range(),
    {
        let mut prefix = prefix;
        prefix.push(fst_id, nextstate);
        self.get_prefix_id(prefix)
    }

    /// Pop the innermost frame from a prefix and intern the result.
    fn pop_prefix(&mut self, prefix: ReplaceStackPrefix) -> (id: StateId)
        requires
            old(self).wf(),
            old(self).spec_prefixes().len() > 0,
            prefix@.len() > 0,
            forall|j: int|
                0 <= j < prefix@.len() ==> frame_ok(old(self).spec_model(), #[trigger] prefix@[j]),
        ensures
            final(self).wf(),
            final(self).spec_model() == old(self).spec_model(),
            final(self).spec_cache() == old(self).spec_cache(),
            final(self).spec_tuples() == old(self).spec_tuples(),
            seq_extends(old(self).spec_prefixes(), final(self).spec_prefixes()),
            final(self).spec_prefixes() == spec_intern(
                old(self).spec_prefixes(),
                prefix@.drop_last(),
            ),
            (id as int) < final(self).spec_prefixes().len(),
            final(self).spec_prefixes()[id as int] == prefix@.drop_last(),
            forall|s: int|
                0 <= s < old(self).spec_tuples().len() ==> final(self).spec_abs_of_id(s) == old(self).spec_abs_of_id(s),
            (old(self).spec_in_range() && (forall|j: int|
                0 <= j < prefix@.len() ==> frame_in_range(
                    old(self).spec_model(),
                    #[trigger] prefix@[j],
                ))) ==> final(self).spec_in_range(),
    {
        let mut prefix = prefix;
        proof {
            assert(forall|j: int|
                0 <= j < prefix@.drop_last().len() ==> prefix@.drop_last()[j] == #[trigger] prefix@[
                    j
                ]);
        }
        prefix.pop();
        self.get_prefix_id(prefix)
    }

    /// Compute the designated start state of the result: the root component's
    /// start state under the empty prefix, or nothing when the root component
    /// has no start.
    pub(crate) fn compute_start(&mut self) -> (r: Option<StateId>)
        requires
            old(self).wf(),
        ensures
            final(self).wf(),
            final(self).spec_model() == old(self).spec_model(),
            final(self).spec_cache() == old(self).spec_cache(),
            seq_extends(old(self).spec_prefixes(), final(self).spec_prefixes()),
            seq_extends(old(self).spec_tuples(), final(self).spec_tuples()),
            forall|s: int|
                0 <= s < old(self).spec_tuples().len() ==> final(self).spec_abs_of_id(s) == old(self).spec_abs_of_id(s),
            (r is None) <==> (old(self).spec_model().spec_abs_start() is None),
            r matches Some(id) ==> ((id as int) < final(self).spec_tuples().len() && (old(self).spec_model().spec_abs_start() matches Some(a0) && final(self).spec_abs_of_id(
                id as int,
            ) == a0)),
            (r is None) ==> *final(self) == *old(self),
            r matches Some(id) ==> ({
                let t = final(self).spec_tuples()[id as int];
                &&& final(self).spec_prefixes() == spec_intern(
                    old(self).spec_prefixes(),
                    Seq::<PrefixTuple>::empty(),
                )
                &&& final(self).spec_tuples() == spec_intern(old(self).spec_tuples(), t)
                &&& final(self).spec_prefixes()[t.prefix_id as int] == Seq::<PrefixTuple>::empty()
                &&& t.fst_id == Some(old(self).spec_model().root)
                &&& t.fst_state == old(self).spec_model().fsts[
                    old(self).spec_model().root as int
                ].spec_start()
                &&& (old(self).spec_tuples().len() == 0 ==> id == 0)
            }),
            old(self).spec_in_range() ==> final(self).spec_in_range(),
    {
        if self.fst_array.is_empty() {
            return None;
        }
        let root = self.root;
        match self.fst_array[root].start() {
            Some(fst_start) => {
                let prefix = self.get_prefix_id(ReplaceStackPrefix::new());
                let ghost mid = *self;
                let start = self.intern_tuple(
                    ReplaceStateTuple::new(prefix, Some(root), Some(fst_start)),
                );
                proof {
                    let t = ReplaceStateTuple {
                        prefix_id: prefix,
                        fst_id: Some(root),
                        fst_state: Some(fst_start),
                    };
                    assert(mid.spec_prefixes()[prefix as int] == Seq::<PrefixTuple>::empty());
                    assert(self.spec_abs_of_id(start as int) == abs_of_tuple(
                        mid.spec_prefixes(),
                        t,
                    ));
                    assert(self.spec_abs_of_id(start as int) =~= old(self).spec_model().spec_abs_start()->Some_0);
                }
                Some(start)
            },
            None => None,
        }
    }
}

impl ReplaceFstImpl {
    /// Rewrite one component transition `tr` out of the state read as `tuple`.
    /// A terminal (or in-range but unregistered) output label keeps its labels
    /// and stays in the component; a registered non-terminal becomes a call
    /// transition into the callee's start state with a return frame pushed, or
    /// is suppressed entirely when the callee has no start state.
    fn compute_arc(&mut self, tuple: ReplaceStateTuple, tr: Tr) -> (r: Option<Tr>)
        requires
            old(self).wf(),
            old(self).spec_prefixes().len() > 0,
            (tuple.prefix_id as int) < old(self).spec_prefixes().len(),
            tuple.fst_id matches Some(c) && (c as int) < old(self).spec_model().fsts.len(),
            tuple.fst_state is Some,
        ensures
            final(self).wf(),
            final(self).spec_model() == old(self).spec_model(),
            final(self).spec_cache() == old(self).spec_cache(),
            seq_extends(old(self).spec_prefixes(), final(self).spec_prefixes()),
            seq_extends(old(self).spec_tuples(), final(self).spec_tuples()),
            forall|s: int|
                0 <= s < old(self).spec_tuples().len() ==> final(self).spec_abs_of_id(s) == old(self).spec_abs_of_id(s),
            match (r, old(self).spec_model().spec_compute_arc(
                abs_of_tuple(old(self).spec_prefixes(), tuple),
                tr,
            )) {
                (None, None) => true,
                (Some(ct), Some(at)) => ct.ilabel == at.ilabel && ct.olabel == at.olabel
                    && ct.weight == at.weight && (ct.nextstate as int) < final(self).spec_tuples().len() && final(self).spec_abs_of_id(ct.nextstate as int) == at.dest,
                _ => false,
            },
            final(self).spec_tuples().len() <= old(self).spec_tuples().len() + 1,
            final(self).spec_tuples().len() > old(self).spec_tuples().len() ==> (r matches Some(ct)
                && (ct.nextstate as int) == old(self).spec_tuples().len()),
            final(self).spec_prefixes().len() <= old(self).spec_prefixes().len() + 1,
            final(self).spec_prefixes().len() > old(self).spec_prefixes().len() ==> final(self).spec_prefixes()[old(self).spec_prefixes().len() as int] == abs_of_tuple(
                old(self).spec_prefixes(),
                tuple,
            ).prefix.push(PrefixTuple { fst_id: tuple.fst_id, nextstate: Some(tr.nextstate) }),
            (old(self).spec_in_range() && (tr.nextstate as int) < old(self).spec_model().fsts[
                tuple.fst_id->Some_0 as int
            ].spec_num_states()) ==> final(self).spec_in_range(),
    {
        let ghost m = self.spec_model();
        let ghost a = abs_of_tuple(self.spec_prefixes(), tuple);
        let min_label = self.nonterminal_set[0];
        let max_label = self.nonterminal_set[self.nonterminal_set.len() - 1];
        if tr.olabel == EPS_LABEL || tr.olabel < min_label || tr.olabel > max_label {
            let nextstate = self.intern_tuple(
                ReplaceStateTuple::new(tuple.prefix_id, tuple.fst_id, Some(tr.nextstate)),
            );
            proof {
                assert(m.is_terminal_label(tr.olabel));
                assert(self.spec_abs_of_id(nextstate as int) =~= m.spec_compute_arc(
                    a,
                    tr,
                )->Some_0.dest);
            }
            Some(Tr::new(tr.ilabel, tr.olabel, tr.weight, nextstate))
        } else {
            match self.get_nonterminal(tr.olabel) {
                Some(nonterminal) => {
                    proof {
                        lemma_last_index_some(m.nt_pairs, tr.olabel);
                        assert((nonterminal as int) < m.fsts.len());
                        assert(!m.is_terminal_label(tr.olabel));
                    }
                    let p = self.state_table.prefix_table.find_tuple(tuple.prefix_id);
                    proof {
                        assert forall|j: int| 0 <= j < p@.len() implies frame_ok(
                            self.spec_model(),
                            #[trigger] p@[j],
                        ) by {
                            assert(self.spec_prefixes()[tuple.prefix_id as int][j] == p@[j]);
                        }
                    }
                    let nt_prefix = self.push_prefix(p, tuple.fst_id, Some(tr.nextstate));
                    match self.fst_array[nonterminal].start() {
                        Some(nt_start) => {
                            let nt_nextstate = self.intern_tuple(
                                ReplaceStateTuple::new(nt_prefix, Some(nonterminal), Some(nt_start)),
                            );
                            let ilabel = if epsilon_on_input(self.call_label_type_) {
                                0
                            } else {
                                tr.ilabel
                            };
                            let olabel = if epsilon_on_output(self.call_label_type_) {
                                0
                            } else {
                                match self.call_output_label_ {
                                    Some(l) => l,
                                    None => tr.olabel,
                                }
                            };
                            proof {
                                assert(self.spec_abs_of_id(nt_nextstate as int)
                                    =~= m.spec_compute_arc(a, tr)->Some_0.dest);
                                if old(self).spec_in_range() && (tr.nextstate as int) < m.fsts[
                                    tuple.fst_id->Some_0 as int
                                ].spec_num_states() {
                                    assert(frame_in_range(
                                        m,
                                        PrefixTuple {
                                            fst_id: tuple.fst_id,
                                            nextstate: Some(tr.nextstate),
                                        },
                                    ));
                                    assert(tuple_in_range(
                                        m,
                                        ReplaceStateTuple {
                                            prefix_id: nt_prefix,
                                            fst_id: Some(nonterminal),
                                            fst_state: Some(nt_start),
                                        },
                                    ));
                                    assert forall|j: int|
                                        0 <= j < p@.len() implies frame_in_range(
                                        m,
                                        #[trigger] p@[j],
                                    ) by {
                                        assert(old(self).spec_prefixes()[tuple.prefix_id as int][j]
                                            == p@[j]);
                                    }
                                }
                            }
                            Some(Tr::new(ilabel, olabel, tr.weight, nt_nextstate))
                        },
                        None => None,
                    }
                },
                None => {
                    let nextstate = self.intern_tuple(
                        ReplaceStateTuple::new(tuple.prefix_id, tuple.fst_id, Some(tr.nextstate)),
                    );
                    proof {
                        assert(m.is_terminal_label(tr.olabel));
                        assert(self.spec_abs_of_id(nextstate as int) =~= m.spec_compute_arc(
                            a,
                            tr,
                        )->Some_0.dest);
                    }
                    Some(Tr::new(tr.ilabel, tr.olabel, tr.weight, nextstate))
                },
            }
        }
    }

    /// The final weight of `state`: the component's final weight at the
    /// underlying state when the prefix is empty, absent otherwise. This is
    /// the only place the engine produces a final weight; a nested final
    /// state is a return site instead and is handled by `compute_final_arc`.
    fn compute_final(&self, state: StateId) -> (r: Option<Weight>)
        requires
            self.wf(),
            (state as int) < self.spec_tuples().len(),
            tuple_in_range(self.spec_model(), self.spec_tuples()[state as int]),
        ensures
            r == self.spec_model().spec_final_weight(self.spec_abs_of_id(state as int)),
    {
        let ghost a = self.spec_abs_of_id(state as int);
        let tuple = self.state_table.tuple_table.find_tuple(state);
        match (tuple.fst_id, tuple.fst_state) {
            (Some(fst_id), Some(fst_state)) => {
                if tuple.prefix_id == 0 {
                    proof {
                        assert(a.prefix == self.spec_prefixes()[0]);
                    }
                    self.fst_array[fst_id].final_weight(fst_state)
                } else {
                    proof {
                        assert(self.spec_prefixes()[0] == Seq::<PrefixTuple>::empty());
                        if a.prefix.len() == 0 {
                            assert(a.prefix =~= Seq::<PrefixTuple>::empty());
                            assert(self.spec_prefixes()[tuple.prefix_id as int]
                                == self.spec_prefixes()[0]);
                        }
                    }
                    None
                }
            },
            _ => None,
        }
    }

    /// The synthetic return transition of `state`: present exactly when the
    /// underlying component state is final and the prefix is non-empty. The
    /// target pops the innermost frame and resumes at the recorded component
    /// and state; the weight is the component's final weight.
    fn compute_final_arc(&mut self, state: StateId) -> (r: Option<Tr>)
        requires
            old(self).wf(),
            (state as int) < old(self).spec_tuples().len(),
            tuple_in_range(old(self).spec_model(), old(self).spec_tuples()[state as int]),
        ensures
            final(self).wf(),
            final(self).spec_model() == old(self).spec_model(),
            final(self).spec_cache() == old(self).spec_cache(),
            seq_extends(old(self).spec_prefixes(), final(self).spec_prefixes()),
            seq_extends(old(self).spec_tuples(), final(self).spec_tuples()),
            forall|s: int|
                0 <= s < old(self).spec_tuples().len() ==> final(self).spec_abs_of_id(s) == old(self).spec_abs_of_id(s),
            match (r, old(self).spec_model().spec_final_arc(
                old(self).spec_abs_of_id(state as int),
            )) {
                (None, None) => true,
                (Some(ct), Some(at)) => ct.ilabel == at.ilabel && ct.olabel == at.olabel
                    && ct.weight == at.weight && (ct.nextstate as int) < final(self).spec_tuples().len() && final(self).spec_abs_of_id(ct.nextstate as int) == at.dest,
                _ => false,
            },
            final(self).spec_tuples().len() <= old(self).spec_tuples().len() + 1,
            final(self).spec_tuples().len() > old(self).spec_tuples().len() ==> (r matches Some(ct)
                && (ct.nextstate as int) == old(self).spec_tuples().len()),
            final(self).spec_prefixes().len() <= old(self).spec_prefixes().len() + 1,
            final(self).spec_prefixes().len() > old(self).spec_prefixes().len() ==> final(self).spec_prefixes()[old(self).spec_prefixes().len() as int] == old(self).spec_abs_of_id(
                state as int,
            ).prefix.drop_last(),
            old(self).spec_in_range() ==> final(self).spec_in_range(),
    {
        let ghost m = self.spec_model();
        let ghost a = self.spec_abs_of_id(state as int);
        let tuple = self.state_table.tuple_table.find_tuple(state);
        match (tuple.fst_id, tuple.fst_state) {
            (Some(fst_id), Some(fst_state)) => {
                if self.fst_array[fst_id].is_final(fst_state) && tuple.prefix_id > 0 {
                    proof {
                        assert(self.spec_prefixes()[0] == Seq::<PrefixTuple>::empty());
                        if a.prefix.len() == 0 {
                            assert(a.prefix =~= Seq::<PrefixTuple>::empty());
                            assert(self.spec_prefixes()[tuple.prefix_id as int]
                                == self.spec_prefixes()[0]);
                        }
                    }
                    let ilabel = if epsilon_on_input(self.return_label_type_) {
                        EPS_LABEL
                    } else {
                        self.return_label_
                    };
                    let olabel = if epsilon_on_output(self.return_label_type_) {
                        0
                    } else {
                        self.return_label_
                    };
                    let stack = self.state_table.prefix_table.find_tuple(tuple.prefix_id);
                    proof {
                        assert forall|j: int| 0 <= j < stack@.len() implies frame_ok(
                            self.spec_model(),
                            #[trigger] stack@[j],
                        ) by {
                            assert(self.spec_prefixes()[tuple.prefix_id as int][j] == stack@[j]);
                        }
                    }
                    let top = stack.top();
                    let prefix_id = self.pop_prefix(stack);
                    let nextstate = self.intern_tuple(
                        ReplaceStateTuple::new(prefix_id, top.fst_id, top.nextstate),
                    );
                    proof {
                        assert(self.spec_abs_of_id(nextstate as int) =~= m.spec_final_arc(
                            a,
                        )->Some_0.dest);
                        if old(self).spec_in_range() {
                            assert(frame_in_range(m, a.prefix.last()));
                            assert(tuple_in_range(
                                m,
                                ReplaceStateTuple {
                                    prefix_id,
                                    fst_id: top.fst_id,
                                    fst_state: top.nextstate,
                                },
                            ));
                            assert forall|j: int| 0 <= j < stack@.len() implies frame_in_range(
                                m,
                                #[trigger] stack@[j],
                            ) by {
                                assert(old(self).spec_prefixes()[tuple.prefix_id as int][j]
                                    == stack@[j]);
                            }
                        }
                    }
                    match self.fst_array[fst_id].final_weight(fst_state) {
                        Some(weight) => Some(Tr::new(ilabel, olabel, weight, nextstate)),
                        None => None,
                    }
                } else {
                    proof {
                        if tuple.prefix_id == 0 {
                            assert(a.prefix == self.spec_prefixes()[0]);
                        }
                    }
                    None
                }
            },
            _ => None,
        }
    }
}

impl ReplaceFstImpl {
    /// Slots that were never expanded hold nothing. This holds at every
    /// operation boundary; during a single expansion only the slot being
    /// filled deviates.
    pub open spec fn cache_clean(&self) -> bool {
        forall|s: int|
            0 <= s < self.spec_cache().spec_len() && !(#[trigger] self.spec_cache().spec_expanded(
                s,
            )) ==> self.spec_cache().spec_trs(s) == Seq::<Tr>::empty()
                && self.spec_cache().spec_final(s) is None
    }

    /// State `s` already appears as the target of a cached transition of a
    /// strictly earlier, already expanded state.
    pub open spec fn referenced_by_earlier(&self, s: int) -> bool {
        exists|t: int, j: int|
            0 <= t < s && 0 <= j < self.spec_cache().spec_trs(t).len()
                && self.spec_cache().spec_expanded(t) && ((#[trigger] self.spec_cache().spec_trs(
                t,
            )[j]).nextstate as int) == s
    }

    /// Every identifier from `lo` on appears as the target of a transition
    /// cached for `state`.
    pub open spec fn new_tuples_are_dests(&self, lo: int, state: int) -> bool {
        forall|s: int|
            lo <= s < self.spec_tuples().len() ==> #[trigger] self.dest_in_slot(state, s)
    }

    /// Every prefix from `lo` on is one call/return step away from `base`:
    /// a single expansion interns only prefixes obtained from the expanded
    /// state's own prefix by one push (per call transition) or one pop (the
    /// return transition).
    pub open spec fn new_prefixes_from(&self, lo: int, base: Seq<PrefixTuple>) -> bool {
        forall|p: int|
            lo <= p < self.spec_prefixes().len() ==> #[trigger] prefix_step(
                base,
                self.spec_prefixes()[p],
            )
    }

    /// State `s` is the target of some transition cached for `state`.
    pub open spec fn dest_in_slot(&self, state: int, s: int) -> bool {
        exists|j: int|
            0 <= j < self.spec_cache().spec_trs(state).len() && ((
            #[trigger] self.spec_cache().spec_trs(state)[j]).nextstate as int) == s
    }

    /// Identifiers are assigned in order of first reference: the first tuple
    /// ever interned is the designated start state, so a memoised start is
    /// identifier `0`, and every later identifier first appears as the target
    /// of a cached transition of a strictly earlier state. Like
    /// `cache_clean`, this holds at every operation boundary.
    pub open spec fn discovery_ok(&self) -> bool {
        &&& (self.spec_cache().spec_start_computed() || self.spec_tuples().len() == 0)
        &&& (self.spec_cache().spec_start() matches Some(id) ==> id == 0)
        &&& forall|s: int|
            0 < s < self.spec_tuples().len() ==> #[trigger] self.referenced_by_earlier(s)
    }

    /// Expand one result state: write its transitions to the cache in the
    /// order produced (the return transition first, if any, then the
    /// rewritten component transitions in their native order), record its
    /// final weight, and seal the slot. Fails, before writing anything,
    /// exactly when the state's underlying component state is out of range.
    #[verifier::rlimit(100)]
    pub(crate) fn expand(&mut self, state: StateId) -> (r: Result<(), ReplaceError>)
        requires
            old(self).wf(),
            old(self).cache_clean(),
            old(self).discovery_ok(),
            (state as int) < old(self).spec_tuples().len(),
            !old(self).spec_cache().spec_expanded(state as int),
        ensures
            final(self).wf(),
            final(self).cache_clean(),
            final(self).discovery_ok(),
            final(self).new_tuples_are_dests(old(self).spec_tuples().len() as int, state as int),
            final(self).new_prefixes_from(
                old(self).spec_prefixes().len() as int,
                old(self).spec_abs_of_id(state as int).prefix,
            ),
            final(self).spec_model() == old(self).spec_model(),
            seq_extends(old(self).spec_prefixes(), final(self).spec_prefixes()),
            seq_extends(old(self).spec_tuples(), final(self).spec_tuples()),
            forall|s: int|
                0 <= s < old(self).spec_tuples().len() ==> final(self).spec_abs_of_id(s) == old(self).spec_abs_of_id(s),
            final(self).spec_cache().spec_start_computed() == old(self).spec_cache().spec_start_computed(),
            final(self).spec_cache().spec_start() == old(self).spec_cache().spec_start(),
            final(self).spec_cache().spec_len() >= old(self).spec_cache().spec_len(),
            forall|t: int|
                0 <= t < old(self).spec_cache().spec_len() && t != state as int ==> final(self).spec_cache().spec_expanded(t) == old(self).spec_cache().spec_expanded(t) && final(self).spec_cache().spec_trs(t) == old(self).spec_cache().spec_trs(t) && final(self).spec_cache().spec_final(t) == old(self).spec_cache().spec_final(t),
            (r is Ok) ==> final(self).spec_cache().spec_expanded(state as int),
            (r is Err) <==> !tuple_in_range(
                old(self).spec_model(),
                old(self).spec_tuples()[state as int],
            ),
            (r is Err) ==> *final(self) == *old(self) && (r matches Err(e) ==> e matches
                ReplaceError::ComponentStateOutOfRange(_, _)),
            old(self).spec_in_range() ==> (r is Ok) && final(self).spec_in_range(),
    {
        let ghost m = self.spec_model();
        let ghost a = self.spec_abs_of_id(state as int);
        let tuple = self.state_table.tuple_table.find_tuple(state);
        match (tuple.fst_id, tuple.fst_state) {
            (Some(fst_id), Some(fst_state)) => {
                if fst_state >= self.fst_array[fst_id].num_states() {
                    return Err(ReplaceError::ComponentStateOutOfRange(fst_id, fst_state));
                }
                self.cache_impl.ensure_slot(state);
                proof {
                    assert forall|t: int|
                        0 <= t < self.spec_cache().spec_len()
                            && #[trigger] self.spec_cache().spec_expanded(t) implies
                        self.state_cached_ok(t) by {
                        assert(old(self).spec_cache().spec_expanded(t));
                        assert(old(self).state_cached_ok(t));
                        assert(self.spec_cache().spec_trs(t) == old(self).spec_cache().spec_trs(
                            t,
                        ));
                    }
                    assert(self.wf());
                }
                let ghost after_slot = *self;
                let ghost len0 = self.spec_cache().spec_len();
                let far = self.compute_final_arc(state);
                match far {
                    Some(tr0) => {
                        self.cache_impl.push_transition(state, tr0);
                    },
                    None => {},
                }
                proof {
                    let target0 = opt_to_seq(m.spec_final_arc(a));
                    assert(self.spec_cache().spec_trs(state as int).len() == target0.len());
                    assert forall|j: int|
                        0 <= j < target0.len() implies self.tr_matches(
                        #[trigger] self.spec_cache().spec_trs(state as int)[j],
                        target0[j],
                    ) by {
                        assert(j == 0);
                    }
                    assert forall|s: int|
                        old(self).spec_tuples().len() <= s < self.spec_tuples().len() implies
                        #[trigger] self.dest_in_slot(state as int, s) by {
                        assert(s == old(self).spec_tuples().len());
                        match far {
                            Some(ct) => {
                                assert((ct.nextstate as int) == s);
                                let j0 = self.spec_cache().spec_trs(state as int).len() - 1;
                                assert(self.spec_cache().spec_trs(state as int)[j0] == ct);
                            },
                            None => {
                                assert(false);
                            },
                        }
                    }
                    assert(self.new_tuples_are_dests(
                        old(self).spec_tuples().len() as int,
                        state as int,
                    ));
                    assert forall|pp: int|
                        old(self).spec_prefixes().len() <= pp < self.spec_prefixes().len() implies
                        #[trigger] prefix_step(a.prefix, self.spec_prefixes()[pp]) by {
                        assert(pp == old(self).spec_prefixes().len());
                        assert(self.spec_prefixes()[pp] == a.prefix.drop_last());
                    }
                    assert(self.new_prefixes_from(old(self).spec_prefixes().len() as int, a.prefix));
                    assert forall|t: int|
                        old(self).spec_cache().spec_len() <= t < len0 && t != state as int implies
                        !self.spec_cache().spec_expanded(t) && self.spec_cache().spec_trs(t)
                            == Seq::<Tr>::empty() && self.spec_cache().spec_final(t) is None by {
                        assert(!after_slot.spec_cache().spec_expanded(t));
                        assert(after_slot.spec_cache().spec_trs(t) == Seq::<Tr>::empty());
                        assert(after_slot.spec_cache().spec_final(t) is None);
                    }
                }
                let trs = self.fst_array[fst_id].transitions(fst_state);
                let n = trs.len();
                let mut i: usize = 0;
                while i < n
                    invariant
                        self.wf(),
                        self.spec_model() == m,
                        seq_extends(old(self).spec_prefixes(), self.spec_prefixes()),
                        seq_extends(old(self).spec_tuples(), self.spec_tuples()),
                        forall|s: int|
                            0 <= s < old(self).spec_tuples().len() ==> self.spec_abs_of_id(s)
                                == old(self).spec_abs_of_id(s),
                        (state as int) < old(self).spec_tuples().len(),
                        a == old(self).spec_abs_of_id(state as int),
                        self.spec_abs_of_id(state as int) == a,
                        tuple == old(self).spec_tuples()[state as int],
                        a.fst_id == Some(fst_id),
                        a.fst_state == Some(fst_state),
                        (fst_id as int) < m.fsts.len(),
                        (fst_state as int) < m.fsts[fst_id as int].spec_num_states(),
                        trs@ == m.fsts[fst_id as int].spec_trs(fst_state as int),
                        n == trs@.len(),
                        i <= n,
                        self.spec_cache().spec_len() == len0,
                        len0 >= old(self).spec_cache().spec_len(),
                        (state as int) < len0,
                        !self.spec_cache().spec_expanded(state as int),
                        self.spec_cache().spec_start_computed() == old(self).spec_cache().spec_start_computed(),
                        self.spec_cache().spec_start() == old(self).spec_cache().spec_start(),
                        forall|t: int|
                            0 <= t < old(self).spec_cache().spec_len() && t != state as int
                                ==> self.spec_cache().spec_expanded(t) == old(self).spec_cache().spec_expanded(t) && self.spec_cache().spec_trs(t) == old(self).spec_cache().spec_trs(t) && self.spec_cache().spec_final(t) == old(self).spec_cache().spec_final(t),
                        forall|t: int|
                            old(self).spec_cache().spec_len() <= t < len0 && t != state as int
                                ==> !self.spec_cache().spec_expanded(t)
                                && self.spec_cache().spec_trs(t) == Seq::<Tr>::empty()
                                && self.spec_cache().spec_final(t) is None,
                        old(self).cache_clean(),
                        old(self).discovery_ok(),
                        old(self).spec_in_range() ==> self.spec_in_range(),
                        self.new_tuples_are_dests(
                            old(self).spec_tuples().len() as int,
                            state as int,
                        ),
                        self.new_prefixes_from(old(self).spec_prefixes().len() as int, a.prefix),
                        self.spec_cache().spec_trs(state as int).len() == (opt_to_seq(
                            m.spec_final_arc(a),
                        ) + m.spec_arcs_upto(a, trs@, i as int)).len(),
                        forall|j: int|
                            0 <= j < self.spec_cache().spec_trs(state as int).len()
                                ==> self.tr_matches(
                                #[trigger] self.spec_cache().spec_trs(state as int)[j],
                                (opt_to_seq(m.spec_final_arc(a)) + m.spec_arcs_upto(
                                    a,
                                    trs@,
                                    i as int,
                                ))[j],
                            ),
                    decreases n - i,
                {
                    let ghost pre = *self;
                    let ghost target_i = opt_to_seq(m.spec_final_arc(a)) + m.spec_arcs_upto(
                        a,
                        trs@,
                        i as int,
                    );
                    let new_arc_opt = self.compute_arc(tuple, trs[i]);
                    proof {
                        assert forall|j: int|
                            0 <= j < self.spec_cache().spec_trs(state as int).len() implies
                            self.tr_matches(
                            #[trigger] self.spec_cache().spec_trs(state as int)[j],
                            target_i[j],
                        ) by {
                            assert(pre.tr_matches(
                                pre.spec_cache().spec_trs(state as int)[j],
                                target_i[j],
                            ));
                            let d = pre.spec_cache().spec_trs(state as int)[j].nextstate as int;
                            assert(self.spec_abs_of_id(d) == pre.spec_abs_of_id(d));
                        }
                        assert(m.spec_arcs_upto(a, trs@, i + 1 as int) == m.spec_arcs_upto(
                            a,
                            trs@,
                            i as int,
                        ) + opt_to_seq(m.spec_compute_arc(a, trs@[i as int])));
                    }
                    match new_arc_opt {
                        Some(new_arc) => {
                            self.cache_impl.push_transition(state, new_arc);
                        },
                        None => {},
                    }
                    proof {
                        let target_next = opt_to_seq(m.spec_final_arc(a)) + m.spec_arcs_upto(
                            a,
                            trs@,
                            i + 1 as int,
                        );
                        assert(self.spec_cache().spec_trs(state as int).len()
                            == target_next.len());
                        assert forall|j: int|
                            0 <= j < self.spec_cache().spec_trs(state as int).len() implies
                            self.tr_matches(
                            #[trigger] self.spec_cache().spec_trs(state as int)[j],
                            target_next[j],
                        ) by {
                            if j < target_i.len() {
                                assert(target_next[j] == target_i[j]);
                            } else {
                                assert(j == target_i.len());
                            }
                        }
                        assert forall|s: int|
                            old(self).spec_tuples().len() <= s < self.spec_tuples().len() implies
                            #[trigger] self.dest_in_slot(state as int, s) by {
                            if s < pre.spec_tuples().len() {
                                assert(pre.dest_in_slot(state as int, s));
                                let j0 = choose|j: int|
                                    0 <= j < pre.spec_cache().spec_trs(state as int).len() && ((
                                    #[trigger] pre.spec_cache().spec_trs(state as int)[
                                        j
                                    ]).nextstate as int) == s;
                                assert(self.spec_cache().spec_trs(state as int)[j0]
                                    == pre.spec_cache().spec_trs(state as int)[j0]);
                            } else {
                                assert(s == pre.spec_tuples().len());
                                match new_arc_opt {
                                    Some(ct) => {
                                        assert((ct.nextstate as int) == s);
                                        let j0 = self.spec_cache().spec_trs(
                                            state as int,
                                        ).len() - 1;
                                        assert(self.spec_cache().spec_trs(state as int)[j0]
                                            == ct);
                                    },
                                    None => {
                                        assert(false);
                                    },
                                }
                            }
                        }
                        assert(self.new_tuples_are_dests(
                            old(self).spec_tuples().len() as int,
                            state as int,
                        ));
                        assert forall|pp: int|
                            old(self).spec_prefixes().len() <= pp
                                < self.spec_prefixes().len() implies #[trigger] prefix_step(
                            a.prefix,
                            self.spec_prefixes()[pp],
                        ) by {
                            if pp < pre.spec_prefixes().len() {
                                assert(prefix_step(a.prefix, pre.spec_prefixes()[pp]));
                                assert(self.spec_prefixes()[pp] == pre.spec_prefixes()[pp]);
                            } else {
                                assert(pp == pre.spec_prefixes().len());
                                let fr = PrefixTuple {
                                    fst_id: tuple.fst_id,
                                    nextstate: Some(trs[i as int].nextstate),
                                };
                                assert(self.spec_prefixes()[pp] == a.prefix.push(fr));
                            }
                        }
                        assert(self.new_prefixes_from(
                            old(self).spec_prefixes().len() as int,
                            a.prefix,
                        ));
                    }
                    i = i + 1;
                }
                let ghost post_loop = *self;
                let fw = self.compute_final(state);
                proof {
                    assert(fw == m.spec_final_weight(a));
                }
                self.cache_impl.set_final(state, fw);
                self.cache_impl.mark_expanded(state);
                proof {
                    let strs = m.spec_expand_trs(a);
                    assert(strs == opt_to_seq(m.spec_final_arc(a)) + m.spec_arcs_upto(
                        a,
                        trs@,
                        n as int,
                    ));
                    assert(self.state_cached_ok(state as int));
                    assert forall|t: int|
                        0 <= t < self.spec_cache().spec_len()
                            && #[trigger] self.spec_cache().spec_expanded(t) implies
                        self.state_cached_ok(t) by {
                        if t != state as int {
                            if t < old(self).spec_cache().spec_len() {
                                assert(old(self).spec_cache().spec_expanded(t));
                            }
                        }
                    }
                    assert(self.wf());
                    assert forall|s: int|
                        old(self).spec_tuples().len() <= s < self.spec_tuples().len() implies
                        #[trigger] self.dest_in_slot(state as int, s) by {
                        assert(post_loop.dest_in_slot(state as int, s));
                        let j0 = choose|j: int|
                            0 <= j < post_loop.spec_cache().spec_trs(state as int).len() && ((
                            #[trigger] post_loop.spec_cache().spec_trs(state as int)[
                                j
                            ]).nextstate as int) == s;
                        assert(self.spec_cache().spec_trs(state as int)
                            == post_loop.spec_cache().spec_trs(state as int));
                        assert(((self.spec_cache().spec_trs(state as int)[j0]).nextstate as int)
                            == s);
                    }
                    assert(self.new_tuples_are_dests(
                        old(self).spec_tuples().len() as int,
                        state as int,
                    ));
                    assert forall|s: int| 0 < s < self.spec_tuples().len() implies
                        #[trigger] self.referenced_by_earlier(s) by {
                        if s < old(self).spec_tuples().len() {
                            assert(old(self).referenced_by_earlier(s));
                            let (t0, j0) = choose|t: int, j: int|
                                0 <= t < s && 0 <= j < old(self).spec_cache().spec_trs(t).len()
                                    && old(self).spec_cache().spec_expanded(t) && ((
                                #[trigger] old(self).spec_cache().spec_trs(t)[j]).nextstate
                                    as int) == s;
                            assert(t0 != state as int);
                            old(self).spec_cache().lemma_expanded_bound(t0);
                            assert(self.spec_cache().spec_trs(t0) == old(self).spec_cache().spec_trs(t0));
                            assert(self.spec_cache().spec_expanded(t0));
                            assert(((self.spec_cache().spec_trs(t0)[j0]).nextstate as int) == s);
                        } else {
                            assert(post_loop.dest_in_slot(state as int, s));
                            let j0 = choose|j: int|
                                0 <= j < post_loop.spec_cache().spec_trs(state as int).len() && ((
                                #[trigger] post_loop.spec_cache().spec_trs(state as int)[
                                    j
                                ]).nextstate as int) == s;
                            assert(self.spec_cache().spec_trs(state as int)
                                == post_loop.spec_cache().spec_trs(state as int));
                            assert((state as int) < s);
                            assert(self.spec_cache().spec_expanded(state as int));
                            assert(((self.spec_cache().spec_trs(state as int)[j0]).nextstate
                                as int) == s);
                        }
                    }
                    assert(old(self).spec_tuples().len() > 0);
                    assert(self.spec_cache().spec_start_computed());
                    assert(self.spec_cache().spec_start() == old(self).spec_cache().spec_start());
                    assert(self.discovery_ok());
                }
                Ok(())
            },
            _ => {
                self.cache_impl.ensure_slot(state);
                proof {
                    assert forall|t: int|
                        0 <= t < self.spec_cache().spec_len()
                            && #[trigger] self.spec_cache().spec_expanded(t) implies
                        self.state_cached_ok(t) by {
                        assert(old(self).spec_cache().spec_expanded(t));
                        assert(old(self).state_cached_ok(t));
                        assert(self.spec_cache().spec_trs(t) == old(self).spec_cache().spec_trs(
                            t,
                        ));
                    }
                    assert(self.wf());
                }
                self.cache_impl.set_final(state, None);
                self.cache_impl.mark_expanded(state);
                proof {
                    assert(m.spec_expand_trs(a) == Seq::<AbsTr>::empty());
                    assert(m.spec_final_weight(a) is None);
                    assert(self.spec_cache().spec_trs(state as int) == Seq::<Tr>::empty());
                    assert(self.state_cached_ok(state as int));
                    assert forall|t: int|
                        0 <= t < self.spec_cache().spec_len()
                            && #[trigger] self.spec_cache().spec_expanded(t) implies
                        self.state_cached_ok(t) by {
                        if t != state as int {
                            if t < old(self).spec_cache().spec_len() {
                                assert(old(self).spec_cache().spec_expanded(t));
                            }
                        }
                    }
                    assert(self.wf());
                    assert forall|s: int| 0 < s < self.spec_tuples().len() implies
                        #[trigger] self.referenced_by_earlier(s) by {
                        assert(old(self).referenced_by_earlier(s));
                        let (t0, j0) = choose|t: int, j: int|
                            0 <= t < s && 0 <= j < old(self).spec_cache().spec_trs(t).len()
                                && old(self).spec_cache().spec_expanded(t) && ((
                            #[trigger] old(self).spec_cache().spec_trs(t)[j]).nextstate as int)
                                == s;
                        assert(t0 != state as int);
                        old(self).spec_cache().lemma_expanded_bound(t0);
                        assert(self.spec_cache().spec_trs(t0) == old(self).spec_cache().spec_trs(
                            t0,
                        ));
                        assert(self.spec_cache().spec_expanded(t0));
                        assert(((self.spec_cache().spec_trs(t0)[j0]).nextstate as int) == s);
                    }
                    assert(old(self).spec_tuples().len() > 0);
                    assert(self.spec_cache().spec_start_computed());
                    assert(self.spec_cache().spec_start() == old(self).spec_cache().spec_start());
                    assert(self.discovery_ok());
                }
                Ok(())
            },
        }
    }
}

impl ReplaceFstImpl {
    /// Whether state `s` has already been expanded.
    pub fn expanded(&self, s: StateId) -> (r: bool)
        ensures
            r == self.spec_cache().spec_expanded(s as int),
    {
        self.cache_impl.expanded(s)
    }

    /// The designated start state of the result, computed on first demand and
    /// memoised; absent when the root component has no start state.
    pub(crate) fn start(&mut self) -> (r: Option<StateId>)
        requires
            old(self).wf(),
            old(self).cache_clean(),
            old(self).discovery_ok(),
        ensures
            final(self).wf(),
            final(self).cache_clean(),
            final(self).discovery_ok(),
            r matches Some(id) ==> id == 0,
            (!old(self).spec_cache().spec_start_computed()) ==> ({
                &&& (r is None ==> final(self).spec_prefixes() == old(self).spec_prefixes()
                    && final(self).spec_tuples() == old(self).spec_tuples())
                &&& (r is Some ==> final(self).spec_prefixes() == spec_intern(
                    old(self).spec_prefixes(),
                    Seq::<PrefixTuple>::empty(),
                ) && final(self).spec_tuples().len() == old(self).spec_tuples().len() + 1)
            }),
            final(self).spec_model() == old(self).spec_model(),
            seq_extends(old(self).spec_prefixes(), final(self).spec_prefixes()),
            seq_extends(old(self).spec_tuples(), final(self).spec_tuples()),
            forall|s: int|
                0 <= s < old(self).spec_tuples().len() ==> final(self).spec_abs_of_id(s) == old(self).spec_abs_of_id(s),
            final(self).spec_cache().spec_len() == old(self).spec_cache().spec_len(),
            forall|t: int|
                0 <= t < old(self).spec_cache().spec_len() ==> final(self).spec_cache().spec_expanded(t) == old(self).spec_cache().spec_expanded(t) && final(self).spec_cache().spec_trs(t) == old(self).spec_cache().spec_trs(t) && final(self).spec_cache().spec_final(t) == old(self).spec_cache().spec_final(t),
            final(self).spec_cache().spec_start_computed(),
            r == final(self).spec_cache().spec_start(),
            (r is None) <==> (old(self).spec_model().spec_abs_start() is None),
            r matches Some(id) ==> ((id as int) < final(self).spec_tuples().len() && (old(self).spec_model().spec_abs_start() matches Some(a0) && final(self).spec_abs_of_id(
                id as int,
            ) == a0)),
            old(self).spec_cache().spec_start_computed() ==> *final(self) == *old(self),
            old(self).spec_in_range() ==> final(self).spec_in_range(),
    {
        if self.cache_impl.start_computed() {
            return self.cache_impl.start();
        }
        let s = self.compute_start();
        proof {
            assert(old(self).spec_tuples().len() == 0);
        }
        self.cache_impl.set_start(s);
        proof {
            match s {
                Some(id) => {
                    assert(id == 0);
                    assert(self.spec_tuples().len() == 1);
                },
                None => {
                    assert(self.spec_tuples().len() == 0);
                },
            }
            assert(self.discovery_ok());
        }
        s
    }

    /// The final weight of state `s`, expanding `s` on first query; answered
    /// from the cache afterwards. Fails exactly when the first query finds the
    /// underlying component state out of range.
    pub(crate) fn final_weight(&mut self, s: StateId) -> (r: Result<Option<Weight>, ReplaceError>)
        requires
            old(self).wf(),
            old(self).cache_clean(),
            old(self).discovery_ok(),
            (s as int) < old(self).spec_tuples().len(),
        ensures
            final(self).wf(),
            final(self).cache_clean(),
            final(self).discovery_ok(),
            final(self).spec_model() == old(self).spec_model(),
            seq_extends(old(self).spec_prefixes(), final(self).spec_prefixes()),
            seq_extends(old(self).spec_tuples(), final(self).spec_tuples()),
            forall|t: int|
                0 <= t < old(self).spec_tuples().len() ==> final(self).spec_abs_of_id(t) == old(self).spec_abs_of_id(t),
            final(self).spec_cache().spec_start_computed() == old(self).spec_cache().spec_start_computed(),
            final(self).spec_cache().spec_start() == old(self).spec_cache().spec_start(),
            old(self).spec_cache().spec_expanded(s as int) ==> *final(self) == *old(self),
            final(self).new_tuples_are_dests(old(self).spec_tuples().len() as int, s as int),
            final(self).new_prefixes_from(
                old(self).spec_prefixes().len() as int,
                old(self).spec_abs_of_id(s as int).prefix,
            ),
            r matches Ok(w) ==> final(self).spec_cache().spec_expanded(s as int) && w == old(self).spec_model().spec_final_weight(old(self).spec_abs_of_id(s as int)),
            (r is Err) <==> (!old(self).spec_cache().spec_expanded(s as int) && !tuple_in_range(
                old(self).spec_model(),
                old(self).spec_tuples()[s as int],
            )),
            old(self).spec_in_range() ==> (r is Ok) && final(self).spec_in_range(),
    {
        if !self.cache_impl.expanded(s) {
            match self.expand(s) {
                Ok(()) => {},
                Err(e) => {
                    return Err(e);
                },
            }
        }
        proof {
            assert(self.spec_cache().spec_expanded(s as int));
            self.spec_cache().lemma_expanded_bound(s as int);
            assert(self.state_cached_ok(s as int));
        }
        Ok(self.cache_impl.final_weight(s))
    }

    /// The outgoing transitions of state `s`, expanding `s` on first query;
    /// answered from the cache afterwards. Fails exactly when the first query
    /// finds the underlying component state out of range.
    pub(crate) fn transitions(&mut self, s: StateId) -> (r: Result<Vec<Tr>, ReplaceError>)
        requires
            old(self).wf(),
            old(self).cache_clean(),
            old(self).discovery_ok(),
            (s as int) < old(self).spec_tuples().len(),
        ensures
            final(self).wf(),
            final(self).cache_clean(),
            final(self).discovery_ok(),
            final(self).spec_model() == old(self).spec_model(),
            seq_extends(old(self).spec_prefixes(), final(self).spec_prefixes()),
            seq_extends(old(self).spec_tuples(), final(self).spec_tuples()),
            forall|t: int|
                0 <= t < old(self).spec_tuples().len() ==> final(self).spec_abs_of_id(t) == old(self).spec_abs_of_id(t),
            final(self).spec_cache().spec_start_computed() == old(self).spec_cache().spec_start_computed(),
            final(self).spec_cache().spec_start() == old(self).spec_cache().spec_start(),
            old(self).spec_cache().spec_expanded(s as int) ==> *final(self) == *old(self),
            final(self).new_tuples_are_dests(old(self).spec_tuples().len() as int, s as int),
            final(self).new_prefixes_from(
                old(self).spec_prefixes().len() as int,
                old(self).spec_abs_of_id(s as int).prefix,
            ),
            r matches Ok(v) ==> {
                let strs = old(self).spec_model().spec_expand_trs(
                    old(self).spec_abs_of_id(s as int),
                );
                &&& final(self).spec_cache().spec_expanded(s as int)
                &&& v@ == final(self).spec_cache().spec_trs(s as int)
                &&& v@.len() == strs.len()
                &&& forall|j: int|
                    0 <= j < strs.len() ==> final(self).tr_matches(#[trigger] v@[j], strs[j])
            },
            (r is Err) <==> (!old(self).spec_cache().spec_expanded(s as int) && !tuple_in_range(
                old(self).spec_model(),
                old(self).spec_tuples()[s as int],
            )),
            old(self).spec_in_range() ==> (r is Ok) && final(self).spec_in_range(),
    {
        if !self.cache_impl.expanded(s) {
            match self.expand(s) {
                Ok(()) => {},
                Err(e) => {
                    return Err(e);
                },
            }
        }
        proof {
            assert(self.spec_cache().spec_expanded(s as int));
            self.spec_cache().lemma_expanded_bound(s as int);
            assert(self.state_cached_ok(s as int));
        }
        let v = self.cache_impl.transitions(s);
        Ok(v)
    }
}

/// Every transition of every component in the registration list stays within
/// its component's states.
pub open spec fn list_closed(list: Seq<(Label, VectorFst)>) -> bool {
    forall|i: int, q: int, k: int|
        0 <= i < list.len() && 0 <= q < list[i].1.spec_num_states() && 0 <= k < list[i].1.spec_trs(
            q,
        ).len() ==> ((#[trigger] list[i].1.spec_trs(q)[k]).nextstate as int)
            < list[i].1.spec_num_states()
}

/// An injective family of abstract states: distinct identifiers read back as
/// distinct states.
pub open spec fn abs_injective(w: Seq<AbsState>) -> bool {
    forall|i: int, j: int| 0 <= i < j < w.len() ==> w[i] != w[j]
}

/// State `s` of `f` appears as the target of a transition of a strictly
/// earlier state.
pub open spec fn result_state_referenced(f: &VectorFst, s: int) -> bool {
    exists|t: int, j: int|
        0 <= t < s && 0 <= j < f.spec_trs(t).len() && ((#[trigger] f.spec_trs(t)[j]).nextstate
            as int) == s
}

/// What it means for a concrete transducer `f` to be the materialisation of
/// the Replace result described by `m`, with `w` reading each state of `f`
/// back as an abstract state: the states are in bijection with the abstract
/// states reached, the start is state `0` and corresponds, identifiers are
/// assigned in order of first reference (every later state first appears as a
/// transition target of an earlier one), and state by state the transitions
/// and the final weight are exactly the model's expansion.
pub open spec fn is_replace_result(m: ReplaceSpec, w: Seq<AbsState>, f: &VectorFst) -> bool {
    &&& f.spec_num_states() == w.len()
    &&& abs_injective(w)
    &&& match (f.spec_start(), m.spec_abs_start()) {
        (None, None) => true,
        (Some(s0), Some(a0)) => s0 == 0 && 0 < w.len() && w[0] == a0,
        _ => false,
    }
    &&& forall|s: int| 0 < s < w.len() ==> #[trigger] result_state_referenced(f, s)
    &&& forall|s: int|
        0 <= s < w.len() ==> {
            let strs = m.spec_expand_trs(#[trigger] w[s]);
            &&& f.spec_trs(s).len() == strs.len()
            &&& (forall|j: int|
                0 <= j < strs.len() ==> {
                    let ct = #[trigger] f.spec_trs(s)[j];
                    &&& ct.ilabel == strs[j].ilabel
                    &&& ct.olabel == strs[j].olabel
                    &&& ct.weight == strs[j].weight
                    &&& (ct.nextstate as int) < w.len()
                    &&& w[ct.nextstate as int] == strs[j].dest
                })
            &&& f.spec_final_weight(s) == m.spec_final_weight(w[s])
        }
}


/// States `0 .. s` of `fst` carry exactly the cached transitions and final
/// weights of `c`.
spec fn fst_prefix_matches_cache(fst: VectorFst, c: CacheImpl, s: int) -> bool {
    forall|t: int|
        0 <= t < s ==> #[trigger] fst.spec_trs(t) == c.spec_trs(t) && fst.spec_final_weight(t)
            == c.spec_final(t)
}

/// The lazy Replace transducer behind the standard operation surface.
///
/// Queries that may trigger expansion memoise their work in the cache and
/// the interners, so although the surface reads like a read-only transducer,
/// its operations take `&mut self`. Two successive queries for the same
/// state are consistent, and repeat queries are answered from the cache
/// without touching the instance.
pub struct ReplaceFst {
    fst_impl: ReplaceFstImpl,
}

impl ReplaceFst {
    /// The engine, for specification purposes.
    pub closed spec fn spec_impl(&self) -> ReplaceFstImpl {
        self.fst_impl
    }

    pub open spec fn wf(&self) -> bool {
        self.spec_impl().wf() && self.spec_impl().cache_clean() && self.spec_impl().discovery_ok()
    }

    pub open spec fn spec_model(&self) -> ReplaceSpec {
        self.spec_impl().spec_model()
    }

    /// Build a lazy Replace transducer over the registration list. Fails with
    /// `UnknownRoot` exactly when the root label was never registered.
    pub fn new(fst_list: Vec<(Label, VectorFst)>, root: Label, epsilon_on_replace: bool) -> (r:
        Result<Self, ReplaceError>)
        requires
            forall|i: int| 0 <= i < fst_list@.len() ==> (#[trigger] fst_list@[i]).1.wf(),
        ensures
            (r is Err) <==> (forall|j: int|
                0 <= j < fst_list@.len() ==> (#[trigger] fst_list@[j]).0 != root),
            r matches Err(e) ==> e == ReplaceError::UnknownRoot(root),
            r matches Ok(f) ==> {
                &&& f.wf()
                &&& model_of_inputs(f.spec_model(), fst_list@, spec_options(root, epsilon_on_replace))
                &&& f.spec_impl().spec_tuples().len() == 0
                &&& !f.spec_impl().spec_cache().spec_start_computed()
                &&& (components_closed(f.spec_model()) ==> f.spec_impl().spec_in_range())
            },
    {
        let opts = ReplaceFstOptions::new(root, epsilon_on_replace);
        match ReplaceFstImpl::new(fst_list, opts) {
            Ok(fst_impl) => Ok(ReplaceFst { fst_impl }),
            Err(e) => Err(e),
        }
    }

    /// The designated start state, computed on first demand and memoised.
    pub fn start(&mut self) -> (r: Option<StateId>)
        requires
            old(self).wf(),
        ensures
            final(self).wf(),
            final(self).spec_model() == old(self).spec_model(),
            (r is None) <==> (old(self).spec_model().spec_abs_start() is None),
            r matches Some(id) ==> ((id as int) < final(self).spec_impl().spec_tuples().len() && (
            old(self).spec_model().spec_abs_start() matches Some(a0) && final(self).spec_impl().spec_abs_of_id(
                id as int,
            ) == a0)),
            r matches Some(id) ==> id == 0,
            (!old(self).spec_impl().spec_cache().spec_start_computed()) ==> ({
                &&& (r is None ==> final(self).spec_impl().spec_prefixes() == old(self).spec_impl().spec_prefixes()
                    && final(self).spec_impl().spec_tuples() == old(self).spec_impl().spec_tuples())
                &&& (r is Some ==> final(self).spec_impl().spec_prefixes() == spec_intern(
                    old(self).spec_impl().spec_prefixes(),
                    Seq::<PrefixTuple>::empty(),
                ) && final(self).spec_impl().spec_tuples().len() == old(self).spec_impl().spec_tuples().len() + 1)
            }),
            old(self).spec_impl().spec_cache().spec_start_computed() ==> *final(self) == *old(self),
    {
        self.fst_impl.start()
    }

    /// The final weight of state `s`: present exactly when the state's prefix
    /// is empty and its underlying component state is final, and then the
    /// component's final weight there. The first query expands the state;
    /// repeat queries are answered from the cache and leave the instance
    /// untouched.
    pub fn final_weight(&mut self, s: StateId) -> (r: Result<Option<Weight>, ReplaceError>)
        requires
            old(self).wf(),
            (s as int) < old(self).spec_impl().spec_tuples().len(),
        ensures
            final(self).wf(),
            final(self).spec_model() == old(self).spec_model(),
            old(self).spec_impl().spec_cache().spec_expanded(s as int) ==> *final(self) == *old(self),
            final(self).spec_impl().new_tuples_are_dests(
                old(self).spec_impl().spec_tuples().len() as int,
                s as int,
            ),
            final(self).spec_impl().new_prefixes_from(
                old(self).spec_impl().spec_prefixes().len() as int,
                old(self).spec_impl().spec_abs_of_id(s as int).prefix,
            ),
            r matches Ok(w) ==> w == old(self).spec_model().spec_final_weight(
                old(self).spec_impl().spec_abs_of_id(s as int),
            ),
            (r is Err) <==> (!old(self).spec_impl().spec_cache().spec_expanded(s as int)
                && !tuple_in_range(
                old(self).spec_model(),
                old(self).spec_impl().spec_tuples()[s as int],
            )),
            old(self).spec_impl().spec_in_range() ==> r is Ok,
    {
        self.fst_impl.final_weight(s)
    }

    /// The outgoing transitions of state `s`, in the order produced: the
    /// return transition first, if any, then the rewritten component
    /// transitions in their native order. The first query expands the state;
    /// repeat queries are answered from the cache and leave the instance
    /// untouched.
    pub fn transitions(&mut self, s: StateId) -> (r: Result<Vec<Tr>, ReplaceError>)
        requires
            old(self).wf(),
            (s as int) < old(self).spec_impl().spec_tuples().len(),
        ensures
            final(self).wf(),
            final(self).spec_model() == old(self).spec_model(),
            old(self).spec_impl().spec_cache().spec_expanded(s as int) ==> *final(self) == *old(self),
            final(self).spec_impl().new_tuples_are_dests(
                old(self).spec_impl().spec_tuples().len() as int,
                s as int,
            ),
            final(self).spec_impl().new_prefixes_from(
                old(self).spec_impl().spec_prefixes().len() as int,
                old(self).spec_impl().spec_abs_of_id(s as int).prefix,
            ),
            r matches Ok(v) ==> {
                let strs = old(self).spec_model().spec_expand_trs(
                    old(self).spec_impl().spec_abs_of_id(s as int),
                );
                &&& v@.len() == strs.len()
                &&& forall|j: int|
                    0 <= j < strs.len() ==> final(self).spec_impl().tr_matches(
                        #[trigger] v@[j],
                        strs[j],
                    )
            },
            (r is Err) <==> (!old(self).spec_impl().spec_cache().spec_expanded(s as int)
                && !tuple_in_range(
                old(self).spec_model(),
                old(self).spec_impl().spec_tuples()[s as int],
            )),
            old(self).spec_impl().spec_in_range() ==> r is Ok,
    {
        self.fst_impl.transitions(s)
    }

    /// How many result states have been issued to date; the reachable-state
    /// enumeration is `0, 1, 2, ...` up to this growing bound.
    pub fn num_known_states(&self) -> (r: usize)
        ensures
            r == self.spec_impl().spec_tuples().len(),
    {
        self.fst_impl.num_known_states()
    }

    /// How many distinct call-stack prefixes have been materialised to date.
    pub fn num_known_prefixes(&self) -> (r: usize)
        ensures
            r == self.spec_impl().spec_prefixes().len(),
    {
        self.fst_impl.num_known_prefixes()
    }

    /// Drive the lazy enumeration to completion and materialise the result
    /// into a concrete transducer: expand states `0, 1, 2, ...` until no
    /// issued identifier is left unexpanded. Only grammars whose Replace
    /// result is finite reach that fixed point within reachable memory;
    /// bounding the traversal of an infinite result is the caller's
    /// responsibility.
    pub fn compute(&mut self) -> (r: Result<VectorFst, ReplaceError>)
        requires
            old(self).wf(),
        ensures
            final(self).wf(),
            final(self).spec_model() == old(self).spec_model(),
            r matches Ok(f) ==> ({
                let e = final(self).spec_impl();
                let w = Seq::new(e.spec_tuples().len(), |t: int| e.spec_abs_of_id(t));
                &&& f.wf()
                &&& f.spec_num_states() == e.spec_tuples().len()
                &&& e.spec_cache().spec_start_computed()
                &&& f.spec_start() == e.spec_cache().spec_start()
                &&& (forall|t: int|
                    0 <= t < f.spec_num_states() ==> (#[trigger] f.spec_trs(t))
                        == e.spec_cache().spec_trs(t) && f.spec_final_weight(t)
                        == e.spec_cache().spec_final(t) && e.spec_cache().spec_expanded(t))
                &&& is_replace_result(old(self).spec_model(), w, &f)
            }),
            r matches Err(e) ==> e matches ReplaceError::ComponentStateOutOfRange(_, _),
            old(self).spec_impl().spec_in_range() ==> r is Ok,
    {
        let start_opt = self.fst_impl.start();
        let mut fst = VectorFst::new();
        let mut s: usize = 0;
        while s < self.fst_impl.num_known_states()
            invariant
                self.fst_impl.wf(),
                self.fst_impl.cache_clean(),
                self.fst_impl.discovery_ok(),
                self.fst_impl.spec_model() == old(self).spec_model(),
                self.fst_impl.spec_cache().spec_start_computed(),
                self.fst_impl.spec_cache().spec_start() == start_opt,
                start_opt matches Some(id) ==> ((id as int)
                    < self.fst_impl.spec_tuples().len() && (old(self).spec_model().spec_abs_start() matches Some(a0)
                    && self.fst_impl.spec_abs_of_id(id as int) == a0)),
                (start_opt is None) <==> (old(self).spec_model().spec_abs_start() is None),
                s <= self.fst_impl.spec_tuples().len(),
                fst.wf(),
                fst.spec_num_states() == s,
                fst.spec_start() is None,
                forall|t: int|
                    0 <= t < s ==> #[trigger] self.fst_impl.spec_cache().spec_expanded(t),
                fst_prefix_matches_cache(fst, self.fst_impl.spec_cache(), s as int),
                old(self).spec_impl().spec_in_range() ==> self.fst_impl.spec_in_range(),
            decreases usize::MAX - s,
        {
            let ghost pre_impl = self.fst_impl;
            if !self.fst_impl.expanded(s) {
                match self.fst_impl.expand(s) {
                    Ok(()) => {},
                    Err(e) => {
                        return Err(e);
                    },
                }
            }
            proof {
                assert(self.fst_impl.spec_cache().spec_expanded(s as int));
                self.fst_impl.spec_cache().lemma_expanded_bound(s as int);
                assert forall|t: int|
                    0 <= t < s implies #[trigger] self.fst_impl.spec_cache().spec_expanded(
                    t,
                ) by {
                    assert(pre_impl.spec_cache().spec_expanded(t));
                    pre_impl.spec_cache().lemma_expanded_bound(t);
                }
                assert forall|t: int| 0 <= t < s implies #[trigger] fst.spec_trs(t)
                    == self.fst_impl.spec_cache().spec_trs(t) && fst.spec_final_weight(t)
                    == self.fst_impl.spec_cache().spec_final(t) by {
                    assert(pre_impl.spec_cache().spec_expanded(t));
                    pre_impl.spec_cache().lemma_expanded_bound(t);
                    assert(fst.spec_trs(t) == pre_impl.spec_cache().spec_trs(t));
                }
                assert(fst_prefix_matches_cache(fst, self.fst_impl.spec_cache(), s as int));
            }
            let id = fst.add_state();
            let trs = self.fst_impl.cache_impl.transitions(s);
            let ghost cur_impl = self.fst_impl;
            let m2 = trs.len();
            let mut k: usize = 0;
            while k < m2
                invariant
                    self.fst_impl == cur_impl,
                    fst.wf(),
                    fst.spec_num_states() == s + 1,
                    fst.spec_start() is None,
                    s < fst.spec_num_states(),
                    m2 == trs@.len(),
                    k <= m2,
                    fst.spec_trs(s as int) =~= trs@.subrange(0, k as int),
                    fst.spec_final_weight(s as int) is None,
                    fst_prefix_matches_cache(fst, self.fst_impl.spec_cache(), s as int),
                decreases m2 - k,
            {
                let ghost prev_fst = fst;
                fst.add_tr(s, trs[k]);
                proof {
                    assert forall|t: int| 0 <= t < s implies #[trigger] fst.spec_trs(t)
                        == self.fst_impl.spec_cache().spec_trs(t) && fst.spec_final_weight(t)
                        == self.fst_impl.spec_cache().spec_final(t) by {
                        assert(prev_fst.spec_trs(t) == self.fst_impl.spec_cache().spec_trs(t));
                        assert(fst.spec_trs(t) == prev_fst.spec_trs(t));
                        assert(fst.spec_final_weight(t) == prev_fst.spec_final_weight(t));
                    }
                    assert(fst_prefix_matches_cache(fst, self.fst_impl.spec_cache(), s as int));
                }
                k = k + 1;
            }
            proof {
                assert(fst.spec_trs(s as int) =~= trs@);
            }
            let ghost fst_mid = fst;
            match self.fst_impl.cache_impl.final_weight(s) {
                Some(w) => {
                    fst.set_final(s, w);
                },
                None => {},
            }
            proof {
                assert(self.fst_impl.spec_cache().spec_expanded(s as int));
                assert(fst.spec_trs(s as int) == self.fst_impl.spec_cache().spec_trs(s as int));
                assert(fst.spec_final_weight(s as int) == self.fst_impl.spec_cache().spec_final(
                    s as int,
                ));
                assert forall|t: int| 0 <= t < s + 1 implies #[trigger] fst.spec_trs(t)
                    == self.fst_impl.spec_cache().spec_trs(t) && fst.spec_final_weight(t)
                    == self.fst_impl.spec_cache().spec_final(t) by {
                    if t < s {
                        assert(fst_mid.spec_trs(t) == self.fst_impl.spec_cache().spec_trs(t));
                        assert(fst.spec_trs(t) == fst_mid.spec_trs(t));
                        assert(fst.spec_final_weight(t) == fst_mid.spec_final_weight(t));
                    }
                }
                assert(fst_prefix_matches_cache(fst, self.fst_impl.spec_cache(), s + 1));
            }
            s = s + 1;
        }
        let ghost pre_start_fst = fst;
        match start_opt {
            Some(st) => {
                fst.set_start(st);
            },
            None => {},
        }
        proof {
            let e = self.fst_impl;
            let m = e.spec_model();
            let n = e.spec_tuples().len();
            let w = Seq::new(n, |t: int| e.spec_abs_of_id(t));
            assert forall|t: int|
                0 <= t < fst.spec_num_states() implies (#[trigger] fst.spec_trs(t))
                == e.spec_cache().spec_trs(t) && fst.spec_final_weight(t)
                == e.spec_cache().spec_final(t) && e.spec_cache().spec_expanded(t) by {
                assert(pre_start_fst.spec_trs(t) == e.spec_cache().spec_trs(t));
                assert(fst.spec_trs(t) == pre_start_fst.spec_trs(t));
                assert(fst.spec_final_weight(t) == pre_start_fst.spec_final_weight(t));
            }
            assert forall|s: int| 0 < s < w.len() implies #[trigger] result_state_referenced(
                &fst,
                s,
            ) by {
                assert(e.referenced_by_earlier(s));
                let (t0, j0) = choose|t: int, j: int|
                    0 <= t < s && 0 <= j < e.spec_cache().spec_trs(t).len()
                        && e.spec_cache().spec_expanded(t) && ((
                    #[trigger] e.spec_cache().spec_trs(t)[j]).nextstate as int) == s;
                e.spec_cache().lemma_expanded_bound(t0);
                assert(fst.spec_trs(t0) == e.spec_cache().spec_trs(t0));
                assert(((fst.spec_trs(t0)[j0]).nextstate as int) == s);
            }
            match start_opt {
                Some(st) => {
                    assert(st == 0);
                },
                None => {},
            }
            assert forall|i: int, j: int| 0 <= i < j < w.len() implies w[i] != w[j] by {
                assert(e.spec_tuples()[i] != e.spec_tuples()[j]);
                let ti = e.spec_tuples()[i];
                let tj = e.spec_tuples()[j];
                assert(e.tuple_ok(ti));
                assert(e.tuple_ok(tj));
                if ti.prefix_id == tj.prefix_id {
                    assert(w[i].fst_id == ti.fst_id && w[i].fst_state == ti.fst_state);
                    assert(w[j].fst_id == tj.fst_id && w[j].fst_state == tj.fst_state);
                } else {
                    assert(e.spec_prefixes()[ti.prefix_id as int] != e.spec_prefixes()[
                        tj.prefix_id as int
                    ]);
                }
            }
            assert forall|t: int| 0 <= t < w.len() implies {
                let strs = m.spec_expand_trs(#[trigger] w[t]);
                &&& fst.spec_trs(t).len() == strs.len()
                &&& (forall|j: int|
                    0 <= j < strs.len() ==> {
                        let ct = #[trigger] fst.spec_trs(t)[j];
                        &&& ct.ilabel == strs[j].ilabel
                        &&& ct.olabel == strs[j].olabel
                        &&& ct.weight == strs[j].weight
                        &&& (ct.nextstate as int) < w.len()
                        &&& w[ct.nextstate as int] == strs[j].dest
                    })
                &&& fst.spec_final_weight(t) == m.spec_final_weight(w[t])
            } by {
                assert(e.spec_cache().spec_expanded(t));
                e.spec_cache().lemma_expanded_bound(t);
                assert(e.state_cached_ok(t));
                let strs = m.spec_expand_trs(w[t]);
                assert(fst.spec_trs(t) == e.spec_cache().spec_trs(t) && fst.spec_final_weight(t)
                    == e.spec_cache().spec_final(t));
                assert forall|j: int| 0 <= j < strs.len() implies {
                    let ct = #[trigger] fst.spec_trs(t)[j];
                    &&& ct.ilabel == strs[j].ilabel
                    &&& ct.olabel == strs[j].olabel
                    &&& ct.weight == strs[j].weight
                    &&& (ct.nextstate as int) < w.len()
                    &&& w[ct.nextstate as int] == strs[j].dest
                } by {
                    assert(e.tr_matches(e.spec_cache().spec_trs(t)[j], strs[j]));
                }
            }
            assert(is_replace_result(old(self).spec_model(), w, &fst));
        }
        Ok(fst)
    }
}

/// Recursively replace transitions whose output label is a registered
/// non-terminal with the corresponding component, starting from the component
/// registered under `root`, and materialise the result eagerly. Terminates
/// only for grammars whose Replace result is finite.
pub fn replace(fst_list: Vec<(Label, VectorFst)>, root: Label, epsilon_on_replace: bool) -> (r:
    Result<VectorFst, ReplaceError>)
    requires
        forall|i: int| 0 <= i < fst_list@.len() ==> (#[trigger] fst_list@[i]).1.wf(),
    ensures
        (r == Err::<VectorFst, ReplaceError>(ReplaceError::UnknownRoot(root))) <==> (forall|j: int|
            0 <= j < fst_list@.len() ==> (#[trigger] fst_list@[j]).0 != root),
        r matches Err(e) ==> (e == ReplaceError::UnknownRoot(root) || e matches
            ReplaceError::ComponentStateOutOfRange(_, _)),
        r matches Ok(f) ==> f.wf() && (exists|m0: ReplaceSpec, w: Seq<AbsState>|
            model_of_inputs(m0, fst_list@, spec_options(root, epsilon_on_replace))
                && is_replace_result(m0, w, &f)),
        ((exists|j: int| 0 <= j < fst_list@.len() && (#[trigger] fst_list@[j]).0 == root)
            && list_closed(fst_list@)) ==> r is Ok,
{
    let ghost list = fst_list@;
    let opts = ReplaceFstOptions::new(root, epsilon_on_replace);
    match ReplaceFstImpl::new(fst_list, opts) {
        Err(e) => Err(e),
        Ok(fst_impl) => {
            let mut f = ReplaceFst { fst_impl };
            proof {
                if list_closed(list) {
                    let m = f.spec_model();
                    assert forall|c: int, q: int, k: int|
                        0 <= c < m.fsts.len() && 0 <= q < m.fsts[c].spec_num_states() && 0 <= k
                            < m.fsts[c].spec_trs(q).len() implies ((#[trigger] m.fsts[c].spec_trs(
                        q,
                    )[k]).nextstate as int) < m.fsts[c].spec_num_states() by {
                        assert(m.fsts[c] == list[c].1);
                        assert((list[c].1.spec_trs(q)[k].nextstate as int)
                            < list[c].1.spec_num_states());
                    }
                    assert(components_closed(m));
                }
            }
            match f.compute() {
                Ok(out) => {
                    proof {
                        let e = f.spec_impl();
                        let w = Seq::new(e.spec_tuples().len(), |t: int| e.spec_abs_of_id(t));
                        assert(is_replace_result(f.spec_model(), w, &out));
                        assert(model_of_inputs(f.spec_model(), list, opts));
                    }
                    Ok(out)
                },
                Err(e) => Err(e),
            }
        },
    }
}

} // verus!
