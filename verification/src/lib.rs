//! Lazy recursive Replace for weighted finite-state transducers.
//!
//! Replace takes a collection of component transducers, each registered under a
//! non-terminal label, together with a designated root. It produces a single
//! transducer whose language is obtained by recursively substituting, at every
//! transition whose output label is a registered non-terminal, the component
//! mapped to that label. States of the result are materialised on demand and
//! memoised, so recursive grammars with an infinite expansion can still be
//! consumed lazily.

use vstd::prelude::*;

pub mod cache;
pub mod iterators;
pub mod replace;
pub mod state_table;
pub mod test_data;
pub mod union;
pub mod vector_fst;

verus! {

/// A transition label. `0` is the epsilon label.
pub type Label = usize;

/// A state identifier, both in component transducers and in the result.
pub type StateId = usize;

/// A semiring weight. The Replace core never combines weights, it only copies
/// them from the components, so any value domain works; weights are carried as
/// plain integers here.
pub type Weight = u64;

/// The epsilon label.
pub const EPS_LABEL: Label = 0;

/// The weight semiring's unit element as represented here.
pub const WEIGHT_ONE: Weight = 0;

/// A transition: input label, output label, weight, and target state.
#[derive(Clone, Copy, Debug, PartialEq, Eq, Structural)]
pub struct Tr {
    pub ilabel: Label,
    pub olabel: Label,
    pub weight: Weight,
    pub nextstate: StateId,
}

impl Tr {
    pub fn new(ilabel: Label, olabel: Label, weight: Weight, nextstate: StateId) -> (r: Tr)
        ensures
            r == (Tr { ilabel, olabel, weight, nextstate }),
    {
        Tr { ilabel, olabel, weight, nextstate }
    }
}

/// Errors surfaced at the boundary of the Replace core.
#[derive(Clone, Copy, Debug, PartialEq, Eq, Structural)]
pub enum ReplaceError {
    /// The designated root label is not among the registered components.
    UnknownRoot(Label),
    /// A component handed out a state identifier beyond its own state count;
    /// the offending component index and state are reported.
    ComponentStateOutOfRange(usize, StateId),
}

} // verus!
