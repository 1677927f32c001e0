//! Interned state tables for the Replace core.
//!
//! An interner assigns dense, contiguous identifiers to structural keys in
//! order of first reference. Identifiers are never invalidated and a key is
//! never stored twice, so identity of interned values reduces to identity of
//! their integer identifiers. Two tables are kept: one for call-stack
//! prefixes, one for result-state tuples.

use vstd::prelude::*;

use crate::{Label, StateId};

verus! {

/// A return frame: the calling component and the state in it where control
/// resumes when a sub-call returns. Both parts are optional; frames with an
/// absent part are reserved and never produced by the engine.
#[derive(Clone, Copy, Debug)]
pub struct PrefixTuple {
    pub fst_id: Option<Label>,
    pub nextstate: Option<StateId>,
}

/// Structural equality on optional state identifiers.
fn option_usize_eq(a: Option<usize>, b: Option<usize>) -> (r: bool)
    ensures
        r <==> a == b,
{
    match (a, b) {
        (None, None) => true,
        (Some(x), Some(y)) => x == y,
        _ => false,
    }
}

/// Structural equality on return frames.
pub fn prefix_tuple_eq(a: PrefixTuple, b: PrefixTuple) -> (r: bool)
    ensures
        r <==> a == b,
{
    option_usize_eq(a.fst_id, b.fst_id) && option_usize_eq(a.nextstate, b.nextstate)
}

/// A call-stack prefix: the sequence of pending return frames, outermost
/// first. The empty prefix denotes "at top level".
#[derive(Debug)]
pub struct ReplaceStackPrefix {
    prefix: Vec<PrefixTuple>,
}

impl View for ReplaceStackPrefix {
    type V = Seq<PrefixTuple>;

    closed spec fn view(&self) -> Seq<PrefixTuple> {
        self.prefix@
    }
}

impl ReplaceStackPrefix {
    /// The empty prefix.
    pub fn new() -> (r: Self)
        ensures
            r@ == Seq::<PrefixTuple>::empty(),
    {
        ReplaceStackPrefix { prefix: Vec::new() }
    }

    /// Push a return frame.
    pub fn push(&mut self, fst_id: Option<Label>, nextstate: Option<StateId>)
        ensures
            final(self)@ == old(self)@.push(PrefixTuple { fst_id, nextstate }),
    {
        self.prefix.push(PrefixTuple { fst_id, nextstate });
    }

    /// Pop the innermost return frame; on the empty prefix this is a no-op.
    pub fn pop(&mut self)
        ensures
            old(self)@.len() > 0 ==> final(self)@ == old(self)@.drop_last(),
            old(self)@.len() == 0 ==> final(self)@ == old(self)@,
    {
        self.prefix.pop();
        proof {
            if old(self)@.len() > 0 {
                assert(self@ =~= old(self)@.drop_last());
            }
        }
    }

    /// The innermost return frame.
    pub fn top(&self) -> (r: PrefixTuple)
        requires
            self@.len() > 0,
        ensures
            r == self@.last(),
    {
        self.prefix[self.prefix.len() - 1]
    }

    /// The number of pending frames.
    pub fn len(&self) -> (r: usize)
        ensures
            r == self@.len(),
    {
        self.prefix.len()
    }
}

/// Structural equality on prefixes.
pub fn prefix_eq(a: &ReplaceStackPrefix, b: &ReplaceStackPrefix) -> (r: bool)
    ensures
        r <==> a@ == b@,
{
    let n = a.prefix.len();
    if n != b.prefix.len() {
        return false;
    }
    let mut i: usize = 0;
    while i < n
        invariant
            n == a@.len(),
            n == b@.len(),
            i <= n,
            forall|j: int| 0 <= j < i ==> a@[j] == b@[j],
        decreases n - i,
    {
        if !prefix_tuple_eq(a.prefix[i], b.prefix[i]) {
            return false;
        }
        i = i + 1;
    }
    proof {
        assert(a@ =~= b@);
    }
    true
}

/// The result-state tuple `(prefix_id, fst_id, fst_state)`: a call-stack
/// prefix identifier, the component being walked, and the current state in
/// that component. Two states of the result are equal iff their tuples are.
/// Tuples with an absent component or state are reserved (dead) and yield no
/// transitions.
#[derive(Clone, Copy, Debug)]
pub struct ReplaceStateTuple {
    /// Index in the prefix table.
    pub prefix_id: usize,
    /// Index of the component being walked.
    pub fst_id: Option<StateId>,
    /// Current state in the component being walked (not to be confused with a
    /// state identifier of the combined result).
    pub fst_state: Option<StateId>,
}

impl ReplaceStateTuple {
    pub fn new(prefix_id: usize, fst_id: Option<StateId>, fst_state: Option<StateId>) -> (r: Self)
        ensures
            r == (ReplaceStateTuple { prefix_id, fst_id, fst_state }),
    {
        ReplaceStateTuple { prefix_id, fst_id, fst_state }
    }
}

/// Structural equality on result-state tuples.
pub fn replace_state_tuple_eq(a: ReplaceStateTuple, b: ReplaceStateTuple) -> (r: bool)
    ensures
        r <==> a == b,
{
    a.prefix_id == b.prefix_id && option_usize_eq(a.fst_id, b.fst_id) && option_usize_eq(
        a.fst_state,
        b.fst_state,
    )
}

/// A table is well formed when no key occurs twice, so each key determines
/// exactly one identifier.
pub open spec fn table_wf<K>(keys: Seq<K>) -> bool {
    forall|i: int, j: int| 0 <= i < j < keys.len() ==> keys[i] != keys[j]
}

/// What interning a key does to the stored keys: nothing when the key is
/// already present, otherwise the key is appended and receives the next
/// identifier.
pub open spec fn spec_intern<K>(keys: Seq<K>, k: K) -> Seq<K> {
    if keys.contains(k) {
        keys
    } else {
        keys.push(k)
    }
}

/// State identity: in a well-formed table a key occupies at most one slot, so
/// asking for the identifier of the same key twice yields the same answer.
pub proof fn lemma_state_identity<K>(keys: Seq<K>, k: K, i1: int, i2: int)
    requires
        table_wf(keys),
        0 <= i1 < keys.len(),
        0 <= i2 < keys.len(),
        keys[i1] == k,
        keys[i2] == k,
    ensures
        i1 == i2,
{
}

/// Interning is idempotent: once a key is present, interning it again leaves
/// the table unchanged.
pub proof fn lemma_intern_identity<K>(keys: Seq<K>, k: K)
    ensures
        spec_intern(spec_intern(keys, k), k) == spec_intern(keys, k),
{
    assert(spec_intern(keys, k).contains(k)) by {
        if keys.contains(k) {
        } else {
            assert(keys.push(k)[keys.len() as int] == k);
        }
    }
}

/// Round-trip prefix: pushing a frame onto an interned prefix and popping it
/// again leads back to the original prefix, and in any extension of the
/// original table that prefix still sits at its original identifier.
pub proof fn lemma_push_pop_roundtrip(keys: Seq<Seq<PrefixTuple>>, i: int, f: PrefixTuple)
    requires
        table_wf(keys),
        0 <= i < keys.len(),
    ensures
        keys[i].push(f).drop_last() == keys[i],
        spec_intern(keys, keys[i].push(f)).len() >= keys.len(),
        spec_intern(keys, keys[i].push(f))[i] == keys[i],
{
    assert(keys[i].push(f).drop_last() =~= keys[i]);
}

/// The interner for result-state tuples. Keys are stored in a vector whose
/// index is the identifier; a linear scan serves as the lookup structure.
#[derive(Debug)]
pub struct TupleTable {
    keys: Vec<ReplaceStateTuple>,
}

impl View for TupleTable {
    type V = Seq<ReplaceStateTuple>;

    closed spec fn view(&self) -> Seq<ReplaceStateTuple> {
        self.keys@
    }
}

impl TupleTable {
    pub open spec fn wf(&self) -> bool {
        table_wf(self@)
    }

    pub fn new() -> (r: Self)
        ensures
            r@ == Seq::<ReplaceStateTuple>::empty(),
            r.wf(),
    {
        TupleTable { keys: Vec::new() }
    }

    pub fn len(&self) -> (r: usize)
        ensures
            r == self@.len(),
    {
        self.keys.len()
    }

    /// Return the existing identifier for `k`, or assign the next unused
    /// identifier and store `k`.
    pub fn find_id(&mut self, k: ReplaceStateTuple) -> (id: usize)
        requires
            old(self).wf(),
        ensures
            final(self).wf(),
            final(self)@ == spec_intern(old(self)@, k),
            id < final(self)@.len(),
            final(self)@[id as int] == k,
            old(self)@.contains(k) ==> final(self)@ == old(self)@,
            !old(self)@.contains(k) ==> final(self)@ == old(self)@.push(k) && id == old(self)@.len(),
    {
        let n = self.keys.len();
        let mut i: usize = 0;
        while i < n
            invariant
                old(self).wf(),
                n == self@.len(),
                i <= n,
                *self == *old(self),
                forall|j: int| 0 <= j < i ==> self@[j] != k,
            decreases n - i,
        {
            if replace_state_tuple_eq(self.keys[i], k) {
                proof {
                    assert(old(self)@.contains(k)) by {
                        assert(old(self)@[i as int] == k);
                    }
                }
                return i;
            }
            i = i + 1;
        }
        proof {
            assert(!old(self)@.contains(k));
        }
        self.keys.push(k);
        n
    }

    /// Return the key stored under `id`; identifiers are only ever produced by
    /// `find_id`, so under normal use the bound always holds.
    pub fn find_tuple(&self, id: usize) -> (r: ReplaceStateTuple)
        requires
            id < self@.len(),
        ensures
            r == self@[id as int],
    {
        self.keys[id]
    }
}

/// The interner for call-stack prefixes. Its view is the sequence of prefix
/// views, indexed by identifier.
#[derive(Debug)]
pub struct PrefixTable {
    keys: Vec<ReplaceStackPrefix>,
}

impl View for PrefixTable {
    type V = Seq<Seq<PrefixTuple>>;

    closed spec fn view(&self) -> Seq<Seq<PrefixTuple>> {
        Seq::new(self.keys@.len(), |i: int| self.keys@[i]@)
    }
}

impl PrefixTable {
    pub open spec fn wf(&self) -> bool {
        table_wf(self@)
    }

    pub fn new() -> (r: Self)
        ensures
            r@ == Seq::<Seq<PrefixTuple>>::empty(),
            r.wf(),
    {
        let r = PrefixTable { keys: Vec::new() };
        proof {
            assert(r@ =~= Seq::<Seq<PrefixTuple>>::empty());
        }
        r
    }

    pub fn len(&self) -> (r: usize)
        ensures
            r == self@.len(),
    {
        self.keys.len()
    }

    /// Return the existing identifier for `k`, or assign the next unused
    /// identifier and store `k`.
    pub fn find_id(&mut self, k: ReplaceStackPrefix) -> (id: usize)
        requires
            old(self).wf(),
        ensures
            final(self).wf(),
            final(self)@ == spec_intern(old(self)@, k@),
            id < final(self)@.len(),
            final(self)@[id as int] == k@,
            old(self)@.contains(k@) ==> final(self)@ == old(self)@,
            !old(self)@.contains(k@) ==> final(self)@ == old(self)@.push(k@) && id == old(self)@.len(),
    {
        let n = self.keys.len();
        let mut i: usize = 0;
        while i < n
            invariant
                old(self).wf(),
                n == self@.len(),
                i <= n,
                *self == *old(self),
                forall|j: int| 0 <= j < i ==> self@[j] != k@,
            decreases n - i,
        {
            if prefix_eq(&self.keys[i], &k) {
                proof {
                    assert(old(self)@.contains(k@)) by {
                        assert(old(self)@[i as int] == k@);
                    }
                }
                return i;
            }
            i = i + 1;
        }
        proof {
            assert(!old(self)@.contains(k@));
        }
        self.keys.push(k);
        proof {
            assert(self@ =~= old(self)@.push(k@));
        }
        n
    }

    /// Return a copy of the prefix stored under `id`.
    pub fn find_tuple(&self, id: usize) -> (r: ReplaceStackPrefix)
        requires
            id < self@.len(),
        ensures
            r@ == self@[id as int],
    {
        let stored = &self.keys[id];
        let n = stored.prefix.len();
        let mut v: Vec<PrefixTuple> = Vec::new();
        let mut i: usize = 0;
        while i < n
            invariant
                n == stored@.len(),
                i <= n,
                v@ =~= stored@.subrange(0, i as int),
            decreases n - i,
        {
            v.push(stored.prefix[i]);
            i = i + 1;
        }
        proof {
            assert(v@ =~= stored@);
        }
        ReplaceStackPrefix { prefix: v }
    }
}

/// The pair of interners used by the Replace engine.
#[derive(Debug)]
pub struct ReplaceStateTable {
    pub prefix_table: PrefixTable,
    pub tuple_table: TupleTable,
}

impl ReplaceStateTable {
    pub fn new() -> (r: Self)
        ensures
            r.prefix_table@ == Seq::<Seq<PrefixTuple>>::empty(),
            r.tuple_table@ == Seq::<ReplaceStateTuple>::empty(),
            r.prefix_table.wf(),
            r.tuple_table.wf(),
    {
        ReplaceStateTable { prefix_table: PrefixTable::new(), tuple_table: TupleTable::new() }
    }
}

} // verus!
