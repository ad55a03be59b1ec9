//! The dynamic action registry.
//!
//! Analysis may defer work whose inputs are not known until a prior
//! action has produced them. The registry reserves an identity for
//! each deferred lambda, binds its declared outputs to action keys —
//! one per output, indexed in declaration order — and later attaches
//! the user-provided implementation, committing the reservation so
//! the deferred table resolves the identity to the bound lambda. No
//! lambda body runs during analysis.
//!
//! Artifacts, owners and implementation values are carried as plain
//! identities; the deferred table is the sole owner of actions and
//! lambdas, and artifacts refer to producers by index, so reference
//! cycles cannot form.

use vstd::prelude::*;

verus! {

/// The caller-supplied sets of artifacts, as indexmap keeps them:
/// insertion-ordered and free of duplicates.
#[verifier::external_type_specification]
#[verifier::external_body]
#[verifier::reject_recursive_types(T)]
#[verifier::reject_recursive_types(S)]
pub struct ExIndexSet<T, S>(indexmap::IndexSet<T, S>);

/// The artifact identities an index set holds, in its insertion
/// order.
pub uninterp spec fn index_set_elems(s: &indexmap::IndexSet<u64>) -> Seq<u64>;

/// Relies on indexmap::IndexSet::iter: the items in insertion order,
/// each exactly once.
#[verifier::external_body]
fn index_set_to_vec(s: &indexmap::IndexSet<u64>) -> (r: Vec<u64>)
    ensures
        r@ == index_set_elems(s),
        r@.no_duplicates(),
{
    s.iter().copied().collect()
}

/// The key of an action inside the deferred table.
#[derive(Clone, Copy, Debug, PartialEq, Eq, Structural, Hash)]
pub struct ActionKey {
    pub deferred_id: u64,
}

/// A deferred action produced for one output of a dynamic lambda:
/// the lambda's reservation and the output's index.
#[derive(Clone, Copy, Debug, PartialEq, Eq, Structural, Hash)]
pub struct DynamicAction {
    pub lambda: u64,
    pub index: u64,
}

/// An output artifact bound to the action key that will produce it.
#[derive(Clone, Copy, Debug, PartialEq, Eq, Structural, Hash)]
pub struct BoundOutput {
    pub artifact: u64,
    pub action: ActionKey,
}

/// A deferred computation: known inputs, inputs whose identities
/// arrive later, outputs bound to action keys, and — once attached —
/// the user-provided implementation.
#[derive(Debug)]
pub struct DynamicLambda {
    pub owner: u64,
    pub dynamic: Vec<u64>,
    pub inputs: Vec<u64>,
    pub outputs: Vec<BoundOutput>,
    pub implementation: Option<u64>,
}

/// Mathematical image of a lambda.
#[verifier::ext_equal]
pub struct DynamicLambdaV {
    pub owner: u64,
    pub dynamic: Seq<u64>,
    pub inputs: Seq<u64>,
    pub outputs: Seq<BoundOutput>,
    pub implementation: Option<u64>,
}

impl View for DynamicLambda {
    type V = DynamicLambdaV;

    open spec fn view(&self) -> DynamicLambdaV {
        DynamicLambdaV {
            owner: self.owner,
            dynamic: self.dynamic@,
            inputs: self.inputs@,
            outputs: self.outputs@,
            implementation: self.implementation,
        }
    }
}

impl Clone for DynamicLambda {
    fn clone(&self) -> (r: Self)
        ensures
            r@ == self@,
    {
        let dynamic = self.dynamic.clone();
        let inputs = self.inputs.clone();
        let outputs = self.outputs.clone();
        let r = DynamicLambda {
            owner: self.owner,
            dynamic,
            inputs,
            outputs,
            implementation: self.implementation,
        };
        proof {
            assert(r.dynamic@ =~= self.dynamic@);
            assert(r.inputs@ =~= self.inputs@);
            assert(r.outputs@ =~= self.outputs@);
            assert(r@ =~= self@);
        }
        r
    }
}

/// One slot of the deferred table.
#[derive(Debug)]
pub enum DeferredEntry {
    /// An identity reserved for a lambda not yet bound.
    Reserved,
    /// A per-output action.
    Action(DynamicAction),
    /// A bound lambda.
    Lambda(DynamicLambda),
}

/// Mathematical image of a slot.
#[verifier::ext_equal]
pub enum DeferredEntryV {
    Reserved,
    Action { action: DynamicAction },
    Lambda { lambda: DynamicLambdaV },
}

impl View for DeferredEntry {
    type V = DeferredEntryV;

    open spec fn view(&self) -> DeferredEntryV {
        match self {
            DeferredEntry::Reserved => DeferredEntryV::Reserved,
            DeferredEntry::Action(a) => DeferredEntryV::Action { action: *a },
            DeferredEntry::Lambda(l) => DeferredEntryV::Lambda { lambda: l@ },
        }
    }
}

impl DeepView for DeferredEntry {
    type V = DeferredEntryV;

    open spec fn deep_view(&self) -> DeferredEntryV {
        self@
    }
}

/// The deep view of the deferred table, elementwise.
pub proof fn lemma_deferred_deep_view(v: Vec<DeferredEntry>)
    ensures
        v.deep_view().len() == v@.len(),
        forall|i: int| 0 <= i < v@.len() ==> v.deep_view()[i] == v@[i]@,
{
}

/// The arena of deferred work: identities are indices into it.
#[derive(Debug)]
pub struct DeferredRegistry {
    pub entries: Vec<DeferredEntry>,
}

impl View for DeferredRegistry {
    type V = Seq<DeferredEntryV>;

    open spec fn view(&self) -> Seq<DeferredEntryV> {
        self.entries.deep_view()
    }
}

impl DeferredRegistry {
    /// An empty table.
    pub fn new() -> (r: DeferredRegistry)
        ensures
            r@.len() == 0,
    {
        let r = DeferredRegistry { entries: Vec::new() };
        proof {
            lemma_deferred_deep_view(r.entries);
        }
        r
    }

    /// Reserves a fresh identity for a lambda to be bound later.
    pub fn reserve(&mut self) -> (id: u64)
        requires
            old(self)@.len() < 0xffff_ffff_ffff_ffffu64,
        ensures
            id == old(self)@.len(),
            final(self)@ == old(self)@.push(DeferredEntryV::Reserved),
    {
        proof {
            lemma_deferred_deep_view(self.entries);
        }
        let id = self.entries.len() as u64;
        self.entries.push(DeferredEntry::Reserved);
        proof {
            lemma_deferred_deep_view(self.entries);
            assert(self@ =~= old(self)@.push(DeferredEntryV::Reserved));
        }
        id
    }

    /// Defers an action, returning its identity.
    pub fn defer(&mut self, action: DynamicAction) -> (id: u64)
        requires
            old(self)@.len() < 0xffff_ffff_ffff_ffffu64,
        ensures
            id == old(self)@.len(),
            final(self)@ == old(self)@.push(DeferredEntryV::Action { action }),
    {
        proof {
            lemma_deferred_deep_view(self.entries);
        }
        let id = self.entries.len() as u64;
        self.entries.push(DeferredEntry::Action(action));
        proof {
            lemma_deferred_deep_view(self.entries);
            assert(self@ =~= old(self)@.push(DeferredEntryV::Action { action }));
        }
        id
    }

    /// Commits a reservation: the identity now resolves to the bound
    /// lambda.
    pub fn bind(&mut self, id: u64, lambda: DynamicLambda)
        requires
            id < old(self)@.len(),
        ensures
            final(self)@ == old(self)@.update(
                id as int,
                DeferredEntryV::Lambda { lambda: lambda@ },
            ),
    {
        proof {
            lemma_deferred_deep_view(self.entries);
        }
        let ghost lv = lambda@;
        let n: usize = self.entries.len();
        proof {
            assert(id < n);
        }
        let i = id as usize;
        proof {
            assert(i as int == id as int);
        }
        self.entries[i] = DeferredEntry::Lambda(lambda);
        proof {
            lemma_deferred_deep_view(self.entries);
            let target = old(self)@.update(id as int, DeferredEntryV::Lambda { lambda: lv });
            assert(self.entries@ == old(self).entries@.update(i as int, self.entries@[i as int]));
            assert(self.entries@[id as int]@ == DeferredEntryV::Lambda { lambda: lv });
            assert forall|t: int| 0 <= t < self@.len() implies self@[t] == target[t] by {
                assert(self@[t] == self.entries@[t]@);
                if t != id as int {
                    assert(self.entries@[t] == old(self).entries@[t]);
                }
            }
            assert(self@ =~= target);
        }
    }
}

/// One pending registration: the reserved identity and the lambda
/// waiting for its implementation.
#[derive(Debug)]
pub struct PendingLambda {
    pub reservation: u64,
    pub lambda: DynamicLambda,
}

/// Mathematical image of a pending registration.
#[verifier::ext_equal]
pub struct PendingLambdaV {
    pub reservation: u64,
    pub lambda: DynamicLambdaV,
}

impl View for PendingLambda {
    type V = PendingLambdaV;

    open spec fn view(&self) -> PendingLambdaV {
        PendingLambdaV { reservation: self.reservation, lambda: self.lambda@ }
    }
}

impl DeepView for PendingLambda {
    type V = PendingLambdaV;

    open spec fn deep_view(&self) -> PendingLambdaV {
        self@
    }
}

/// What the analysis produced for a reserved identity.
#[derive(Clone, Copy, Debug, PartialEq, Eq, Structural)]
pub enum FetchedValue {
    /// A lambda implementation.
    LambdaImpl { value: u64 },
    /// A value of some other shape.
    Other,
}

/// Resolves reserved identities to the values analysis produced for
/// them.
#[derive(Debug)]
pub struct AnalysisValueFetcher {
    pub entries: Vec<(u64, FetchedValue)>,
}

/// What the fetcher holds for `id`: the first entry with that
/// identity.
pub open spec fn spec_fetch(entries: Seq<(u64, FetchedValue)>, id: u64) -> Option<FetchedValue>
    decreases entries.len(),
{
    if entries.len() == 0 {
        Option::None
    } else if entries[0].0 == id {
        Option::Some(entries[0].1)
    } else {
        spec_fetch(entries.drop_first(), id)
    }
}

impl AnalysisValueFetcher {
    /// Looks up what was produced for `id`.
    pub fn get(&self, id: u64) -> (r: Option<FetchedValue>)
        ensures
            r == spec_fetch(self.entries@, id),
    {
        let n: usize = self.entries.len();
        let mut i: usize = 0;
        proof {
            assert(self.entries@.skip(0) =~= self.entries@);
        }
        while i < n
            invariant
                n == self.entries@.len(),
                0 <= i <= n,
                spec_fetch(self.entries@, id) == spec_fetch(self.entries@.skip(i as int), id),
            decreases n - i,
        {
            proof {
                assert(self.entries@.skip(i as int)[0] == self.entries@[i as int]);
                assert(self.entries@.skip(i as int).drop_first() =~= self.entries@.skip(i + 1));
            }
            if self.entries[i].0 == id {
                return Option::Some(self.entries[i].1);
            }
            i = i + 1;
        }
        proof {
            assert(self.entries@.skip(n as int).len() == 0);
        }
        Option::None
    }
}

/// The implementation carried by a fetched lambda value.
pub open spec fn spec_impl_value(f: FetchedValue) -> u64 {
    match f {
        FetchedValue::LambdaImpl { value } => value,
        FetchedValue::Other => 0,
    }
}

/// A lambda after its implementation is attached.
pub open spec fn spec_bound_lambda(l: DynamicLambdaV, value: u64) -> DynamicLambdaV {
    DynamicLambdaV {
        owner: l.owner,
        dynamic: l.dynamic,
        inputs: l.inputs,
        outputs: l.outputs,
        implementation: Option::Some(value),
    }
}

/// Whether one of the first `j` pending registrations reserved slot
/// `idx`.
pub open spec fn spec_prefix_reserves(pending: Seq<PendingLambda>, j: int, idx: int) -> bool {
    exists|t: int| 0 <= t < j && (#[trigger] pending[t]).reservation == idx
}

/// The deferred table after committing exactly the first `j` pending
/// registrations: each of their slots holds its bound lambda, and
/// every other slot is untouched.
pub open spec fn spec_bound_through(
    pending: Seq<PendingLambda>,
    fetcher: Seq<(u64, FetchedValue)>,
    table0: Seq<DeferredEntryV>,
    table: Seq<DeferredEntryV>,
    j: int,
) -> bool {
    &&& table.len() == table0.len()
    &&& forall|t: int|
        0 <= t < j ==> table[(#[trigger] pending[t]).reservation as int]
            == (DeferredEntryV::Lambda {
            lambda: spec_bound_lambda(
                pending[t].lambda@,
                spec_impl_value(spec_fetch(fetcher, pending[t].reservation).unwrap()),
            ),
        })
    &&& forall|idx: int|
        0 <= idx < table0.len() && !spec_prefix_reserves(pending, j, idx) ==> #[trigger] table[idx]
            == table0[idx]
}

/// What binding can fail with.
#[derive(Clone, Copy, Debug, PartialEq, Eq, Structural)]
pub enum DynamicError {
    /// No value was produced for the reserved identity.
    KeyMissing { id: u64 },
    /// A value was produced but has the wrong shape.
    IncorrectType { id: u64 },
}

/// The per-analysis staging area for dynamic lambdas.
#[derive(Debug)]
pub struct DynamicRegistry {
    pub owner: u64,
    pub pending: Vec<PendingLambda>,
}

impl DynamicRegistry {
    /// A registry for one analysis, owned by `owner`.
    pub fn new(owner: u64) -> (r: DynamicRegistry)
        ensures
            r.owner == owner,
            r.pending@.len() == 0,
    {
        DynamicRegistry { owner, pending: Vec::new() }
    }

    /// Registers a dynamic lambda: reserves an identity, defers one
    /// action per output — indexed in declaration order — binds each
    /// output artifact to its action key, and appends the lambda to
    /// the pending list. Returns the reserved identity.
    pub fn register(
        &mut self,
        dynamic: indexmap::IndexSet<u64>,
        inputs: indexmap::IndexSet<u64>,
        outputs: indexmap::IndexSet<u64>,
        registry: &mut DeferredRegistry,
    ) -> (lambda_id: u64)
        requires
            old(registry)@.len() + index_set_elems(&outputs).len() + 1 < 0xffff_ffff_ffff_ffffu64,
        ensures
            lambda_id == old(registry)@.len(),
            final(self).owner == old(self).owner,
            final(self).pending@.len() == old(self).pending@.len() + 1,
            forall|j: int|
                0 <= j < old(self).pending@.len() ==> #[trigger] final(self).pending@[j] == old(
                    self,
                ).pending@[j],
            ({
                let p = final(self).pending@.last()@;
                let outs = index_set_elems(&outputs);
                &&& p.reservation == lambda_id
                &&& p.lambda.owner == old(self).owner
                &&& p.lambda.dynamic == index_set_elems(&dynamic)
                &&& p.lambda.inputs == index_set_elems(&inputs)
                &&& p.lambda.implementation is None
                &&& p.lambda.outputs.len() == outs.len()
                &&& forall|i: int|
                    0 <= i < outs.len() ==> (#[trigger] p.lambda.outputs[i]).artifact == outs[i]
            }),
            final(registry)@.len() == old(registry)@.len() + index_set_elems(&outputs).len() + 1,
            final(registry)@[lambda_id as int] == DeferredEntryV::Reserved,
            ({
                let p = final(self).pending@.last()@;
                let outs = index_set_elems(&outputs);
                forall|i: int|
                    0 <= i < outs.len() ==> {
                        let aid = (#[trigger] p.lambda.outputs[i]).action.deferred_id;
                        &&& aid == old(registry)@.len() + 1 + i
                        &&& final(registry)@[aid as int] == (DeferredEntryV::Action {
                            action: DynamicAction { lambda: lambda_id, index: i as u64 },
                        })
                    }
            }),
    {
        let ghost reg0 = registry@;
        let dynamic_v = index_set_to_vec(&dynamic);
        let inputs_v = index_set_to_vec(&inputs);
        let outputs_v = index_set_to_vec(&outputs);
        let reserved: u64 = registry.reserve();
        let ghost outs = index_set_elems(&outputs);
        let n: usize = outputs_v.len();
        let mut bound: Vec<BoundOutput> = Vec::new();
        let mut i: usize = 0;
        while i < n
            invariant
                n == outputs_v@.len(),
                outputs_v@ == outs,
                reserved == reg0.len(),
                registry@.len() == reg0.len() + 1 + i,
                registry@[reserved as int] == DeferredEntryV::Reserved,
                reg0.len() + outs.len() + 1 < 0xffff_ffff_ffff_ffffu64,
                0 <= i <= n,
                bound@.len() == i,
                forall|j: int|
                    0 <= j < i ==> {
                        &&& (#[trigger] bound@[j]).artifact == outs[j]
                        &&& bound@[j].action.deferred_id == reg0.len() + 1 + j
                    },
                forall|j: int|
                    0 <= j < i ==> #[trigger] registry@[(reg0.len() + 1 + j) as int]
                        == (DeferredEntryV::Action {
                        action: DynamicAction { lambda: reserved, index: j as u64 },
                    }),
            decreases n - i,
        {
            let output_id = registry.defer(DynamicAction { lambda: reserved, index: i as u64 });
            bound.push(
                BoundOutput { artifact: outputs_v[i], action: ActionKey { deferred_id: output_id } },
            );
            i = i + 1;
        }
        let lambda = DynamicLambda {
            owner: self.owner,
            dynamic: dynamic_v,
            inputs: inputs_v,
            outputs: bound,
            implementation: Option::None,
        };
        self.pending.push(PendingLambda { reservation: reserved, lambda });
        reserved
    }

    /// Binds every pending lambda, in registration order: fetches the
    /// implementation produced for its reserved identity — absence
    /// and wrong shapes are errors — attaches it, and commits the
    /// reservation in the deferred table.
    pub fn ensure_bound(self, registry: &mut DeferredRegistry, fetcher: &AnalysisValueFetcher) -> (
        r: Result<(), DynamicError>)
        requires
            forall|j: int|
                0 <= j < self.pending@.len() ==> (#[trigger] self.pending@[j]).reservation < old(
                    registry,
                )@.len(),
            forall|j1: int, j2: int|
                0 <= j1 < j2 < self.pending@.len() ==> (#[trigger] self.pending@[j1]).reservation
                    != (#[trigger] self.pending@[j2]).reservation,
        ensures
            r is Ok <==> (forall|j: int|
                0 <= j < self.pending@.len() ==> spec_fetch(
                    fetcher.entries@,
                    (#[trigger] self.pending@[j]).reservation,
                ) matches Option::Some(FetchedValue::LambdaImpl { value })),
            r is Ok ==> spec_bound_through(
                self.pending@,
                fetcher.entries@,
                old(registry)@,
                final(registry)@,
                self.pending@.len() as int,
            ),
            (match r {
                Result::Err(DynamicError::KeyMissing { id }) => exists|j: int|
                    #![auto]
                    0 <= j < self.pending@.len() && self.pending@[j].reservation == id
                        && spec_fetch(fetcher.entries@, id) is None && (forall|t: int|
                        0 <= t < j ==> spec_fetch(
                            fetcher.entries@,
                            (#[trigger] self.pending@[t]).reservation,
                        ) matches Option::Some(FetchedValue::LambdaImpl { value }))
                        && spec_bound_through(
                        self.pending@,
                        fetcher.entries@,
                        old(registry)@,
                        final(registry)@,
                        j,
                    ),
                Result::Err(DynamicError::IncorrectType { id }) => exists|j: int|
                    #![auto]
                    0 <= j < self.pending@.len() && self.pending@[j].reservation == id
                        && spec_fetch(fetcher.entries@, id) == Option::Some(FetchedValue::Other)
                        && (forall|t: int|
                        0 <= t < j ==> spec_fetch(
                            fetcher.entries@,
                            (#[trigger] self.pending@[t]).reservation,
                        ) matches Option::Some(FetchedValue::LambdaImpl { value }))
                        && spec_bound_through(
                        self.pending@,
                        fetcher.entries@,
                        old(registry)@,
                        final(registry)@,
                        j,
                    ),
                Result::Ok(()) => true,
            }),
    {
        let ghost pend = self.pending@;
        let n: usize = self.pending.len();
        let mut j: usize = 0;
        // Bind front to back, preserving registration order.
        while j < n
            invariant
                n == pend.len(),
                pend == self.pending@,
                n == self.pending@.len(),
                forall|t1: int, t2: int|
                    0 <= t1 < t2 < n ==> (#[trigger] pend[t1]).reservation != (
                    #[trigger] pend[t2]).reservation,
                0 <= j <= n,
                forall|t: int|
                    0 <= t < pend.len() ==> (#[trigger] pend[t]).reservation < registry@.len(),
                registry@.len() == old(registry)@.len(),
                forall|t: int|
                    0 <= t < j ==> spec_fetch(
                        fetcher.entries@,
                        (#[trigger] pend[t]).reservation,
                    ) matches Option::Some(FetchedValue::LambdaImpl { value }),
                spec_bound_through(pend, fetcher.entries@, old(registry)@, registry@, j as int),
            decreases n - j,
        {
            let id = self.pending[j].reservation;
            let mut lambda = self.pending[j].lambda.clone();
            match fetcher.get(id) {
                Option::None => {
                    proof {
                        assert(pend[j as int].reservation == id);
                        assert(spec_fetch(fetcher.entries@, pend[j as int].reservation) is None);
                        assert(!(spec_fetch(fetcher.entries@, pend[j as int].reservation) matches
                        Option::Some(FetchedValue::LambdaImpl { value })));
                        assert(spec_bound_through(
                            pend,
                            fetcher.entries@,
                            old(registry)@,
                            registry@,
                            j as int,
                        ));
                    }
                    return Result::Err(DynamicError::KeyMissing { id });
                },
                Option::Some(FetchedValue::Other) => {
                    proof {
                        assert(pend[j as int].reservation == id);
                        assert(spec_fetch(fetcher.entries@, pend[j as int].reservation)
                            == Option::Some(FetchedValue::Other));
                        assert(!(spec_fetch(fetcher.entries@, pend[j as int].reservation) matches
                        Option::Some(FetchedValue::LambdaImpl { value })));
                        assert(spec_bound_through(
                            pend,
                            fetcher.entries@,
                            old(registry)@,
                            registry@,
                            j as int,
                        ));
                    }
                    return Result::Err(DynamicError::IncorrectType { id });
                },
                Option::Some(FetchedValue::LambdaImpl { value }) => {
                    lambda.implementation = Option::Some(value);
                    proof {
                        assert(lambda@ == spec_bound_lambda(
                            pend[j as int].lambda@,
                            spec_impl_value(
                                spec_fetch(fetcher.entries@, pend[j as int].reservation).unwrap(),
                            ),
                        ));
                    }
                    let ghost table_before = registry@;
                    registry.bind(id, lambda);
                    proof {
                        assert forall|t: int| 0 <= t < j implies (#[trigger] pend[t]).reservation
                            != id by {}
                        assert forall|t: int| 0 <= t < j + 1 implies registry@[(
                        #[trigger] pend[t]).reservation as int] == (DeferredEntryV::Lambda {
                            lambda: spec_bound_lambda(
                                pend[t].lambda@,
                                spec_impl_value(
                                    spec_fetch(fetcher.entries@, pend[t].reservation).unwrap(),
                                ),
                            ),
                        }) by {
                            if t < j {
                                assert(pend[t].reservation != id);
                                assert(registry@[pend[t].reservation as int] == table_before[
                                    pend[t].reservation as int
                                ]);
                            }
                        }
                        assert forall|idx: int|
                            0 <= idx < old(registry)@.len() && !spec_prefix_reserves(
                                pend,
                                j + 1,
                                idx,
                            ) implies #[trigger] registry@[idx] == old(registry)@[idx] by {
                            assert(!spec_prefix_reserves(pend, j as int, idx));
                            assert(idx != id) by {
                                if idx == id {
                                    assert(pend[j as int].reservation == idx);
                                }
                            }
                            assert(registry@[idx] == table_before[idx]);
                        }
                        assert(spec_bound_through(
                            pend,
                            fetcher.entries@,
                            old(registry)@,
                            registry@,
                            j + 1,
                        ));
                    }
                },
            }
            j = j + 1;
        }
        Result::Ok(())
    }
}

} // verus!
