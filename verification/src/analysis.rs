//! The per-target analysis context.
//!
//! A scoped bundle consumed by one target's analysis: its attributes,
//! an actions handle owning the analysis registry, an optional
//! configured label, and plugins. The registry is handed off exactly
//! once at the end of analysis, by a consuming method, so no later
//! operation can observe a stale context. Promise resolution is an
//! explicit worklist: resolving promises may produce more promises,
//! and the loop either drains them or reports that it did not
//! converge within its bound.

use vstd::prelude::*;

use crate::bytes::bytes_clone;
use crate::bytes::bytes_eq;

verus! {

/// A promise produced during analysis, identified by a plain value.
#[derive(Clone, Copy, Debug, PartialEq, Eq, Structural, Hash)]
pub struct Promise {
    pub id: u64,
}

/// What resolving each promise produces: the promises it spawns in
/// turn. A promise the resolver does not know spawns nothing.
#[derive(Debug)]
pub struct PromiseResolver {
    pub entries: Vec<(u64, Vec<Promise>)>,
}

/// The promises spawned by resolving `id`: the first entry with that
/// identity, or none.
pub open spec fn spec_spawned(entries: Seq<(u64, Vec<Promise>)>, id: u64) -> Seq<Promise>
    decreases entries.len(),
{
    if entries.len() == 0 {
        Seq::empty()
    } else if entries[0].0 == id {
        entries[0].1@
    } else {
        spec_spawned(entries.drop_first(), id)
    }
}

impl PromiseResolver {
    /// The promises spawned by resolving `id`.
    fn spawned(&self, id: u64) -> (r: Vec<Promise>)
        ensures
            r@ == spec_spawned(self.entries@, id),
    {
        let n: usize = self.entries.len();
        let mut i: usize = 0;
        proof {
            assert(self.entries@.skip(0) =~= self.entries@);
        }
        while i < n
            invariant
                n == self.entries@.len(),
                0 <= i <= n,
                spec_spawned(self.entries@, id) == spec_spawned(self.entries@.skip(i as int), id),
            decreases n - i,
        {
            proof {
                assert(self.entries@.skip(i as int)[0] == self.entries@[i as int]);
                assert(self.entries@.skip(i as int).drop_first() =~= self.entries@.skip(i + 1));
            }
            if self.entries[i].0 == id {
                let found = &self.entries[i].1;
                let m: usize = found.len();
                let mut r: Vec<Promise> = Vec::new();
                let mut j: usize = 0;
                while j < m
                    invariant
                        m == found@.len(),
                        0 <= j <= m,
                        r@ == found@.take(j as int),
                    decreases m - j,
                {
                    r.push(found[j]);
                    proof {
                        assert(r@ =~= found@.take(j + 1));
                    }
                    j = j + 1;
                }
                proof {
                    assert(found@.take(m as int) =~= found@);
                }
                return r;
            }
            i = i + 1;
        }
        proof {
            assert(self.entries@.skip(n as int).len() == 0);
        }
        Vec::new()
    }
}

/// One resolution round: every promise of the worklist is resolved,
/// in order, and replaced by the promises its resolution spawns.
pub open spec fn spec_round(entries: Seq<(u64, Vec<Promise>)>, promises: Seq<Promise>) -> Seq<
    Promise,
>
    decreases promises.len(),
{
    if promises.len() == 0 {
        Seq::empty()
    } else {
        spec_round(entries, promises.drop_last()) + spec_spawned(entries, promises.last().id)
    }
}

/// The worklist after `k` resolution rounds.
pub open spec fn spec_rounds(
    entries: Seq<(u64, Vec<Promise>)>,
    promises: Seq<Promise>,
    k: nat,
) -> Seq<Promise>
    decreases k,
{
    if k == 0 {
        promises
    } else {
        spec_round(entries, spec_rounds(entries, promises, (k - 1) as nat))
    }
}

/// A drained worklist stays drained through further rounds.
proof fn lemma_rounds_stay_empty(
    entries: Seq<(u64, Vec<Promise>)>,
    promises: Seq<Promise>,
    k1: nat,
    k2: nat,
)
    requires
        k1 <= k2,
        spec_rounds(entries, promises, k1).len() == 0,
    ensures
        spec_rounds(entries, promises, k2) == spec_rounds(entries, promises, k1),
    decreases k2,
{
    if k2 > k1 {
        lemma_rounds_stay_empty(entries, promises, k1, (k2 - 1) as nat);
        assert(spec_rounds(entries, promises, (k2 - 1) as nat).len() == 0);
        assert(spec_rounds(entries, promises, k2) =~= spec_rounds(entries, promises, k1));
    }
}

/// The promised artifacts, resolved: each consumer artifact identity
/// maps to the short path of the artifact it received.
#[derive(Debug)]
pub struct PromisedArtifactMap {
    pub entries: Vec<(u64, Vec<u8>)>,
}

/// The short path delivered for consumer `id`, if any.
pub open spec fn spec_delivered(entries: Seq<(u64, Vec<u8>)>, id: u64) -> Option<Seq<u8>>
    decreases entries.len(),
{
    if entries.len() == 0 {
        Option::None
    } else if entries[0].0 == id {
        Option::Some(entries[0].1@)
    } else {
        spec_delivered(entries.drop_first(), id)
    }
}

impl PromisedArtifactMap {
    /// The short path delivered for consumer `id`.
    fn delivered(&self, id: u64) -> (r: Option<Vec<u8>>)
        ensures
            (match r {
                Option::Some(p) => spec_delivered(self.entries@, id) == Option::Some(p@),
                Option::None => spec_delivered(self.entries@, id) is None,
            }),
    {
        let n: usize = self.entries.len();
        let mut i: usize = 0;
        proof {
            assert(self.entries@.skip(0) =~= self.entries@);
        }
        while i < n
            invariant
                n == self.entries@.len(),
                0 <= i <= n,
                spec_delivered(self.entries@, id) == spec_delivered(
                    self.entries@.skip(i as int),
                    id,
                ),
            decreases n - i,
        {
            proof {
                assert(self.entries@.skip(i as int)[0] == self.entries@[i as int]);
                assert(self.entries@.skip(i as int).drop_first() =~= self.entries@.skip(i + 1));
            }
            if self.entries[i].0 == id {
                return Option::Some(bytes_clone(&self.entries[i].1));
            }
            i = i + 1;
        }
        proof {
            assert(self.entries@.skip(n as int).len() == 0);
        }
        Option::None
    }
}

/// A short-path claim recorded during analysis for one consumer
/// artifact.
#[derive(Debug)]
pub struct ShortPathAssertion {
    pub artifact: u64,
    pub short_path: Vec<u8>,
}

/// The per-analysis registry: outstanding promises, recorded
/// short-path claims, and the consumer artifacts awaiting promised
/// values.
#[derive(Debug)]
pub struct AnalysisRegistry {
    pub promises: Vec<Promise>,
    pub short_path_assertions: Vec<ShortPathAssertion>,
    pub consumer_analysis_artifacts: Vec<u64>,
}

/// The short path an analysis claimed for consumer `id`, if any.
pub open spec fn spec_claimed(assertions: Seq<ShortPathAssertion>, id: u64) -> Option<Seq<u8>>
    decreases assertions.len(),
{
    if assertions.len() == 0 {
        Option::None
    } else if assertions[0].artifact == id {
        Option::Some(assertions[0].short_path@)
    } else {
        spec_claimed(assertions.drop_first(), id)
    }
}

/// The short path an analysis claimed for consumer `id`, if any.
fn find_claim(assertions: &Vec<ShortPathAssertion>, id: u64) -> (r: Option<&Vec<u8>>)
    ensures
        (match r {
            Option::Some(p) => spec_claimed(assertions@, id) == Option::Some(p@),
            Option::None => spec_claimed(assertions@, id) is None,
        }),
{
    let n: usize = assertions.len();
    let mut i: usize = 0;
    proof {
        assert(assertions@.skip(0) =~= assertions@);
    }
    while i < n
        invariant
            n == assertions@.len(),
            0 <= i <= n,
            spec_claimed(assertions@, id) == spec_claimed(assertions@.skip(i as int), id),
        decreases n - i,
    {
        proof {
            assert(assertions@.skip(i as int)[0] == assertions@[i as int]);
            assert(assertions@.skip(i as int).drop_first() =~= assertions@.skip(i + 1));
        }
        if assertions[i].artifact == id {
            return Option::Some(&assertions[i].short_path);
        }
        i = i + 1;
    }
    proof {
        assert(assertions@.skip(n as int).len() == 0);
    }
    Option::None
}

impl AnalysisRegistry {
    /// A registry with nothing outstanding.
    pub fn new() -> (r: AnalysisRegistry)
        ensures
            r.promises@.len() == 0,
            r.short_path_assertions@.len() == 0,
            r.consumer_analysis_artifacts@.len() == 0,
    {
        AnalysisRegistry {
            promises: Vec::new(),
            short_path_assertions: Vec::new(),
            consumer_analysis_artifacts: Vec::new(),
        }
    }

    /// Drains the outstanding promises: all of them, or nothing when
    /// none remain.
    pub fn take_promises(&mut self) -> (r: Option<Vec<Promise>>)
        ensures
            final(self).short_path_assertions == old(self).short_path_assertions,
            final(self).consumer_analysis_artifacts == old(self).consumer_analysis_artifacts,
            (match r {
                Option::Some(taken) => old(self).promises@.len() > 0 && taken@ == old(
                    self,
                ).promises@ && final(self).promises@.len() == 0,
                Option::None => old(self).promises@.len() == 0 && final(self).promises@ == old(
                    self,
                ).promises@,
            }),
    {
        if self.promises.len() == 0 {
            return Option::None;
        }
        let mut taken: Vec<Promise> = Vec::new();
        std::mem::swap(&mut taken, &mut self.promises);
        Option::Some(taken)
    }
}

/// What promise resolution and the final handoff can fail with.
#[derive(Clone, Copy, Debug, PartialEq, Eq, Structural)]
pub enum AnalysisError {
    /// Resolution kept producing new promises past its bound.
    PromiseGraphDidNotConverge,
    /// No artifact was delivered for a consumer that awaited one.
    MissingPromisedArtifact { id: u64 },
    /// A delivered artifact's short path is not the one analysis
    /// claimed.
    ShortPathAssertionViolated { id: u64 },
    /// Promises remained at the final handoff.
    PromisesRemain,
}

/// Whether every consumer artifact received a value whose short path
/// matches the analysis's claim, where one was made.
pub open spec fn spec_short_paths_ok(
    consumers: Seq<u64>,
    assertions: Seq<ShortPathAssertion>,
    artifacts: Seq<(u64, Vec<u8>)>,
) -> bool {
    forall|i: int|
        0 <= i < consumers.len() ==> {
            let id = #[trigger] consumers[i];
            &&& spec_delivered(artifacts, id) is Some
            &&& (spec_claimed(assertions, id) matches Option::Some(claim) ==> spec_delivered(
                artifacts,
                id,
            ) == Option::Some(claim))
        }
}

/// The actions handle of one analysis: it owns the registry until the
/// final handoff.
#[derive(Debug)]
pub struct AnalysisActions {
    /// The registry, present until the context is consumed.
    pub state: Option<AnalysisRegistry>,
    /// Copies from the context, captured for deferred work.
    pub attributes: Vec<u8>,
    pub plugins: Vec<u8>,
}

impl AnalysisActions {
    /// The registry; present during execution.
    pub fn state(&self) -> (r: &AnalysisRegistry)
        requires
            self.state is Some,
        ensures
            (match self.state {
                Option::Some(reg) => *r == reg,
                Option::None => false,
            }),
    {
        match &self.state {
            Option::Some(reg) => reg,
            Option::None => vstd::pervasive::unreached(),
        }
    }

    /// Resolves short-path claims: every consumer artifact must have
    /// received a value, and where analysis claimed a short path the
    /// delivered one must match.
    pub fn assert_short_paths_and_resolve(&self, artifacts: &PromisedArtifactMap) -> (r: Result<
        (),
        AnalysisError,
    >)
        requires
            self.state is Some,
        ensures
            (match self.state {
                Option::Some(reg) => {
                    &&& r is Ok <==> spec_short_paths_ok(
                        reg.consumer_analysis_artifacts@,
                        reg.short_path_assertions@,
                        artifacts.entries@,
                    )
                    &&& (match r {
                        Result::Err(AnalysisError::MissingPromisedArtifact { id }) => reg
                            .consumer_analysis_artifacts@.contains(id) && spec_delivered(
                            artifacts.entries@,
                            id,
                        ) is None,
                        Result::Err(AnalysisError::ShortPathAssertionViolated { id }) => reg
                            .consumer_analysis_artifacts@.contains(id) && spec_claimed(
                            reg.short_path_assertions@,
                            id,
                        ) is Some && spec_delivered(artifacts.entries@, id) is Some
                            && spec_delivered(artifacts.entries@, id) != spec_claimed(
                            reg.short_path_assertions@,
                            id,
                        ),
                        Result::Err(AnalysisError::PromiseGraphDidNotConverge) => false,
                        Result::Err(AnalysisError::PromisesRemain) => false,
                        Result::Ok(()) => true,
                    })
                },
                Option::None => false,
            }),
    {
        let reg = self.state();
        let n: usize = reg.consumer_analysis_artifacts.len();
        let mut i: usize = 0;
        while i < n
            invariant
                n == reg.consumer_analysis_artifacts@.len(),
                self.state matches Option::Some(r2) && *reg == r2,
                0 <= i <= n,
                forall|j: int|
                    0 <= j < i ==> {
                        let id = #[trigger] reg.consumer_analysis_artifacts@[j];
                        &&& spec_delivered(artifacts.entries@, id) is Some
                        &&& (spec_claimed(reg.short_path_assertions@, id) matches Option::Some(
                            claim,
                        ) ==> spec_delivered(artifacts.entries@, id) == Option::Some(claim))
                    },
            decreases n - i,
        {
            let id = reg.consumer_analysis_artifacts[i];
            proof {
                assert(reg.consumer_analysis_artifacts@[i as int] == id);
                assert(reg.consumer_analysis_artifacts@.contains(id));
            }
            let delivered = match artifacts.delivered(id) {
                Option::Some(p) => p,
                Option::None => {
                    return Result::Err(AnalysisError::MissingPromisedArtifact { id });
                },
            };
            match find_claim(&reg.short_path_assertions, id) {
                Option::Some(claim) => {
                    if !bytes_eq(claim, &delivered) {
                        return Result::Err(AnalysisError::ShortPathAssertionViolated { id });
                    }
                },
                Option::None => {},
            }
            i = i + 1;
        }
        Result::Ok(())
    }

    /// Drives the promise worklist to a fixed point: drains the
    /// outstanding promises, resolves them — which may produce more —
    /// and repeats; a worklist still alive after `bound` rounds fails.
    /// The surviving worklist is exactly the initial promises put
    /// through `bound` resolution rounds of the resolver. After the
    /// loop, short-path claims are resolved.
    pub fn run_promises(
        &mut self,
        resolver: &PromiseResolver,
        artifacts: &PromisedArtifactMap,
        bound: u64,
    ) -> (r: Result<(), AnalysisError>)
        requires
            old(self).state is Some,
        ensures
            final(self).state is Some,
            (match final(self).state {
                Option::Some(reg) => reg.promises@ == spec_rounds(
                    resolver.entries@,
                    old(self).state.unwrap().promises@,
                    bound as nat,
                ),
                Option::None => false,
            }),
            r is Ok ==> (match final(self).state {
                Option::Some(reg) => reg.promises@.len() == 0 && spec_short_paths_ok(
                    reg.consumer_analysis_artifacts@,
                    reg.short_path_assertions@,
                    artifacts.entries@,
                ),
                Option::None => false,
            }),
            r == Result::<(), AnalysisError>::Err(AnalysisError::PromiseGraphDidNotConverge)
                ==> (match final(self).state {
                Option::Some(reg) => reg.promises@.len() > 0,
                Option::None => false,
            }),
            (match r {
                Result::Err(AnalysisError::MissingPromisedArtifact { id }) => (match final(self).state {
                    Option::Some(reg) => reg.consumer_analysis_artifacts@.contains(id)
                        && spec_delivered(artifacts.entries@, id) is None,
                    Option::None => false,
                }),
                Result::Err(AnalysisError::ShortPathAssertionViolated { id }) => (match final(self).state {
                    Option::Some(reg) => reg.consumer_analysis_artifacts@.contains(id)
                        && spec_claimed(reg.short_path_assertions@, id) is Some && spec_delivered(
                        artifacts.entries@,
                        id,
                    ) is Some && spec_delivered(artifacts.entries@, id) != spec_claimed(
                        reg.short_path_assertions@,
                        id,
                    ),
                    Option::None => false,
                }),
                Result::Err(AnalysisError::PromisesRemain) => false,
                _ => true,
            }),
    {
        let ghost entries = resolver.entries@;
        let ghost initial_promises = old(self).state.unwrap().promises@;
        let mut rounds: u64 = 0;
        // The worklist loop: each round drains the current promises
        // and inserts whatever their resolution spawned.
        while rounds < bound
            invariant
                self.state is Some,
                0 <= rounds <= bound,
                entries == resolver.entries@,
                (match self.state {
                    Option::Some(reg) => reg.promises@ == spec_rounds(
                        entries,
                        initial_promises,
                        rounds as nat,
                    ),
                    Option::None => false,
                }),
            ensures
                self.state is Some,
                (match self.state {
                    Option::Some(reg) => reg.promises@ == spec_rounds(entries, initial_promises, bound as nat),
                    Option::None => false,
                }),
            decreases bound - rounds,
        {
            let taken = match &mut self.state {
                Option::Some(reg) => reg.take_promises(),
                Option::None => vstd::pervasive::unreached(),
            };
            let taken = match taken {
                Option::Some(taken) => taken,
                Option::None => {
                    proof {
                        lemma_rounds_stay_empty(entries, initial_promises, rounds as nat, bound as nat);
                    }
                    break;
                },
            };
            let ghost wave = taken@;
            proof {
                assert(wave == spec_rounds(entries, initial_promises, rounds as nat));
                assert(spec_round(entries, wave.take(0)).len() == 0);
            }
            let tn: usize = taken.len();
            let mut t: usize = 0;
            while t < tn
                invariant
                    tn == taken@.len(),
                    wave == taken@,
                    entries == resolver.entries@,
                    0 <= t <= tn,
                    (match self.state {
                        Option::Some(reg) => reg.promises@ == spec_round(
                            entries,
                            wave.take(t as int),
                        ),
                        Option::None => false,
                    }),
                decreases tn - t,
            {
                let mut spawned = resolver.spawned(taken[t].id);
                match &mut self.state {
                    Option::Some(reg) => {
                        reg.promises.append(&mut spawned);
                        proof {
                            assert(wave.take(t + 1).drop_last() =~= wave.take(t as int));
                            assert(wave.take(t + 1).last() == wave[t as int]);
                        }
                    },
                    Option::None => vstd::pervasive::unreached(),
                }
                t = t + 1;
            }
            proof {
                assert(wave.take(tn as int) =~= wave);
                assert(spec_rounds(entries, initial_promises, (rounds + 1) as nat) == spec_round(
                    entries,
                    spec_rounds(entries, initial_promises, rounds as nat),
                ));
            }
            rounds = rounds + 1;
        }
        let still_pending = match &self.state {
            Option::Some(reg) => reg.promises.len() > 0,
            Option::None => vstd::pervasive::unreached(),
        };
        if still_pending {
            return Result::Err(AnalysisError::PromiseGraphDidNotConverge);
        }
        self.assert_short_paths_and_resolve(artifacts)
    }
}

/// The context provided to one target's analysis.
#[derive(Debug)]
pub struct AnalysisContext {
    pub attrs: Vec<u8>,
    pub actions: AnalysisActions,
    /// Absent only when invoked from a dynamic-output context.
    pub label: Option<Vec<u8>>,
    pub plugins: Vec<u8>,
}

impl AnalysisContext {
    /// Builds the context handed to an analysis implementation.
    pub fn prepare(
        attrs: Vec<u8>,
        label: Option<Vec<u8>>,
        plugins: Vec<u8>,
        registry: AnalysisRegistry,
    ) -> (r: AnalysisContext)
        ensures
            r.attrs == attrs,
            r.label == label,
            r.plugins == plugins,
            r.actions.state == Option::Some(registry),
            r.actions.attributes@ == r.attrs@,
            r.actions.plugins@ == r.plugins@,
    {
        let actions = AnalysisActions {
            state: Option::Some(registry),
            attributes: bytes_clone(&attrs),
            plugins: bytes_clone(&plugins),
        };
        let r = AnalysisContext { attrs, label, plugins, actions };
        r
    }

    /// Whether any promises remain: the final-handoff invariant.
    pub fn assert_no_promises(&self) -> (r: Result<(), AnalysisError>)
        requires
            self.actions.state is Some,
        ensures
            (match self.actions.state {
                Option::Some(reg) => r is Ok <==> reg.promises@.len() == 0,
                Option::None => false,
            }),
    {
        let reg = self.actions.state();
        if reg.promises.len() == 0 {
            Result::Ok(())
        } else {
            Result::Err(AnalysisError::PromisesRemain)
        }
    }

    /// Hands the registry off, consuming the context: it can be taken
    /// exactly once, and nothing can observe the context afterwards.
    pub fn take_state(self) -> (r: AnalysisRegistry)
        requires
            self.actions.state is Some,
        ensures
            Option::Some(r) == self.actions.state,
    {
        match self.actions.state {
            Option::Some(reg) => reg,
            Option::None => vstd::pervasive::unreached(),
        }
    }
}

} // verus!
