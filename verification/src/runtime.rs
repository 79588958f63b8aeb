//! The registry of backends and the runtime that routes requests to them.

use crate::backend;
use crate::backend::{
    BackendError, BackendId, BackendKind, BackendProbe, ComputeBackend, RouteRequest, RuntimeError,
};
use crate::ordered_map;
use crate::ordered_map::OrderedMap;
use crate::performance;
use crate::performance::PerformanceTable;
use crate::routing::{FastestCompatible, RoutingPolicy};
use std::sync::Arc;
use vstd::prelude::*;

verus! {

/// What a probe says where the backend answered `outcome`.
pub open spec fn is_settled(
    id: BackendId,
    kind: BackendKind,
    named: BackendId,
    outcome: Result<BackendProbe, BackendError>,
    probe: BackendProbe,
) -> bool {
    match outcome {
        Ok(answered) => probe == answered,
        Err(error) => backend::is_failed_probe(id, kind, named, error, probe),
    }
}

/// Whether `probe` can have come of asking `backend`: its own answer, or the stand-in for a failed
/// one under the id and the kind that it reports, called by the id that it reports next.
pub open spec fn can_report<B: ComputeBackend + ?Sized>(
    backend: Arc<B>,
    probe: BackendProbe,
) -> bool {
    exists|
        outcome: Result<BackendProbe, BackendError>,
        id: BackendId,
        kind: BackendKind,
        named: BackendId,
    |
        {
            &&& call_ensures(B::probe, (&*backend,), outcome)
            &&& outcome is Err ==> call_ensures(B::id, (&*backend,), &id)
            &&& outcome is Err ==> call_ensures(B::kind, (&*backend,), kind)
            &&& outcome is Err ==> call_ensures(B::id, (&*backend,), &named)
            &&& #[trigger] is_settled(id, kind, named, outcome, probe)
        }
}

/// Whether `probes` can have come of asking every registered backend, in the order of their ids.
pub open spec fn can_report_all<B: ComputeBackend + ?Sized>(
    backends: Seq<(BackendId, Arc<B>)>,
    probes: Seq<BackendProbe>,
) -> bool {
    &&& probes.len() == backends.len()
    &&& forall|i: int|
        #![trigger probes[i]]
        0 <= i < probes.len() ==> can_report(backends[i].1, probes[i])
}

/// The registered backends, each under its own id.
pub struct BackendRegistry<B: ComputeBackend + ?Sized> {
    backends: OrderedMap<BackendId, Arc<B>>,
}

impl<B: ComputeBackend + ?Sized> View for BackendRegistry<B> {
    type V = Seq<(BackendId, Arc<B>)>;

    /// The backends in the order of their ids.
    closed spec fn view(&self) -> Seq<(BackendId, Arc<B>)> {
        self.backends@
    }
}

impl<B: ComputeBackend + ?Sized> Default for BackendRegistry<B> {
    fn default() -> (r: Self)
        ensures
            r.wf(),
            r@ == Seq::<(BackendId, Arc<B>)>::empty(),
    {
        BackendRegistry { backends: OrderedMap::new() }
    }
}

impl<B: ComputeBackend + ?Sized> BackendRegistry<B> {
    /// Ids stand in order, each once.
    pub open spec fn wf(&self) -> bool {
        ordered_map::keys_increase(self@)
    }

    /// Registers `backend` under `id`. Fails where the id is taken already.
    pub fn register_as(&mut self, id: BackendId, backend: Arc<B>) -> (r: Result<(), RuntimeError>)
        requires
            old(self).wf(),
        ensures
            final(self).wf(),
            match r {
                Ok(_) => {
                    &&& !ordered_map::has_key(old(self)@, id@)
                    &&& ordered_map::inserted(old(self)@, id, backend, final(self)@)
                },
                Err(error) => {
                    &&& ordered_map::has_key(old(self)@, id@)
                    &&& error == RuntimeError::DuplicateBackend(id)
                    &&& final(self)@ == old(self)@
                },
            },
    {
        if self.backends.find(&id).is_some() {
            return Err(RuntimeError::DuplicateBackend(id));
        }
        self.backends.insert(id, backend);
        Ok(())
    }

    /// Registers a backend under the id that it reports. Fails where the id is taken already.
    pub fn register(&mut self, backend: Arc<B>) -> (r: Result<(), RuntimeError>)
        requires
            old(self).wf(),
        ensures
            final(self).wf(),
            exists|id: BackendId|
                {
                    &&& #[trigger] call_ensures(B::id, (&*backend,), &id)
                    &&& match r {
                        Ok(_) => {
                            &&& !ordered_map::has_key(old(self)@, id@)
                            &&& ordered_map::inserted(old(self)@, id, backend, final(self)@)
                        },
                        Err(error) => {
                            &&& ordered_map::has_key(old(self)@, id@)
                            &&& error == RuntimeError::DuplicateBackend(id)
                            &&& final(self)@ == old(self)@
                        },
                    }
                },
    {
        let id = backend.id().clone();
        assert(call_ensures(B::id, (&*backend,), &id));
        self.register_as(id, backend)
    }

    pub fn get(&self, id: &BackendId) -> (r: Option<Arc<B>>)
        requires
            self.wf(),
        ensures
            r == ordered_map::value_of(self@, id@),
    {
        match self.backends.get(id) {
            Some(backend) => Some(backend.clone()),
            None => None,
        }
    }

    /// What every backend says of itself, in the order of their ids. One whose probe fails is
    /// reported as unavailable.
    pub fn probes(&self) -> (r: Vec<BackendProbe>)
        ensures
            can_report_all(self@, r@),
    {
        let mut r: Vec<BackendProbe> = Vec::new();
        let mut i: usize = 0;
        while i < self.backends.len()
            invariant
                i == r@.len(),
                i <= self@.len(),
                self@ == self.backends@,
                forall|j: int| #![trigger r@[j]] 0 <= j < i ==> can_report(self@[j].1, r@[j]),
            decreases self@.len() - i,
        {
            let backend = self.backends.value_at(i);
            let probe = probe_of(backend);
            r.push(probe);
            i = i + 1;
        }
        r
    }
}

fn probe_of<B: ComputeBackend + ?Sized>(backend: &Arc<B>) -> (r: BackendProbe)
    ensures
        can_report(*backend, r),
{
    let outcome = backend.probe();
    match outcome {
        Ok(probe) => {
            proof {
                let id = probe.id;
                assert(is_settled(id, probe.kind, id, outcome, probe));
            }
            probe
        },
        Err(error) => {
            let id = backend.id();
            let kind = backend.kind();
            let named = backend.id();
            let probe = backend::failed_probe(id, kind, named, &error);
            proof {
                assert(is_settled(*id, kind, *named, outcome, probe));
            }
            probe
        },
    }
}

/// Routes requests over registered backends by a policy and measured latencies.
pub struct Runtime<B: ComputeBackend + ?Sized, P: RoutingPolicy + ?Sized> {
    registry: BackendRegistry<B>,
    policy: Arc<P>,
    performance: PerformanceTable,
}

impl<B: ComputeBackend + ?Sized, P: RoutingPolicy + ?Sized> Runtime<B, P> {
    pub closed spec fn backends(&self) -> Seq<(BackendId, Arc<B>)> {
        self.registry@
    }

    pub closed spec fn policy(&self) -> Arc<P> {
        self.policy
    }

    pub closed spec fn table(&self) -> PerformanceTable {
        self.performance
    }

    pub open spec fn wf(&self) -> bool {
        ordered_map::keys_increase(self.backends())
    }

    pub fn probes(&self) -> (r: Vec<BackendProbe>)
        ensures
            can_report_all(self.backends(), r@),
    {
        self.registry.probes()
    }

    /// Probes every backend and lets the policy choose.
    pub fn route(&self, request: &RouteRequest) -> (r: Result<BackendId, RuntimeError>)
        ensures
            exists|probes: &[BackendProbe]|
                {
                    &&& #[trigger] can_report_all(self.backends(), probes@)
                    &&& call_ensures(
                        P::select,
                        (&*self.policy(), request, probes, &self.table()),
                        r,
                    )
                },
    {
        let probes = self.registry.probes();
        let seen = probes.as_slice();
        let r = self.policy.select(request, seen, &self.performance);
        proof {
            assert(can_report_all(self.backends(), seen@));
        }
        r
    }

    pub fn backend(&self, id: &BackendId) -> (r: Option<Arc<B>>)
        requires
            self.wf(),
        ensures
            r == ordered_map::value_of(self.backends(), id@),
    {
        self.registry.get(id)
    }

    pub fn performance(&self) -> (r: &PerformanceTable)
        ensures
            *r == self.table(),
    {
        &self.performance
    }
}

/// Collects what a runtime is made of.
pub struct RuntimeBuilder<B: ComputeBackend + ?Sized, P: RoutingPolicy + ?Sized> {
    registry: BackendRegistry<B>,
    policy: Arc<P>,
    performance: PerformanceTable,
}

impl<B: ComputeBackend + ?Sized> Default for RuntimeBuilder<B, FastestCompatible> {
    fn default() -> (r: Self)
        ensures
            r.wf(),
            r.backends() == Seq::<(BackendId, Arc<B>)>::empty(),
            r.policy() == Arc::new(FastestCompatible),
            r.table().records@ == Seq::<performance::PerformanceRecord>::empty(),
    {
        RuntimeBuilder {
            registry: BackendRegistry::default(),
            policy: Arc::new(FastestCompatible),
            performance: PerformanceTable::default(),
        }
    }
}

impl<B: ComputeBackend + ?Sized> RuntimeBuilder<B, FastestCompatible> {
    /// No backend, no measurement, and the fastest compatible backend to be chosen.
    pub fn new() -> (r: Self)
        ensures
            r.wf(),
            r.backends() == Seq::<(BackendId, Arc<B>)>::empty(),
            r.policy() == Arc::new(FastestCompatible),
            r.table().records@ == Seq::<performance::PerformanceRecord>::empty(),
    {
        Self::default()
    }
}

impl<B: ComputeBackend + ?Sized, P: RoutingPolicy + ?Sized> RuntimeBuilder<B, P> {
    pub closed spec fn backends(&self) -> Seq<(BackendId, Arc<B>)> {
        self.registry@
    }

    pub closed spec fn policy(&self) -> Arc<P> {
        self.policy
    }

    pub closed spec fn table(&self) -> PerformanceTable {
        self.performance
    }

    pub open spec fn wf(&self) -> bool {
        ordered_map::keys_increase(self.backends())
    }

    /// Adds a backend under the id that it reports. Fails where the id is taken already.
    pub fn backend(self, backend: Arc<B>) -> (r: Result<Self, RuntimeError>)
        requires
            self.wf(),
        ensures
            exists|id: BackendId|
                {
                    &&& #[trigger] call_ensures(B::id, (&*backend,), &id)
                    &&& match r {
                        Ok(builder) => {
                            &&& builder.wf()
                            &&& !ordered_map::has_key(self.backends(), id@)
                            &&& ordered_map::inserted(
                                self.backends(),
                                id,
                                backend,
                                builder.backends(),
                            )
                            &&& builder.policy() == self.policy()
                            &&& builder.table() == self.table()
                        },
                        Err(error) => {
                            &&& ordered_map::has_key(self.backends(), id@)
                            &&& error == RuntimeError::DuplicateBackend(id)
                        },
                    }
                },
    {
        let mut registry = self.registry;
        match registry.register(backend) {
            Ok(_) => Ok(
                RuntimeBuilder { registry, policy: self.policy, performance: self.performance },
            ),
            Err(error) => Err(error),
        }
    }

    pub fn routing_policy<Q: RoutingPolicy + ?Sized>(self, policy: Arc<Q>) -> (r: RuntimeBuilder<
        B,
        Q,
    >)
        ensures
            r.backends() == self.backends(),
            r.policy() == policy,
            r.table() == self.table(),
    {
        RuntimeBuilder { registry: self.registry, policy, performance: self.performance }
    }

    pub fn performance_table(self, performance: PerformanceTable) -> (r: Self)
        ensures
            r.backends() == self.backends(),
            r.policy() == self.policy(),
            r.table() == performance,
    {
        RuntimeBuilder { registry: self.registry, policy: self.policy, performance }
    }

    pub fn build(self) -> (r: Runtime<B, P>)
        ensures
            r.backends() == self.backends(),
            r.policy() == self.policy(),
            r.table() == self.table(),
    {
        Runtime {
            registry: self.registry,
            policy: self.policy,
            performance: self.performance,
        }
    }
}

/// A backend that was registered is found under its id, and every other backend under its own.
pub proof fn a_registered_backend_is_found<B: ComputeBackend + ?Sized>(
    before: Seq<(BackendId, Arc<B>)>,
    id: BackendId,
    backend: Arc<B>,
    after: Seq<(BackendId, Arc<B>)>,
    other: Seq<char>,
)
    requires
        ordered_map::keys_increase(before),
        ordered_map::keys_increase(after),
        ordered_map::inserted(before, id, backend, after),
    ensures
        ordered_map::value_of(after, id@) == Some(backend),
        other != id@ ==> ordered_map::value_of(after, other) == ordered_map::value_of(
            before,
            other,
        ),
{
    ordered_map::insertion_changes_one_key(before, id, backend, after, id@);
    ordered_map::insertion_changes_one_key(before, id, backend, after, other);
}

/// What asking a backend comes to: its own answer, unchanged, or a stand-in that is unavailable,
/// keeps the id and the kind that the backend reports, and says what went wrong.
pub proof fn a_probe_is_the_answer_or_says_why(
    id: BackendId,
    kind: BackendKind,
    named: BackendId,
    outcome: Result<BackendProbe, BackendError>,
    probe: BackendProbe,
)
    requires
        is_settled(id, kind, named, outcome, probe),
    ensures
        outcome matches Ok(answered) ==> probe == answered,
        outcome matches Err(error) ==> {
            &&& probe.id@ == id@
            &&& probe.kind == kind
            &&& probe.name@ == named@
            &&& !probe.available
            &&& probe.device_count == 0
            &&& probe.detail@ == error.text()
            &&& probe.capabilities.operations@.len() == 0
            &&& probe.capabilities.data_types@.len() == 0
        },
{
}

/// There is one probe for each registered backend, in the order of their ids.
pub proof fn every_backend_is_asked_once<B: ComputeBackend + ?Sized>(
    backends: Seq<(BackendId, Arc<B>)>,
    probes: Seq<BackendProbe>,
    i: int,
)
    requires
        can_report_all(backends, probes),
        0 <= i < backends.len(),
    ensures
        probes.len() == backends.len(),
        can_report(backends[i].1, probes[i]),
{
    assert(probes[i] == probes[i]);
}

} // verus!
