//! Choosing one backend for one request.

use crate::backend;
use crate::backend::{BackendId, BackendProbe, RouteRequest, RuntimeError};
use crate::float::Float64;
use crate::performance;
use crate::performance::PerformanceTable;
use vstd::prelude::*;

verus! {

/// A rule by which one of several probed backends is chosen.
pub trait RoutingPolicy: Send + Sync {
    fn select(
        &self,
        request: &RouteRequest,
        candidates: &[BackendProbe],
        performance: &PerformanceTable,
    ) -> Result<BackendId, RuntimeError>;
}

/// Whether candidate `i` is there and can do what is asked.
pub open spec fn is_compatible(
    request: RouteRequest,
    candidates: Seq<BackendProbe>,
    i: int,
) -> bool {
    0 <= i < candidates.len() && candidates[i].is_compatible(request)
}

/// The latency of candidate `i` for this request, where one that can be used was recorded.
pub open spec fn latency_of(
    request: RouteRequest,
    candidates: Seq<BackendProbe>,
    performance: PerformanceTable,
    i: int,
) -> Option<Float64> {
    performance::usable_median_of(
        performance.records@,
        candidates[i].id@,
        request.operation,
        request.data_type,
    )
}

/// Whether candidate `i` is compatible and measured.
pub open spec fn is_measured(
    request: RouteRequest,
    candidates: Seq<BackendProbe>,
    performance: PerformanceTable,
    i: int,
) -> bool {
    is_compatible(request, candidates, i) && latency_of(
        request,
        candidates,
        performance,
        i,
    ) is Some
}

/// Whether candidate `i` is the fastest of the measured ones, the first of several equal ones.
pub open spec fn is_fastest(
    request: RouteRequest,
    candidates: Seq<BackendProbe>,
    performance: PerformanceTable,
    i: int,
) -> bool {
    &&& is_measured(request, candidates, performance, i)
    &&& forall|j: int|
        #![trigger candidates[j]]
        is_measured(request, candidates, performance, j) ==> {
            let here = latency_of(request, candidates, performance, i)->0.total_rank();
            let there = latency_of(request, candidates, performance, j)->0.total_rank();
            here <= there && (j < i ==> here < there)
        }
}

/// Whether candidate `i` is of the kind that is preferred while nothing is measured, the first of
/// several of that kind.
pub open spec fn is_preferred(
    request: RouteRequest,
    candidates: Seq<BackendProbe>,
    i: int,
) -> bool {
    &&& is_compatible(request, candidates, i)
    &&& forall|j: int|
        #![trigger candidates[j]]
        is_compatible(request, candidates, j) ==> {
            let here = backend::bootstrap_rank_of(candidates[i].kind);
            let there = backend::bootstrap_rank_of(candidates[j].kind);
            here <= there && (j < i ==> here < there)
        }
}

/// Whether candidate `i` is the one that [`FastestCompatible`] chooses: measurements decide where
/// there are any, and the kind of backend where there are none.
pub open spec fn is_chosen(
    request: RouteRequest,
    candidates: Seq<BackendProbe>,
    performance: PerformanceTable,
    i: int,
) -> bool {
    if exists|j: int| is_measured(request, candidates, performance, j) {
        is_fastest(request, candidates, performance, i)
    } else {
        is_preferred(request, candidates, i)
    }
}

/// At most one candidate is the chosen one.
pub proof fn the_choice_is_unique(
    request: RouteRequest,
    candidates: Seq<BackendProbe>,
    performance: PerformanceTable,
    i: int,
    j: int,
)
    requires
        is_chosen(request, candidates, performance, i),
        is_chosen(request, candidates, performance, j),
    ensures
        i == j,
{
    let a = candidates[i];
    let b = candidates[j];
}

/// What is chosen is there and can do everything that is asked.
pub proof fn the_choice_can_serve(
    request: RouteRequest,
    candidates: Seq<BackendProbe>,
    performance: PerformanceTable,
    i: int,
)
    requires
        is_chosen(request, candidates, performance, i),
    ensures
        0 <= i < candidates.len(),
        candidates[i].available,
        candidates[i].capabilities.covers(request),
{
}

/// Measurements override the order of kinds: where one compatible backend is measured, no backend
/// that is not is chosen, and none is faster than the one that is.
pub proof fn measurements_override_kinds(
    request: RouteRequest,
    candidates: Seq<BackendProbe>,
    performance: PerformanceTable,
    i: int,
    j: int,
)
    requires
        is_chosen(request, candidates, performance, i),
        is_measured(request, candidates, performance, j),
    ensures
        is_measured(request, candidates, performance, i),
        latency_of(request, candidates, performance, i)->0.total_rank() <= latency_of(
            request,
            candidates,
            performance,
            j,
        )->0.total_rank(),
{
    let a = candidates[j];
}

/// While nothing is measured, a backend of HIP is chosen before any other, and the processor only
/// where there is nothing else.
pub proof fn kinds_decide_while_nothing_is_measured(
    request: RouteRequest,
    candidates: Seq<BackendProbe>,
    performance: PerformanceTable,
    i: int,
    j: int,
)
    requires
        is_chosen(request, candidates, performance, i),
        forall|k: int| !is_measured(request, candidates, performance, k),
        is_compatible(request, candidates, j),
    ensures
        candidates[j].kind == backend::BackendKind::Hip ==> candidates[i].kind
            == backend::BackendKind::Hip,
        candidates[i].kind == backend::BackendKind::Cpu ==> candidates[j].kind
            == backend::BackendKind::Cpu,
{
    let a = candidates[j];
}

/// Chooses the fastest measured backend that is compatible, or the preferred kind where nothing is
/// measured.
#[derive(Debug)]
pub struct FastestCompatible;

impl Default for FastestCompatible {
    fn default() -> (r: Self)
        ensures
            r == FastestCompatible,
    {
        FastestCompatible
    }
}

impl RoutingPolicy for FastestCompatible {
    fn select(
        &self,
        request: &RouteRequest,
        candidates: &[BackendProbe],
        performance: &PerformanceTable,
    ) -> (r: Result<BackendId, RuntimeError>)
        ensures
            match r {
                Ok(id) => exists|i: int|
                    #[trigger] is_chosen(*request, candidates@, *performance, i) && id
                        == candidates@[i].id,
                Err(error) => error == RuntimeError::NoCompatibleBackend && forall|i: int|
                    !is_compatible(*request, candidates@, i),
            },
    {
        let ghost seen = candidates@;
        let mut fastest: Option<(usize, Float64)> = None;
        let mut preferred: Option<usize> = None;
        let mut i: usize = 0;
        while i < candidates.len()
            invariant
                i <= seen.len(),
                seen == candidates@,
                match fastest {
                    Some((b, latency)) => {
                        &&& b < i
                        &&& is_measured(*request, seen, *performance, b as int)
                        &&& latency_of(*request, seen, *performance, b as int) == Some(latency)
                        &&& forall|j: int|
                            #![trigger seen[j]]
                            j < i && is_measured(*request, seen, *performance, j) ==> {
                                let there = latency_of(
                                    *request,
                                    seen,
                                    *performance,
                                    j,
                                )->0.total_rank();
                                latency.total_rank() <= there && (j < b ==> latency.total_rank()
                                    < there)
                            }
                    },
                    None => forall|j: int|
                        j < i ==> !is_measured(*request, seen, *performance, j),
                },
                match preferred {
                    Some(b) => {
                        &&& b < i
                        &&& is_compatible(*request, seen, b as int)
                        &&& forall|j: int|
                            #![trigger seen[j]]
                            j < i && is_compatible(*request, seen, j) ==> {
                                let here = backend::bootstrap_rank_of(seen[b as int].kind);
                                let there = backend::bootstrap_rank_of(seen[j].kind);
                                here <= there && (j < b ==> here < there)
                            }
                    },
                    None => forall|j: int| j < i ==> !is_compatible(*request, seen, j),
                },
            decreases seen.len() - i,
        {
            let probe = &candidates[i];
            if probe.can_serve(request) {
                assert(is_compatible(*request, seen, i as int));
                let closer: bool = match preferred {
                    Some(b) => backend::bootstrap_rank(probe.kind) < backend::bootstrap_rank(
                        candidates[b].kind,
                    ),
                    None => true,
                };
                if closer {
                    preferred = Some(i);
                }
                match performance.usable_median_us(
                    &probe.id,
                    request.operation,
                    request.data_type,
                ) {
                    Some(latency) => {
                        assert(latency_of(*request, seen, *performance, i as int) == Some(latency));
                        let faster: bool = match fastest {
                            Some((_, best)) => latency.is_totally_before(best),
                            None => true,
                        };
                        if faster {
                            fastest = Some((i, latency));
                        }
                    },
                    None => {},
                }
            }
            i = i + 1;
        }
        match fastest {
            Some((b, _)) => {
                assert(is_measured(*request, seen, *performance, b as int));
                assert(is_chosen(*request, seen, *performance, b as int));
                Ok(candidates[b].id.clone())
            },
            None => match preferred {
                Some(b) => {
                    assert(is_chosen(*request, seen, *performance, b as int));
                    Ok(candidates[b].id.clone())
                },
                None => Err(RuntimeError::NoCompatibleBackend),
            },
        }
    }
}

/// A backend whose probe failed is never chosen.
pub proof fn a_failed_backend_is_never_chosen(
    request: RouteRequest,
    candidates: Seq<BackendProbe>,
    performance: PerformanceTable,
    i: int,
    id: BackendId,
    kind: backend::BackendKind,
    named: BackendId,
    error: backend::BackendError,
)
    requires
        0 <= i < candidates.len(),
        backend::is_failed_probe(id, kind, named, error, candidates[i]),
    ensures
        !is_chosen(request, candidates, performance, i),
{
    backend::a_failed_probe_is_never_compatible(id, kind, named, error, candidates[i], request);
}

/// A latency is what decides where there is one: no candidate that can serve is passed over for
/// one that is slower, as the first record about it says, and of equally fast ones the first is
/// chosen.
pub proof fn a_faster_backend_is_not_passed_over(
    request: RouteRequest,
    candidates: Seq<BackendProbe>,
    performance: PerformanceTable,
    i: int,
    j: int,
    r: int,
)
    requires
        is_chosen(request, candidates, performance, i),
        0 <= j < candidates.len(),
        candidates[j].available,
        candidates[j].capabilities.covers(request),
        0 <= r < performance.records@.len(),
        performance.records@[r].backend@ == candidates[j].id@,
        performance.records@[r].operation == request.operation,
        performance.records@[r].data_type == request.data_type,
        performance.records@[r].median_microseconds.bits < 0x7ff0_0000_0000_0000,
        forall|s: int|
            #![trigger performance.records@[s]]
            0 <= s < r ==> performance.records@[s].backend@ != candidates[j].id@
                || performance.records@[s].operation != request.operation
                || performance.records@[s].data_type != request.data_type,
    ensures
        ({
            let chosen = performance::median_of(
                performance.records@,
                candidates[i].id@,
                request.operation,
                request.data_type,
            );
            let bits = performance.records@[r].median_microseconds.bits;
            &&& chosen is Some
            &&& chosen->0.bits <= bits || chosen->0.bits == 0x8000_0000_0000_0000
            &&& j < i ==> chosen->0.bits < bits || chosen->0.bits == 0x8000_0000_0000_0000
        }),
{
    performance::a_lookup_reads_the_first_record_of_its_kind(
        performance.records@,
        candidates[j].id@,
        request.operation,
        request.data_type,
        r,
    );
    assert(is_measured(request, candidates, performance, j));
    assert(is_fastest(request, candidates, performance, i));
    let a = candidates[j];
}

/// While no record is about the operation and the data type, the kind decides: HIP, Vulkan,
/// hybrids, plugins, the processor. Of several of one kind the first is chosen.
pub proof fn a_better_kind_is_not_passed_over(
    request: RouteRequest,
    candidates: Seq<BackendProbe>,
    performance: PerformanceTable,
    i: int,
    j: int,
)
    requires
        is_chosen(request, candidates, performance, i),
        forall|r: int|
            #![trigger performance.records@[r]]
            0 <= r < performance.records@.len() ==> performance.records@[r].operation
                != request.operation || performance.records@[r].data_type != request.data_type,
        0 <= j < candidates.len(),
        candidates[j].available,
        candidates[j].capabilities.covers(request),
    ensures
        ({
            let place = |kind: backend::BackendKind|
                match kind {
                    backend::BackendKind::Hip => 0int,
                    backend::BackendKind::Vulkan => 1,
                    backend::BackendKind::Hybrid => 2,
                    backend::BackendKind::Plugin => 3,
                    backend::BackendKind::Cpu => 4,
                };
            &&& place(candidates[i].kind) <= place(candidates[j].kind)
            &&& candidates[i].kind == candidates[j].kind ==> i <= j
        }),
{
    assert forall|k: int| !is_measured(request, candidates, performance, k) by {
        if is_measured(request, candidates, performance, k) {
            performance::a_lookup_passes_over_the_rest(
                performance.records@,
                candidates[k].id@,
                request.operation,
                request.data_type,
            );
        }
    }
    let a = candidates[j];
}

/// A choice is made if and only if some candidate is available and covers the request.
pub proof fn a_choice_is_made_where_one_can_serve(
    request: RouteRequest,
    candidates: Seq<BackendProbe>,
    j: int,
)
    requires
        0 <= j < candidates.len(),
    ensures
        is_compatible(request, candidates, j) == (candidates[j].available
            && candidates[j].capabilities.covers(request)),
{
}

} // verus!
