//! Operators on shared resources.
//!
//! Regions of shared memory and synchronization points are borrowed: every native handle stays
//! with the caller. Here they are tokens, and what is checked is what can be checked of them.

use crate::backend::BackendKind;
use crate::operators::OperatorKind;
use crate::ordered_map;
use crate::ordered_map::OrderedMap;
use crate::text;
use std::sync::Arc;
use vstd::prelude::*;
use vstd::string::*;

verus! {

#[derive(Debug, Clone, Copy, PartialEq, Eq, PartialOrd, Ord, Hash, Structural)]
pub enum ExternalMemoryHandleKind {
    Win32Kmt,
    Win32Nt,
    OpaqueFd,
    DmaBuf,
    Custom(u32),
}

#[derive(Debug, Clone, Copy, PartialEq, Eq, Structural)]
pub enum ResourceAccess {
    ReadOnly,
    WriteOnly,
    ReadWrite,
}

/// A region of shared memory.
#[derive(Debug, Clone, Copy, PartialEq, Eq, Structural)]
pub struct SharedResourceRegion {
    pub handle_kind: ExternalMemoryHandleKind,
    /// A borrowed native handle. An operator neither closes nor keeps it.
    pub handle: u64,
    pub allocation_size: u64,
    pub offset: u64,
    pub length: u64,
    pub access: ResourceAccess,
}

impl SharedResourceRegion {
    /// A handle, something to look at, and a range that lies inside the allocation.
    pub open spec fn is_valid(&self) -> bool {
        &&& self.handle != 0
        &&& self.allocation_size > 0
        &&& self.length > 0
        &&& self.offset + self.length <= self.allocation_size
    }

    /// What is wrong with the region, in words.
    pub open spec fn complaint(&self) -> Seq<char> {
        if self.handle == 0 {
            "external-memory handle must be non-zero"@
        } else if self.allocation_size == 0 || self.length == 0 {
            "shared-resource allocation and region length must be non-zero"@
        } else if self.offset + self.length > u64::MAX {
            "shared-resource range overflow"@
        } else {
            "shared-resource range ["@ + text::decimal(self.offset as nat) + ", "@ + text::decimal(
                (self.offset + self.length) as nat,
            ) + ") exceeds allocation size "@ + text::decimal(self.allocation_size as nat)
        }
    }

    pub fn validate(&self) -> (r: Result<(), SharedOperatorError>)
        ensures
            match r {
                Ok(_) => self.is_valid(),
                Err(error) => {
                    &&& !self.is_valid()
                    &&& error matches SharedOperatorError::InvalidResource(reason)
                    &&& reason@ == self.complaint()
                },
            },
    {
        if self.handle == 0 {
            return Err(
                SharedOperatorError::InvalidResource(
                    "external-memory handle must be non-zero".to_owned(),
                ),
            );
        }
        if self.allocation_size == 0 || self.length == 0 {
            return Err(
                SharedOperatorError::InvalidResource(
                    "shared-resource allocation and region length must be non-zero".to_owned(),
                ),
            );
        }
        let end: u64 = match self.offset.checked_add(self.length) {
            Some(end) => end,
            None => {
                return Err(
                    SharedOperatorError::InvalidResource(
                        "shared-resource range overflow".to_owned(),
                    ),
                );
            },
        };
        if end > self.allocation_size {
            let mut reason = "shared-resource range [".to_owned();
            text::append_decimal(&mut reason, self.offset);
            reason.append(", ");
            text::append_decimal(&mut reason, end);
            reason.append(") exceeds allocation size ");
            text::append_decimal(&mut reason, self.allocation_size);
            return Err(SharedOperatorError::InvalidResource(reason));
        }
        Ok(())
    }
}

#[derive(Debug, Clone, Copy, PartialEq, Eq, PartialOrd, Ord, Hash, Structural)]
pub enum ExternalSyncHandleKind {
    Win32Opaque,
    OpaqueFd,
    Timeline,
    Custom(u32),
}

/// A point to wait for or to signal.
#[derive(Debug, Clone, Copy, PartialEq, Eq, Structural)]
pub struct SharedSyncPoint {
    pub handle_kind: ExternalSyncHandleKind,
    /// A borrowed native handle. An operator neither closes nor keeps it.
    pub handle: u64,
    /// The value of a timeline or fence. Zero is in order for binary primitives.
    pub value: u64,
}

impl SharedSyncPoint {
    pub open spec fn is_valid(&self) -> bool {
        self.handle != 0
    }

    pub fn validate(&self) -> (r: Result<(), SharedOperatorError>)
        ensures
            match r {
                Ok(_) => self.is_valid(),
                Err(error) => {
                    &&& !self.is_valid()
                    &&& error matches SharedOperatorError::InvalidSynchronization(reason)
                    &&& reason@ == "external synchronization handle must be non-zero"@
                },
            },
    {
        if self.handle == 0 {
            return Err(
                SharedOperatorError::InvalidSynchronization(
                    "external synchronization handle must be non-zero".to_owned(),
                ),
            );
        }
        Ok(())
    }
}

#[derive(Debug, Clone, Copy, PartialEq, Eq, Structural)]
pub struct SharedOperatorRequest {
    pub kind: OperatorKind,
    pub preferred_backend: Option<BackendKind>,
    pub required_memory_kind: Option<ExternalMemoryHandleKind>,
    pub requires_synchronization: bool,
    pub requires_proven_zero_copy: bool,
}

impl SharedOperatorRequest {
    #[must_use]
    pub fn new(kind: OperatorKind) -> (r: Self)
        ensures
            r == (SharedOperatorRequest {
                kind,
                preferred_backend: None,
                required_memory_kind: None,
                requires_synchronization: false,
                requires_proven_zero_copy: false,
            }),
    {
        SharedOperatorRequest {
            kind,
            preferred_backend: None,
            required_memory_kind: None,
            requires_synchronization: false,
            requires_proven_zero_copy: false,
        }
    }
}

#[derive(Debug, PartialEq, Eq)]
pub struct SharedOperatorCapabilities {
    pub kind: OperatorKind,
    pub backend: BackendKind,
    pub memory_kinds: Vec<ExternalMemoryHandleKind>,
    pub sync_kinds: Vec<ExternalSyncHandleKind>,
    pub supports_external_synchronization: bool,
    /// Only where the execution path works on the shared allocation itself and does not relay
    /// tensor bytes through host memory.
    pub proven_zero_copy: bool,
}

/// Whether two operators declare the same.
pub open spec fn same_capabilities(
    a: SharedOperatorCapabilities,
    b: SharedOperatorCapabilities,
) -> bool {
    &&& a.kind == b.kind
    &&& a.backend == b.backend
    &&& a.memory_kinds@ == b.memory_kinds@
    &&& a.sync_kinds@ == b.sync_kinds@
    &&& a.supports_external_synchronization == b.supports_external_synchronization
    &&& a.proven_zero_copy == b.proven_zero_copy
}

impl Clone for SharedOperatorCapabilities {
    fn clone(&self) -> (r: Self)
        ensures
            same_capabilities(*self, r),
    {
        let memory_kinds = self.memory_kinds.clone();
        let sync_kinds = self.sync_kinds.clone();
        assert(memory_kinds@ =~= self.memory_kinds@);
        assert(sync_kinds@ =~= self.sync_kinds@);
        SharedOperatorCapabilities {
            kind: self.kind,
            backend: self.backend,
            memory_kinds,
            sync_kinds,
            supports_external_synchronization: self.supports_external_synchronization,
            proven_zero_copy: self.proven_zero_copy,
        }
    }
}

/// What a shared operator is run on.
#[derive(Debug, Clone, Copy, PartialEq, Eq)]
pub struct SharedOperatorInvocation<'a> {
    /// Small control metadata only: tensors belong in resources.
    pub metadata: &'a [u8],
    pub resources: &'a [SharedResourceRegion],
    pub waits: &'a [SharedSyncPoint],
    pub signals: &'a [SharedSyncPoint],
}

/// The first region that is not valid.
pub open spec fn is_first_bad_region(resources: Seq<SharedResourceRegion>, i: int) -> bool {
    &&& 0 <= i < resources.len()
    &&& !resources[i].is_valid()
    &&& forall|j: int| #![trigger resources[j]] 0 <= j < i ==> resources[j].is_valid()
}

/// Whether every point is valid.
pub open spec fn all_points_valid(points: Seq<SharedSyncPoint>) -> bool {
    forall|i: int| #![trigger points[i]] 0 <= i < points.len() ==> points[i].is_valid()
}

/// Whether every region is valid.
pub open spec fn all_regions_valid(resources: Seq<SharedResourceRegion>) -> bool {
    forall|i: int| #![trigger resources[i]] 0 <= i < resources.len() ==> resources[i].is_valid()
}

fn validate_points(points: &[SharedSyncPoint]) -> (r: Result<(), SharedOperatorError>)
    ensures
        match r {
            Ok(_) => all_points_valid(points@),
            Err(error) => {
                &&& !all_points_valid(points@)
                &&& error matches SharedOperatorError::InvalidSynchronization(reason)
                &&& reason@ == "external synchronization handle must be non-zero"@
            },
        },
{
    let mut i: usize = 0;
    while i < points.len()
        invariant
            i <= points@.len(),
            forall|j: int| #![trigger points@[j]] 0 <= j < i ==> points@[j].is_valid(),
        decreases points@.len() - i,
    {
        match points[i].validate() {
            Ok(_) => {},
            Err(error) => {
                assert(!points@[i as int].is_valid());
                return Err(error);
            },
        }
        i = i + 1;
    }
    Ok(())
}

impl<'a> SharedOperatorInvocation<'a> {
    /// Whether every region and every point is valid.
    pub open spec fn is_valid(&self) -> bool {
        &&& all_regions_valid(self.resources@)
        &&& all_points_valid(self.waits@)
        &&& all_points_valid(self.signals@)
    }

    /// Whether `error` is what an invalid invocation is refused with: the complaint about the
    /// first bad region or, where all regions are valid, about a point.
    pub open spec fn is_refused_with(&self, error: SharedOperatorError) -> bool {
        if all_regions_valid(self.resources@) {
            &&& error matches SharedOperatorError::InvalidSynchronization(reason)
            &&& reason@ == "external synchronization handle must be non-zero"@
        } else {
            &&& error matches SharedOperatorError::InvalidResource(reason)
            &&& exists|i: int| #[trigger]
                is_first_bad_region(self.resources@, i) && reason@ == self.resources@[i].complaint()
        }
    }

    pub fn validate(&self) -> (r: Result<(), SharedOperatorError>)
        ensures
            match r {
                Ok(_) => self.is_valid(),
                Err(error) => !self.is_valid() && self.is_refused_with(error),
            },
    {
        let mut i: usize = 0;
        while i < self.resources.len()
            invariant
                i <= self.resources@.len(),
                forall|j: int|
                    #![trigger self.resources@[j]]
                    0 <= j < i ==> self.resources@[j].is_valid(),
            decreases self.resources@.len() - i,
        {
            match self.resources[i].validate() {
                Ok(_) => {},
                Err(error) => {
                    assert(is_first_bad_region(self.resources@, i as int));
                    return Err(error);
                },
            }
            i = i + 1;
        }
        match validate_points(self.waits) {
            Ok(_) => validate_points(self.signals),
            Err(error) => Err(error),
        }
    }
}

#[derive(Debug, Clone, PartialEq, Eq)]
pub struct SharedOperatorOutput {
    /// A small receipt. What was computed stays in the shared resources.
    pub receipt: Vec<u8>,
}

#[derive(Debug, PartialEq, Eq)]
pub enum SharedOperatorError {
    Unavailable(String),
    Execution(String),
    InvalidResource(String),
    InvalidSynchronization(String),
    NoCompatibleOperator(OperatorKind),
}

impl SharedOperatorError {
    /// The text of the error.
    pub open spec fn text(&self) -> Seq<char> {
        match self {
            SharedOperatorError::Unavailable(value) => "shared operator is unavailable: "@ + value@,
            SharedOperatorError::Execution(value) => "shared operator execution failed: "@ + value@,
            SharedOperatorError::InvalidResource(value) => "invalid shared resource: "@ + value@,
            SharedOperatorError::InvalidSynchronization(value) => {
                "invalid external synchronization point: "@ + value@
            },
            SharedOperatorError::NoCompatibleOperator(value) => {
                "no compatible shared operator registered for "@ + value.label()
            },
        }
    }

    pub fn message(&self) -> (r: String)
        ensures
            r@ == self.text(),
    {
        match self {
            SharedOperatorError::Unavailable(value) => {
                let mut r = "shared operator is unavailable: ".to_owned();
                r.append(value.as_str());
                r
            },
            SharedOperatorError::Execution(value) => {
                let mut r = "shared operator execution failed: ".to_owned();
                r.append(value.as_str());
                r
            },
            SharedOperatorError::InvalidResource(value) => {
                let mut r = "invalid shared resource: ".to_owned();
                r.append(value.as_str());
                r
            },
            SharedOperatorError::InvalidSynchronization(value) => {
                let mut r = "invalid external synchronization point: ".to_owned();
                r.append(value.as_str());
                r
            },
            SharedOperatorError::NoCompatibleOperator(value) => {
                let mut r = "no compatible shared operator registered for ".to_owned();
                r.append(value.name());
                r
            },
        }
    }
}

/// An operator on shared resources.
pub trait SharedOperator: Send + Sync {
    fn name(&self) -> &str;

    fn capabilities(&self) -> SharedOperatorCapabilities;

    fn execute_shared(&self, invocation: SharedOperatorInvocation<'_>) -> Result<
        SharedOperatorOutput,
        SharedOperatorError,
    >;
}

/// A rule by which one of several shared operators is selected.
pub trait SharedOperatorSelectionPolicy<O: SharedOperator + ?Sized>: Send + Sync {
    fn select(
        &self,
        request: &SharedOperatorRequest,
        invocation: &SharedOperatorInvocation<'_>,
        candidates: &[Arc<O>],
    ) -> Option<Arc<O>>;
}

/// Whether an operator takes every kind of point.
pub open spec fn takes_points(
    capabilities: SharedOperatorCapabilities,
    points: Seq<SharedSyncPoint>,
) -> bool {
    forall|i: int|
        #![trigger points[i]]
        0 <= i < points.len() ==> capabilities.sync_kinds@.contains(points[i].handle_kind)
}

/// Whether an operator takes every kind of region.
pub open spec fn takes_regions(
    capabilities: SharedOperatorCapabilities,
    resources: Seq<SharedResourceRegion>,
) -> bool {
    forall|i: int|
        #![trigger resources[i]]
        0 <= i < resources.len() ==> capabilities.memory_kinds@.contains(resources[i].handle_kind)
}

/// Whether an operator can serve the request on this invocation. What the invocation actually
/// uses counts, not only what the request asks for, and zero-copy is never inferred.
pub open spec fn is_compatible(
    request: SharedOperatorRequest,
    invocation: SharedOperatorInvocation<'_>,
    capabilities: SharedOperatorCapabilities,
) -> bool {
    let uses_points = invocation.waits@.len() > 0 || invocation.signals@.len() > 0;
    &&& capabilities.kind == request.kind
    &&& request.required_memory_kind is Some ==> capabilities.memory_kinds@.contains(
        request.required_memory_kind->0,
    )
    &&& takes_regions(capabilities, invocation.resources@)
    &&& request.requires_synchronization ==> capabilities.supports_external_synchronization
    &&& uses_points ==> capabilities.supports_external_synchronization
    &&& takes_points(capabilities, invocation.waits@)
    &&& takes_points(capabilities, invocation.signals@)
    &&& request.requires_proven_zero_copy ==> capabilities.proven_zero_copy
}

fn lists_memory_kind(
    kinds: &Vec<ExternalMemoryHandleKind>,
    wanted: ExternalMemoryHandleKind,
) -> (r: bool)
    ensures
        r == kinds@.contains(wanted),
{
    let mut i: usize = 0;
    while i < kinds.len()
        invariant
            i <= kinds@.len(),
            forall|j: int| 0 <= j < i ==> kinds@[j] != wanted,
        decreases kinds@.len() - i,
    {
        if kinds[i] == wanted {
            assert(kinds@[i as int] == wanted);
            return true;
        }
        i = i + 1;
    }
    false
}

fn lists_sync_kind(kinds: &Vec<ExternalSyncHandleKind>, wanted: ExternalSyncHandleKind) -> (r: bool)
    ensures
        r == kinds@.contains(wanted),
{
    let mut i: usize = 0;
    while i < kinds.len()
        invariant
            i <= kinds@.len(),
            forall|j: int| 0 <= j < i ==> kinds@[j] != wanted,
        decreases kinds@.len() - i,
    {
        if kinds[i] == wanted {
            assert(kinds@[i as int] == wanted);
            return true;
        }
        i = i + 1;
    }
    false
}

fn accepts_points(capabilities: &SharedOperatorCapabilities, points: &[SharedSyncPoint]) -> (r:
    bool)
    ensures
        r == takes_points(*capabilities, points@),
{
    let mut i: usize = 0;
    while i < points.len()
        invariant
            i <= points@.len(),
            forall|j: int|
                #![trigger points@[j]]
                0 <= j < i ==> capabilities.sync_kinds@.contains(points@[j].handle_kind),
        decreases points@.len() - i,
    {
        if !lists_sync_kind(&capabilities.sync_kinds, points[i].handle_kind) {
            let ghost refused = points@[i as int];
            return false;
        }
        i = i + 1;
    }
    true
}

fn accepts_regions(
    capabilities: &SharedOperatorCapabilities,
    resources: &[SharedResourceRegion],
) -> (r: bool)
    ensures
        r == takes_regions(*capabilities, resources@),
{
    let mut i: usize = 0;
    while i < resources.len()
        invariant
            i <= resources@.len(),
            forall|j: int|
                #![trigger resources@[j]]
                0 <= j < i ==> capabilities.memory_kinds@.contains(resources@[j].handle_kind),
        decreases resources@.len() - i,
    {
        if !lists_memory_kind(&capabilities.memory_kinds, resources[i].handle_kind) {
            let ghost refused = resources@[i as int];
            return false;
        }
        i = i + 1;
    }
    true
}

/// Whether an operator that answers `capabilities` can serve the request.
pub fn can_serve(
    request: &SharedOperatorRequest,
    invocation: &SharedOperatorInvocation<'_>,
    capabilities: &SharedOperatorCapabilities,
) -> (r: bool)
    ensures
        r == is_compatible(*request, *invocation, *capabilities),
{
    let uses_points: bool = invocation.waits.len() > 0 || invocation.signals.len() > 0;
    let has_memory_kind: bool = match request.required_memory_kind {
        Some(kind) => lists_memory_kind(&capabilities.memory_kinds, kind),
        None => true,
    };
    capabilities.kind == request.kind && has_memory_kind && accepts_regions(
        capabilities,
        invocation.resources,
    ) && (!request.requires_synchronization || capabilities.supports_external_synchronization) && (
    !uses_points || capabilities.supports_external_synchronization) && accepts_points(
        capabilities,
        invocation.waits,
    ) && accepts_points(capabilities, invocation.signals) && (!request.requires_proven_zero_copy
        || capabilities.proven_zero_copy)
}

/// Whether candidate `i` is compatible and on the preferred backend.
pub open spec fn is_preferred(
    request: SharedOperatorRequest,
    invocation: SharedOperatorInvocation<'_>,
    capabilities: Seq<SharedOperatorCapabilities>,
    i: int,
) -> bool {
    &&& 0 <= i < capabilities.len()
    &&& is_compatible(request, invocation, capabilities[i])
    &&& request.preferred_backend == Some(capabilities[i].backend)
}

/// Whether candidate `i` is the first compatible one on the preferred backend or, where there is
/// none, the first compatible one.
pub open spec fn is_first_choice(
    request: SharedOperatorRequest,
    invocation: SharedOperatorInvocation<'_>,
    capabilities: Seq<SharedOperatorCapabilities>,
    i: int,
) -> bool {
    &&& 0 <= i < capabilities.len()
    &&& is_compatible(request, invocation, capabilities[i])
    &&& if exists|j: int| is_preferred(request, invocation, capabilities, j) {
        &&& is_preferred(request, invocation, capabilities, i)
        &&& forall|j: int| 0 <= j < i ==> !is_preferred(request, invocation, capabilities, j)
    } else {
        forall|j: int|
            #![trigger capabilities[j]]
            0 <= j < i ==> !is_compatible(request, invocation, capabilities[j])
    }
}

/// Selects the first compatible operator on the preferred backend or, where there is none, the
/// first compatible one in the order of registration.
#[derive(Debug)]
pub struct FirstCompatibleShared;

impl Default for FirstCompatibleShared {
    fn default() -> (r: Self)
        ensures
            r == FirstCompatibleShared,
    {
        FirstCompatibleShared
    }
}

/// Whether `capabilities` can be what the operators say of themselves.
pub open spec fn can_declare<O: SharedOperator + ?Sized>(
    operators: Seq<Arc<O>>,
    capabilities: Seq<SharedOperatorCapabilities>,
) -> bool {
    &&& capabilities.len() == operators.len()
    &&& forall|i: int|
        #![trigger capabilities[i]]
        0 <= i < capabilities.len() ==> can_answer(operators[i], capabilities[i])
}

/// Whether an operator that is asked for its capabilities can answer `capabilities`. It is asked
/// anew each time, and may answer anew.
pub open spec fn can_answer<O: SharedOperator + ?Sized>(
    operator: Arc<O>,
    capabilities: SharedOperatorCapabilities,
) -> bool {
    call_ensures(O::capabilities, (&*operator,), capabilities)
}

/// Whether an operator can be found compatible or, where `compatible` is false, incompatible.
pub open spec fn can_be_found<O: SharedOperator + ?Sized>(
    request: SharedOperatorRequest,
    invocation: SharedOperatorInvocation<'_>,
    operator: Arc<O>,
    compatible: bool,
) -> bool {
    exists|asked: SharedOperatorCapabilities| #[trigger]
        can_answer(operator, asked) && is_compatible(request, invocation, asked) == compatible
}

/// Whether an operator can answer that it is on `backend` or, where `there` is false, on another.
pub open spec fn can_be_placed<O: SharedOperator + ?Sized>(
    backend: BackendKind,
    operator: Arc<O>,
    there: bool,
) -> bool {
    exists|asked: SharedOperatorCapabilities| #[trigger]
        can_answer(operator, asked) && (asked.backend == backend) == there
}

/// Whether candidate `i` can be the first that is found compatible and on `backend`.
pub open spec fn can_be_first_on<O: SharedOperator + ?Sized>(
    request: SharedOperatorRequest,
    invocation: SharedOperatorInvocation<'_>,
    backend: BackendKind,
    candidates: Seq<Arc<O>>,
    i: int,
) -> bool {
    &&& can_be_found(request, invocation, candidates[i], true)
    &&& can_be_placed(backend, candidates[i], true)
    &&& can_pass_over_on(request, invocation, backend, candidates, i)
}

/// Whether each of the first `n` candidates can be found incompatible or on another backend.
pub open spec fn can_pass_over_on<O: SharedOperator + ?Sized>(
    request: SharedOperatorRequest,
    invocation: SharedOperatorInvocation<'_>,
    backend: BackendKind,
    candidates: Seq<Arc<O>>,
    n: int,
) -> bool {
    forall|j: int|
        #![trigger candidates[j]]
        0 <= j < n ==> can_be_found(request, invocation, candidates[j], false) || (can_be_found(
            request,
            invocation,
            candidates[j],
            true,
        ) && can_be_placed(backend, candidates[j], false))
}

/// Whether each of the first `n` candidates can be found incompatible.
pub open spec fn can_pass_over<O: SharedOperator + ?Sized>(
    request: SharedOperatorRequest,
    invocation: SharedOperatorInvocation<'_>,
    candidates: Seq<Arc<O>>,
    n: int,
) -> bool {
    forall|j: int|
        #![trigger candidates[j]]
        0 <= j < n ==> can_be_found(request, invocation, candidates[j], false)
}

/// Whether the search for the preferred backend can end without a candidate.
pub open spec fn can_lack_preferred<O: SharedOperator + ?Sized>(
    request: SharedOperatorRequest,
    invocation: SharedOperatorInvocation<'_>,
    candidates: Seq<Arc<O>>,
) -> bool {
    match request.preferred_backend {
        Some(backend) => can_pass_over_on(
            request,
            invocation,
            backend,
            candidates,
            candidates.len() as int,
        ),
        None => true,
    }
}

/// Whether candidate `i` can be selected: as the first on the preferred backend or, where none was
/// found there, as the first that is compatible when all are asked again.
pub open spec fn can_be_selected<O: SharedOperator + ?Sized>(
    request: SharedOperatorRequest,
    invocation: SharedOperatorInvocation<'_>,
    candidates: Seq<Arc<O>>,
    i: int,
) -> bool {
    &&& 0 <= i < candidates.len()
    &&& {
        ||| request.preferred_backend is Some && can_be_first_on(
            request,
            invocation,
            request.preferred_backend->0,
            candidates,
            i,
        )
        ||| can_lack_preferred(request, invocation, candidates) && can_be_found(
            request,
            invocation,
            candidates[i],
            true,
        ) && can_pass_over(request, invocation, candidates, i)
    }
}

/// The first candidate that is found compatible and then on `backend`.
fn first_on<O: SharedOperator + ?Sized>(
    request: &SharedOperatorRequest,
    invocation: &SharedOperatorInvocation<'_>,
    backend: BackendKind,
    candidates: &[Arc<O>],
) -> (r: Option<usize>)
    ensures
        match r {
            Some(i) => i < candidates@.len() && can_be_first_on(
                *request,
                *invocation,
                backend,
                candidates@,
                i as int,
            ),
            None => can_pass_over_on(
                *request,
                *invocation,
                backend,
                candidates@,
                candidates@.len() as int,
            ),
        },
{
    let mut i: usize = 0;
    while i < candidates.len()
        invariant
            i <= candidates@.len(),
            can_pass_over_on(*request, *invocation, backend, candidates@, i as int),
        decreases candidates@.len() - i,
    {
        let asked = candidates[i].capabilities();
        assert(can_answer(candidates@[i as int], asked));
        if can_serve(request, invocation, &asked) {
            let named = candidates[i].capabilities();
            assert(can_answer(candidates@[i as int], named));
            if named.backend == backend {
                return Some(i);
            }
        }
        i = i + 1;
    }
    None
}

/// The first candidate that is found compatible.
fn first_compatible<O: SharedOperator + ?Sized>(
    request: &SharedOperatorRequest,
    invocation: &SharedOperatorInvocation<'_>,
    candidates: &[Arc<O>],
) -> (r: Option<usize>)
    ensures
        match r {
            Some(i) => {
                &&& i < candidates@.len()
                &&& can_be_found(*request, *invocation, candidates@[i as int], true)
                &&& can_pass_over(*request, *invocation, candidates@, i as int)
            },
            None => can_pass_over(*request, *invocation, candidates@, candidates@.len() as int),
        },
{
    let mut i: usize = 0;
    while i < candidates.len()
        invariant
            i <= candidates@.len(),
            can_pass_over(*request, *invocation, candidates@, i as int),
        decreases candidates@.len() - i,
    {
        let asked = candidates[i].capabilities();
        assert(can_answer(candidates@[i as int], asked));
        if can_serve(request, invocation, &asked) {
            return Some(i);
        }
        i = i + 1;
    }
    None
}

impl<O: SharedOperator + ?Sized> SharedOperatorSelectionPolicy<O> for FirstCompatibleShared {
    fn select(
        &self,
        request: &SharedOperatorRequest,
        invocation: &SharedOperatorInvocation<'_>,
        candidates: &[Arc<O>],
    ) -> (r: Option<Arc<O>>)
        ensures
            match r {
                Some(operator) => exists|i: int| #[trigger]
                    can_be_selected(*request, *invocation, candidates@, i) && operator
                        == candidates@[i],
                None => {
                    &&& can_lack_preferred(*request, *invocation, candidates@)
                    &&& can_pass_over(*request, *invocation, candidates@, candidates@.len() as int)
                },
            },
    {
        match request.preferred_backend {
            Some(backend) => {
                match first_on(request, invocation, backend, candidates) {
                    Some(i) => {
                        assert(can_be_selected(*request, *invocation, candidates@, i as int));
                        return Some(candidates[i].clone());
                    },
                    None => {},
                }
            },
            None => {},
        }
        match first_compatible(request, invocation, candidates) {
            Some(i) => {
                assert(can_be_selected(*request, *invocation, candidates@, i as int));
                Some(candidates[i].clone())
            },
            None => None,
        }
    }
}

/// The registered operators by their kind, each kind in the order of registration.
pub struct SharedOperatorRegistry<
    O: SharedOperator + ?Sized,
    P: SharedOperatorSelectionPolicy<O> + ?Sized,
> {
    operators: OrderedMap<OperatorKind, Vec<Arc<O>>>,
    policy: Arc<P>,
}

impl<O: SharedOperator + ?Sized, P: SharedOperatorSelectionPolicy<O> + ?Sized> SharedOperatorRegistry<
    O,
    P,
> {
    pub closed spec fn entries(&self) -> Seq<(OperatorKind, Vec<Arc<O>>)> {
        self.operators@
    }

    pub closed spec fn policy(&self) -> Arc<P> {
        self.policy
    }

    /// Each kind stands once, and only where it has an operator.
    pub open spec fn wf(&self) -> bool {
        &&& ordered_map::keys_increase(self.entries())
        &&& forall|i: int|
            #![trigger self.entries()[i]]
            0 <= i < self.entries().len() ==> self.entries()[i].1@.len() > 0
    }

    /// The operators of a kind, in the order of registration.
    pub open spec fn registered(&self, kind: OperatorKind) -> Seq<Arc<O>> {
        match ordered_map::value_of(self.entries(), kind) {
            Some(operators) => operators@,
            None => Seq::empty(),
        }
    }

    #[must_use]
    pub fn new(policy: Arc<P>) -> (r: Self)
        ensures
            r.wf(),
            r.entries().len() == 0,
            ordered_map::item_count(r.entries()) == 0,
            r.policy() == policy,
    {
        SharedOperatorRegistry { operators: OrderedMap::new(), policy }
    }

    /// Registers `operator` behind the others of `kind`.
    pub fn register_as(&mut self, kind: OperatorKind, operator: Arc<O>)
        requires
            old(self).wf(),
        ensures
            final(self).wf(),
            final(self).policy() == old(self).policy(),
            final(self).registered(kind) == old(self).registered(kind).push(operator),
            ordered_map::item_count(final(self).entries()) == ordered_map::item_count(
                old(self).entries(),
            ) + 1,
            forall|other: OperatorKind|
                #![trigger final(self).registered(other)]
                other != kind ==> final(self).registered(other) == old(self).registered(other),
    {
        let ghost before = self.entries();
        match self.operators.find(&kind) {
            Some(i) => {
                let operators = self.operators.value_at_mut(i);
                operators.push(operator);
                proof {
                    let now = self.entries()[i as int].1;
                    let key = before[i as int].0;
                    assert(self.entries() == before.update(i as int, (key, now)));
                    ordered_map::lemma_position(before, i as int);
                    ordered_map::lemma_update(before, i as int, now);
                    ordered_map::lemma_count_of_update(before, i as int, (key, now));
                    assert forall|other: OperatorKind| #[trigger]
                        self.registered(other) == if other == kind {
                            old(self).registered(kind).push(operator)
                        } else {
                            old(self).registered(other)
                        } by {
                        ordered_map::insertion_changes_one_key(
                            before,
                            key,
                            now,
                            self.entries(),
                            other,
                        );
                    }
                    assert(self.registered(kind) == old(self).registered(kind).push(operator));
                }
            },
            None => {
                let mut operators: Vec<Arc<O>> = Vec::new();
                operators.push(operator);
                self.operators.insert(kind, operators);
                proof {
                    assert(operators@ =~= Seq::<Arc<O>>::empty().push(operator));
                    assert forall|other: OperatorKind| #[trigger]
                        self.registered(other) == if other == kind {
                            old(self).registered(kind).push(operator)
                        } else {
                            old(self).registered(other)
                        } by {
                        ordered_map::insertion_changes_one_key(
                            before,
                            kind,
                            operators,
                            self.entries(),
                            other,
                        );
                    }
                    assert(self.registered(kind) == old(self).registered(kind).push(operator));
                    let k = choose|k: int|
                        0 <= k <= before.len() && self.entries() == #[trigger] before.insert(
                            k,
                            (kind, operators),
                        );
                    ordered_map::lemma_count_of_insert(before, k, (kind, operators));
                    assert forall|i: int|
                        #![trigger self.entries()[i]]
                        0 <= i < self.entries().len() implies self.entries()[i].1@.len() > 0 by {
                        if i != k {
                            assert(self.entries()[i] == before[if i < k { i } else { i - 1 }]);
                        }
                    }
                }
            },
        }
    }

    /// Registers an operator under the kind that it declares.
    pub fn register(&mut self, operator: Arc<O>)
        requires
            old(self).wf(),
        ensures
            final(self).wf(),
            final(self).policy() == old(self).policy(),
            ordered_map::item_count(final(self).entries()) == ordered_map::item_count(
                old(self).entries(),
            ) + 1,
            exists|capabilities: SharedOperatorCapabilities|
                {
                    let kind = capabilities.kind;
                    &&& #[trigger] call_ensures(O::capabilities, (&*operator,), capabilities)
                    &&& final(self).registered(kind) == old(self).registered(kind).push(operator)
                    &&& forall|other: OperatorKind|
                        #![trigger final(self).registered(other)]
                        other != kind ==> final(self).registered(other) == old(self).registered(
                            other,
                        )
                },
    {
        let capabilities = operator.capabilities();
        self.register_as(capabilities.kind, operator);
        assert(call_ensures(O::capabilities, (&*operator,), capabilities));
    }

    /// Checks the invocation, lets the policy select one of the operators of the requested kind
    /// and runs it. An invalid invocation reaches no policy and no operator.
    pub fn execute(
        &self,
        request: &SharedOperatorRequest,
        invocation: SharedOperatorInvocation<'_>,
    ) -> (r: Result<SharedOperatorOutput, SharedOperatorError>)
        requires
            self.wf(),
        ensures
            !invocation.is_valid() ==> (r matches Err(error) && invocation.is_refused_with(error)),
            invocation.is_valid() ==> exists|candidates: &[Arc<O>], selected: Option<Arc<O>>|
                {
                    &&& candidates@ == self.registered(request.kind)
                    &&& #[trigger] call_ensures(
                        P::select,
                        (&*self.policy(), request, &invocation, candidates),
                        selected,
                    )
                    &&& match selected {
                        Some(operator) => call_ensures(
                            O::execute_shared,
                            (&*operator, invocation),
                            r,
                        ),
                        None => r == Err::<SharedOperatorOutput, _>(
                            SharedOperatorError::NoCompatibleOperator(request.kind),
                        ),
                    }
                },
    {
        match invocation.validate() {
            Ok(_) => {},
            Err(error) => {
                return Err(error);
            },
        }
        let nothing: Vec<Arc<O>> = Vec::new();
        let candidates: &[Arc<O>] = match self.operators.get(&request.kind) {
            Some(operators) => operators.as_slice(),
            None => nothing.as_slice(),
        };
        assert(candidates@ =~= self.registered(request.kind));
        let selected = self.policy.select(request, &invocation, candidates);
        assert(call_ensures(
            P::select,
            (&*self.policy(), request, &invocation, candidates),
            selected,
        ));
        match selected {
            Some(operator) => operator.execute_shared(invocation),
            None => Err(SharedOperatorError::NoCompatibleOperator(request.kind)),
        }
    }

    #[must_use]
    pub fn len(&self) -> (r: usize)
        requires
            ordered_map::item_count(self.entries()) <= usize::MAX,
        ensures
            r == ordered_map::item_count(self.entries()),
    {
        let mut count: usize = 0;
        let mut i: usize = 0;
        while i < self.operators.len()
            invariant
                i <= self.entries().len(),
                self.entries() == self.operators@,
                count == ordered_map::item_count(self.entries().take(i as int)),
                ordered_map::item_count(self.entries()) <= usize::MAX,
            decreases self.entries().len() - i,
        {
            proof {
                ordered_map::lemma_count_of_prefix(self.entries(), i + 1);
                assert(self.entries().take(i + 1).drop_last() =~= self.entries().take(i as int));
            }
            count = count + self.operators.value_at(i).len();
            i = i + 1;
        }
        assert(self.entries().take(i as int) =~= self.entries());
        count
    }

    #[must_use]
    pub fn is_empty(&self) -> (r: bool)
        ensures
            r == (self.entries().len() == 0),
    {
        self.operators.len() == 0
    }
}

/// A registry is empty where it holds no operator, and nowhere else.
pub proof fn empty_means_no_operators<
    O: SharedOperator + ?Sized,
    P: SharedOperatorSelectionPolicy<O> + ?Sized,
>(registry: SharedOperatorRegistry<O, P>)
    requires
        registry.wf(),
    ensures
        registry.entries().len() == 0 <==> ordered_map::item_count(registry.entries()) == 0,
{
    let entries = registry.entries();
    if entries.len() > 0 {
        assert(entries[entries.len() - 1].1@.len() > 0);
    }
}

/// Whether each operator answers the same whenever it is asked: its own among `capabilities`.
pub open spec fn are_settled<O: SharedOperator + ?Sized>(
    operators: Seq<Arc<O>>,
    capabilities: Seq<SharedOperatorCapabilities>,
) -> bool {
    &&& capabilities.len() == operators.len()
    &&& forall|i: int, answer: SharedOperatorCapabilities|
        #![trigger can_answer(operators[i], answer)]
        0 <= i < operators.len() && can_answer(operators[i], answer) ==> {
            &&& capabilities[i].kind == answer.kind
            &&& capabilities[i].backend == answer.backend
            &&& capabilities[i].memory_kinds@ == answer.memory_kinds@
            &&& capabilities[i].sync_kinds@ == answer.sync_kinds@
            &&& capabilities[i].supports_external_synchronization
                == answer.supports_external_synchronization
            &&& capabilities[i].proven_zero_copy == answer.proven_zero_copy
        }
}

/// A settled operator is found to be what it declares.
proof fn lemma_settled<O: SharedOperator + ?Sized>(
    request: SharedOperatorRequest,
    invocation: SharedOperatorInvocation<'_>,
    candidates: Seq<Arc<O>>,
    capabilities: Seq<SharedOperatorCapabilities>,
    j: int,
)
    requires
        are_settled(candidates, capabilities),
        0 <= j < candidates.len(),
    ensures
        forall|wanted: bool| #[trigger]
            can_be_found(request, invocation, candidates[j], wanted) ==> is_compatible(
                request,
                invocation,
                capabilities[j],
            ) == wanted,
        forall|backend: BackendKind, there: bool| #[trigger]
            can_be_placed(backend, candidates[j], there) ==> (capabilities[j].backend == backend)
                == there,
{
}

/// Operators that do not change their answers are selected by them: the first compatible one on
/// the preferred backend or, where there is none, the first compatible one.
pub proof fn settled_operators_are_selected_by_their_capabilities<O: SharedOperator + ?Sized>(
    request: SharedOperatorRequest,
    invocation: SharedOperatorInvocation<'_>,
    candidates: Seq<Arc<O>>,
    capabilities: Seq<SharedOperatorCapabilities>,
    i: int,
)
    requires
        are_settled(candidates, capabilities),
        can_be_selected(request, invocation, candidates, i),
    ensures
        is_first_choice(request, invocation, capabilities, i),
{
    lemma_settled(request, invocation, candidates, capabilities, i);
    assert forall|j: int|
        #![trigger capabilities[j]]
        0 <= j < i && can_pass_over(request, invocation, candidates, i) implies !is_compatible(
        request,
        invocation,
        capabilities[j],
    ) by {
        lemma_settled(request, invocation, candidates, capabilities, j);
        assert(can_be_found(request, invocation, candidates[j], false));
    }
    let on_preferred = request.preferred_backend is Some && can_be_first_on(
        request,
        invocation,
        request.preferred_backend->0,
        candidates,
        i,
    );
    let n = if on_preferred {
        i
    } else {
        candidates.len() as int
    };
    assert forall|j: int|
        0 <= j < n implies !is_preferred(request, invocation, capabilities, j) by {
        lemma_settled(request, invocation, candidates, capabilities, j);
        let candidate = candidates[j];
    }
    if on_preferred {
        assert(is_preferred(request, invocation, capabilities, i));
    } else {
        assert forall|j: int| !is_preferred(request, invocation, capabilities, j) by {
            if 0 <= j < n {
                assert(!is_preferred(request, invocation, capabilities, j));
            }
        }
    }
}

/// Operators that do not change their answers are refused only where none is compatible.
pub proof fn settled_operators_are_refused_by_their_capabilities<O: SharedOperator + ?Sized>(
    request: SharedOperatorRequest,
    invocation: SharedOperatorInvocation<'_>,
    candidates: Seq<Arc<O>>,
    capabilities: Seq<SharedOperatorCapabilities>,
    i: int,
)
    requires
        are_settled(candidates, capabilities),
        can_pass_over(request, invocation, candidates, candidates.len() as int),
        0 <= i < candidates.len(),
    ensures
        !is_compatible(request, invocation, capabilities[i]),
{
    lemma_settled(request, invocation, candidates, capabilities, i);
    let candidate = candidates[i];
}

/// What is selected has answered that it takes every region and every point that is actually
/// used, and that it is proven zero-copy where that is required.
pub proof fn a_choice_meets_request_and_invocation<O: SharedOperator + ?Sized>(
    request: SharedOperatorRequest,
    invocation: SharedOperatorInvocation<'_>,
    candidates: Seq<Arc<O>>,
    i: int,
)
    requires
        can_be_selected(request, invocation, candidates, i),
    ensures
        exists|asked: SharedOperatorCapabilities|
            {
                &&& #[trigger] can_answer(candidates[i], asked)
                &&& asked.kind == request.kind
                &&& takes_regions(asked, invocation.resources@)
                &&& takes_points(asked, invocation.waits@)
                &&& takes_points(asked, invocation.signals@)
                &&& request.requires_proven_zero_copy ==> asked.proven_zero_copy
            },
{
}

/// An operator that is registered later displaces no earlier one, unless it alone is on the
/// preferred backend.
pub proof fn later_operators_do_not_displace_earlier_ones(
    request: SharedOperatorRequest,
    invocation: SharedOperatorInvocation<'_>,
    capabilities: Seq<SharedOperatorCapabilities>,
    later: SharedOperatorCapabilities,
    i: int,
)
    requires
        is_first_choice(request, invocation, capabilities, i),
    ensures
        is_first_choice(request, invocation, capabilities.push(later), i) || (is_first_choice(
            request,
            invocation,
            capabilities.push(later),
            capabilities.len() as int,
        ) && request.preferred_backend == Some(later.backend)
            && request.preferred_backend != Some(capabilities[i].backend)),
{
    let more = capabilities.push(later);
    let n = capabilities.len() as int;
    assert forall|j: int| 0 <= j < n implies is_preferred(request, invocation, more, j)
        == is_preferred(request, invocation, capabilities, j) by {
        assert(more[j] == capabilities[j]);
    }
    assert(more[i] == capabilities[i]);
    if exists|j: int| is_preferred(request, invocation, capabilities, j) {
        let j = choose|j: int| is_preferred(request, invocation, capabilities, j);
        assert(is_preferred(request, invocation, more, j));
    } else if is_preferred(request, invocation, more, n) {
        assert forall|j: int| 0 <= j < n implies !is_preferred(request, invocation, more, j) by {
            assert(!is_preferred(request, invocation, capabilities, j));
        }
        assert(!is_preferred(request, invocation, capabilities, i));
    } else {
        assert forall|j: int| !is_preferred(request, invocation, more, j) by {
            if 0 <= j < n {
                assert(!is_preferred(request, invocation, capabilities, j));
            }
        }
        assert forall|j: int| #![trigger more[j]] 0 <= j < i implies !is_compatible(
            request,
            invocation,
            more[j],
        ) by {
            assert(more[j] == capabilities[j]);
        }
    }
}

/// A shared operator can serve a request on an invocation if and only if it is of its kind, takes
/// the memory that the request requires and that of every region, has synchronization where the
/// request requires it or a point is used, takes the kind of every point to wait for or to signal,
/// and is proven zero-copy where that is required. The backend refuses nothing.
pub proof fn what_a_shared_operator_must_be(
    request: SharedOperatorRequest,
    invocation: SharedOperatorInvocation<'_>,
    capabilities: SharedOperatorCapabilities,
)
    ensures
        is_compatible(request, invocation, capabilities) <==> {
            &&& capabilities.kind == request.kind
            &&& request.required_memory_kind matches Some(wanted)
                ==> capabilities.memory_kinds@.contains(wanted)
            &&& forall|i: int|
                #![trigger invocation.resources@[i]]
                0 <= i < invocation.resources@.len() ==> capabilities.memory_kinds@.contains(
                    invocation.resources@[i].handle_kind,
                )
            &&& request.requires_synchronization || invocation.waits@.len() > 0
                || invocation.signals@.len() > 0
                ==> capabilities.supports_external_synchronization
            &&& forall|i: int|
                #![trigger invocation.waits@[i]]
                0 <= i < invocation.waits@.len() ==> capabilities.sync_kinds@.contains(
                    invocation.waits@[i].handle_kind,
                )
            &&& forall|i: int|
                #![trigger invocation.signals@[i]]
                0 <= i < invocation.signals@.len() ==> capabilities.sync_kinds@.contains(
                    invocation.signals@[i].handle_kind,
                )
            &&& request.requires_proven_zero_copy ==> capabilities.proven_zero_copy
        },
{
}

/// Operators that do not change their answers: the one that is selected can serve, and no other
/// one that can comes before it, unless the selected one is on the preferred backend and the other
/// is not; and no other one that can and is on the preferred backend is passed over for one that
/// is not on it.
pub proof fn the_selected_operator_by_its_backend<O: SharedOperator + ?Sized>(
    request: SharedOperatorRequest,
    invocation: SharedOperatorInvocation<'_>,
    candidates: Seq<Arc<O>>,
    capabilities: Seq<SharedOperatorCapabilities>,
    i: int,
    j: int,
)
    requires
        are_settled(candidates, capabilities),
        can_be_selected(request, invocation, candidates, i),
        0 <= j < candidates.len(),
        is_compatible(request, invocation, capabilities[j]),
    ensures
        0 <= i < candidates.len(),
        is_compatible(request, invocation, capabilities[i]),
        request.preferred_backend is None ==> i <= j,
        request.preferred_backend is Some ==> {
            let wanted = request.preferred_backend->0;
            &&& capabilities[j].backend == wanted ==> capabilities[i].backend == wanted && i <= j
            &&& capabilities[j].backend != wanted && capabilities[i].backend != wanted ==> i <= j
        },
{
    settled_operators_are_selected_by_their_capabilities(
        request,
        invocation,
        candidates,
        capabilities,
        i,
    );
    let other = capabilities[j];
    if request.preferred_backend == Some(other.backend) {
        assert(is_preferred(request, invocation, capabilities, j));
    }
    if exists|l: int| is_preferred(request, invocation, capabilities, l) {
        assert(is_preferred(request, invocation, capabilities, i));
        if j < i {
            assert(!is_preferred(request, invocation, capabilities, j));
        }
    }
}

/// An invocation is valid if and only if every region has a handle and a length and lies inside an
/// allocation, and every point has a handle.
pub proof fn a_valid_invocation_by_its_fields(invocation: SharedOperatorInvocation<'_>)
    ensures
        invocation.is_valid() <==> {
            &&& forall|i: int|
                #![trigger invocation.resources@[i]]
                0 <= i < invocation.resources@.len() ==> {
                    let region = invocation.resources@[i];
                    &&& region.handle != 0
                    &&& region.allocation_size > 0
                    &&& region.length > 0
                    &&& region.offset + region.length <= region.allocation_size
                }
            &&& forall|i: int|
                #![trigger invocation.waits@[i]]
                0 <= i < invocation.waits@.len() ==> invocation.waits@[i].handle != 0
            &&& forall|i: int|
                #![trigger invocation.signals@[i]]
                0 <= i < invocation.signals@.len() ==> invocation.signals@[i].handle != 0
        },
{
    assert forall|i: int|
        #![trigger invocation.resources@[i]]
        0 <= i < invocation.resources@.len() implies invocation.resources@[i].is_valid() == ({
        let region = invocation.resources@[i];
        &&& region.handle != 0
        &&& region.allocation_size > 0
        &&& region.length > 0
        &&& region.offset + region.length <= region.allocation_size
    }) by {}
    if invocation.is_valid() {
        assert(all_points_valid(invocation.waits@) && all_points_valid(invocation.signals@));
    }
}

/// A refused invocation is refused for its memory where a region is bad, and for its points only
/// where no region is.
pub proof fn memory_is_refused_before_points(
    invocation: SharedOperatorInvocation<'_>,
    error: SharedOperatorError,
    i: int,
)
    requires
        invocation.is_refused_with(error),
        0 <= i < invocation.resources@.len(),
        ({
            let region = invocation.resources@[i];
            region.handle == 0 || region.allocation_size == 0 || region.length == 0
                || region.offset + region.length > region.allocation_size
        }),
    ensures
        error is InvalidResource,
{
    assert(!invocation.resources@[i].is_valid());
}

} // verus!
