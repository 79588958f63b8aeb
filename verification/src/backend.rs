//! Backends, what they can do and what a request asks of them.

use crate::ordered_map::OrderedKey;
use crate::text;
use vstd::prelude::*;
use vstd::string::*;

verus! {

/// The name of a backend: text that is not empty and has no white space around it.
#[derive(Debug, PartialEq, Eq, PartialOrd, Ord, Hash)]
pub struct BackendId(String);

impl View for BackendId {
    type V = Seq<char>;

    closed spec fn view(&self) -> Seq<char> {
        self.0@
    }
}

impl Clone for BackendId {
    fn clone(&self) -> (r: Self)
        ensures
            r == *self,
    {
        BackendId(self.0.clone())
    }
}

impl BackendId {
    /// An id for `value` without the white space around it. Fails where nothing is left.
    pub fn new(value: &str) -> (r: Result<Self, RuntimeError>)
        ensures
            match r {
                Ok(id) => id@ == text::trimmed(value@) && text::is_identifier(id@),
                Err(error) => text::trimmed(value@).len() == 0 && error
                    == RuntimeError::InvalidBackendId,
            },
    {
        let trimmed = text::trim(value);
        if trimmed.is_empty() {
            return Err(RuntimeError::InvalidBackendId);
        }
        proof {
            text::trimmed_text_is_an_identifier(value@);
        }
        Ok(BackendId(trimmed.to_owned()))
    }

    /// The id of a name that needs no trimming.
    pub fn of_identifier(value: &str) -> (r: Self)
        requires
            text::is_identifier(value@),
        ensures
            r@ == value@,
    {
        BackendId(value.to_owned())
    }

    pub fn as_str(&self) -> (r: &str)
        ensures
            r@ == self@,
    {
        self.0.as_str()
    }

    /// The id as text.
    pub fn to_string(&self) -> (r: String)
        ensures
            r@ == self@,
    {
        self.0.clone()
    }

    pub fn is_same(&self, other: &Self) -> (r: bool)
        ensures
            r == (self@ == other@),
    {
        text::is_same_text(self.0.as_str(), other.0.as_str())
    }
}

impl OrderedKey for BackendId {
    open spec fn before(a: Seq<char>, b: Seq<char>) -> bool {
        text::text_before(a, b)
    }

    proof fn before_is_asymmetric(a: Seq<char>, b: Seq<char>) {
        text::text_before_is_asymmetric(a, b);
    }

    proof fn before_is_transitive(a: Seq<char>, b: Seq<char>, c: Seq<char>) {
        text::text_before_is_transitive(a, b, c);
    }

    proof fn before_is_total(a: Seq<char>, b: Seq<char>) {
        text::text_before_is_total(a, b);
    }

    fn is_before(&self, other: &Self) -> (r: bool) {
        assert(self@ == self.0@ && other@ == other.0@);
        assert(Self::before(self@, other@) == text::text_before(self.0@, other.0@));
        text::is_text_before(self.0.as_str(), other.0.as_str())
    }
}

#[derive(Debug, Clone, Copy, PartialEq, Eq, Structural)]
pub enum BackendKind {
    Cpu,
    Vulkan,
    Hip,
    Hybrid,
    Plugin,
}

/// The order in which kinds of backends are preferred while nothing is measured: native compute
/// first, then portable, then hybrid and plugin implementations, and the processor last.
pub open spec fn bootstrap_rank_of(kind: BackendKind) -> u8 {
    match kind {
        BackendKind::Hip => 0,
        BackendKind::Vulkan => 1,
        BackendKind::Hybrid => 2,
        BackendKind::Plugin => 3,
        BackendKind::Cpu => 4,
    }
}

pub fn bootstrap_rank(kind: BackendKind) -> (r: u8)
    ensures
        r == bootstrap_rank_of(kind),
{
    match kind {
        BackendKind::Hip => 0,
        BackendKind::Vulkan => 1,
        BackendKind::Hybrid => 2,
        BackendKind::Plugin => 3,
        BackendKind::Cpu => 4,
    }
}

#[derive(Debug, Clone, Copy, PartialEq, Eq, PartialOrd, Ord, Hash, Structural)]
pub enum OperationKind {
    Copy,
    VectorAdd,
    Gemv,
    Gemm,
    Softmax,
    Attention,
    RmsNorm,
    Custom,
}

#[derive(Debug, Clone, Copy, PartialEq, Eq, PartialOrd, Ord, Hash, Structural)]
pub enum DataType {
    F32,
    F16,
    Bf16,
    I8,
    Q4,
    Unknown,
}

/// What a backend can do.
#[derive(Debug, PartialEq, Eq)]
pub struct CapabilitySet {
    pub operations: Vec<OperationKind>,
    pub data_types: Vec<DataType>,
    pub external_memory: bool,
    pub external_semaphore: bool,
    pub zero_copy: bool,
}

/// Whether two capability sets list the same.
pub open spec fn same_capabilities(a: CapabilitySet, b: CapabilitySet) -> bool {
    &&& a.operations@ == b.operations@
    &&& a.data_types@ == b.data_types@
    &&& a.external_memory == b.external_memory
    &&& a.external_semaphore == b.external_semaphore
    &&& a.zero_copy == b.zero_copy
}

impl Clone for CapabilitySet {
    fn clone(&self) -> (r: Self)
        ensures
            same_capabilities(*self, r),
    {
        let operations = self.operations.clone();
        let data_types = self.data_types.clone();
        assert(operations@ =~= self.operations@);
        assert(data_types@ =~= self.data_types@);
        CapabilitySet {
            operations,
            data_types,
            external_memory: self.external_memory,
            external_semaphore: self.external_semaphore,
            zero_copy: self.zero_copy,
        }
    }
}

fn lists_operation(operations: &Vec<OperationKind>, wanted: OperationKind) -> (r: bool)
    ensures
        r == operations@.contains(wanted),
{
    let mut i: usize = 0;
    while i < operations.len()
        invariant
            i <= operations@.len(),
            forall|j: int| 0 <= j < i ==> operations@[j] != wanted,
        decreases operations@.len() - i,
    {
        if operations[i] == wanted {
            assert(operations@[i as int] == wanted);
            return true;
        }
        i = i + 1;
    }
    false
}

fn lists_data_type(data_types: &Vec<DataType>, wanted: DataType) -> (r: bool)
    ensures
        r == data_types@.contains(wanted),
{
    let mut i: usize = 0;
    while i < data_types.len()
        invariant
            i <= data_types@.len(),
            forall|j: int| 0 <= j < i ==> data_types@[j] != wanted,
        decreases data_types@.len() - i,
    {
        if data_types[i] == wanted {
            assert(data_types@[i as int] == wanted);
            return true;
        }
        i = i + 1;
    }
    false
}

impl CapabilitySet {
    /// Whether everything that the request asks for is there.
    pub open spec fn covers(&self, request: RouteRequest) -> bool {
        &&& self.operations@.contains(request.operation)
        &&& self.data_types@.contains(request.data_type)
        &&& request.requires_external_memory ==> self.external_memory
        &&& request.requires_external_semaphore ==> self.external_semaphore
        &&& request.requires_zero_copy ==> self.zero_copy
    }

    pub fn supports(&self, request: &RouteRequest) -> (r: bool)
        ensures
            r == self.covers(*request),
    {
        lists_operation(&self.operations, request.operation) && lists_data_type(
            &self.data_types,
            request.data_type,
        ) && (!request.requires_external_memory || self.external_memory) && (
        !request.requires_external_semaphore || self.external_semaphore) && (
        !request.requires_zero_copy || self.zero_copy)
    }

    /// No capability at all.
    pub open spec fn is_none_at_all(&self) -> bool {
        &&& self.operations@.len() == 0
        &&& self.data_types@.len() == 0
        &&& !self.external_memory
        &&& !self.external_semaphore
        &&& !self.zero_copy
    }

    pub fn none() -> (r: Self)
        ensures
            r.is_none_at_all(),
    {
        CapabilitySet {
            operations: Vec::new(),
            data_types: Vec::new(),
            external_memory: false,
            external_semaphore: false,
            zero_copy: false,
        }
    }
}

/// A request that nothing forbids is still refused where the operation or the data type is not
/// listed: capabilities are never inferred.
pub proof fn no_capabilities_cover_nothing(capabilities: CapabilitySet, request: RouteRequest)
    requires
        capabilities.is_none_at_all(),
    ensures
        !capabilities.covers(request),
{
}

/// Asking for zero-copy only narrows what qualifies.
pub proof fn zero_copy_only_narrows(capabilities: CapabilitySet, request: RouteRequest)
    requires
        capabilities.covers(request.with_zero_copy()),
    ensures
        capabilities.covers(request),
        capabilities.external_memory,
        capabilities.external_semaphore,
        capabilities.zero_copy,
{
}

/// What a backend says of itself.
#[derive(Debug, PartialEq, Eq)]
pub struct BackendProbe {
    pub id: BackendId,
    pub kind: BackendKind,
    pub name: String,
    pub vendor: String,
    pub available: bool,
    pub device_count: u32,
    pub detail: String,
    pub capabilities: CapabilitySet,
}

impl Clone for BackendProbe {
    fn clone(&self) -> (r: Self)
        ensures
            r.id == self.id,
            r.kind == self.kind,
            r.name == self.name,
            r.vendor == self.vendor,
            r.available == self.available,
            r.device_count == self.device_count,
            r.detail == self.detail,
            same_capabilities(self.capabilities, r.capabilities),
    {
        BackendProbe {
            id: self.id.clone(),
            kind: self.kind,
            name: self.name.clone(),
            vendor: self.vendor.clone(),
            available: self.available,
            device_count: self.device_count,
            detail: self.detail.clone(),
            capabilities: self.capabilities.clone(),
        }
    }
}

impl BackendProbe {
    /// Whether the backend is there and can do what the request asks for.
    pub open spec fn is_compatible(&self, request: RouteRequest) -> bool {
        self.available && self.capabilities.covers(request)
    }

    pub fn can_serve(&self, request: &RouteRequest) -> (r: bool)
        ensures
            r == self.is_compatible(*request),
    {
        self.available && self.capabilities.supports(request)
    }
}

/// A source of compute. What it answers may change with the machine.
pub trait ComputeBackend: Send + Sync {
    fn id(&self) -> &BackendId;

    fn kind(&self) -> BackendKind;

    fn probe(&self) -> Result<BackendProbe, BackendError>;
}

#[derive(Debug, PartialEq, Eq)]
pub enum BackendError {
    Unavailable(String),
    Probe(String),
    Unsupported(String),
    Internal(String),
}

impl BackendError {
    /// The text of the error.
    pub open spec fn text(&self) -> Seq<char> {
        match self {
            BackendError::Unavailable(reason) => "backend unavailable: "@ + reason@,
            BackendError::Probe(reason) => "backend probe failed: "@ + reason@,
            BackendError::Unsupported(reason) => "backend operation unsupported: "@ + reason@,
            BackendError::Internal(reason) => "backend internal error: "@ + reason@,
        }
    }

    pub fn message(&self) -> (r: String)
        ensures
            r@ == self.text(),
    {
        let mut r = String::new();
        match self {
            BackendError::Unavailable(reason) => {
                r.append("backend unavailable: ");
                r.append(reason.as_str());
            },
            BackendError::Probe(reason) => {
                r.append("backend probe failed: ");
                r.append(reason.as_str());
            },
            BackendError::Unsupported(reason) => {
                r.append("backend operation unsupported: ");
                r.append(reason.as_str());
            },
            BackendError::Internal(reason) => {
                r.append("backend internal error: ");
                r.append(reason.as_str());
            },
        }
        assert(r@ =~= self.text());
        r
    }
}

#[derive(Debug, PartialEq, Eq)]
pub enum RuntimeError {
    InvalidBackendId,
    DuplicateBackend(BackendId),
    NoCompatibleBackend,
    Routing(String),
}

impl RuntimeError {
    /// The text of the error.
    pub open spec fn text(&self) -> Seq<char> {
        match self {
            RuntimeError::InvalidBackendId => "backend id cannot be empty"@,
            RuntimeError::DuplicateBackend(value) => {
                "backend '"@ + value@ + "' is already registered"@
            },
            RuntimeError::NoCompatibleBackend => "no compatible backend is available"@,
            RuntimeError::Routing(value) => "routing policy failed: "@ + value@,
        }
    }

    pub fn message(&self) -> (r: String)
        ensures
            r@ == self.text(),
    {
        match self {
            RuntimeError::InvalidBackendId => "backend id cannot be empty".to_owned(),
            RuntimeError::DuplicateBackend(value) => {
                let mut r = "backend '".to_owned();
                r.append(value.as_str());
                r.append("' is already registered");
                r
            },
            RuntimeError::NoCompatibleBackend => "no compatible backend is available".to_owned(),
            RuntimeError::Routing(value) => {
                let mut r = "routing policy failed: ".to_owned();
                r.append(value.as_str());
                r
            },
        }
    }
}

/// What is asked of a backend.
#[derive(Debug, Clone, Copy, PartialEq, Eq, Structural)]
pub struct RouteRequest {
    pub operation: OperationKind,
    pub data_type: DataType,
    pub requires_external_memory: bool,
    pub requires_external_semaphore: bool,
    pub requires_zero_copy: bool,
}

impl RouteRequest {
    pub fn new(operation: OperationKind, data_type: DataType) -> (r: Self)
        ensures
            r == (RouteRequest {
                operation,
                data_type,
                requires_external_memory: false,
                requires_external_semaphore: false,
                requires_zero_copy: false,
            }),
    {
        RouteRequest {
            operation,
            data_type,
            requires_external_memory: false,
            requires_external_semaphore: false,
            requires_zero_copy: false,
        }
    }

    /// The request with zero-copy asked for, which needs shared memory and shared semaphores.
    pub open spec fn with_zero_copy(self) -> Self {
        RouteRequest {
            operation: self.operation,
            data_type: self.data_type,
            requires_external_memory: true,
            requires_external_semaphore: true,
            requires_zero_copy: true,
        }
    }

    pub fn zero_copy(self) -> (r: Self)
        ensures
            r == self.with_zero_copy(),
    {
        RouteRequest {
            operation: self.operation,
            data_type: self.data_type,
            requires_external_memory: true,
            requires_external_semaphore: true,
            requires_zero_copy: true,
        }
    }
}

/// The probe that stands for a backend whose own probe failed.
pub open spec fn is_failed_probe(
    id: BackendId,
    kind: BackendKind,
    named: BackendId,
    error: BackendError,
    probe: BackendProbe,
) -> bool {
    &&& probe.id == id
    &&& probe.kind == kind
    &&& probe.name@ == named@
    &&& probe.vendor@ == Seq::<char>::empty()
    &&& !probe.available
    &&& probe.device_count == 0
    &&& probe.detail@ == error.text()
    &&& probe.capabilities.is_none_at_all()
}

/// The probe that stands for a backend whose own probe failed: there, but unavailable, with the
/// error as its detail. It is called by the id that the backend reports when it is asked for it
/// once more.
pub fn failed_probe(
    id: &BackendId,
    kind: BackendKind,
    named: &BackendId,
    error: &BackendError,
) -> (r: BackendProbe)
    ensures
        is_failed_probe(*id, kind, *named, *error, r),
{
    BackendProbe {
        id: id.clone(),
        kind,
        name: named.to_string(),
        vendor: String::new(),
        available: false,
        device_count: 0,
        detail: error.message(),
        capabilities: CapabilitySet::none(),
    }
}

/// A backend that failed to answer serves no request.
pub proof fn a_failed_probe_is_never_compatible(
    id: BackendId,
    kind: BackendKind,
    named: BackendId,
    error: BackendError,
    probe: BackendProbe,
    request: RouteRequest,
)
    requires
        is_failed_probe(id, kind, named, error, probe),
    ensures
        !probe.is_compatible(request),
{
}

/// A probed backend can serve a request if and only if it is available, lists the operation and
/// the data type, and has each of the three things that the request may require.
pub proof fn a_backend_serves_what_it_lists(probe: BackendProbe, request: RouteRequest)
    ensures
        probe.is_compatible(request) <==> {
            &&& probe.available
            &&& exists|i: int|
                #![trigger probe.capabilities.operations@[i]]
                0 <= i < probe.capabilities.operations@.len()
                    && probe.capabilities.operations@[i] == request.operation
            &&& exists|i: int|
                #![trigger probe.capabilities.data_types@[i]]
                0 <= i < probe.capabilities.data_types@.len()
                    && probe.capabilities.data_types@[i] == request.data_type
            &&& !request.requires_external_memory || probe.capabilities.external_memory
            &&& !request.requires_external_semaphore || probe.capabilities.external_semaphore
            &&& !request.requires_zero_copy || probe.capabilities.zero_copy
        },
        probe.capabilities.covers(request) && probe.available <==> probe.is_compatible(request),
{
}

/// While nothing is measured, HIP comes before Vulkan, Vulkan before hybrids, these before plugins,
/// and the processor comes last. The ranks count from zero without a gap.
pub proof fn the_order_of_kinds()
    ensures
        bootstrap_rank_of(BackendKind::Hip) == 0,
        bootstrap_rank_of(BackendKind::Vulkan) == bootstrap_rank_of(BackendKind::Hip) + 1,
        bootstrap_rank_of(BackendKind::Hybrid) == bootstrap_rank_of(BackendKind::Vulkan) + 1,
        bootstrap_rank_of(BackendKind::Plugin) == bootstrap_rank_of(BackendKind::Hybrid) + 1,
        bootstrap_rank_of(BackendKind::Cpu) == bootstrap_rank_of(BackendKind::Plugin) + 1,
        forall|a: BackendKind, b: BackendKind| #[trigger]
            bootstrap_rank_of(a) == #[trigger] bootstrap_rank_of(b) ==> a == b,
{
}

/// Capability sets that list the same have the same operations and data types in the same order
/// and the same three abilities, and cover the same requests.
pub proof fn the_same_capabilities_cover_the_same(
    a: CapabilitySet,
    b: CapabilitySet,
    request: RouteRequest,
)
    requires
        same_capabilities(a, b),
    ensures
        a.operations@ == b.operations@,
        a.data_types@ == b.data_types@,
        a.external_memory == b.external_memory,
        a.external_semaphore == b.external_semaphore,
        a.zero_copy == b.zero_copy,
        a.covers(request) == b.covers(request),
{
}

/// No capability at all: nothing is listed and nothing is able to be shared.
pub proof fn no_capability_is_listed(capabilities: CapabilitySet)
    requires
        capabilities.is_none_at_all(),
    ensures
        capabilities.operations@ == Seq::<OperationKind>::empty(),
        capabilities.data_types@ == Seq::<DataType>::empty(),
        !capabilities.external_memory,
        !capabilities.external_semaphore,
        !capabilities.zero_copy,
{
}

/// A failed probe keeps the id and the kind, takes its name from the id reported next, and says
/// why it failed and nothing else.
pub proof fn a_failed_probe_says_why(
    id: BackendId,
    kind: BackendKind,
    named: BackendId,
    error: BackendError,
    probe: BackendProbe,
)
    requires
        is_failed_probe(id, kind, named, error, probe),
    ensures
        probe.id@ == id@,
        probe.kind == kind,
        probe.name@ == named@,
        probe.vendor@.len() == 0,
        !probe.available,
        probe.device_count == 0,
        probe.detail@ == error.text(),
        probe.capabilities.operations@.len() == 0,
        probe.capabilities.data_types@.len() == 0,
        !probe.capabilities.external_memory,
        !probe.capabilities.external_semaphore,
        !probe.capabilities.zero_copy,
{
}

/// Asking for zero-copy asks for shared memory, shared semaphores and zero-copy, and leaves the
/// operation and the data type as they are.
pub proof fn zero_copy_asks_for_all_three(request: RouteRequest)
    ensures
        request.with_zero_copy().operation == request.operation,
        request.with_zero_copy().data_type == request.data_type,
        request.with_zero_copy().requires_external_memory,
        request.with_zero_copy().requires_external_semaphore,
        request.with_zero_copy().requires_zero_copy,
{
}

} // verus!
