//! The HIP runtime as a backend: what its answers to a probe come to.

use crate::abi;
use crate::backend::{
    BackendError, BackendId, BackendKind, BackendProbe, CapabilitySet, DataType, OperationKind,
};
use crate::platform;
use crate::platform::{LibraryCandidate, Platform, RuntimeRoot, RuntimeRoots};
use crate::text;
use vstd::prelude::*;
use vstd::string::*;

verus! {

/// What is known of the HIP runtime of a machine.
#[derive(Debug, Clone, PartialEq, Eq)]
pub struct HipRuntimeInfo {
    pub library: String,
    pub runtime_version_raw: i32,
    pub devices: Vec<String>,
    pub external_memory_api: bool,
    pub external_semaphore_api: bool,
}

/// Which entry points for shared resources the runtime library has.
#[derive(Debug, Clone, Copy, PartialEq, Eq, Structural)]
pub struct HipSymbols {
    pub import_external_memory: bool,
    pub external_memory_get_mapped_buffer: bool,
    pub destroy_external_memory: bool,
    pub import_external_semaphore: bool,
    pub signal_external_semaphores: bool,
    pub wait_external_semaphores: bool,
    pub destroy_external_semaphore: bool,
}

impl HipSymbols {
    /// Whether memory can be imported, mapped and given back.
    pub open spec fn have_memory(self) -> bool {
        self.import_external_memory && self.external_memory_get_mapped_buffer
            && self.destroy_external_memory
    }

    /// Whether semaphores can be imported, signalled, waited for and given back.
    pub open spec fn have_semaphores(self) -> bool {
        self.import_external_semaphore && self.signal_external_semaphores
            && self.wait_external_semaphores && self.destroy_external_semaphore
    }
}

/// The answer to the question for a device's name: a status and a name that a zero byte ends.
#[derive(Debug, PartialEq, Eq)]
pub struct HipNameAnswer {
    pub status: i32,
    pub name: Vec<u8>,
}

/// What the runtime answers, in the order in which it is asked. Behind a failure nothing is asked
/// any more.
#[derive(Debug, PartialEq, Eq)]
pub struct HipAnswers {
    pub library: String,
    pub init: i32,
    pub version_status: i32,
    pub version: i32,
    pub count_status: i32,
    pub count: i32,
    pub names: Vec<HipNameAnswer>,
    pub symbols: HipSymbols,
}

/// The text of a HIP call that failed.
pub open spec fn failure_text(code: i32, operation: Seq<char>) -> Seq<char> {
    operation + " returned HIP error code "@ + text::signed_decimal(code as int)
}

/// Whether an error says that an operation failed with a code.
pub open spec fn is_failure(error: BackendError, code: i32, operation: Seq<char>) -> bool {
    &&& error matches BackendError::Unavailable(reason)
    &&& reason@ == failure_text(code, operation)
}

/// What a status code of HIP comes to.
pub fn check_hip(code: i32, operation: &str) -> (r: Result<(), BackendError>)
    ensures
        match r {
            Ok(_) => code == 0,
            Err(error) => code != 0 && is_failure(error, code, operation@),
        },
{
    if code == 0 {
        return Ok(());
    }
    let mut reason = operation.to_owned();
    reason.append(" returned HIP error code ");
    text::append_signed_decimal(&mut reason, code);
    Err(BackendError::Unavailable(reason))
}

/// What a device is called: its name, or its number where the name is empty or was not given.
pub open spec fn device_text(index: int, status: i32, name: Seq<char>) -> Seq<char> {
    let numbered = "HIP device "@ + text::signed_decimal(index);
    if status != 0 {
        numbered + " (name error "@ + text::signed_decimal(status as int) + ")"@
    } else if name.len() == 0 {
        numbered
    } else {
        name
    }
}

pub fn device_label(index: i32, status: i32, name: String) -> (r: String)
    ensures
        r@ == device_text(index as int, status, name@),
{
    if status == 0 && !name.as_str().is_empty() {
        return name;
    }
    let mut r = "HIP device ".to_owned();
    text::append_signed_decimal(&mut r, index);
    if status != 0 {
        r.append(" (name error ");
        text::append_signed_decimal(&mut r, status);
        r.append(")");
    }
    r
}

impl HipAnswers {
    /// Whether every question that was due was asked.
    pub open spec fn is_complete(&self) -> bool {
        self.init == 0 && self.version_status == 0 && self.count_status == 0 && self.count >= 0
            ==> self.names@.len() == self.count
    }

    /// Whether an error is that of the first step that failed.
    pub open spec fn is_refused_with(&self, error: BackendError) -> bool {
        if self.init != 0 {
            is_failure(error, self.init, "hipInit"@)
        } else if self.version_status != 0 {
            is_failure(error, self.version_status, "hipRuntimeGetVersion"@)
        } else if self.count_status != 0 {
            is_failure(error, self.count_status, "hipGetDeviceCount"@)
        } else {
            &&& self.count < 0
            &&& error matches BackendError::Probe(reason)
            &&& reason@ == "HIP returned a negative device count"@
        }
    }

    /// Whether every step succeeded.
    pub open spec fn are_good(&self) -> bool {
        self.init == 0 && self.version_status == 0 && self.count_status == 0 && self.count >= 0
    }
}

impl HipRuntimeInfo {
    /// Whether this is what the answers say.
    pub open spec fn is_answered(&self, answers: HipAnswers) -> bool {
        &&& self.library == answers.library
        &&& self.runtime_version_raw == answers.version
        &&& self.devices@.len() == answers.names@.len()
        &&& forall|i: int|
            #![trigger self.devices@[i]]
            0 <= i < self.devices@.len() ==> self.devices@[i]@ == device_text(
                i,
                answers.names@[i].status,
                abi::lossy_text(abi::up_to_zero(answers.names@[i].name@)),
            )
        &&& self.external_memory_api == answers.symbols.have_memory()
        &&& self.external_semaphore_api == answers.symbols.have_semaphores()
    }

    pub fn from_answers(answers: HipAnswers) -> (r: Result<Self, BackendError>)
        requires
            answers.is_complete(),
        ensures
            match r {
                Ok(info) => answers.are_good() && info.is_answered(answers),
                Err(error) => !answers.are_good() && answers.is_refused_with(error),
            },
    {
        match check_hip(answers.init, "hipInit") {
            Ok(_) => {},
            Err(error) => {
                return Err(error);
            },
        }
        match check_hip(answers.version_status, "hipRuntimeGetVersion") {
            Ok(_) => {},
            Err(error) => {
                return Err(error);
            },
        }
        match check_hip(answers.count_status, "hipGetDeviceCount") {
            Ok(_) => {},
            Err(error) => {
                return Err(error);
            },
        }
        if answers.count < 0 {
            return Err(BackendError::Probe("HIP returned a negative device count".to_owned()));
        }
        let mut devices: Vec<String> = Vec::new();
        let mut i: usize = 0;
        while i < answers.names.len()
            invariant
                i <= answers.names@.len(),
                answers.names@.len() == answers.count,
                devices@.len() == i,
                forall|j: int|
                    #![trigger devices@[j]]
                    0 <= j < i ==> devices@[j]@ == device_text(
                        j,
                        answers.names@[j].status,
                        abi::lossy_text(abi::up_to_zero(answers.names@[j].name@)),
                    ),
            decreases answers.names@.len() - i,
        {
            let name = abi::decode_name(answers.names[i].name.as_slice());
            devices.push(device_label(i as i32, answers.names[i].status, name));
            i = i + 1;
        }
        let symbols = answers.symbols;
        Ok(
            HipRuntimeInfo {
                library: answers.library,
                runtime_version_raw: answers.version,
                devices,
                external_memory_api: symbols.import_external_memory
                    && symbols.external_memory_get_mapped_buffer
                    && symbols.destroy_external_memory,
                external_semaphore_api: symbols.import_external_semaphore
                    && symbols.signal_external_semaphores && symbols.wait_external_semaphores
                    && symbols.destroy_external_semaphore,
            },
        )
    }
}

#[derive(Debug)]
pub struct HipBackend {
    id: BackendId,
}

impl HipBackend {
    pub closed spec fn named(&self) -> BackendId {
        self.id
    }

    pub fn new() -> (r: Self)
        ensures
            r.named()@ == "hip"@,
    {
        proof {
            reveal_strlit("hip");
        }
        HipBackend { id: BackendId::of_identifier("hip") }
    }

    pub fn id(&self) -> (r: &BackendId)
        ensures
            *r == self.named(),
    {
        &self.id
    }

    pub fn kind(&self) -> (r: BackendKind)
        ensures
            r == BackendKind::Hip,
    {
        BackendKind::Hip
    }

    /// The detail of a probe, in words.
    pub open spec fn detail_text(info: HipRuntimeInfo) -> Seq<char> {
        "library="@ + info.library@ + ", runtime_version_raw="@ + text::signed_decimal(
            info.runtime_version_raw as int,
        ) + ", external_memory="@ + text::bool_text(info.external_memory_api)
            + ", external_semaphore="@ + text::bool_text(info.external_semaphore_api)
    }

    /// What the runtime is as a backend: a carrier of data and work, which claims no operation of
    /// its own, and zero-copy only with both memory and semaphores.
    pub open spec fn is_probe(&self, info: HipRuntimeInfo, probe: BackendProbe) -> bool {
        &&& probe.id == self.named()
        &&& probe.kind == BackendKind::Hip
        &&& probe.name@ == if info.devices@.len() > 0 {
            info.devices@[0]@
        } else {
            "HIP runtime"@
        }
        &&& probe.vendor@ == "AMD ROCm/HIP"@
        &&& probe.available == (info.devices@.len() > 0)
        &&& probe.device_count == info.devices@.len() as u32
        &&& probe.detail@ == Self::detail_text(info)
        &&& probe.capabilities.operations@ == seq![OperationKind::Custom]
        &&& probe.capabilities.data_types@ == seq![DataType::Unknown]
        &&& probe.capabilities.external_memory == info.external_memory_api
        &&& probe.capabilities.external_semaphore == info.external_semaphore_api
        &&& probe.capabilities.zero_copy == (info.external_memory_api
            && info.external_semaphore_api)
    }

    pub fn probe_from(&self, info: &HipRuntimeInfo) -> (r: BackendProbe)
        ensures
            self.is_probe(*info, r),
    {
        let mut detail = "library=".to_owned();
        detail.append(info.library.as_str());
        detail.append(", runtime_version_raw=");
        text::append_signed_decimal(&mut detail, info.runtime_version_raw);
        detail.append(", external_memory=");
        text::append_bool(&mut detail, info.external_memory_api);
        detail.append(", external_semaphore=");
        text::append_bool(&mut detail, info.external_semaphore_api);
        let mut operations: Vec<OperationKind> = Vec::new();
        operations.push(OperationKind::Custom);
        assert(operations@ =~= seq![OperationKind::Custom]);
        let mut data_types: Vec<DataType> = Vec::new();
        data_types.push(DataType::Unknown);
        assert(data_types@ =~= seq![DataType::Unknown]);
        BackendProbe {
            id: self.id.clone(),
            kind: BackendKind::Hip,
            name: if info.devices.len() > 0 {
                info.devices[0].clone()
            } else {
                "HIP runtime".to_owned()
            },
            vendor: "AMD ROCm/HIP".to_owned(),
            available: info.devices.len() > 0,
            device_count: info.devices.len() as u32,
            detail,
            capabilities: CapabilitySet {
                operations,
                data_types,
                external_memory: info.external_memory_api,
                external_semaphore: info.external_semaphore_api,
                zero_copy: info.external_memory_api && info.external_semaphore_api,
            },
        }
    }
}

impl Default for HipBackend {
    fn default() -> (r: Self)
        ensures
            r.named()@ == "hip"@,
    {
        HipBackend::new()
    }
}

/// Where the HIP runtime is looked for, in this order: under what the administrator names, in the
/// usual place, and wherever the system looks.
pub open spec fn candidates_of(platform: Platform, roots: RuntimeRoots) -> Seq<LibraryCandidate> {
    match platform {
        Platform::Windows => {
            platform::under(roots, RuntimeRoot::HipPath, "bin", "amdhip64.dll") + platform::under(
                roots,
                RuntimeRoot::RocmPath,
                "bin",
                "amdhip64.dll",
            ) + platform::alone("", "amdhip64.dll")
        },
        Platform::Linux => {
            platform::under(roots, RuntimeRoot::HipPath, "lib", "libamdhip64.so") + platform::under(
                roots,
                RuntimeRoot::HipPath,
                "lib64",
                "libamdhip64.so",
            ) + platform::under(roots, RuntimeRoot::RocmPath, "lib", "libamdhip64.so")
                + platform::under(roots, RuntimeRoot::RocmPath, "lib64", "libamdhip64.so")
                + platform::alone("/opt/rocm/lib", "libamdhip64.so") + platform::alone(
                "",
                "libamdhip64.so",
            )
        },
        Platform::Other => platform::alone("", "libamdhip64"),
    }
}

pub fn candidate_libraries(platform: Platform, roots: RuntimeRoots) -> (r: Vec<LibraryCandidate>)
    ensures
        r@ == candidates_of(platform, roots),
        r@.len() > 0,
{
    let mut r: Vec<LibraryCandidate> = Vec::new();
    let hip = RuntimeRoot::HipPath;
    let rocm = RuntimeRoot::RocmPath;
    match platform {
        Platform::Windows => {
            platform::push_under(&mut r, roots, hip, "bin", "amdhip64.dll");
            platform::push_under(&mut r, roots, rocm, "bin", "amdhip64.dll");
            platform::push_alone(&mut r, "", "amdhip64.dll");
        },
        Platform::Linux => {
            platform::push_under(&mut r, roots, hip, "lib", "libamdhip64.so");
            platform::push_under(&mut r, roots, hip, "lib64", "libamdhip64.so");
            platform::push_under(&mut r, roots, rocm, "lib", "libamdhip64.so");
            platform::push_under(&mut r, roots, rocm, "lib64", "libamdhip64.so");
            platform::push_alone(&mut r, "/opt/rocm/lib", "libamdhip64.so");
            platform::push_alone(&mut r, "", "libamdhip64.so");
        },
        Platform::Other => {
            platform::push_alone(&mut r, "", "libamdhip64");
        },
    }
    assert(r@ =~= candidates_of(platform, roots));
    r
}

/// The error of a machine on which no candidate could be loaded, with what went wrong with each.
pub fn not_loadable(failures: &[String]) -> (r: BackendError)
    ensures
        r matches BackendError::Unavailable(reason) && reason@
            == "HIP runtime library was not loadable ("@ + text::joined(failures@, "; "@) + ")"@,
{
    let mut reason = "HIP runtime library was not loadable (".to_owned();
    text::append_joined(&mut reason, failures, "; ");
    reason.append(")");
    BackendError::Unavailable(reason)
}

/// The error of a runtime library that lacks an entry point.
pub fn missing_symbol(symbol: &str, error: &str) -> (r: BackendError)
    ensures
        r matches BackendError::Probe(reason) && reason@ == symbol@ + " missing: "@ + error@,
{
    let mut reason = symbol.to_owned();
    reason.append(" missing: ");
    reason.append(error);
    BackendError::Probe(reason)
}

/// The runtime serves no operation but custom ones: everything else is for operator plugins.
pub proof fn only_custom_work_is_offered(
    backend: HipBackend,
    info: HipRuntimeInfo,
    probe: BackendProbe,
    request: crate::backend::RouteRequest,
)
    requires
        backend.is_probe(info, probe),
        probe.is_compatible(request),
    ensures
        request.operation == OperationKind::Custom,
        request.data_type == DataType::Unknown,
        request.requires_zero_copy ==> info.external_memory_api && info.external_semaphore_api,
{
    let operations = probe.capabilities.operations@;
    let i = choose|i: int| 0 <= i < operations.len() && operations[i] == request.operation;
    let data_types = probe.capabilities.data_types@;
    let j = choose|j: int| 0 <= j < data_types.len() && data_types[j] == request.data_type;
}

/// Memory can be shared only with all three entry points for it, and semaphores only with all four.
pub proof fn sharing_needs_every_entry_point(symbols: HipSymbols)
    ensures
        symbols.have_memory() <==> {
            &&& symbols.import_external_memory
            &&& symbols.external_memory_get_mapped_buffer
            &&& symbols.destroy_external_memory
        },
        symbols.have_semaphores() <==> {
            &&& symbols.import_external_semaphore
            &&& symbols.signal_external_semaphores
            &&& symbols.wait_external_semaphores
            &&& symbols.destroy_external_semaphore
        },
{
}

/// What is known of the runtime is what it answered: one device for each name, called by the name
/// where it was given and is not empty.
pub proof fn the_runtime_is_what_it_answered(info: HipRuntimeInfo, answers: HipAnswers, i: int)
    requires
        info.is_answered(answers),
        0 <= i < answers.names@.len(),
    ensures
        info.library@ == answers.library@,
        info.runtime_version_raw == answers.version,
        info.devices@.len() == answers.names@.len(),
        ({
            let name = abi::lossy_text(abi::up_to_zero(answers.names@[i].name@));
            answers.names@[i].status == 0 && name.len() > 0 ==> info.devices@[i]@ == name
        }),
        info.external_memory_api == answers.symbols.have_memory(),
        info.external_semaphore_api == answers.symbols.have_semaphores(),
{
    assert(info.devices@[i]@ == info.devices@[i]@);
}

/// The first call that fails is the one that the error is about, by its name and its code.
pub proof fn the_first_failure_is_reported(answers: HipAnswers, error: BackendError)
    requires
        answers.is_refused_with(error),
    ensures
        answers.init != 0 ==> is_failure(error, answers.init, "hipInit"@),
        answers.init == 0 && answers.version_status != 0 ==> is_failure(
            error,
            answers.version_status,
            "hipRuntimeGetVersion"@,
        ),
        answers.init == 0 && answers.version_status == 0 && answers.count_status != 0
            ==> is_failure(error, answers.count_status, "hipGetDeviceCount"@),
        answers.init == 0 && answers.version_status == 0 && answers.count_status == 0
            ==> answers.count < 0 && error is Probe,
        answers.are_good() ==> false,
{
}

/// A probe of the runtime is called by its first device, counts all of them, is available where
/// there is one, and is zero-copy only where both memory and semaphores can be shared.
pub proof fn a_probe_describes_the_runtime(
    backend: HipBackend,
    info: HipRuntimeInfo,
    probe: BackendProbe,
)
    requires
        backend.is_probe(info, probe),
        info.devices@.len() <= u32::MAX,
    ensures
        probe.id == backend.named(),
        probe.kind == BackendKind::Hip,
        info.devices@.len() > 0 ==> probe.name@ == info.devices@[0]@,
        info.devices@.len() == 0 ==> probe.name@ == "HIP runtime"@,
        probe.available == (info.devices@.len() > 0),
        probe.device_count == info.devices@.len(),
        probe.capabilities.operations@.len() == 1,
        probe.capabilities.operations@[0] == OperationKind::Custom,
        probe.capabilities.data_types@.len() == 1,
        probe.capabilities.data_types@[0] == DataType::Unknown,
        probe.capabilities.external_memory == info.external_memory_api,
        probe.capabilities.external_semaphore == info.external_semaphore_api,
        probe.capabilities.zero_copy == (info.external_memory_api
            && info.external_semaphore_api),
{
}

/// What the administrator names comes first, and last comes the bare name, for the system to find.
pub proof fn where_the_runtime_is_looked_for(platform: Platform, roots: RuntimeRoots)
    ensures
        ({
            let candidates = candidates_of(platform, roots);
            let last = candidates[candidates.len() - 1];
            &&& candidates.len() > 0
            &&& last.root is None
            &&& last.directory == ""
            &&& roots.hip_path && platform != Platform::Other ==> candidates[0].root == Some(
                RuntimeRoot::HipPath,
            )
            &&& !roots.hip_path && roots.rocm_path && platform != Platform::Other
                ==> candidates[0].root == Some(RuntimeRoot::RocmPath)
            &&& platform == Platform::Windows ==> candidates.len() == 1 + if roots.hip_path {
                1int
            } else {
                0
            } + if roots.rocm_path {
                1int
            } else {
                0
            }
            &&& platform == Platform::Linux ==> candidates.len() == 2 + if roots.hip_path {
                2int
            } else {
                0
            } + if roots.rocm_path {
                2int
            } else {
                0
            }
            &&& platform == Platform::Other ==> candidates.len() == 1
        }),
        forall|i: int|
            #![trigger candidates_of(platform, roots)[i]]
            0 <= i < candidates_of(platform, roots).len() ==> candidates_of(
                platform,
                roots,
            )[i].file == match platform {
                Platform::Windows => "amdhip64.dll",
                Platform::Linux => "libamdhip64.so",
                Platform::Other => "libamdhip64",
            },
{
}

/// The directories under what the administrator names: the two for libraries on Linux, the one for
/// programs on Windows, first under the one root and next under the other. The usual place on
/// Linux comes after them.
pub proof fn which_directories_are_searched(platform: Platform, roots: RuntimeRoots)
    ensures
        ({
            let candidates = candidates_of(platform, roots);
            let first = Some(RuntimeRoot::HipPath);
            let second = Some(RuntimeRoot::RocmPath);
            let each = if platform == Platform::Linux {
                2int
            } else {
                1
            };
            let next = if roots.hip_path {
                each
            } else {
                0
            };
            let last = candidates.len() - 1;
            &&& platform == Platform::Windows && roots.hip_path ==> candidates[0].root == first
                && candidates[0].directory == "bin"
            &&& platform == Platform::Windows && roots.rocm_path ==> candidates[next].root
                == second && candidates[next].directory == "bin"
            &&& platform == Platform::Linux && roots.hip_path ==> candidates[0].root == first
                && candidates[0].directory == "lib" && candidates[1].root == first
                && candidates[1].directory == "lib64"
            &&& platform == Platform::Linux && roots.rocm_path ==> candidates[next].root == second
                && candidates[next].directory == "lib" && candidates[next + 1].root == second
                && candidates[next + 1].directory == "lib64"
            &&& platform == Platform::Linux ==> candidates[last - 1].root is None
                && candidates[last - 1].directory == "/opt/rocm/lib"
        }),
{
}

} // verus!
