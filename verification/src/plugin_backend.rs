//! Backends from plugins: what a host accepts of a plugin, and what it makes of the answers to its
//! calls.
//!
//! The calls themselves are made elsewhere. Each answer comes back here as a plain value.

use crate::abi;
use crate::backend;
use crate::backend::{
    BackendError, BackendId, BackendKind, BackendProbe, CapabilitySet, DataType, OperationKind,
    RuntimeError,
};
use crate::plugin_api;
use crate::plugin_api::{
    capability, expected_plugin_struct_size, VrbBackendInfoV1, VrbBackendKind, VrbPluginV1,
    VrbStatus, VRB_PLUGIN_ABI_VERSION,
};
use crate::text;
use vstd::prelude::*;
use vstd::string::*;

verus! {

/// Why a plugin is not loaded, or a call of it fails.
#[derive(Debug, PartialEq, Eq)]
pub enum PluginLoadError {
    Load { path: String, source: String },
    MissingEntry(String),
    NullDescriptor,
    AbiVersion { actual: u32, expected: u32 },
    DescriptorTooSmall { actual: u32, expected: u32 },
    NullName,
    EmptyName,
    MissingProbe,
    MissingExecute,
    PluginStatus(VrbStatus),
    Poisoned,
    Runtime(RuntimeError),
}

impl PluginLoadError {
    /// The text of the error.
    pub open spec fn text(&self) -> Seq<char> {
        match self {
            PluginLoadError::Load { path, source } => {
                "unable to load plugin '"@ + path@ + "': "@ + source@
            },
            PluginLoadError::MissingEntry(value) => "plugin entry symbol is missing: "@ + value@,
            PluginLoadError::NullDescriptor => "plugin entry returned a null descriptor"@,
            PluginLoadError::AbiVersion { actual, expected } => {
                "plugin ABI version "@ + text::decimal(*actual as nat)
                    + " is incompatible with host ABI "@ + text::decimal(*expected as nat)
            },
            PluginLoadError::DescriptorTooSmall { actual, expected } => {
                "plugin descriptor is too small: "@ + text::decimal(*actual as nat)
                    + " bytes, expected at least "@ + text::decimal(*expected as nat)
            },
            PluginLoadError::NullName => "plugin name pointer is null"@,
            PluginLoadError::EmptyName => "plugin name is empty"@,
            PluginLoadError::MissingProbe => "plugin probe callback is missing"@,
            PluginLoadError::MissingExecute => "plugin execute callback is missing"@,
            PluginLoadError::PluginStatus(value) => "plugin returned status "@ + value.label(),
            PluginLoadError::Poisoned => "plugin state lock is poisoned"@,
            PluginLoadError::Runtime(error) => error.text(),
        }
    }

    pub fn message(&self) -> (r: String)
        ensures
            r@ == self.text(),
    {
        match self {
            PluginLoadError::Load { path, source } => {
                let mut r = "unable to load plugin '".to_owned();
                r.append(path.as_str());
                r.append("': ");
                r.append(source.as_str());
                r
            },
            PluginLoadError::MissingEntry(value) => {
                let mut r = "plugin entry symbol is missing: ".to_owned();
                r.append(value.as_str());
                r
            },
            PluginLoadError::NullDescriptor => "plugin entry returned a null descriptor".to_owned(),
            PluginLoadError::AbiVersion { actual, expected } => {
                let mut r = "plugin ABI version ".to_owned();
                text::append_decimal(&mut r, *actual as u64);
                r.append(" is incompatible with host ABI ");
                text::append_decimal(&mut r, *expected as u64);
                r
            },
            PluginLoadError::DescriptorTooSmall { actual, expected } => {
                let mut r = "plugin descriptor is too small: ".to_owned();
                text::append_decimal(&mut r, *actual as u64);
                r.append(" bytes, expected at least ");
                text::append_decimal(&mut r, *expected as u64);
                r
            },
            PluginLoadError::NullName => "plugin name pointer is null".to_owned(),
            PluginLoadError::EmptyName => "plugin name is empty".to_owned(),
            PluginLoadError::MissingProbe => "plugin probe callback is missing".to_owned(),
            PluginLoadError::MissingExecute => "plugin execute callback is missing".to_owned(),
            PluginLoadError::PluginStatus(value) => {
                let mut r = "plugin returned status ".to_owned();
                r.append(value.name());
                r
            },
            PluginLoadError::Poisoned => "plugin state lock is poisoned".to_owned(),
            PluginLoadError::Runtime(error) => error.message(),
        }
    }
}

/// The backend that a plugin's kind stands for.
pub open spec fn backend_kind_of(kind: VrbBackendKind) -> BackendKind {
    match kind {
        VrbBackendKind::Cpu => BackendKind::Cpu,
        VrbBackendKind::Vulkan => BackendKind::Vulkan,
        VrbBackendKind::Hip => BackendKind::Hip,
        VrbBackendKind::Hybrid => BackendKind::Hybrid,
        VrbBackendKind::Other => BackendKind::Plugin,
    }
}

pub fn map_backend_kind(kind: VrbBackendKind) -> (r: BackendKind)
    ensures
        r == backend_kind_of(kind),
{
    match kind {
        VrbBackendKind::Cpu => BackendKind::Cpu,
        VrbBackendKind::Vulkan => BackendKind::Vulkan,
        VrbBackendKind::Hip => BackendKind::Hip,
        VrbBackendKind::Hybrid => BackendKind::Hybrid,
        VrbBackendKind::Other => BackendKind::Plugin,
    }
}

/// The data types that capability bits list. Where they list none, what the backend takes is
/// unknown.
pub open spec fn data_types_of(bits: u64) -> Seq<DataType> {
    let none = Seq::<DataType>::empty();
    let listed = (if bits & capability::FP32 != 0 {
        seq![DataType::F32]
    } else {
        none
    }) + (if bits & capability::FP16 != 0 {
        seq![DataType::F16]
    } else {
        none
    }) + (if bits & capability::INT8 != 0 {
        seq![DataType::I8]
    } else {
        none
    });
    if listed.len() == 0 {
        seq![DataType::Unknown]
    } else {
        listed
    }
}

pub fn data_types_from_bits(bits: u64) -> (r: Vec<DataType>)
    ensures
        r@ == data_types_of(bits),
{
    let mut types: Vec<DataType> = Vec::new();
    if bits & capability::FP32 != 0 {
        types.push(DataType::F32);
    }
    if bits & capability::FP16 != 0 {
        types.push(DataType::F16);
    }
    if bits & capability::INT8 != 0 {
        types.push(DataType::I8);
    }
    if types.is_empty() {
        types.push(DataType::Unknown);
    }
    assert(types@ =~= data_types_of(bits));
    types
}

/// What a status comes to.
pub fn status_result(status: VrbStatus) -> (r: Result<(), PluginLoadError>)
    ensures
        match r {
            Ok(_) => status == VrbStatus::Success,
            Err(error) => status != VrbStatus::Success && error == PluginLoadError::PluginStatus(
                status,
            ),
        },
{
    match status {
        VrbStatus::Success => Ok(()),
        other => Err(PluginLoadError::PluginStatus(other)),
    }
}

/// A backend that a plugin provides.
#[derive(Debug, PartialEq, Eq)]
pub struct DynamicPluginBackend {
    pub id: BackendId,
    pub name: String,
    pub kind: BackendKind,
    pub capability_bits: u64,
    /// The address of the callback that runs requests, zero where there is none.
    pub execute: usize,
}

/// What is wrong with a plugin's description of itself before its name is read.
pub open spec fn descriptor_fault(descriptor: VrbPluginV1) -> Option<PluginLoadError> {
    let expected = plugin_api::plugin_layout().size();
    if descriptor.abi_version != VRB_PLUGIN_ABI_VERSION {
        Some(
            PluginLoadError::AbiVersion {
                actual: descriptor.abi_version,
                expected: VRB_PLUGIN_ABI_VERSION,
            },
        )
    } else if descriptor.struct_size < expected {
        Some(PluginLoadError::DescriptorTooSmall { actual: descriptor.struct_size, expected })
    } else if descriptor.name == 0 {
        Some(PluginLoadError::NullName)
    } else {
        None
    }
}

/// Checks a plugin's description of itself as far as the name is not needed. Only where this
/// succeeds may the name be read.
pub fn check_descriptor(descriptor: &VrbPluginV1) -> (r: Result<(), PluginLoadError>)
    ensures
        match r {
            Ok(_) => descriptor_fault(*descriptor) is None,
            Err(error) => descriptor_fault(*descriptor) == Some(error),
        },
{
    if descriptor.abi_version != VRB_PLUGIN_ABI_VERSION {
        return Err(
            PluginLoadError::AbiVersion {
                actual: descriptor.abi_version,
                expected: VRB_PLUGIN_ABI_VERSION,
            },
        );
    }
    let expected: u32 = expected_plugin_struct_size();
    if descriptor.struct_size < expected {
        return Err(PluginLoadError::DescriptorTooSmall { actual: descriptor.struct_size, expected });
    }
    if descriptor.name == 0 {
        return Err(PluginLoadError::NullName);
    }
    Ok(())
}

/// What is wrong with a plugin's description of itself under the name that it gives itself.
pub open spec fn plugin_fault(descriptor: VrbPluginV1, name: Seq<char>) -> Option<
    PluginLoadError,
> {
    if descriptor_fault(descriptor) is Some {
        descriptor_fault(descriptor)
    } else if name.len() == 0 {
        Some(PluginLoadError::EmptyName)
    } else if descriptor.probe == 0 {
        Some(PluginLoadError::MissingProbe)
    } else {
        None
    }
}

/// The text of a backend's id: its name behind the word "plugin".
pub open spec fn id_text(name: Seq<char>) -> Seq<char> {
    "plugin:"@ + name
}

impl DynamicPluginBackend {
    /// Whether this is the backend that a plugin describes.
    pub open spec fn is_described(&self, descriptor: VrbPluginV1, name: Seq<char>) -> bool {
        &&& self.id@ == id_text(name)
        &&& self.name@ == name
        &&& self.kind == backend_kind_of(descriptor.backend_kind)
        &&& self.capability_bits == descriptor.capability_bits
        &&& self.execute == descriptor.execute
    }

    /// The backend that a plugin describes, under the name that it gives itself.
    pub fn load_named(descriptor: &VrbPluginV1, name: String) -> (r: Result<Self, PluginLoadError>)
        requires
            name@.len() == 0 || text::is_identifier(name@),
        ensures
            match r {
                Ok(backend) => {
                    &&& plugin_fault(*descriptor, name@) is None
                    &&& backend.is_described(*descriptor, name@)
                },
                Err(error) => plugin_fault(*descriptor, name@) == Some(error),
            },
    {
        match check_descriptor(descriptor) {
            Ok(_) => {},
            Err(error) => {
                return Err(error);
            },
        }
        if name.as_str().is_empty() {
            return Err(PluginLoadError::EmptyName);
        }
        if descriptor.probe == 0 {
            return Err(PluginLoadError::MissingProbe);
        }
        let mut id_name = "plugin:".to_owned();
        id_name.append(name.as_str());
        proof {
            reveal_strlit("plugin:");
            assert(text::is_identifier(id_name@));
            text::trimming_an_identifier_keeps_it(id_name@);
        }
        match BackendId::new(id_name.as_str()) {
            Ok(id) => Ok(
                DynamicPluginBackend {
                    id,
                    name,
                    kind: map_backend_kind(descriptor.backend_kind),
                    capability_bits: descriptor.capability_bits,
                    execute: descriptor.execute,
                },
            ),
            Err(error) => Err(PluginLoadError::Runtime(error)),
        }
    }

    /// The backend that a plugin describes, with its name in bytes.
    pub fn load(descriptor: &VrbPluginV1, name: &[u8]) -> (r: Result<Self, PluginLoadError>)
        ensures
            match r {
                Ok(backend) => {
                    &&& plugin_fault(*descriptor, abi::name_in(name@)) is None
                    &&& backend.is_described(*descriptor, abi::name_in(name@))
                },
                Err(error) => plugin_fault(*descriptor, abi::name_in(name@)) == Some(
                    error,
                ),
            },
    {
        let decoded = abi::abi_chars_to_string(name);
        proof {
            text::trimmed_text_is_an_identifier(abi::lossy_text(abi::up_to_zero(name@)));
        }
        DynamicPluginBackend::load_named(descriptor, decoded)
    }

    pub fn id(&self) -> (r: &BackendId)
        ensures
            *r == self.id,
    {
        &self.id
    }

    pub fn kind(&self) -> (r: BackendKind)
        ensures
            r == self.kind,
    {
        self.kind
    }

    /// The address of the callback that runs requests.
    pub fn execute_callback(&self) -> (r: Result<usize, PluginLoadError>)
        ensures
            match r {
                Ok(callback) => callback == self.execute && callback != 0,
                Err(error) => self.execute == 0 && error == PluginLoadError::MissingExecute,
            },
    {
        if self.execute == 0 {
            return Err(PluginLoadError::MissingExecute);
        }
        Ok(self.execute)
    }

    /// Whether a probe is what the plugin answered, under the names that it gives.
    pub open spec fn is_probe(
        &self,
        info: VrbBackendInfoV1,
        name: Seq<char>,
        vendor: Seq<char>,
        probe: BackendProbe,
    ) -> bool {
        let bits = info.capability_bits | self.capability_bits;
        &&& probe.id == self.id
        &&& probe.kind == backend_kind_of(info.backend_kind)
        &&& probe.name@ == if name.len() == 0 {
            self.name@
        } else {
            name
        }
        &&& probe.vendor@ == vendor
        &&& probe.available == (info.device_count > 0)
        &&& probe.device_count == info.device_count
        &&& probe.detail@ == "plugin ABI v"@ + text::decimal(VRB_PLUGIN_ABI_VERSION as nat)
        &&& probe.capabilities.operations@ == seq![OperationKind::Custom]
        &&& probe.capabilities.data_types@ == data_types_of(bits)
        &&& probe.capabilities.external_memory == (bits & capability::EXTERNAL_MEMORY != 0)
        &&& probe.capabilities.external_semaphore == (bits & capability::EXTERNAL_SEMAPHORE != 0)
        &&& probe.capabilities.zero_copy == (bits & capability::ZERO_COPY != 0)
    }

    /// What the host makes of a probe, under the names that the plugin gives.
    pub fn probe_named(
        &self,
        status: VrbStatus,
        info: &VrbBackendInfoV1,
        name: String,
        vendor: String,
    ) -> (r: Result<BackendProbe, BackendError>)
        ensures
            match r {
                Ok(probe) => status == VrbStatus::Success && self.is_probe(
                    *info,
                    name@,
                    vendor@,
                    probe,
                ),
                Err(error) => {
                    &&& status != VrbStatus::Success
                    &&& error matches BackendError::Probe(reason)
                    &&& reason@ == PluginLoadError::PluginStatus(status).text()
                },
            },
    {
        match status_result(status) {
            Ok(_) => {},
            Err(error) => {
                return Err(BackendError::Probe(error.message()));
            },
        }
        let bits: u64 = info.capability_bits | self.capability_bits;
        let mut detail = "plugin ABI v".to_owned();
        text::append_decimal(&mut detail, VRB_PLUGIN_ABI_VERSION as u64);
        let mut operations: Vec<OperationKind> = Vec::new();
        operations.push(OperationKind::Custom);
        assert(operations@ =~= seq![OperationKind::Custom]);
        Ok(
            BackendProbe {
                id: self.id.clone(),
                kind: map_backend_kind(info.backend_kind),
                name: if name.as_str().is_empty() {
                    self.name.clone()
                } else {
                    name
                },
                vendor,
                available: info.device_count > 0,
                device_count: info.device_count,
                detail,
                capabilities: CapabilitySet {
                    operations,
                    data_types: data_types_from_bits(bits),
                    external_memory: bits & capability::EXTERNAL_MEMORY != 0,
                    external_semaphore: bits & capability::EXTERNAL_SEMAPHORE != 0,
                    zero_copy: bits & capability::ZERO_COPY != 0,
                },
            },
        )
    }

    /// What the host makes of a probe.
    pub fn probe(&self, status: VrbStatus, info: &VrbBackendInfoV1) -> (r: Result<
        BackendProbe,
        BackendError,
    >)
        ensures
            match r {
                Ok(probe) => status == VrbStatus::Success && self.is_probe(
                    *info,
                    abi::name_in(info.name@),
                    abi::name_in(info.vendor@),
                    probe,
                ),
                Err(error) => {
                    &&& status != VrbStatus::Success
                    &&& error matches BackendError::Probe(reason)
                    &&& reason@ == PluginLoadError::PluginStatus(status).text()
                },
            },
    {
        let name = abi::abi_chars_to_string(&info.name);
        let vendor = abi::abi_chars_to_string(&info.vendor);
        self.probe_named(status, info, name, vendor)
    }
}

/// Capabilities that a plugin declares for itself are in every probe, whatever its backend says.
pub proof fn declared_capabilities_are_probed(
    backend: DynamicPluginBackend,
    info: VrbBackendInfoV1,
    name: Seq<char>,
    vendor: Seq<char>,
    probe: BackendProbe,
)
    requires
        backend.is_probe(info, name, vendor, probe),
    ensures
        backend.capability_bits & capability::EXTERNAL_MEMORY != 0
            ==> probe.capabilities.external_memory,
        backend.capability_bits & capability::EXTERNAL_SEMAPHORE != 0
            ==> probe.capabilities.external_semaphore,
        backend.capability_bits & capability::ZERO_COPY != 0 ==> probe.capabilities.zero_copy,
{
    let own = backend.capability_bits;
    let said = info.capability_bits;
    assert(own & 0x02 != 0 ==> (said | own) & 0x02 != 0) by (bit_vector);
    assert(own & 0x04 != 0 ==> (said | own) & 0x04 != 0) by (bit_vector);
    assert(own & 0x08 != 0 ==> (said | own) & 0x08 != 0) by (bit_vector);
}

/// A probe of a plugin without devices serves no request.
pub proof fn no_devices_serve_nothing(
    plugin: DynamicPluginBackend,
    info: VrbBackendInfoV1,
    name: Seq<char>,
    vendor: Seq<char>,
    probe: BackendProbe,
    request: backend::RouteRequest,
)
    requires
        plugin.is_probe(info, name, vendor, probe),
        info.device_count == 0,
    ensures
        !probe.is_compatible(request),
{
}

/// A plugin is accepted only where it is of this version, describes itself in full, and can be
/// asked about its backend.
pub proof fn accepted_plugins_keep_to_the_boundary(descriptor: VrbPluginV1, name: Seq<char>)
    requires
        plugin_fault(descriptor, name) is None,
    ensures
        descriptor.abi_version == VRB_PLUGIN_ABI_VERSION,
        descriptor.struct_size >= plugin_api::plugin_layout().size(),
        descriptor.name != 0,
        name.len() > 0,
        descriptor.probe != 0,
{
}

/// Capabilities that this host does not know change nothing in the data types that it sees.
pub proof fn unknown_capabilities_are_passed_over(bits: u64, unknown: u64)
    requires
        unknown & (capability::FP32 | capability::FP16 | capability::INT8) == 0,
    ensures
        data_types_of(bits | unknown) == data_types_of(bits),
{
    assert(unknown & (0x40u64 | 0x20u64 | 0x80u64) == 0 ==> {
        &&& (bits | unknown) & 0x40 == bits & 0x40
        &&& (bits | unknown) & 0x20 == bits & 0x20
        &&& (bits | unknown) & 0x80 == bits & 0x80
    }) by (bit_vector);
}

/// A plugin can be loaded if and only if it is of version one, its description is as long as it has
/// to be, it has an address for its name, the name is not empty, and there is a callback to probe
/// it.
pub proof fn a_plugin_that_can_be_loaded(descriptor: VrbPluginV1, name: Seq<char>)
    ensures
        plugin_fault(descriptor, name) is None <==> {
            &&& descriptor.abi_version == 1
            &&& descriptor.struct_size >= plugin_api::plugin_layout().size()
            &&& descriptor.name != 0
            &&& name.len() > 0
            &&& descriptor.probe != 0
        },
        descriptor_fault(descriptor) is None <==> {
            &&& descriptor.abi_version == 1
            &&& descriptor.struct_size >= plugin_api::plugin_layout().size()
            &&& descriptor.name != 0
        },
{
}

/// Each kind of backend of a plugin stands for the kind of the same name, and any other for a
/// plugin.
pub proof fn plugin_kinds_keep_their_names(kind: VrbBackendKind)
    ensures
        backend_kind_of(VrbBackendKind::Cpu) == BackendKind::Cpu,
        backend_kind_of(VrbBackendKind::Vulkan) == BackendKind::Vulkan,
        backend_kind_of(VrbBackendKind::Hip) == BackendKind::Hip,
        backend_kind_of(VrbBackendKind::Hybrid) == BackendKind::Hybrid,
        backend_kind_of(kind) == BackendKind::Plugin <==> kind == VrbBackendKind::Other,
{
}

/// The data types of a plugin: single precision by one bit, half precision by another, bytes by a
/// third, and unknown where none of them is set.
pub proof fn data_types_by_their_bits(bits: u64)
    ensures
        data_types_of(bits).contains(DataType::F32) <==> bits & 0x40 != 0,
        data_types_of(bits).contains(DataType::F16) <==> bits & 0x20 != 0,
        data_types_of(bits).contains(DataType::I8) <==> bits & 0x80 != 0,
        data_types_of(bits).contains(DataType::Unknown) <==> bits & 0x40 == 0 && bits & 0x20 == 0
            && bits & 0x80 == 0,
{
    let types = data_types_of(bits);
    let single: int = if bits & 0x40 != 0 { 1 } else { 0 };
    let half: int = if bits & 0x20 != 0 { 1 } else { 0 };
    let bytes: int = if bits & 0x80 != 0 { 1 } else { 0 };
    if single + half + bytes == 0 {
        assert(types =~= seq![DataType::Unknown]);
        assert(types[0] == DataType::Unknown);
    } else {
        assert(types.len() == single + half + bytes);
        if single == 1 {
            assert(types[0] == DataType::F32);
        }
        if half == 1 {
            assert(types[single] == DataType::F16);
        }
        if bytes == 1 {
            assert(types[single + half] == DataType::I8);
        }
    }
}

/// A loaded plugin is what its description says, under an id that starts with "plugin:".
pub proof fn a_loaded_plugin_is_what_it_describes(
    backend: DynamicPluginBackend,
    descriptor: VrbPluginV1,
    name: Seq<char>,
)
    requires
        backend.is_described(descriptor, name),
    ensures
        backend.id@ == "plugin:"@ + name,
        backend.name@ == name,
        backend.kind == backend_kind_of(descriptor.backend_kind),
        backend.capability_bits == descriptor.capability_bits,
        backend.execute == descriptor.execute,
{
}

/// A probe of a plugin is what it answered: it offers custom work only, is available with at least
/// one device, and has each ability that either the plugin or its backend declares.
pub proof fn a_plugin_probe_is_what_it_answered(
    backend: DynamicPluginBackend,
    info: VrbBackendInfoV1,
    name: Seq<char>,
    vendor: Seq<char>,
    probe: BackendProbe,
)
    requires
        backend.is_probe(info, name, vendor, probe),
    ensures
        probe.id == backend.id,
        probe.kind == backend_kind_of(info.backend_kind),
        name.len() > 0 ==> probe.name@ == name,
        name.len() == 0 ==> probe.name@ == backend.name@,
        probe.vendor@ == vendor,
        probe.available == (info.device_count > 0),
        probe.device_count == info.device_count,
        probe.capabilities.operations@.len() == 1,
        probe.capabilities.operations@[0] == OperationKind::Custom,
        probe.capabilities.data_types@ == data_types_of(
            info.capability_bits | backend.capability_bits,
        ),
        probe.capabilities.external_memory == ((info.capability_bits | backend.capability_bits)
            & 0x02 != 0),
        probe.capabilities.external_semaphore == ((info.capability_bits | backend.capability_bits)
            & 0x04 != 0),
        probe.capabilities.zero_copy == ((info.capability_bits | backend.capability_bits) & 0x08
            != 0),
{
}

} // verus!
