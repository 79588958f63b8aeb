//! Loading plugins of shared operators: what a host accepts of a plugin, and what it makes of the
//! answers to its calls.
//!
//! The calls themselves are made elsewhere. Each answer comes back here as a plain value.

use crate::abi;
use crate::backend::BackendKind;
use crate::operators::OperatorKind;
use crate::ordered_map;
use crate::shared_operator_plugin_api;
use crate::shared_operator_plugin_api::{
    backend_kind, capability, expected_execution_request_struct_size,
    expected_operator_info_struct_size, expected_plugin_struct_size,
    expected_resource_region_struct_size, expected_sync_point_struct_size, memory_handle_kind,
    operator_kind, resource_access, status, sync_handle_kind, VrbSharedOperatorExecutionRequestV1,
    VrbSharedOperatorInfoV1, VrbSharedOperatorPluginV1, VrbSharedResourceRegionV1,
    VrbSharedSyncPointV1, VRB_SHARED_OPERATOR_PLUGIN_ABI_VERSION,
};
use crate::shared_operators;
use crate::shared_operators::{
    ExternalMemoryHandleKind, ExternalSyncHandleKind, ResourceAccess, SharedOperator,
    SharedOperatorCapabilities, SharedOperatorError, SharedOperatorInvocation,
    SharedOperatorOutput, SharedOperatorRegistry, SharedOperatorSelectionPolicy,
    SharedResourceRegion, SharedSyncPoint,
};
use crate::text;
use std::sync::Arc;
use vstd::prelude::*;
use vstd::string::*;

verus! {

const DEFAULT_MAX_OPERATORS: u32 = 4096;

const DEFAULT_MAX_METADATA_BYTES: u64 = 1048576;

const DEFAULT_MAX_RESOURCES: u32 = 1024;

const DEFAULT_MAX_SYNC_POINTS: u32 = 4096;

const DEFAULT_MAX_RECEIPT_BYTES: u64 = 65536;

/// What a host is ready to take from a plugin and to hand to it.
#[derive(Debug, Clone, Copy, PartialEq, Eq, Structural)]
pub struct SharedOperatorLoadPolicy {
    pub max_operators: u32,
    pub max_metadata_bytes: u64,
    pub max_resources: u32,
    pub max_sync_points: u32,
    pub max_receipt_bytes: u64,
}

impl Default for SharedOperatorLoadPolicy {
    /// 4096 operators, 1 MiB of metadata, 1024 resources, 4096 points and receipts of 64 KiB.
    fn default() -> (r: Self)
        ensures
            r.max_operators == 4096,
            r.max_metadata_bytes == 1048576,
            r.max_resources == 1024,
            r.max_sync_points == 4096,
            r.max_receipt_bytes == 65536,
    {
        SharedOperatorLoadPolicy {
            max_operators: DEFAULT_MAX_OPERATORS,
            max_metadata_bytes: DEFAULT_MAX_METADATA_BYTES,
            max_resources: DEFAULT_MAX_RESOURCES,
            max_sync_points: DEFAULT_MAX_SYNC_POINTS,
            max_receipt_bytes: DEFAULT_MAX_RECEIPT_BYTES,
        }
    }
}

/// Why a plugin is not loaded.
#[derive(Debug, PartialEq, Eq)]
pub enum SharedOperatorLoadError {
    Load { path: String, source: String },
    MissingEntry(String),
    NullDescriptor,
    AbiVersion { actual: u32, expected: u32 },
    DescriptorTooSmall { actual: u32, expected: u32 },
    EmptyPluginName,
    NoOperators,
    TooManyOperators { actual: u32, maximum: u32 },
    MissingQueryOperator,
    MissingExecute,
    QueryStatus { index: u32, status: i32 },
    OperatorDescriptorTooSmall { index: u32, actual: u32, expected: u32 },
    EmptyOperatorName { index: u32 },
    DuplicateOperatorId(u32),
    InvalidCapabilities { operator_id: u32, detail: &'static str },
}

impl SharedOperatorLoadError {
    /// The text of the error.
    pub open spec fn text(&self) -> Seq<char> {
        match self {
            SharedOperatorLoadError::Load { path, source } => {
                "unable to load shared-operator plugin '"@ + path@ + "': "@ + source@
            },
            SharedOperatorLoadError::MissingEntry(value) => {
                "shared-operator plugin entry symbol is missing: "@ + value@
            },
            SharedOperatorLoadError::NullDescriptor => {
                "shared-operator plugin entry returned a null descriptor"@
            },
            SharedOperatorLoadError::AbiVersion { actual, expected } => {
                "shared-operator ABI version "@ + text::decimal(*actual as nat)
                    + " is incompatible with host ABI "@ + text::decimal(*expected as nat)
            },
            SharedOperatorLoadError::DescriptorTooSmall { actual, expected } => {
                "shared-operator descriptor is too small: "@ + text::decimal(*actual as nat)
                    + " bytes, expected at least "@ + text::decimal(*expected as nat)
            },
            SharedOperatorLoadError::EmptyPluginName => "shared-operator plugin name is empty"@,
            SharedOperatorLoadError::NoOperators => "shared-operator plugin declares no operators"@,
            SharedOperatorLoadError::TooManyOperators { actual, maximum } => {
                "shared-operator plugin declares "@ + text::decimal(*actual as nat)
                    + " operators, exceeding host limit "@ + text::decimal(*maximum as nat)
            },
            SharedOperatorLoadError::MissingQueryOperator => {
                "shared-operator plugin query callback is missing"@
            },
            SharedOperatorLoadError::MissingExecute => {
                "shared-operator plugin execute callback is missing"@
            },
            SharedOperatorLoadError::QueryStatus { index, status } => {
                "shared-operator query "@ + text::decimal(*index as nat) + " returned status "@
                    + text::signed_decimal(*status as int)
            },
            SharedOperatorLoadError::OperatorDescriptorTooSmall { index, actual, expected } => {
                "shared-operator descriptor "@ + text::decimal(*index as nat) + " is too small: "@
                    + text::decimal(*actual as nat) + " bytes, expected at least "@
                    + text::decimal(*expected as nat)
            },
            SharedOperatorLoadError::EmptyOperatorName { index } => {
                "shared operator "@ + text::decimal(*index as nat) + " has an empty name"@
            },
            SharedOperatorLoadError::DuplicateOperatorId(value) => {
                "shared operator id "@ + text::decimal(*value as nat)
                    + " is duplicated within the plugin"@
            },
            SharedOperatorLoadError::InvalidCapabilities { operator_id, detail } => {
                "shared operator "@ + text::decimal(*operator_id as nat)
                    + " advertises invalid capabilities: "@ + detail@
            },
        }
    }

    pub fn message(&self) -> (r: String)
        ensures
            r@ == self.text(),
    {
        match self {
            SharedOperatorLoadError::Load { path, source } => {
                let mut r = "unable to load shared-operator plugin '".to_owned();
                r.append(path.as_str());
                r.append("': ");
                r.append(source.as_str());
                r
            },
            SharedOperatorLoadError::MissingEntry(value) => {
                let mut r = "shared-operator plugin entry symbol is missing: ".to_owned();
                r.append(value.as_str());
                r
            },
            SharedOperatorLoadError::NullDescriptor => {
                "shared-operator plugin entry returned a null descriptor".to_owned()
            },
            SharedOperatorLoadError::AbiVersion { actual, expected } => {
                let mut r = "shared-operator ABI version ".to_owned();
                text::append_decimal(&mut r, *actual as u64);
                r.append(" is incompatible with host ABI ");
                text::append_decimal(&mut r, *expected as u64);
                r
            },
            SharedOperatorLoadError::DescriptorTooSmall { actual, expected } => {
                let mut r = "shared-operator descriptor is too small: ".to_owned();
                text::append_decimal(&mut r, *actual as u64);
                r.append(" bytes, expected at least ");
                text::append_decimal(&mut r, *expected as u64);
                r
            },
            SharedOperatorLoadError::EmptyPluginName => {
                "shared-operator plugin name is empty".to_owned()
            },
            SharedOperatorLoadError::NoOperators => {
                "shared-operator plugin declares no operators".to_owned()
            },
            SharedOperatorLoadError::TooManyOperators { actual, maximum } => {
                let mut r = "shared-operator plugin declares ".to_owned();
                text::append_decimal(&mut r, *actual as u64);
                r.append(" operators, exceeding host limit ");
                text::append_decimal(&mut r, *maximum as u64);
                r
            },
            SharedOperatorLoadError::MissingQueryOperator => {
                "shared-operator plugin query callback is missing".to_owned()
            },
            SharedOperatorLoadError::MissingExecute => {
                "shared-operator plugin execute callback is missing".to_owned()
            },
            SharedOperatorLoadError::QueryStatus { index, status } => {
                let mut r = "shared-operator query ".to_owned();
                text::append_decimal(&mut r, *index as u64);
                r.append(" returned status ");
                text::append_signed_decimal(&mut r, *status);
                r
            },
            SharedOperatorLoadError::OperatorDescriptorTooSmall { index, actual, expected } => {
                let mut r = "shared-operator descriptor ".to_owned();
                text::append_decimal(&mut r, *index as u64);
                r.append(" is too small: ");
                text::append_decimal(&mut r, *actual as u64);
                r.append(" bytes, expected at least ");
                text::append_decimal(&mut r, *expected as u64);
                r
            },
            SharedOperatorLoadError::EmptyOperatorName { index } => {
                let mut r = "shared operator ".to_owned();
                text::append_decimal(&mut r, *index as u64);
                r.append(" has an empty name");
                r
            },
            SharedOperatorLoadError::DuplicateOperatorId(value) => {
                let mut r = "shared operator id ".to_owned();
                text::append_decimal(&mut r, *value as u64);
                r.append(" is duplicated within the plugin");
                r
            },
            SharedOperatorLoadError::InvalidCapabilities { operator_id, detail } => {
                let mut r = "shared operator ".to_owned();
                text::append_decimal(&mut r, *operator_id as u64);
                r.append(" advertises invalid capabilities: ");
                r.append(detail);
                r
            },
        }
    }
}

/// Why a call of a shared operator gives no receipt.
#[derive(Debug, PartialEq, Eq)]
#[allow(inconsistent_fields)]
pub enum SharedOperatorExecutionError {
    Poisoned,
    MetadataTooLarge { actual: u64, maximum: u64 },
    TooManyResources { actual: u32, maximum: u32 },
    TooManySyncPoints { actual: u32, maximum: u32 },
    LengthUnsupported,
    PluginStatus(i32),
    ReceiptTooLarge { actual: u64, capacity: u64 },
    ReceiptCapacityUnsupported(u64),
    InvalidInvocation(SharedOperatorError),
}

impl SharedOperatorExecutionError {
    /// The text of the error.
    pub open spec fn text(&self) -> Seq<char> {
        match self {
            SharedOperatorExecutionError::Poisoned => {
                "shared-operator plugin state lock is poisoned"@
            },
            SharedOperatorExecutionError::MetadataTooLarge { actual, maximum } => {
                "shared invocation metadata is "@ + text::decimal(*actual as nat)
                    + " bytes, exceeding host limit "@ + text::decimal(*maximum as nat)
            },
            SharedOperatorExecutionError::TooManyResources { actual, maximum } => {
                "shared invocation has "@ + text::decimal(*actual as nat)
                    + " resources, exceeding host limit "@ + text::decimal(*maximum as nat)
            },
            SharedOperatorExecutionError::TooManySyncPoints { actual, maximum } => {
                "shared invocation has "@ + text::decimal(*actual as nat)
                    + " synchronization points, exceeding host limit "@
                    + text::decimal(*maximum as nat)
            },
            SharedOperatorExecutionError::LengthUnsupported => {
                "shared invocation length cannot be represented by the ABI"@
            },
            SharedOperatorExecutionError::PluginStatus(value) => {
                "shared operator plugin returned status "@ + text::signed_decimal(*value as int)
            },
            SharedOperatorExecutionError::ReceiptTooLarge { actual, capacity } => {
                "shared operator receipt length "@ + text::decimal(*actual as nat)
                    + " exceeds host capacity "@ + text::decimal(*capacity as nat)
            },
            SharedOperatorExecutionError::ReceiptCapacityUnsupported(value) => {
                "shared operator receipt capacity "@ + text::decimal(*value as nat)
                    + " cannot be represented on this host"@
            },
            SharedOperatorExecutionError::InvalidInvocation(error) => error.text(),
        }
    }

    pub fn message(&self) -> (r: String)
        ensures
            r@ == self.text(),
    {
        match self {
            SharedOperatorExecutionError::Poisoned => {
                "shared-operator plugin state lock is poisoned".to_owned()
            },
            SharedOperatorExecutionError::MetadataTooLarge { actual, maximum } => {
                let mut r = "shared invocation metadata is ".to_owned();
                text::append_decimal(&mut r, *actual);
                r.append(" bytes, exceeding host limit ");
                text::append_decimal(&mut r, *maximum);
                r
            },
            SharedOperatorExecutionError::TooManyResources { actual, maximum } => {
                let mut r = "shared invocation has ".to_owned();
                text::append_decimal(&mut r, *actual as u64);
                r.append(" resources, exceeding host limit ");
                text::append_decimal(&mut r, *maximum as u64);
                r
            },
            SharedOperatorExecutionError::TooManySyncPoints { actual, maximum } => {
                let mut r = "shared invocation has ".to_owned();
                text::append_decimal(&mut r, *actual as u64);
                r.append(" synchronization points, exceeding host limit ");
                text::append_decimal(&mut r, *maximum as u64);
                r
            },
            SharedOperatorExecutionError::LengthUnsupported => {
                "shared invocation length cannot be represented by the ABI".to_owned()
            },
            SharedOperatorExecutionError::PluginStatus(value) => {
                let mut r = "shared operator plugin returned status ".to_owned();
                text::append_signed_decimal(&mut r, *value);
                r
            },
            SharedOperatorExecutionError::ReceiptTooLarge { actual, capacity } => {
                let mut r = "shared operator receipt length ".to_owned();
                text::append_decimal(&mut r, *actual);
                r.append(" exceeds host capacity ");
                text::append_decimal(&mut r, *capacity);
                r
            },
            SharedOperatorExecutionError::ReceiptCapacityUnsupported(value) => {
                let mut r = "shared operator receipt capacity ".to_owned();
                text::append_decimal(&mut r, *value);
                r.append(" cannot be represented on this host");
                r
            },
            SharedOperatorExecutionError::InvalidInvocation(error) => error.message(),
        }
    }
}

/// The kind that a tag stands for. Tags without a meaning stand for custom operators.
pub open spec fn operator_kind_of(kind: u32) -> OperatorKind {
    if kind == operator_kind::GEMM {
        OperatorKind::Gemm
    } else if kind == operator_kind::ATTENTION {
        OperatorKind::Attention
    } else if kind == operator_kind::QUANTIZE {
        OperatorKind::Quantize
    } else if kind == operator_kind::DEQUANTIZE {
        OperatorKind::Dequantize
    } else if kind == operator_kind::TRANSFORM {
        OperatorKind::Transform
    } else {
        OperatorKind::Custom
    }
}

pub fn map_operator_kind(kind: u32) -> (r: OperatorKind)
    ensures
        r == operator_kind_of(kind),
{
    if kind == operator_kind::GEMM {
        OperatorKind::Gemm
    } else if kind == operator_kind::ATTENTION {
        OperatorKind::Attention
    } else if kind == operator_kind::QUANTIZE {
        OperatorKind::Quantize
    } else if kind == operator_kind::DEQUANTIZE {
        OperatorKind::Dequantize
    } else if kind == operator_kind::TRANSFORM {
        OperatorKind::Transform
    } else {
        OperatorKind::Custom
    }
}

/// The backend that a tag stands for. Tags without a meaning stand for plugins.
pub open spec fn backend_kind_of(kind: u32) -> BackendKind {
    if kind == backend_kind::CPU {
        BackendKind::Cpu
    } else if kind == backend_kind::VULKAN {
        BackendKind::Vulkan
    } else if kind == backend_kind::HIP {
        BackendKind::Hip
    } else if kind == backend_kind::HYBRID {
        BackendKind::Hybrid
    } else {
        BackendKind::Plugin
    }
}

pub fn map_backend_kind(kind: u32) -> (r: BackendKind)
    ensures
        r == backend_kind_of(kind),
{
    if kind == backend_kind::CPU {
        BackendKind::Cpu
    } else if kind == backend_kind::VULKAN {
        BackendKind::Vulkan
    } else if kind == backend_kind::HIP {
        BackendKind::Hip
    } else if kind == backend_kind::HYBRID {
        BackendKind::Hybrid
    } else {
        BackendKind::Plugin
    }
}

/// The kinds of memory handles that a word of tags lists, in the order of their tags. Tags without
/// a meaning are left out.
pub open spec fn memory_kinds_of(bits: u64) -> Seq<ExternalMemoryHandleKind> {
    let none = Seq::<ExternalMemoryHandleKind>::empty();
    (if abi::holds(bits, memory_handle_kind::WIN32_KMT) {
        seq![ExternalMemoryHandleKind::Win32Kmt]
    } else {
        none
    }) + (if abi::holds(bits, memory_handle_kind::WIN32_NT) {
        seq![ExternalMemoryHandleKind::Win32Nt]
    } else {
        none
    }) + (if abi::holds(bits, memory_handle_kind::OPAQUE_FD) {
        seq![ExternalMemoryHandleKind::OpaqueFd]
    } else {
        none
    }) + (if abi::holds(bits, memory_handle_kind::DMA_BUF) {
        seq![ExternalMemoryHandleKind::DmaBuf]
    } else {
        none
    })
}

pub fn map_memory_kinds(bits: u64) -> (r: Vec<ExternalMemoryHandleKind>)
    ensures
        r@ == memory_kinds_of(bits),
{
    let mut kinds: Vec<ExternalMemoryHandleKind> = Vec::new();
    if abi::has_bit(bits, memory_handle_kind::WIN32_KMT) {
        kinds.push(ExternalMemoryHandleKind::Win32Kmt);
    }
    if abi::has_bit(bits, memory_handle_kind::WIN32_NT) {
        kinds.push(ExternalMemoryHandleKind::Win32Nt);
    }
    if abi::has_bit(bits, memory_handle_kind::OPAQUE_FD) {
        kinds.push(ExternalMemoryHandleKind::OpaqueFd);
    }
    if abi::has_bit(bits, memory_handle_kind::DMA_BUF) {
        kinds.push(ExternalMemoryHandleKind::DmaBuf);
    }
    assert(kinds@ =~= memory_kinds_of(bits));
    kinds
}

/// The kinds of synchronization handles that a word of tags lists, in the order of their tags.
/// Tags without a meaning are left out.
pub open spec fn sync_kinds_of(bits: u64) -> Seq<ExternalSyncHandleKind> {
    let none = Seq::<ExternalSyncHandleKind>::empty();
    (if abi::holds(bits, sync_handle_kind::WIN32_OPAQUE) {
        seq![ExternalSyncHandleKind::Win32Opaque]
    } else {
        none
    }) + (if abi::holds(bits, sync_handle_kind::OPAQUE_FD) {
        seq![ExternalSyncHandleKind::OpaqueFd]
    } else {
        none
    }) + (if abi::holds(bits, sync_handle_kind::TIMELINE) {
        seq![ExternalSyncHandleKind::Timeline]
    } else {
        none
    })
}

pub fn map_sync_kinds(bits: u64) -> (r: Vec<ExternalSyncHandleKind>)
    ensures
        r@ == sync_kinds_of(bits),
{
    let mut kinds: Vec<ExternalSyncHandleKind> = Vec::new();
    if abi::has_bit(bits, sync_handle_kind::WIN32_OPAQUE) {
        kinds.push(ExternalSyncHandleKind::Win32Opaque);
    }
    if abi::has_bit(bits, sync_handle_kind::OPAQUE_FD) {
        kinds.push(ExternalSyncHandleKind::OpaqueFd);
    }
    if abi::has_bit(bits, sync_handle_kind::TIMELINE) {
        kinds.push(ExternalSyncHandleKind::Timeline);
    }
    assert(kinds@ =~= sync_kinds_of(bits));
    kinds
}

/// The tag of a kind of memory handle.
pub open spec fn memory_tag(kind: ExternalMemoryHandleKind) -> u32 {
    match kind {
        ExternalMemoryHandleKind::Win32Kmt => memory_handle_kind::WIN32_KMT,
        ExternalMemoryHandleKind::Win32Nt => memory_handle_kind::WIN32_NT,
        ExternalMemoryHandleKind::OpaqueFd => memory_handle_kind::OPAQUE_FD,
        ExternalMemoryHandleKind::DmaBuf => memory_handle_kind::DMA_BUF,
        ExternalMemoryHandleKind::Custom(value) => value,
    }
}

pub fn memory_kind_to_raw(kind: ExternalMemoryHandleKind) -> (r: u32)
    ensures
        r == memory_tag(kind),
{
    match kind {
        ExternalMemoryHandleKind::Win32Kmt => memory_handle_kind::WIN32_KMT,
        ExternalMemoryHandleKind::Win32Nt => memory_handle_kind::WIN32_NT,
        ExternalMemoryHandleKind::OpaqueFd => memory_handle_kind::OPAQUE_FD,
        ExternalMemoryHandleKind::DmaBuf => memory_handle_kind::DMA_BUF,
        ExternalMemoryHandleKind::Custom(value) => value,
    }
}

/// The tag of a kind of synchronization handle.
pub open spec fn sync_tag(kind: ExternalSyncHandleKind) -> u32 {
    match kind {
        ExternalSyncHandleKind::Win32Opaque => sync_handle_kind::WIN32_OPAQUE,
        ExternalSyncHandleKind::OpaqueFd => sync_handle_kind::OPAQUE_FD,
        ExternalSyncHandleKind::Timeline => sync_handle_kind::TIMELINE,
        ExternalSyncHandleKind::Custom(value) => value,
    }
}

pub fn sync_kind_to_raw(kind: ExternalSyncHandleKind) -> (r: u32)
    ensures
        r == sync_tag(kind),
{
    match kind {
        ExternalSyncHandleKind::Win32Opaque => sync_handle_kind::WIN32_OPAQUE,
        ExternalSyncHandleKind::OpaqueFd => sync_handle_kind::OPAQUE_FD,
        ExternalSyncHandleKind::Timeline => sync_handle_kind::TIMELINE,
        ExternalSyncHandleKind::Custom(value) => value,
    }
}

/// A kind of memory handle that has a name is listed where the bit of its tag is set, and only
/// there. Custom kinds are never listed.
pub proof fn memory_kinds_are_listed_by_their_tags(bits: u64, kind: ExternalMemoryHandleKind)
    ensures
        memory_kinds_of(bits).contains(kind) <==> !(kind is Custom) && abi::holds(
            bits,
            memory_tag(kind),
        ),
{
    let kinds = memory_kinds_of(bits);
    let kmt: int = if abi::holds(bits, memory_handle_kind::WIN32_KMT) { 1 } else { 0 };
    let nt: int = if abi::holds(bits, memory_handle_kind::WIN32_NT) { 1 } else { 0 };
    let fd: int = if abi::holds(bits, memory_handle_kind::OPAQUE_FD) { 1 } else { 0 };
    let dma: int = if abi::holds(bits, memory_handle_kind::DMA_BUF) { 1 } else { 0 };
    assert(kinds.len() == kmt + nt + fd + dma);
    if !(kind is Custom) && abi::holds(bits, memory_tag(kind)) {
        let i: int = match kind {
            ExternalMemoryHandleKind::Win32Kmt => 0,
            ExternalMemoryHandleKind::Win32Nt => kmt,
            ExternalMemoryHandleKind::OpaqueFd => kmt + nt,
            _ => kmt + nt + fd,
        };
        assert(kinds[i] == kind);
    }
}

/// A kind of synchronization handle that has a name is listed where the bit of its tag is set,
/// and only there. Custom kinds are never listed.
pub proof fn sync_kinds_are_listed_by_their_tags(bits: u64, kind: ExternalSyncHandleKind)
    ensures
        sync_kinds_of(bits).contains(kind) <==> !(kind is Custom) && abi::holds(
            bits,
            sync_tag(kind),
        ),
{
    let kinds = sync_kinds_of(bits);
    let win: int = if abi::holds(bits, sync_handle_kind::WIN32_OPAQUE) { 1 } else { 0 };
    let fd: int = if abi::holds(bits, sync_handle_kind::OPAQUE_FD) { 1 } else { 0 };
    let line: int = if abi::holds(bits, sync_handle_kind::TIMELINE) { 1 } else { 0 };
    assert(kinds.len() == win + fd + line);
    if !(kind is Custom) && abi::holds(bits, sync_tag(kind)) {
        let i: int = match kind {
            ExternalSyncHandleKind::Win32Opaque => 0,
            ExternalSyncHandleKind::OpaqueFd => win,
            _ => win + fd,
        };
        assert(kinds[i] == kind);
    }
}

/// The tag of a kind of access.
pub open spec fn access_tag(access: ResourceAccess) -> u32 {
    match access {
        ResourceAccess::ReadOnly => resource_access::READ_ONLY,
        ResourceAccess::WriteOnly => resource_access::WRITE_ONLY,
        ResourceAccess::ReadWrite => resource_access::READ_WRITE,
    }
}

/// Whether a region stands for another on the plugin's side of the boundary.
pub open spec fn is_region_for(
    resource: SharedResourceRegion,
    region: VrbSharedResourceRegionV1,
) -> bool {
    &&& region.struct_size == shared_operator_plugin_api::resource_region_layout().size()
    &&& region.handle_kind == memory_tag(resource.handle_kind)
    &&& region.access == access_tag(resource.access)
    &&& region.reserved0 == 0
    &&& region.handle == resource.handle
    &&& region.allocation_size == resource.allocation_size
    &&& region.offset == resource.offset
    &&& region.length == resource.length
    &&& forall|i: int| 0 <= i < 4 ==> region.reserved@[i] == 0
}

pub fn map_resource_to_abi(resource: SharedResourceRegion) -> (r: VrbSharedResourceRegionV1)
    ensures
        is_region_for(resource, r),
{
    VrbSharedResourceRegionV1 {
        struct_size: expected_resource_region_struct_size(),
        handle_kind: memory_kind_to_raw(resource.handle_kind),
        access: match resource.access {
            ResourceAccess::ReadOnly => resource_access::READ_ONLY,
            ResourceAccess::WriteOnly => resource_access::WRITE_ONLY,
            ResourceAccess::ReadWrite => resource_access::READ_WRITE,
        },
        reserved0: 0,
        handle: resource.handle,
        allocation_size: resource.allocation_size,
        offset: resource.offset,
        length: resource.length,
        reserved: [0; 4],
    }
}

/// Whether a point stands for another on the plugin's side of the boundary.
pub open spec fn is_point_for(sync: SharedSyncPoint, point: VrbSharedSyncPointV1) -> bool {
    &&& point.struct_size == shared_operator_plugin_api::sync_point_layout().size()
    &&& point.handle_kind == sync_tag(sync.handle_kind)
    &&& point.handle == sync.handle
    &&& point.value == sync.value
    &&& point.flags == 0
    &&& forall|i: int| 0 <= i < 4 ==> point.reserved@[i] == 0
}

pub fn map_sync_to_abi(sync: SharedSyncPoint) -> (r: VrbSharedSyncPointV1)
    ensures
        is_point_for(sync, r),
{
    VrbSharedSyncPointV1 {
        struct_size: expected_sync_point_struct_size(),
        handle_kind: sync_kind_to_raw(sync.handle_kind),
        handle: sync.handle,
        value: sync.value,
        flags: 0,
        reserved: [0; 4],
    }
}

/// What crosses the boundary is told apart there: regions with the same fields stand for regions
/// that differ at most in how their kind is named.
pub proof fn the_boundary_keeps_regions_apart(
    a: SharedResourceRegion,
    b: SharedResourceRegion,
    region: VrbSharedResourceRegionV1,
)
    requires
        is_region_for(a, region),
        is_region_for(b, region),
    ensures
        memory_tag(a.handle_kind) == memory_tag(b.handle_kind),
        a.access == b.access,
        a.handle == b.handle,
        a.allocation_size == b.allocation_size,
        a.offset == b.offset,
        a.length == b.length,
{
}

/// The first thing that is wrong with a plugin's description of itself, under the name that it
/// gives itself.
pub open spec fn descriptor_fault(
    descriptor: VrbSharedOperatorPluginV1,
    name: Seq<char>,
    policy: SharedOperatorLoadPolicy,
) -> Option<SharedOperatorLoadError> {
    let expected = shared_operator_plugin_api::plugin_layout().size();
    if descriptor.abi_version != VRB_SHARED_OPERATOR_PLUGIN_ABI_VERSION {
        Some(
            SharedOperatorLoadError::AbiVersion {
                actual: descriptor.abi_version,
                expected: VRB_SHARED_OPERATOR_PLUGIN_ABI_VERSION,
            },
        )
    } else if descriptor.struct_size < expected {
        Some(
            SharedOperatorLoadError::DescriptorTooSmall {
                actual: descriptor.struct_size,
                expected,
            },
        )
    } else if name.len() == 0 {
        Some(SharedOperatorLoadError::EmptyPluginName)
    } else if descriptor.operator_count == 0 {
        Some(SharedOperatorLoadError::NoOperators)
    } else if descriptor.operator_count > policy.max_operators {
        Some(
            SharedOperatorLoadError::TooManyOperators {
                actual: descriptor.operator_count,
                maximum: policy.max_operators,
            },
        )
    } else {
        None
    }
}

/// Checks a plugin's description of itself under the name that it gives itself.
pub fn check_descriptor(
    descriptor: &VrbSharedOperatorPluginV1,
    name: &str,
    policy: SharedOperatorLoadPolicy,
) -> (r: Result<(), SharedOperatorLoadError>)
    ensures
        match r {
            Ok(_) => descriptor_fault(*descriptor, name@, policy) is None,
            Err(error) => descriptor_fault(*descriptor, name@, policy) == Some(error),
        },
{
    if descriptor.abi_version != VRB_SHARED_OPERATOR_PLUGIN_ABI_VERSION {
        return Err(
            SharedOperatorLoadError::AbiVersion {
                actual: descriptor.abi_version,
                expected: VRB_SHARED_OPERATOR_PLUGIN_ABI_VERSION,
            },
        );
    }
    let expected: u32 = expected_plugin_struct_size();
    if descriptor.struct_size < expected {
        return Err(
            SharedOperatorLoadError::DescriptorTooSmall {
                actual: descriptor.struct_size,
                expected,
            },
        );
    }
    if name.is_empty() {
        return Err(SharedOperatorLoadError::EmptyPluginName);
    }
    if descriptor.operator_count == 0 {
        return Err(SharedOperatorLoadError::NoOperators);
    }
    if descriptor.operator_count > policy.max_operators {
        return Err(
            SharedOperatorLoadError::TooManyOperators {
                actual: descriptor.operator_count,
                maximum: policy.max_operators,
            },
        );
    }
    Ok(())
}

/// Checks a plugin's description of itself.
pub fn validate_plugin_descriptor(
    descriptor: &VrbSharedOperatorPluginV1,
    policy: SharedOperatorLoadPolicy,
) -> (r: Result<(), SharedOperatorLoadError>)
    ensures
        match r {
            Ok(_) => descriptor_fault(
                *descriptor,
                abi::name_in(descriptor.name@),
                policy,
            ) is None,
            Err(error) => descriptor_fault(
                *descriptor,
                abi::name_in(descriptor.name@),
                policy,
            ) == Some(error),
        },
{
    let name = abi::abi_chars_to_string(&descriptor.name);
    check_descriptor(descriptor, name.as_str(), policy)
}

/// What is wrong with a combination of capabilities, in words: zero-copy is a claim about shared
/// resources, and shared resources and points need at least one kind of handle each.
pub open spec fn capability_fault(
    bits: u64,
    memory_kind_bits: u64,
    sync_kind_bits: u64,
) -> Option<&'static str> {
    if bits & capability::PROVEN_ZERO_COPY != 0 && bits & capability::EXTERNAL_RESOURCE == 0 {
        Some("proven zero-copy requires external-resource capability")
    } else if bits & capability::EXTERNAL_RESOURCE != 0 && memory_kind_bits == 0 {
        Some("external-resource capability requires at least one memory-handle kind")
    } else if bits & capability::EXTERNAL_SYNCHRONIZATION != 0 && sync_kind_bits == 0 {
        Some("external-synchronization capability requires at least one sync-handle kind")
    } else {
        None
    }
}

pub fn validate_capabilities(operator_id: u32, bits: u64, info: &VrbSharedOperatorInfoV1) -> (r:
    Result<(), SharedOperatorLoadError>)
    ensures
        match r {
            Ok(_) => capability_fault(bits, info.memory_kind_bits, info.sync_kind_bits) is None,
            Err(error) => {
                let fault = capability_fault(bits, info.memory_kind_bits, info.sync_kind_bits);
                &&& fault is Some
                &&& error == SharedOperatorLoadError::InvalidCapabilities {
                    operator_id,
                    detail: fault->0,
                }
            },
        },
{
    if bits & capability::PROVEN_ZERO_COPY != 0 && bits & capability::EXTERNAL_RESOURCE == 0 {
        return Err(
            SharedOperatorLoadError::InvalidCapabilities {
                operator_id,
                detail: "proven zero-copy requires external-resource capability",
            },
        );
    }
    if bits & capability::EXTERNAL_RESOURCE != 0 && info.memory_kind_bits == 0 {
        return Err(
            SharedOperatorLoadError::InvalidCapabilities {
                operator_id,
                detail: "external-resource capability requires at least one memory-handle kind",
            },
        );
    }
    if bits & capability::EXTERNAL_SYNCHRONIZATION != 0 && info.sync_kind_bits == 0 {
        return Err(
            SharedOperatorLoadError::InvalidCapabilities {
                operator_id,
                detail: "external-synchronization capability requires at least one sync-handle kind",
            },
        );
    }
    Ok(())
}

/// An operator of a loaded plugin.
#[derive(Debug, PartialEq, Eq)]
pub struct DynamicSharedOperator {
    pub plugin_name: String,
    pub policy: SharedOperatorLoadPolicy,
    pub operator_id: u32,
    pub name: String,
    pub capabilities: SharedOperatorCapabilities,
    pub raw_capability_bits: u64,
}

/// Whether one of the operators has the id.
pub open spec fn has_id(operators: Seq<DynamicSharedOperator>, operator_id: u32) -> bool {
    exists|i: int|
        #![trigger operators[i]]
        0 <= i < operators.len() && operators[i].operator_id == operator_id
}

/// Whether no two operators have the same id.
pub open spec fn ids_are_distinct(operators: Seq<DynamicSharedOperator>) -> bool {
    forall|i: int, j: int|
        #![trigger operators[i], operators[j]]
        0 <= i < j < operators.len() ==> operators[i].operator_id != operators[j].operator_id
}

/// The first thing that is wrong with what a plugin answers about its operator `index`. `bits`
/// are the capabilities that the plugin declares for all its operators.
pub open spec fn operator_fault(
    found: Seq<DynamicSharedOperator>,
    bits: u64,
    index: u32,
    query_status: i32,
    info: VrbSharedOperatorInfoV1,
    name: Seq<char>,
) -> Option<SharedOperatorLoadError> {
    let expected = shared_operator_plugin_api::operator_info_layout().size();
    let fault = capability_fault(
        info.capability_bits | bits,
        info.memory_kind_bits,
        info.sync_kind_bits,
    );
    if query_status != status::OK {
        Some(SharedOperatorLoadError::QueryStatus { index, status: query_status })
    } else if info.struct_size < expected {
        Some(
            SharedOperatorLoadError::OperatorDescriptorTooSmall {
                index,
                actual: info.struct_size,
                expected,
            },
        )
    } else if name.len() == 0 {
        Some(SharedOperatorLoadError::EmptyOperatorName { index })
    } else if has_id(found, info.operator_id) {
        Some(SharedOperatorLoadError::DuplicateOperatorId(info.operator_id))
    } else if fault is Some {
        Some(
            SharedOperatorLoadError::InvalidCapabilities {
                operator_id: info.operator_id,
                detail: fault->0,
            },
        )
    } else {
        None
    }
}

fn lists_id(operators: &Vec<DynamicSharedOperator>, operator_id: u32) -> (r: bool)
    ensures
        r == has_id(operators@, operator_id),
{
    let mut i: usize = 0;
    while i < operators.len()
        invariant
            i <= operators@.len(),
            forall|j: int|
                #![trigger operators@[j]]
                0 <= j < i ==> operators@[j].operator_id != operator_id,
        decreases operators@.len() - i,
    {
        if operators[i].operator_id == operator_id {
            assert(operators@[i as int].operator_id == operator_id);
            return true;
        }
        i = i + 1;
    }
    false
}

/// The operators of a plugin while the host asks for them one by one.
pub struct SharedOperatorDiscovery {
    plugin_name: String,
    operator_count: u32,
    capability_bits: u64,
    policy: SharedOperatorLoadPolicy,
    found: Vec<DynamicSharedOperator>,
}

impl SharedOperatorDiscovery {
    pub closed spec fn plugin(&self) -> Seq<char> {
        self.plugin_name@
    }

    pub closed spec fn count(&self) -> u32 {
        self.operator_count
    }

    pub closed spec fn shared_bits(&self) -> u64 {
        self.capability_bits
    }

    pub closed spec fn limits(&self) -> SharedOperatorLoadPolicy {
        self.policy
    }

    pub closed spec fn found(&self) -> Seq<DynamicSharedOperator> {
        self.found@
    }

    /// What stays the same while operators are found.
    pub open spec fn same_plugin(&self, other: &SharedOperatorDiscovery) -> bool {
        &&& self.plugin() == other.plugin()
        &&& self.count() == other.count()
        &&& self.shared_bits() == other.shared_bits()
        &&& self.limits() == other.limits()
    }

    /// No more operators than announced, each id once, and each operator one of this plugin's.
    pub open spec fn wf(&self) -> bool {
        &&& self.found().len() <= self.count()
        &&& ids_are_distinct(self.found())
        &&& forall|i: int|
            #![trigger self.found()[i]]
            0 <= i < self.found().len() ==> self.fits(self.found()[i])
    }

    /// Whether an operator is one of this plugin's: it has a name, the plugin's name, the host's
    /// limits and all capabilities that the plugin declares for all, and it claims zero-copy only
    /// together with shared resources.
    pub open spec fn fits(&self, operator: DynamicSharedOperator) -> bool {
        &&& operator.plugin_name@ == self.plugin()
        &&& operator.policy == self.limits()
        &&& operator.name@.len() > 0
        &&& operator.raw_capability_bits & self.shared_bits() == self.shared_bits()
        &&& operator.capabilities.proven_zero_copy ==> operator.raw_capability_bits
            & capability::EXTERNAL_RESOURCE != 0
    }

    /// Whether an operator is what the plugin answered.
    pub open spec fn is_answered(
        &self,
        info: VrbSharedOperatorInfoV1,
        name: Seq<char>,
        operator: DynamicSharedOperator,
    ) -> bool {
        let bits = info.capability_bits | self.shared_bits();
        &&& operator.plugin_name@ == self.plugin()
        &&& operator.policy == self.limits()
        &&& operator.operator_id == info.operator_id
        &&& operator.name@ == name
        &&& operator.raw_capability_bits == bits
        &&& operator.capabilities.kind == operator_kind_of(info.operator_kind)
        &&& operator.capabilities.backend == backend_kind_of(info.backend_kind)
        &&& operator.capabilities.memory_kinds@ == memory_kinds_of(info.memory_kind_bits)
        &&& operator.capabilities.sync_kinds@ == sync_kinds_of(info.sync_kind_bits)
        &&& operator.capabilities.supports_external_synchronization == (bits
            & capability::EXTERNAL_SYNCHRONIZATION != 0)
        &&& operator.capabilities.proven_zero_copy == (bits & capability::PROVEN_ZERO_COPY != 0)
    }

    /// What is wrong with a plugin's description of itself or, where nothing is, which of its
    /// callbacks is missing.
    pub open spec fn plugin_fault(
        descriptor: VrbSharedOperatorPluginV1,
        name: Seq<char>,
        policy: SharedOperatorLoadPolicy,
    ) -> Option<SharedOperatorLoadError> {
        let fault = descriptor_fault(descriptor, name, policy);
        if fault is Some {
            fault
        } else if descriptor.query_operator == 0 {
            Some(SharedOperatorLoadError::MissingQueryOperator)
        } else if descriptor.execute == 0 {
            Some(SharedOperatorLoadError::MissingExecute)
        } else {
            None
        }
    }

    /// Starts with a plugin whose description of itself is in order.
    pub fn begin(
        descriptor: &VrbSharedOperatorPluginV1,
        policy: SharedOperatorLoadPolicy,
    ) -> (r: Result<Self, SharedOperatorLoadError>)
        ensures
            ({
                let name = abi::name_in(descriptor.name@);
                match r {
                    Ok(discovery) => {
                        &&& Self::plugin_fault(*descriptor, name, policy) is None
                        &&& discovery.wf()
                        &&& discovery.found().len() == 0
                        &&& discovery.plugin() == name
                        &&& discovery.count() == descriptor.operator_count
                        &&& discovery.shared_bits() == descriptor.capability_bits
                        &&& discovery.limits() == policy
                    },
                    Err(error) => Self::plugin_fault(*descriptor, name, policy) == Some(error),
                }
            }),
    {
        match validate_plugin_descriptor(descriptor, policy) {
            Ok(_) => {},
            Err(error) => {
                return Err(error);
            },
        }
        if descriptor.query_operator == 0 {
            return Err(SharedOperatorLoadError::MissingQueryOperator);
        }
        if descriptor.execute == 0 {
            return Err(SharedOperatorLoadError::MissingExecute);
        }
        Ok(
            SharedOperatorDiscovery {
                plugin_name: abi::abi_chars_to_string(&descriptor.name),
                operator_count: descriptor.operator_count,
                capability_bits: descriptor.capability_bits,
                policy,
                found: Vec::new(),
            },
        )
    }

    /// The operator to ask for next, until all that were announced are found.
    pub fn next_index(&self) -> (r: Option<u32>)
        requires
            self.wf(),
        ensures
            match r {
                Some(index) => index == self.found().len() && index < self.count(),
                None => self.found().len() == self.count(),
            },
    {
        let index: u32 = self.found.len() as u32;
        if index < self.operator_count {
            Some(index)
        } else {
            None
        }
    }

    /// Takes the answer about the next operator, under the name that it gives.
    pub fn accept_named(
        &mut self,
        query_status: i32,
        info: &VrbSharedOperatorInfoV1,
        name: String,
    ) -> (r: Result<(), SharedOperatorLoadError>)
        requires
            old(self).wf(),
            old(self).found().len() < old(self).count(),
        ensures
            final(self).wf(),
            final(self).same_plugin(old(self)),
            ({
                let fault = operator_fault(
                    old(self).found(),
                    old(self).shared_bits(),
                    old(self).found().len() as u32,
                    query_status,
                    *info,
                    name@,
                );
                match r {
                    Ok(_) => {
                        &&& fault is None
                        &&& final(self).found().len() == old(self).found().len() + 1
                        &&& final(self).found().drop_last() == old(self).found()
                        &&& old(self).is_answered(*info, name@, final(self).found().last())
                    },
                    Err(error) => fault == Some(error) && final(self).found()
                        == old(self).found(),
                }
            }),
    {
        let index: u32 = self.found.len() as u32;
        if query_status != status::OK {
            return Err(SharedOperatorLoadError::QueryStatus { index, status: query_status });
        }
        let expected: u32 = expected_operator_info_struct_size();
        if info.struct_size < expected {
            return Err(
                SharedOperatorLoadError::OperatorDescriptorTooSmall {
                    index,
                    actual: info.struct_size,
                    expected,
                },
            );
        }
        if name.as_str().is_empty() {
            return Err(SharedOperatorLoadError::EmptyOperatorName { index });
        }
        if lists_id(&self.found, info.operator_id) {
            return Err(SharedOperatorLoadError::DuplicateOperatorId(info.operator_id));
        }
        let raw_capability_bits: u64 = info.capability_bits | self.capability_bits;
        match validate_capabilities(info.operator_id, raw_capability_bits, info) {
            Ok(_) => {},
            Err(error) => {
                return Err(error);
            },
        }
        let ghost own = info.capability_bits;
        let ghost all = self.capability_bits;
        assert((own | all) & all == all) by (bit_vector);
        let operator = DynamicSharedOperator {
            plugin_name: self.plugin_name.clone(),
            policy: self.policy,
            operator_id: info.operator_id,
            name,
            capabilities: SharedOperatorCapabilities {
                kind: map_operator_kind(info.operator_kind),
                backend: map_backend_kind(info.backend_kind),
                memory_kinds: map_memory_kinds(info.memory_kind_bits),
                sync_kinds: map_sync_kinds(info.sync_kind_bits),
                supports_external_synchronization: raw_capability_bits
                    & capability::EXTERNAL_SYNCHRONIZATION != 0,
                proven_zero_copy: raw_capability_bits & capability::PROVEN_ZERO_COPY != 0,
            },
            raw_capability_bits,
        };
        self.found.push(operator);
        proof {
            assert(self.found().drop_last() =~= old(self).found());
            assert forall|i: int|
                #![trigger self.found()[i]]
                0 <= i < self.found().len() implies self.fits(self.found()[i]) by {
                if i < old(self).found().len() {
                    assert(old(self).fits(old(self).found()[i]));
                }
            }
        }
        Ok(())
    }

    /// Takes the answer about the next operator.
    pub fn accept(&mut self, query_status: i32, info: &VrbSharedOperatorInfoV1) -> (r: Result<
        (),
        SharedOperatorLoadError,
    >)
        requires
            old(self).wf(),
            old(self).found().len() < old(self).count(),
        ensures
            final(self).wf(),
            final(self).same_plugin(old(self)),
            ({
                let name = abi::name_in(info.name@);
                let fault = operator_fault(
                    old(self).found(),
                    old(self).shared_bits(),
                    old(self).found().len() as u32,
                    query_status,
                    *info,
                    name,
                );
                match r {
                    Ok(_) => {
                        &&& fault is None
                        &&& final(self).found().len() == old(self).found().len() + 1
                        &&& final(self).found().drop_last() == old(self).found()
                        &&& old(self).is_answered(*info, name, final(self).found().last())
                    },
                    Err(error) => fault == Some(error) && final(self).found()
                        == old(self).found(),
                }
            }),
    {
        let name = abi::abi_chars_to_string(&info.name);
        self.accept_named(query_status, info, name)
    }

    /// The plugin's name and all its operators, in the order in which they were asked for.
    pub fn finish(self) -> (r: (String, Vec<DynamicSharedOperator>))
        requires
            self.wf(),
            self.found().len() == self.count(),
        ensures
            r.0@ == self.plugin(),
            r.1@ == self.found(),
            r.1@.len() == self.count(),
            ids_are_distinct(r.1@),
            forall|i: int| #![trigger r.1@[i]] 0 <= i < r.1@.len() ==> self.fits(r.1@[i]),
    {
        (self.plugin_name, self.found)
    }
}

/// Zero-copy is claimed only of operators that take shared resources and name at least one kind
/// of memory handle.
pub proof fn zero_copy_needs_shared_resources(
    found: Seq<DynamicSharedOperator>,
    bits: u64,
    index: u32,
    query_status: i32,
    info: VrbSharedOperatorInfoV1,
    name: Seq<char>,
)
    requires
        operator_fault(found, bits, index, query_status, info, name) is None,
        (info.capability_bits | bits) & capability::PROVEN_ZERO_COPY != 0,
    ensures
        (info.capability_bits | bits) & capability::EXTERNAL_RESOURCE != 0,
        info.memory_kind_bits != 0,
{
}

/// An invocation on the plugin's side of the boundary.
#[derive(Debug, PartialEq, Eq)]
pub struct PreparedInvocation {
    pub metadata_len: u64,
    pub resources: Vec<VrbSharedResourceRegionV1>,
    pub waits: Vec<VrbSharedSyncPointV1>,
    pub signals: Vec<VrbSharedSyncPointV1>,
    pub receipt_capacity: usize,
}

/// Whether regions stand for others one by one.
pub open spec fn are_regions_for(
    resources: Seq<SharedResourceRegion>,
    regions: Seq<VrbSharedResourceRegionV1>,
) -> bool {
    &&& regions.len() == resources.len()
    &&& forall|i: int|
        #![trigger regions[i]]
        0 <= i < regions.len() ==> is_region_for(resources[i], regions[i])
}

/// Whether points stand for others one by one.
pub open spec fn are_points_for(
    syncs: Seq<SharedSyncPoint>,
    points: Seq<VrbSharedSyncPointV1>,
) -> bool {
    &&& points.len() == syncs.len()
    &&& forall|i: int|
        #![trigger points[i]]
        0 <= i < points.len() ==> is_point_for(syncs[i], points[i])
}

fn map_resources(resources: &[SharedResourceRegion]) -> (r: Vec<VrbSharedResourceRegionV1>)
    ensures
        are_regions_for(resources@, r@),
{
    let mut regions: Vec<VrbSharedResourceRegionV1> = Vec::new();
    let mut i: usize = 0;
    while i < resources.len()
        invariant
            i <= resources@.len(),
            regions@.len() == i,
            forall|j: int|
                #![trigger regions@[j]]
                0 <= j < i ==> is_region_for(resources@[j], regions@[j]),
        decreases resources@.len() - i,
    {
        regions.push(map_resource_to_abi(resources[i]));
        i = i + 1;
    }
    regions
}

fn map_points(syncs: &[SharedSyncPoint]) -> (r: Vec<VrbSharedSyncPointV1>)
    ensures
        are_points_for(syncs@, r@),
{
    let mut points: Vec<VrbSharedSyncPointV1> = Vec::new();
    let mut i: usize = 0;
    while i < syncs.len()
        invariant
            i <= syncs@.len(),
            points@.len() == i,
            forall|j: int|
                #![trigger points@[j]]
                0 <= j < i ==> is_point_for(syncs@[j], points@[j]),
        decreases syncs@.len() - i,
    {
        points.push(map_sync_to_abi(syncs[i]));
        i = i + 1;
    }
    points
}

/// Which of the host's limits an invocation exceeds first.
pub open spec fn limit_fault(
    policy: SharedOperatorLoadPolicy,
    metadata: nat,
    resources: nat,
    points: nat,
) -> Option<SharedOperatorExecutionError> {
    if metadata > policy.max_metadata_bytes {
        Some(
            SharedOperatorExecutionError::MetadataTooLarge {
                actual: metadata as u64,
                maximum: policy.max_metadata_bytes,
            },
        )
    } else if resources > u32::MAX {
        Some(SharedOperatorExecutionError::LengthUnsupported)
    } else if resources > policy.max_resources {
        Some(
            SharedOperatorExecutionError::TooManyResources {
                actual: resources as u32,
                maximum: policy.max_resources,
            },
        )
    } else if points > u32::MAX {
        Some(SharedOperatorExecutionError::LengthUnsupported)
    } else if points > policy.max_sync_points {
        Some(
            SharedOperatorExecutionError::TooManySyncPoints {
                actual: points as u32,
                maximum: policy.max_sync_points,
            },
        )
    } else if policy.max_receipt_bytes > usize::MAX {
        Some(SharedOperatorExecutionError::ReceiptCapacityUnsupported(policy.max_receipt_bytes))
    } else {
        None
    }
}

impl PreparedInvocation {
    /// Whether this is the invocation on the plugin's side.
    pub open spec fn stands_for(
        &self,
        invocation: SharedOperatorInvocation<'_>,
        policy: SharedOperatorLoadPolicy,
    ) -> bool {
        &&& self.metadata_len == invocation.metadata@.len()
        &&& are_regions_for(invocation.resources@, self.resources@)
        &&& are_points_for(invocation.waits@, self.waits@)
        &&& are_points_for(invocation.signals@, self.signals@)
        &&& self.receipt_capacity == policy.max_receipt_bytes
    }
}

impl DynamicSharedOperator {
    #[must_use]
    pub fn operator_id(&self) -> (r: u32)
        ensures
            r == self.operator_id,
    {
        self.operator_id
    }

    #[must_use]
    pub fn raw_capability_bits(&self) -> (r: u64)
        ensures
            r == self.raw_capability_bits,
    {
        self.raw_capability_bits
    }

    #[must_use]
    pub fn plugin_name(&self) -> (r: &str)
        ensures
            r@ == self.plugin_name@,
    {
        self.plugin_name.as_str()
    }

    pub fn name(&self) -> (r: &str)
        ensures
            r@ == self.name@,
    {
        self.name.as_str()
    }

    pub fn capabilities(&self) -> (r: SharedOperatorCapabilities)
        ensures
            shared_operators::same_capabilities(self.capabilities, r),
    {
        self.capabilities.clone()
    }

    /// Checks an invocation against its own rules and the host's limits and brings it to the
    /// plugin's side of the boundary.
    pub fn prepare(&self, invocation: &SharedOperatorInvocation<'_>) -> (r: Result<
        PreparedInvocation,
        SharedOperatorExecutionError,
    >)
        ensures
            ({
                let fault = limit_fault(
                    self.policy,
                    invocation.metadata@.len(),
                    invocation.resources@.len(),
                    invocation.waits@.len() + invocation.signals@.len(),
                );
                match r {
                    Ok(prepared) => {
                        &&& invocation.is_valid()
                        &&& fault is None
                        &&& prepared.stands_for(*invocation, self.policy)
                    },
                    Err(error) => if invocation.is_valid() {
                        fault == Some(error)
                    } else {
                        &&& error matches SharedOperatorExecutionError::InvalidInvocation(reason)
                        &&& invocation.is_refused_with(reason)
                    },
                }
            }),
    {
        match invocation.validate() {
            Ok(_) => {},
            Err(error) => {
                return Err(SharedOperatorExecutionError::InvalidInvocation(error));
            },
        }
        let metadata: usize = invocation.metadata.len();
        let resources: usize = invocation.resources.len();
        let waits: usize = invocation.waits.len();
        let signals: usize = invocation.signals.len();
        let metadata_len: u64 = metadata as u64;
        if metadata_len > self.policy.max_metadata_bytes {
            return Err(
                SharedOperatorExecutionError::MetadataTooLarge {
                    actual: metadata_len,
                    maximum: self.policy.max_metadata_bytes,
                },
            );
        }
        if resources as u64 > u32::MAX as u64 {
            return Err(SharedOperatorExecutionError::LengthUnsupported);
        }
        let resource_count: u32 = resources as u32;
        if resource_count > self.policy.max_resources {
            return Err(
                SharedOperatorExecutionError::TooManyResources {
                    actual: resource_count,
                    maximum: self.policy.max_resources,
                },
            );
        }
        let points: usize = match waits.checked_add(signals) {
            Some(points) => points,
            None => {
                return Err(SharedOperatorExecutionError::LengthUnsupported);
            },
        };
        if points as u64 > u32::MAX as u64 {
            return Err(SharedOperatorExecutionError::LengthUnsupported);
        }
        let sync_count: u32 = points as u32;
        if sync_count > self.policy.max_sync_points {
            return Err(
                SharedOperatorExecutionError::TooManySyncPoints {
                    actual: sync_count,
                    maximum: self.policy.max_sync_points,
                },
            );
        }
        if self.policy.max_receipt_bytes > usize::MAX as u64 {
            return Err(
                SharedOperatorExecutionError::ReceiptCapacityUnsupported(
                    self.policy.max_receipt_bytes,
                ),
            );
        }
        Ok(
            PreparedInvocation {
                metadata_len,
                resources: map_resources(invocation.resources),
                waits: map_points(invocation.waits),
                signals: map_points(invocation.signals),
                receipt_capacity: self.policy.max_receipt_bytes as usize,
            },
        )
    }

    /// What the operator is asked to run: the prepared invocation at these addresses. What is
    /// empty has no address.
    pub fn execution_request(
        &self,
        prepared: &PreparedInvocation,
        metadata_ptr: usize,
        resources_ptr: usize,
        waits_ptr: usize,
        signals_ptr: usize,
        receipt_ptr: usize,
        receipt_len: usize,
    ) -> (r: VrbSharedOperatorExecutionRequestV1)
        requires
            prepared.resources@.len() <= u32::MAX,
            prepared.waits@.len() <= u32::MAX,
            prepared.signals@.len() <= u32::MAX,
        ensures
            r.struct_size == shared_operator_plugin_api::execution_request_layout().size(),
            r.operator_id == self.operator_id,
            r.flags == 0,
            r.metadata_ptr == address_of(metadata_ptr, prepared.metadata_len as nat),
            r.metadata_len == prepared.metadata_len,
            r.resources_ptr == address_of(resources_ptr, prepared.resources@.len()),
            r.resource_count == prepared.resources@.len(),
            r.reserved0 == 0,
            r.waits_ptr == address_of(waits_ptr, prepared.waits@.len()),
            r.wait_count == prepared.waits@.len(),
            r.reserved1 == 0,
            r.signals_ptr == address_of(signals_ptr, prepared.signals@.len()),
            r.signal_count == prepared.signals@.len(),
            r.reserved2 == 0,
            r.receipt_ptr == address_of(receipt_ptr, prepared.receipt_capacity as nat),
            r.receipt_capacity == prepared.receipt_capacity,
            r.receipt_len == receipt_len,
            forall|i: int| 0 <= i < 4 ==> r.reserved@[i] == 0,
    {
        VrbSharedOperatorExecutionRequestV1 {
            struct_size: expected_execution_request_struct_size(),
            operator_id: self.operator_id,
            flags: 0,
            metadata_ptr: if prepared.metadata_len == 0 {
                0
            } else {
                metadata_ptr
            },
            metadata_len: prepared.metadata_len,
            resources_ptr: slice_ptr(resources_ptr, prepared.resources.len()),
            resource_count: prepared.resources.len() as u32,
            reserved0: 0,
            waits_ptr: slice_ptr(waits_ptr, prepared.waits.len()),
            wait_count: prepared.waits.len() as u32,
            reserved1: 0,
            signals_ptr: slice_ptr(signals_ptr, prepared.signals.len()),
            signal_count: prepared.signals.len() as u32,
            reserved2: 0,
            receipt_ptr: slice_ptr(receipt_ptr, prepared.receipt_capacity),
            receipt_capacity: prepared.receipt_capacity as u64,
            receipt_len,
            reserved: [0; 4],
        }
    }

    /// What is wrong with how a run ended.
    pub open spec fn run_fault(&self, execute_status: i32, receipt_len: u64) -> Option<
        SharedOperatorExecutionError,
    > {
        let capacity = self.policy.max_receipt_bytes;
        let is_reported = execute_status == status::OK || execute_status
            == status::BUFFER_TOO_SMALL;
        if is_reported && receipt_len > capacity {
            Some(SharedOperatorExecutionError::ReceiptTooLarge { actual: receipt_len, capacity })
        } else if execute_status != status::OK {
            Some(SharedOperatorExecutionError::PluginStatus(execute_status))
        } else {
            None
        }
    }

    /// What a finished run comes to: the receipt that the operator says it wrote, out of the
    /// bytes that there was room for.
    pub fn settle(&self, execute_status: i32, receipt: Vec<u8>, receipt_len: u64) -> (r: Result<
        Vec<u8>,
        SharedOperatorExecutionError,
    >)
        requires
            receipt@.len() == self.policy.max_receipt_bytes,
        ensures
            match r {
                Ok(bytes) => {
                    &&& self.run_fault(execute_status, receipt_len) is None
                    &&& bytes@ == receipt@.take(receipt_len as int)
                },
                Err(error) => self.run_fault(execute_status, receipt_len) == Some(error),
            },
    {
        let capacity: u64 = self.policy.max_receipt_bytes;
        if execute_status != status::OK {
            if execute_status == status::BUFFER_TOO_SMALL && receipt_len > capacity {
                return Err(
                    SharedOperatorExecutionError::ReceiptTooLarge { actual: receipt_len, capacity },
                );
            }
            return Err(SharedOperatorExecutionError::PluginStatus(execute_status));
        }
        if receipt_len > capacity {
            return Err(
                SharedOperatorExecutionError::ReceiptTooLarge { actual: receipt_len, capacity },
            );
        }
        let mut bytes = receipt;
        let room: usize = bytes.len();
        assert(receipt_len <= room);
        bytes.truncate(receipt_len as usize);
        Ok(bytes)
    }
}

/// The address of something of a length: none where it is empty.
pub open spec fn address_of(pointer: usize, length: nat) -> usize {
    if length == 0 {
        0
    } else {
        pointer
    }
}

fn slice_ptr(pointer: usize, length: usize) -> (r: usize)
    ensures
        r == address_of(pointer, length as nat),
{
    if length == 0 {
        0
    } else {
        pointer
    }
}

/// What the caller of a shared operator gets for the outcome of a run.
pub fn operator_result(outcome: Result<Vec<u8>, SharedOperatorExecutionError>) -> (r: Result<
    SharedOperatorOutput,
    SharedOperatorError,
>)
    ensures
        match (outcome, r) {
            (Ok(receipt), Ok(output)) => output.receipt == receipt,
            (Err(error), Err(SharedOperatorError::Execution(reason))) => reason@ == error.text(),
            _ => false,
        },
{
    match outcome {
        Ok(receipt) => Ok(SharedOperatorOutput { receipt }),
        Err(error) => Err(SharedOperatorError::Execution(error.message())),
    }
}

/// A loaded plugin: its name and its operators.
pub struct LoadedSharedOperatorLibrary<O: SharedOperator + ?Sized> {
    plugin_name: String,
    operators: Vec<Arc<O>>,
}

/// Those of the operators that are of a kind, in their order.
pub open spec fn of_kind<O: SharedOperator + ?Sized>(
    operators: Seq<Arc<O>>,
    capabilities: Seq<SharedOperatorCapabilities>,
    kind: OperatorKind,
) -> Seq<Arc<O>>
    decreases operators.len(),
{
    if operators.len() == 0 || capabilities.len() != operators.len() {
        Seq::empty()
    } else {
        let before = of_kind(operators.drop_last(), capabilities.drop_last(), kind);
        if capabilities.last().kind == kind {
            before.push(operators.last())
        } else {
            before
        }
    }
}

impl<O: SharedOperator + ?Sized> LoadedSharedOperatorLibrary<O> {
    pub closed spec fn title(&self) -> Seq<char> {
        self.plugin_name@
    }

    pub closed spec fn all(&self) -> Seq<Arc<O>> {
        self.operators@
    }

    pub fn new(plugin_name: String, operators: Vec<Arc<O>>) -> (r: Self)
        ensures
            r.title() == plugin_name@,
            r.all() == operators@,
    {
        LoadedSharedOperatorLibrary { plugin_name, operators }
    }

    #[must_use]
    pub fn plugin_name(&self) -> (r: &str)
        ensures
            r@ == self.title(),
    {
        self.plugin_name.as_str()
    }

    #[must_use]
    pub fn operators(&self) -> (r: &[Arc<O>])
        ensures
            r@ == self.all(),
    {
        self.operators.as_slice()
    }

    /// Registers every operator under the kind that it declares, behind those that are registered
    /// already.
    pub fn register_into<P: SharedOperatorSelectionPolicy<O> + ?Sized>(
        &self,
        registry: &mut SharedOperatorRegistry<O, P>,
    )
        requires
            old(registry).wf(),
        ensures
            final(registry).wf(),
            final(registry).policy() == old(registry).policy(),
            ordered_map::item_count(final(registry).entries()) == ordered_map::item_count(
                old(registry).entries(),
            ) + self.all().len(),
            exists|capabilities: Seq<SharedOperatorCapabilities>|
                {
                    &&& #[trigger] shared_operators::can_declare(self.all(), capabilities)
                    &&& forall|kind: OperatorKind|
                        #![trigger final(registry).registered(kind)]
                        final(registry).registered(kind) == old(registry).registered(kind)
                            + of_kind(self.all(), capabilities, kind)
                },
    {
        let ghost mut capabilities = Seq::<SharedOperatorCapabilities>::empty();
        let ghost start = *registry;
        let mut i: usize = 0;
        proof {
            assert forall|kind: OperatorKind|
                #![trigger registry.registered(kind)]
                registry.registered(kind) == start.registered(kind) + of_kind(
                    self.all().take(0),
                    capabilities,
                    kind,
                ) by {
                assert(of_kind(self.all().take(0), capabilities, kind) =~= Seq::empty());
            }
        }
        while i < self.operators.len()
            invariant
                i <= self.operators@.len(),
                self.all() == self.operators@,
                registry.wf(),
                registry.policy() == start.policy(),
                ordered_map::item_count(registry.entries()) == ordered_map::item_count(
                    start.entries(),
                ) + i,
                shared_operators::can_declare(self.all().take(i as int), capabilities),
                forall|kind: OperatorKind|
                    #![trigger registry.registered(kind)]
                    registry.registered(kind) == start.registered(kind) + of_kind(
                        self.all().take(i as int),
                        capabilities,
                        kind,
                    ),
            decreases self.operators@.len() - i,
        {
            let ghost before = *registry;
            let operator = self.operators[i].clone();
            registry.register(operator);
            proof {
                let declared = choose|declared: SharedOperatorCapabilities|
                    {
                        let kind = declared.kind;
                        &&& #[trigger] call_ensures(O::capabilities, (&*operator,), declared)
                        &&& registry.registered(kind) == before.registered(kind).push(operator)
                        &&& forall|other: OperatorKind|
                            #![trigger registry.registered(other)]
                            other != kind ==> registry.registered(other) == before.registered(
                                other,
                            )
                    };
                let ghost earlier = capabilities;
                capabilities = capabilities.push(declared);
                let now = self.all().take(i + 1);
                assert(now.drop_last() =~= self.all().take(i as int));
                assert(capabilities.drop_last() =~= earlier);
                assert forall|j: int|
                    #![trigger capabilities[j]]
                    0 <= j < capabilities.len() implies call_ensures(
                    O::capabilities,
                    (&*now[j],),
                    capabilities[j],
                ) by {
                    if j < i {
                        assert(capabilities[j] == earlier[j]);
                        assert(now[j] == self.all().take(i as int)[j]);
                    }
                }
                assert forall|kind: OperatorKind|
                    #![trigger registry.registered(kind)]
                    registry.registered(kind) == start.registered(kind) + of_kind(
                        now,
                        capabilities,
                        kind,
                    ) by {
                    assert(before.registered(kind) == start.registered(kind) + of_kind(
                        now.drop_last(),
                        earlier,
                        kind,
                    ));
                    if kind == declared.kind {
                        assert(registry.registered(kind) =~= start.registered(kind) + of_kind(
                            now,
                            capabilities,
                            kind,
                        ));
                    }
                }
            }
            i = i + 1;
        }
        assert(self.all().take(i as int) =~= self.all());
    }
}

/// A plugin is accepted only where it is of this version, describes itself in full, has operators
/// within the host's limit, and can be called.
pub proof fn accepted_plugins_keep_to_the_boundary(
    descriptor: VrbSharedOperatorPluginV1,
    name: Seq<char>,
    policy: SharedOperatorLoadPolicy,
)
    requires
        SharedOperatorDiscovery::plugin_fault(descriptor, name, policy) is None,
    ensures
        descriptor.abi_version == VRB_SHARED_OPERATOR_PLUGIN_ABI_VERSION,
        descriptor.struct_size >= shared_operator_plugin_api::plugin_layout().size(),
        name.len() > 0,
        0 < descriptor.operator_count <= policy.max_operators,
        descriptor.query_operator != 0,
        descriptor.execute != 0,
{
}

/// A shared operator plugin can be loaded if and only if it is of version one, its description is
/// as long as it has to be, it has a name, it has operators and no more than the host allows, and
/// both callbacks are there.
pub proof fn a_shared_operator_plugin_that_can_be_loaded(
    descriptor: VrbSharedOperatorPluginV1,
    name: Seq<char>,
    policy: SharedOperatorLoadPolicy,
)
    ensures
        SharedOperatorDiscovery::plugin_fault(descriptor, name, policy) is None <==> {
            &&& descriptor.abi_version == 1
            &&& descriptor.struct_size >= shared_operator_plugin_api::plugin_layout().size()
            &&& name.len() > 0
            &&& descriptor.operator_count > 0
            &&& descriptor.operator_count <= policy.max_operators
            &&& descriptor.query_operator != 0
            &&& descriptor.execute != 0
        },
        descriptor_fault(descriptor, name, policy) is None <==> {
            &&& descriptor.abi_version == 1
            &&& descriptor.struct_size >= shared_operator_plugin_api::plugin_layout().size()
            &&& name.len() > 0
            &&& descriptor.operator_count > 0
            &&& descriptor.operator_count <= policy.max_operators
        },
{
}

/// Capabilities go together if and only if proven zero-copy comes with shared resources, shared
/// resources with a kind of memory handle, and synchronization with a kind of handle for it.
pub proof fn capabilities_that_go_together(bits: u64, memory_kind_bits: u64, sync_kind_bits: u64)
    ensures
        capability_fault(bits, memory_kind_bits, sync_kind_bits) is None <==> {
            &&& bits & 0x04 != 0 ==> bits & 0x01 != 0
            &&& bits & 0x01 != 0 ==> memory_kind_bits != 0
            &&& bits & 0x02 != 0 ==> sync_kind_bits != 0
        },
{
}

/// A shared operator of a plugin is taken in if and only if the question for it succeeded, the
/// answer is as long as it has to be, it has a name, no operator before it has its id, and its
/// capabilities go together.
pub proof fn a_shared_operator_that_is_taken_in(
    found: Seq<DynamicSharedOperator>,
    bits: u64,
    index: u32,
    query_status: i32,
    info: VrbSharedOperatorInfoV1,
    name: Seq<char>,
)
    ensures
        operator_fault(found, bits, index, query_status, info, name) is None <==> {
            &&& query_status == 0
            &&& info.struct_size >= shared_operator_plugin_api::operator_info_layout().size()
            &&& name.len() > 0
            &&& forall|i: int|
                #![trigger found[i]]
                0 <= i < found.len() ==> found[i].operator_id != info.operator_id
            &&& capability_fault(
                info.capability_bits | bits,
                info.memory_kind_bits,
                info.sync_kind_bits,
            ) is None
        },
{
}

/// What the tags of kinds stand for, and which tags kinds have on the plugin's side.
pub proof fn tags_of_kinds(kind: u32)
    ensures
        operator_kind_of(kind) == match kind {
            1 => OperatorKind::Gemm,
            2 => OperatorKind::Attention,
            3 => OperatorKind::Quantize,
            4 => OperatorKind::Dequantize,
            5 => OperatorKind::Transform,
            _ => OperatorKind::Custom,
        },
        backend_kind_of(kind) == match kind {
            1 => BackendKind::Cpu,
            2 => BackendKind::Vulkan,
            3 => BackendKind::Hip,
            4 => BackendKind::Hybrid,
            _ => BackendKind::Plugin,
        },
        memory_tag(ExternalMemoryHandleKind::Win32Kmt) == 1,
        memory_tag(ExternalMemoryHandleKind::Win32Nt) == 2,
        memory_tag(ExternalMemoryHandleKind::OpaqueFd) == 3,
        memory_tag(ExternalMemoryHandleKind::DmaBuf) == 4,
        memory_tag(ExternalMemoryHandleKind::Custom(kind)) == kind,
        sync_tag(ExternalSyncHandleKind::Win32Opaque) == 1,
        sync_tag(ExternalSyncHandleKind::OpaqueFd) == 2,
        sync_tag(ExternalSyncHandleKind::Timeline) == 3,
        sync_tag(ExternalSyncHandleKind::Custom(kind)) == kind,
        access_tag(ResourceAccess::ReadOnly) == 1,
        access_tag(ResourceAccess::WriteOnly) == 2,
        access_tag(ResourceAccess::ReadWrite) == 3,
{
}

/// A shared operator that was found is what the plugin answered of it, with the capabilities that
/// the plugin declares for all its operators added to its own.
pub proof fn a_found_operator_is_what_was_answered(
    discovery: SharedOperatorDiscovery,
    info: VrbSharedOperatorInfoV1,
    name: Seq<char>,
    operator: DynamicSharedOperator,
)
    requires
        discovery.is_answered(info, name, operator),
    ensures
        ({
            let bits = info.capability_bits | discovery.shared_bits();
            &&& operator.plugin_name@ == discovery.plugin()
            &&& operator.policy == discovery.limits()
            &&& operator.operator_id == info.operator_id
            &&& operator.name@ == name
            &&& operator.raw_capability_bits == bits
            &&& operator.capabilities.kind == operator_kind_of(info.operator_kind)
            &&& operator.capabilities.backend == backend_kind_of(info.backend_kind)
            &&& operator.capabilities.memory_kinds@ == memory_kinds_of(info.memory_kind_bits)
            &&& operator.capabilities.sync_kinds@ == sync_kinds_of(info.sync_kind_bits)
            &&& operator.capabilities.supports_external_synchronization == (bits & 0x02 != 0)
            &&& operator.capabilities.proven_zero_copy == (bits & 0x04 != 0)
        }),
{
}

/// An invocation is within the host's limits if and only if its metadata, its regions and its
/// points, those to wait for and those to signal together, are no more than allowed, and room for
/// the receipt can be had.
pub proof fn an_invocation_within_the_limits(
    policy: SharedOperatorLoadPolicy,
    metadata: nat,
    resources: nat,
    points: nat,
)
    ensures
        limit_fault(policy, metadata, resources, points) is None <==> {
            &&& metadata <= policy.max_metadata_bytes
            &&& resources <= policy.max_resources
            &&& points <= policy.max_sync_points
            &&& policy.max_receipt_bytes <= usize::MAX
        },
{
}

/// A prepared invocation is the invocation, region by region and point by point, with the tags of
/// the boundary for their kinds.
pub proof fn a_prepared_invocation_by_its_fields(
    prepared: PreparedInvocation,
    invocation: SharedOperatorInvocation<'_>,
    policy: SharedOperatorLoadPolicy,
    i: int,
)
    requires
        prepared.stands_for(invocation, policy),
    ensures
        prepared.metadata_len == invocation.metadata@.len(),
        prepared.receipt_capacity == policy.max_receipt_bytes,
        prepared.resources@.len() == invocation.resources@.len(),
        prepared.waits@.len() == invocation.waits@.len(),
        prepared.signals@.len() == invocation.signals@.len(),
        0 <= i < invocation.resources@.len() ==> {
            let one = prepared.resources@[i];
            let region = invocation.resources@[i];
            &&& one.struct_size == shared_operator_plugin_api::resource_region_layout().size()
            &&& one.handle_kind == memory_tag(region.handle_kind)
            &&& one.access == access_tag(region.access)
            &&& one.handle == region.handle
            &&& one.allocation_size == region.allocation_size
            &&& one.offset == region.offset
            &&& one.length == region.length
            &&& one.reserved0 == 0
        },
        0 <= i < invocation.waits@.len() ==> {
            let one = prepared.waits@[i];
            let point = invocation.waits@[i];
            &&& one.struct_size == shared_operator_plugin_api::sync_point_layout().size()
            &&& one.handle_kind == sync_tag(point.handle_kind)
            &&& one.handle == point.handle
            &&& one.value == point.value
            &&& one.flags == 0
        },
        0 <= i < invocation.signals@.len() ==> {
            let one = prepared.signals@[i];
            let point = invocation.signals@[i];
            &&& one.struct_size == shared_operator_plugin_api::sync_point_layout().size()
            &&& one.handle_kind == sync_tag(point.handle_kind)
            &&& one.handle == point.handle
            &&& one.value == point.value
            &&& one.flags == 0
        },
{
    if 0 <= i < invocation.resources@.len() {
        assert(is_region_for(invocation.resources@[i], prepared.resources@[i]));
    }
    if 0 <= i < invocation.waits@.len() {
        assert(is_point_for(invocation.waits@[i], prepared.waits@[i]));
    }
    if 0 <= i < invocation.signals@.len() {
        assert(is_point_for(invocation.signals@[i], prepared.signals@[i]));
    }
}

/// A run succeeded if and only if the operator says so and its receipt is within the limit. A
/// receipt that is too long is told from other failures where the operator says how long it is.
pub proof fn a_run_that_succeeded(
    operator: DynamicSharedOperator,
    execute_status: i32,
    receipt_len: u64,
)
    ensures
        operator.run_fault(execute_status, receipt_len) is None <==> execute_status == 0
            && receipt_len <= operator.policy.max_receipt_bytes,
        receipt_len > operator.policy.max_receipt_bytes && (execute_status == 0 || execute_status
            == 4) ==> operator.run_fault(execute_status, receipt_len) == Some(
            SharedOperatorExecutionError::ReceiptTooLarge {
                actual: receipt_len,
                capacity: operator.policy.max_receipt_bytes,
            },
        ),
        execute_status != 0 && execute_status != 4 ==> operator.run_fault(
            execute_status,
            receipt_len,
        ) == Some(SharedOperatorExecutionError::PluginStatus(execute_status)),
{
}

/// Shared operators are sorted by their kind without changing their order: those of one kind among
/// two lists are those among the first and then those among the second.
pub proof fn operators_of_a_kind_keep_their_order<O: SharedOperator + ?Sized>(
    some: Seq<Arc<O>>,
    more: Seq<Arc<O>>,
    declared: Seq<SharedOperatorCapabilities>,
    further: Seq<SharedOperatorCapabilities>,
    kind: OperatorKind,
)
    requires
        declared.len() == some.len(),
        further.len() == more.len(),
    ensures
        of_kind(some + more, declared + further, kind) == of_kind(some, declared, kind) + of_kind(
            more,
            further,
            kind,
        ),
        more.len() == 1 ==> of_kind(more, further, kind) == if further[0].kind == kind {
            more
        } else {
            Seq::empty()
        },
    decreases more.len(),
{
    if more.len() == 0 {
        assert(some + more =~= some);
        assert(declared + further =~= declared);
        assert(of_kind(some, declared, kind) + of_kind(more, further, kind) =~= of_kind(
            some,
            declared,
            kind,
        ));
    } else {
        let fewer = more.drop_last();
        let said = further.drop_last();
        operators_of_a_kind_keep_their_order(some, fewer, declared, said, kind);
        assert((some + more).drop_last() =~= some + fewer);
        assert((declared + further).drop_last() =~= declared + said);
        assert(of_kind(some, declared, kind) + of_kind(fewer, said, kind).push(more.last()) =~= (
        of_kind(some, declared, kind) + of_kind(fewer, said, kind)).push(more.last()));
        if more.len() == 1 {
            assert(of_kind(fewer, said, kind) =~= Seq::<Arc<O>>::empty());
            assert(Seq::<Arc<O>>::empty().push(more[0]) =~= more);
        }
    }
}

} // verus!
