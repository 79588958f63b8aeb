//! A plugin for trying out hosts of shared operators, which checks what it is handed: what its
//! callbacks answer.

use crate::abi;
use crate::hip_shared_gemm_plugin;
use crate::hip_shared_gemm_plugin::ReceiptReply;
use crate::shared_operator_plugin_api;
use crate::shared_operator_plugin_api::{
    backend_kind, capability, expected_execution_request_struct_size,
    expected_operator_info_struct_size, expected_plugin_struct_size,
    expected_resource_region_struct_size, expected_sync_point_struct_size, memory_handle_kind,
    operator_kind, resource_access, status, sync_handle_kind, VrbSharedOperatorExecutionRequestV1,
    VrbSharedOperatorInfoV1, VrbSharedOperatorPluginV1, VrbSharedResourceRegionV1,
    VrbSharedSyncPointV1, VRB_SHARED_OPERATOR_PLUGIN_ABI_VERSION,
};
use vstd::prelude::*;

verus! {

pub const OPERATOR_ID: u32 = 1;

/// "vrb-test-shared-operator"
pub const PLUGIN_NAME: [u8; 24] = [
    0x76, 0x72, 0x62, 0x2d, 0x74, 0x65, 0x73, 0x74, 0x2d, 0x73, 0x68, 0x61, 0x72, 0x65, 0x64,
    0x2d, 0x6f, 0x70, 0x65, 0x72, 0x61, 0x74, 0x6f, 0x72,
];

/// "shared-contract-validator"
pub const OPERATOR_NAME: [u8; 25] = [
    0x73, 0x68, 0x61, 0x72, 0x65, 0x64, 0x2d, 0x63, 0x6f, 0x6e, 0x74, 0x72, 0x61, 0x63, 0x74,
    0x2d, 0x76, 0x61, 0x6c, 0x69, 0x64, 0x61, 0x74, 0x6f, 0x72,
];

/// "vrb-shared"
pub const EXPECTED_METADATA: [u8; 10] = [
    0x76, 0x72, 0x62, 0x2d, 0x73, 0x68, 0x61, 0x72, 0x65, 0x64,
];

/// "shared-contract-ok"
pub const RECEIPT: [u8; 18] = [
    0x73, 0x68, 0x61, 0x72, 0x65, 0x64, 0x2d, 0x63, 0x6f, 0x6e, 0x74, 0x72, 0x61, 0x63, 0x74,
    0x2d, 0x6f, 0x6b,
];

/// Shared resources and shared points.
pub const CAPABILITY_BITS: u64 = 0x03;

/// The capabilities are those of their names, and zero-copy is not among them.
pub proof fn zero_copy_is_not_claimed()
    ensures
        CAPABILITY_BITS == capability::EXTERNAL_RESOURCE | capability::EXTERNAL_SYNCHRONIZATION,
        CAPABILITY_BITS & capability::PROVEN_ZERO_COPY == 0,
{
    assert(0x03u64 == 0x01u64 | 0x02u64) by (bit_vector);
    assert(0x03u64 & 0x04u64 == 0) by (bit_vector);
}

/// Whether this is what the plugin says of its operator.
pub open spec fn is_own_info(info: VrbSharedOperatorInfoV1) -> bool {
    &&& info.struct_size == shared_operator_plugin_api::operator_info_layout().size()
    &&& info.operator_id == OPERATOR_ID
    &&& info.operator_kind == operator_kind::CUSTOM
    &&& info.backend_kind == backend_kind::PLUGIN
    &&& info.capability_bits == CAPABILITY_BITS
    &&& info.memory_kind_bits == 1u64 << memory_handle_kind::WIN32_KMT
    &&& info.sync_kind_bits == 1u64 << sync_handle_kind::WIN32_OPAQUE
    &&& abi::is_written_name(OPERATOR_NAME@, 128, info.name@)
    &&& forall|i: int| 0 <= i < 4 ==> info.reserved@[i] == 0
}

/// What the plugin says of operator `index`, for a place at `out_info`.
pub fn query_operator(index: u32, out_info: usize) -> (r: Result<VrbSharedOperatorInfoV1, i32>)
    ensures
        match r {
            Ok(info) => index == 0 && out_info != 0 && is_own_info(info),
            Err(answer) => answer == status::INVALID_ARGUMENT && (index != 0 || out_info == 0),
        },
{
    if index != 0 || out_info == 0 {
        return Err(status::INVALID_ARGUMENT);
    }
    Ok(
        VrbSharedOperatorInfoV1 {
            struct_size: expected_operator_info_struct_size(),
            operator_id: OPERATOR_ID,
            operator_kind: operator_kind::CUSTOM,
            backend_kind: backend_kind::PLUGIN,
            capability_bits: CAPABILITY_BITS,
            memory_kind_bits: abi::bit_for(memory_handle_kind::WIN32_KMT),
            sync_kind_bits: abi::bit_for(sync_handle_kind::WIN32_OPAQUE),
            name: abi::c_name(&OPERATOR_NAME),
            reserved: [0; 4],
        },
    )
}

/// Whether a request is one that the operator takes, before anything behind it is looked at: one
/// resource, one point to wait for and one to signal, and metadata of the expected length.
pub open spec fn is_own_request(request: VrbSharedOperatorExecutionRequestV1) -> bool {
    &&& request.struct_size >= shared_operator_plugin_api::execution_request_layout().size()
    &&& request.operator_id == OPERATOR_ID
    &&& request.receipt_len != 0
    &&& request.metadata_len == EXPECTED_METADATA@.len()
    &&& request.metadata_ptr != 0
    &&& request.resource_count == 1
    &&& request.resources_ptr != 0
    &&& request.wait_count == 1
    &&& request.waits_ptr != 0
    &&& request.signal_count == 1
    &&& request.signals_ptr != 0
}

pub fn check_request(request: &VrbSharedOperatorExecutionRequestV1) -> (r: Result<(), i32>)
    ensures
        match r {
            Ok(_) => is_own_request(*request),
            Err(answer) => !is_own_request(*request) && answer == status::INVALID_ARGUMENT,
        },
{
    let expected: u32 = expected_execution_request_struct_size();
    if request.struct_size < expected || request.operator_id != OPERATOR_ID || request.receipt_len
        == 0 {
        return Err(status::INVALID_ARGUMENT);
    }
    if request.metadata_len != 10 || request.metadata_ptr == 0 {
        return Err(status::INVALID_ARGUMENT);
    }
    if request.resource_count != 1 || request.resources_ptr == 0 || request.wait_count != 1
        || request.waits_ptr == 0 || request.signal_count != 1 || request.signals_ptr == 0 {
        return Err(status::INVALID_ARGUMENT);
    }
    Ok(())
}

/// Whether a region is a KMT handle to read and write, not empty and inside its allocation.
pub open spec fn is_valid_region(region: VrbSharedResourceRegionV1) -> bool {
    &&& region.struct_size >= shared_operator_plugin_api::resource_region_layout().size()
    &&& region.handle_kind == memory_handle_kind::WIN32_KMT
    &&& region.access == resource_access::READ_WRITE
    &&& region.handle != 0
    &&& region.length != 0
    &&& region.offset + region.length <= region.allocation_size
}

fn validate_region(region: &VrbSharedResourceRegionV1) -> (r: bool)
    ensures
        r == is_valid_region(*region),
{
    let expected: u32 = expected_resource_region_struct_size();
    if region.struct_size < expected || region.handle_kind != memory_handle_kind::WIN32_KMT
        || region.access != resource_access::READ_WRITE || region.handle == 0 || region.length
        == 0 {
        return false;
    }
    match region.offset.checked_add(region.length) {
        Some(end) => end <= region.allocation_size,
        None => false,
    }
}

/// Whether a point is an opaque Win32 handle.
pub open spec fn is_valid_point(point: VrbSharedSyncPointV1) -> bool {
    &&& point.struct_size >= shared_operator_plugin_api::sync_point_layout().size()
    &&& point.handle_kind == sync_handle_kind::WIN32_OPAQUE
    &&& point.handle != 0
}

fn validate_point(point: &VrbSharedSyncPointV1) -> (r: bool)
    ensures
        r == is_valid_point(*point),
{
    let expected: u32 = expected_sync_point_struct_size();
    point.struct_size >= expected && point.handle_kind == sync_handle_kind::WIN32_OPAQUE
        && point.handle != 0
}

fn is_expected_metadata(metadata: &[u8]) -> (r: bool)
    ensures
        r == (metadata@ == EXPECTED_METADATA@),
{
    let expected: [u8; 10] = EXPECTED_METADATA;
    if metadata.len() != 10 {
        return false;
    }
    let mut i: usize = 0;
    while i < 10
        invariant
            i <= 10,
            metadata@.len() == 10,
            expected@ == EXPECTED_METADATA@,
            forall|j: int| 0 <= j < i ==> metadata@[j] == expected@[j],
        decreases 10 - i,
    {
        if metadata[i] != expected[i] {
            return false;
        }
        i = i + 1;
    }
    assert(metadata@ =~= EXPECTED_METADATA@);
    true
}

/// Whether everything behind a request is in order.
pub open spec fn are_valid_contents(
    metadata: Seq<u8>,
    resource: VrbSharedResourceRegionV1,
    wait: VrbSharedSyncPointV1,
    signal: VrbSharedSyncPointV1,
) -> bool {
    &&& metadata == EXPECTED_METADATA@
    &&& is_valid_region(resource)
    &&& is_valid_point(wait)
    &&& is_valid_point(signal)
}

/// Checks what stands behind a request.
pub fn check_contents(
    metadata: &[u8],
    resource: &VrbSharedResourceRegionV1,
    wait: &VrbSharedSyncPointV1,
    signal: &VrbSharedSyncPointV1,
) -> (r: Result<(), i32>)
    ensures
        match r {
            Ok(_) => are_valid_contents(metadata@, *resource, *wait, *signal),
            Err(answer) => answer == status::INVALID_ARGUMENT && !are_valid_contents(
                metadata@,
                *resource,
                *wait,
                *signal,
            ),
        },
{
    if !is_expected_metadata(metadata) || !validate_region(resource) || !validate_point(wait)
        || !validate_point(signal) {
        return Err(status::INVALID_ARGUMENT);
    }
    Ok(())
}

/// What is reported of the receipt once everything is in order.
pub fn write_receipt(request: &VrbSharedOperatorExecutionRequestV1) -> (r: ReceiptReply)
    ensures
        r.receipt_len == RECEIPT@.len(),
        r.status == if request.receipt_capacity < RECEIPT@.len() {
            status::BUFFER_TOO_SMALL
        } else if request.receipt_ptr == 0 {
            status::INVALID_ARGUMENT
        } else {
            status::OK
        },
        r.written == (r.status == status::OK),
{
    let receipt: [u8; 18] = RECEIPT;
    hip_shared_gemm_plugin::write_receipt(request, &receipt)
}

/// How the plugin describes itself, with its callbacks at these addresses.
pub fn descriptor(query_operator: usize, execute: usize) -> (r: VrbSharedOperatorPluginV1)
    ensures
        r.abi_version == VRB_SHARED_OPERATOR_PLUGIN_ABI_VERSION,
        r.struct_size == shared_operator_plugin_api::plugin_layout().size(),
        abi::is_written_name(PLUGIN_NAME@, 128, r.name@),
        r.operator_count == 1,
        r.reserved0 == 0,
        r.capability_bits == 0,
        r.user_data == 0,
        r.query_operator == query_operator,
        r.execute == execute,
        r.shutdown == 0,
        forall|i: int| 0 <= i < 5 ==> r.reserved@[i] == 0,
{
    VrbSharedOperatorPluginV1 {
        abi_version: VRB_SHARED_OPERATOR_PLUGIN_ABI_VERSION,
        struct_size: expected_plugin_struct_size(),
        name: abi::c_name(&PLUGIN_NAME),
        operator_count: 1,
        reserved0: 0,
        capability_bits: 0,
        user_data: 0,
        query_operator,
        execute,
        shutdown: 0,
        reserved: [0; 5],
    }
}

/// The operator takes a request if and only if it is as long as it has to be, names the operator,
/// has a place for the length of the receipt, metadata of ten bytes, one resource, one point to
/// wait for and one to signal, each with its address.
pub proof fn a_request_by_its_fields(request: VrbSharedOperatorExecutionRequestV1)
    ensures
        is_own_request(request) <==> {
            &&& request.struct_size
                >= shared_operator_plugin_api::execution_request_layout().size()
            &&& request.operator_id == OPERATOR_ID
            &&& request.receipt_len != 0
            &&& request.metadata_len == 10
            &&& request.metadata_ptr != 0
            &&& request.resource_count == 1
            &&& request.resources_ptr != 0
            &&& request.wait_count == 1
            &&& request.waits_ptr != 0
            &&& request.signal_count == 1
            &&& request.signals_ptr != 0
        },
{
}

/// What stands behind a request is in order if and only if the metadata are the expected ones, the
/// region is a KMT handle to read and write that lies inside its allocation, and both points are
/// opaque handles.
pub proof fn contents_by_their_fields(
    metadata: Seq<u8>,
    resource: VrbSharedResourceRegionV1,
    wait: VrbSharedSyncPointV1,
    signal: VrbSharedSyncPointV1,
)
    ensures
        are_valid_contents(metadata, resource, wait, signal) <==> {
            &&& metadata == EXPECTED_METADATA@
            &&& resource.struct_size >= shared_operator_plugin_api::resource_region_layout().size()
            &&& resource.handle_kind == 1
            &&& resource.access == 3
            &&& resource.handle != 0
            &&& resource.length > 0
            &&& resource.offset + resource.length <= resource.allocation_size
            &&& wait.struct_size >= shared_operator_plugin_api::sync_point_layout().size()
            &&& wait.handle_kind == 1
            &&& wait.handle != 0
            &&& signal.struct_size >= shared_operator_plugin_api::sync_point_layout().size()
            &&& signal.handle_kind == 1
            &&& signal.handle != 0
        },
{
}

/// What the plugin says of its operator.
pub proof fn what_the_plugin_says(info: VrbSharedOperatorInfoV1)
    requires
        is_own_info(info),
    ensures
        info.struct_size == shared_operator_plugin_api::operator_info_layout().size(),
        info.operator_id == OPERATOR_ID,
        info.operator_kind == 255,
        info.backend_kind == 255,
        info.capability_bits == 0x03,
        info.memory_kind_bits == 1u64 << 1u32,
        info.sync_kind_bits == 1u64 << 1u32,
{
}

} // verus!
