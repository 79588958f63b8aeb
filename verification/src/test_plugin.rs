//! A backend plugin for trying out hosts: what its callbacks answer.

use crate::abi;
use crate::plugin_api;
use crate::plugin_api::{
    capability, expected_backend_info_struct_size, expected_execution_request_struct_size,
    expected_plugin_struct_size, VrbBackendInfoV1, VrbBackendKind, VrbExecutionRequestV1,
    VrbPluginV1, VrbStatus, VRB_PLUGIN_ABI_VERSION,
};
use vstd::prelude::*;

verus! {

/// "certification-fixture", ended by a zero byte.
pub const PLUGIN_NAME: [u8; 22] = [
    0x63, 0x65, 0x72, 0x74, 0x69, 0x66, 0x69, 0x63, 0x61, 0x74, 0x69, 0x6f, 0x6e, 0x2d, 0x66,
    0x69, 0x78, 0x74, 0x75, 0x72, 0x65, 0x00,
];

/// "VRB E2E Fixture"
pub const BACKEND_NAME: [u8; 15] = [
    0x56, 0x52, 0x42, 0x20, 0x45, 0x32, 0x45, 0x20, 0x46, 0x69, 0x78, 0x74, 0x75, 0x72, 0x65,
];

/// "Techmad Certification"
pub const VENDOR_NAME: [u8; 21] = [
    0x54, 0x65, 0x63, 0x68, 0x6d, 0x61, 0x64, 0x20, 0x43, 0x65, 0x72, 0x74, 0x69, 0x66, 0x69,
    0x63, 0x61, 0x74, 0x69, 0x6f, 0x6e,
];

/// Compute, FP32, shared memory, shared semaphores and zero-copy.
pub const CAPABILITY_BITS: u64 = 0x4f;

/// The capabilities are those of their names.
pub proof fn capabilities_are_those_of_their_names()
    ensures
        CAPABILITY_BITS == capability::COMPUTE | capability::FP32 | capability::EXTERNAL_MEMORY
            | capability::EXTERNAL_SEMAPHORE | capability::ZERO_COPY,
{
    assert(0x4fu64 == 0x01u64 | 0x40u64 | 0x02u64 | 0x04u64 | 0x08u64) by (bit_vector);
}

/// Whether this is what the plugin says of its backend.
pub open spec fn is_own_info(info: VrbBackendInfoV1) -> bool {
    &&& info.struct_size == plugin_api::backend_info_layout().size()
    &&& info.backend_kind == VrbBackendKind::Hybrid
    &&& info.capability_bits == CAPABILITY_BITS
    &&& info.device_count == 1
    &&& info.reserved == 0
    &&& abi::is_written_name(BACKEND_NAME@, 128, info.name@)
    &&& abi::is_written_name(VENDOR_NAME@, 64, info.vendor@)
}

/// What the plugin says of its backend, for a place at `out_info`.
pub fn probe(out_info: usize) -> (r: Result<VrbBackendInfoV1, VrbStatus>)
    ensures
        match r {
            Ok(info) => out_info != 0 && is_own_info(info),
            Err(answer) => out_info == 0 && answer == VrbStatus::InvalidArgument,
        },
{
    if out_info == 0 {
        return Err(VrbStatus::InvalidArgument);
    }
    Ok(
        VrbBackendInfoV1 {
            struct_size: expected_backend_info_struct_size(),
            backend_kind: VrbBackendKind::Hybrid,
            capability_bits: CAPABILITY_BITS,
            device_count: 1,
            reserved: 0,
            name: abi::c_name(&BACKEND_NAME),
            vendor: abi::short_c_name(&VENDOR_NAME),
        },
    )
}

/// What a request is answered with, where there is one: one operation succeeds, one is not
/// supported, and any other is an invalid argument.
pub open spec fn answer_to(request: Option<VrbExecutionRequestV1>) -> VrbStatus {
    match request {
        None => VrbStatus::InvalidArgument,
        Some(request) => if request.struct_size < plugin_api::execution_request_layout().size() {
            VrbStatus::InvalidArgument
        } else if request.operation == 42 {
            VrbStatus::Success
        } else if request.operation == 7 {
            VrbStatus::Unsupported
        } else {
            VrbStatus::InvalidArgument
        },
    }
}

pub fn execute(request: Option<VrbExecutionRequestV1>) -> (r: VrbStatus)
    ensures
        r == answer_to(request),
{
    match request {
        None => VrbStatus::InvalidArgument,
        Some(request) => {
            let expected: u32 = expected_execution_request_struct_size();
            if request.struct_size < expected {
                VrbStatus::InvalidArgument
            } else if request.operation == 42 {
                VrbStatus::Success
            } else if request.operation == 7 {
                VrbStatus::Unsupported
            } else {
                VrbStatus::InvalidArgument
            }
        },
    }
}

/// How the plugin describes itself, with its name and its callbacks at these addresses.
pub fn descriptor(name: usize, probe: usize, execute: usize, shutdown: usize) -> (r: VrbPluginV1)
    ensures
        r == (VrbPluginV1 {
            abi_version: VRB_PLUGIN_ABI_VERSION,
            struct_size: plugin_api::plugin_layout().size(),
            name,
            backend_kind: VrbBackendKind::Hybrid,
            capability_bits: CAPABILITY_BITS,
            user_data: 0,
            probe,
            execute,
            shutdown,
        }),
{
    VrbPluginV1 {
        abi_version: VRB_PLUGIN_ABI_VERSION,
        struct_size: expected_plugin_struct_size(),
        name,
        backend_kind: VrbBackendKind::Hybrid,
        capability_bits: CAPABILITY_BITS,
        user_data: 0,
        probe,
        execute,
        shutdown,
    }
}

/// What a request is answered with: operation 42 succeeds, operation 7 is not supported, and any
/// other, one that is too short and none at all are invalid arguments.
pub proof fn answers_by_operation(request: VrbExecutionRequestV1)
    ensures
        answer_to(None) == VrbStatus::InvalidArgument,
        answer_to(Some(request)) == VrbStatus::Success <==> request.struct_size
            >= plugin_api::execution_request_layout().size() && request.operation == 42,
        answer_to(Some(request)) == VrbStatus::Unsupported <==> request.struct_size
            >= plugin_api::execution_request_layout().size() && request.operation == 7,
        answer_to(Some(request)) != VrbStatus::Success && answer_to(Some(request))
            != VrbStatus::Unsupported ==> answer_to(Some(request)) == VrbStatus::InvalidArgument,
{
}

/// What the plugin says of its backend: a hybrid with one device.
pub proof fn what_the_plugin_says(info: VrbBackendInfoV1)
    requires
        is_own_info(info),
    ensures
        info.struct_size == plugin_api::backend_info_layout().size(),
        info.backend_kind == VrbBackendKind::Hybrid,
        info.capability_bits == 0x4f,
        info.device_count == 1,
        info.reserved == 0,
{
}

} // verus!
