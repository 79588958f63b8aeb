//! An operator plugin for trying out hosts, which gives back what it is given: what its callbacks
//! answer.

use crate::abi;
use crate::operator_plugin_api;
use crate::operator_plugin_api::{
    backend_kind, capability, expected_execution_request_struct_size,
    expected_operator_info_struct_size, expected_operator_plugin_struct_size, operator_kind,
    status, VrbOperatorExecutionRequestV1, VrbOperatorInfoV1, VrbOperatorPluginV1,
    VRB_OPERATOR_PLUGIN_ABI_VERSION,
};
use vstd::prelude::*;

verus! {

pub const FIXTURE_OPERATOR_ID: u32 = 7;

/// "operator-certification-fixture"
pub const PLUGIN_NAME: [u8; 30] = [
    0x6f, 0x70, 0x65, 0x72, 0x61, 0x74, 0x6f, 0x72, 0x2d, 0x63, 0x65, 0x72, 0x74, 0x69, 0x66,
    0x69, 0x63, 0x61, 0x74, 0x69, 0x6f, 0x6e, 0x2d, 0x66, 0x69, 0x78, 0x74, 0x75, 0x72, 0x65,
];

/// "fixture-gemm"
pub const OPERATOR_NAME: [u8; 12] = [
    0x66, 0x69, 0x78, 0x74, 0x75, 0x72, 0x65, 0x2d, 0x67, 0x65, 0x6d, 0x6d,
];

/// FP32 and host bytes.
pub const CAPABILITY_BITS: u64 = 0x14;

/// The operator's capabilities are those of their names.
pub proof fn capabilities_are_those_of_their_names()
    ensures
        CAPABILITY_BITS == capability::FP32 | capability::HOST_BYTES,
{
    assert(0x14u64 == 0x04u64 | 0x10u64) by (bit_vector);
}

/// Whether this is what the plugin says of its operator.
pub open spec fn is_own_info(info: VrbOperatorInfoV1) -> bool {
    &&& info.struct_size == operator_plugin_api::operator_info_layout().size()
    &&& info.operator_id == FIXTURE_OPERATOR_ID
    &&& info.operator_kind == operator_kind::GEMM
    &&& info.backend_kind == backend_kind::CPU
    &&& info.capability_bits == CAPABILITY_BITS
    &&& abi::is_written_name(OPERATOR_NAME@, 128, info.name@)
    &&& forall|i: int| 0 <= i < 4 ==> info.reserved@[i] == 0
}

/// What the plugin says of operator `index`, for a place at `out_info`.
pub fn query_operator(index: u32, out_info: usize) -> (r: Result<VrbOperatorInfoV1, i32>)
    ensures
        match r {
            Ok(info) => index == 0 && out_info != 0 && is_own_info(info),
            Err(answer) => answer == status::INVALID_ARGUMENT && (index != 0 || out_info == 0),
        },
{
    if out_info == 0 || index != 0 {
        return Err(status::INVALID_ARGUMENT);
    }
    Ok(
        VrbOperatorInfoV1 {
            struct_size: expected_operator_info_struct_size(),
            operator_id: FIXTURE_OPERATOR_ID,
            operator_kind: operator_kind::GEMM,
            backend_kind: backend_kind::CPU,
            capability_bits: CAPABILITY_BITS,
            name: abi::c_name(&OPERATOR_NAME),
            reserved: [0; 4],
        },
    )
}

/// How long the output will be, for a place at `out_output_len`: as long as the input.
pub fn output_size(operator_id: u32, input_len: u64, out_output_len: usize) -> (r: Result<u64, i32>)
    ensures
        match r {
            Ok(length) => operator_id == FIXTURE_OPERATOR_ID && out_output_len != 0 && length
                == input_len,
            Err(answer) => answer == status::INVALID_ARGUMENT && (operator_id
                != FIXTURE_OPERATOR_ID || out_output_len == 0),
        },
{
    if operator_id != FIXTURE_OPERATOR_ID || out_output_len == 0 {
        return Err(status::INVALID_ARGUMENT);
    }
    Ok(input_len)
}

/// What a request is refused with.
pub open spec fn refusal(request: VrbOperatorExecutionRequestV1) -> Option<i32> {
    if request.struct_size < operator_plugin_api::execution_request_layout().size()
        || request.operator_id != FIXTURE_OPERATOR_ID || request.output_len == 0 {
        Some(status::INVALID_ARGUMENT)
    } else if request.input_len > request.output_capacity {
        Some(status::BUFFER_TOO_SMALL)
    } else if request.input_len > 0 && (request.input_ptr == 0 || request.output_ptr == 0) {
        Some(status::INVALID_ARGUMENT)
    } else if request.input_len > usize::MAX {
        Some(status::INVALID_ARGUMENT)
    } else {
        None
    }
}

/// How many bytes to copy from input to output. That is also the length to report.
pub fn execute(request: &VrbOperatorExecutionRequestV1) -> (r: Result<usize, i32>)
    ensures
        match r {
            Ok(length) => refusal(*request) is None && length == request.input_len,
            Err(answer) => refusal(*request) == Some(answer),
        },
{
    let expected: u32 = expected_execution_request_struct_size();
    if request.struct_size < expected || request.operator_id != FIXTURE_OPERATOR_ID
        || request.output_len == 0 {
        return Err(status::INVALID_ARGUMENT);
    }
    if request.input_len > request.output_capacity {
        return Err(status::BUFFER_TOO_SMALL);
    }
    if request.input_len > 0 && (request.input_ptr == 0 || request.output_ptr == 0) {
        return Err(status::INVALID_ARGUMENT);
    }
    if request.input_len > usize::MAX as u64 {
        return Err(status::INVALID_ARGUMENT);
    }
    Ok(request.input_len as usize)
}

/// How the plugin describes itself, with its callbacks at these addresses.
pub fn descriptor(
    query_operator: usize,
    output_size: usize,
    execute: usize,
    shutdown: usize,
) -> (r: VrbOperatorPluginV1)
    ensures
        r.abi_version == VRB_OPERATOR_PLUGIN_ABI_VERSION,
        r.struct_size == operator_plugin_api::operator_plugin_layout().size(),
        abi::is_written_name(PLUGIN_NAME@, 128, r.name@),
        r.operator_count == 1,
        r.reserved0 == 0,
        r.capability_bits == capability::HOST_BYTES,
        r.user_data == 0,
        r.query_operator == query_operator,
        r.output_size == output_size,
        r.execute == execute,
        r.shutdown == shutdown,
        forall|i: int| 0 <= i < 4 ==> r.reserved@[i] == 0,
{
    VrbOperatorPluginV1 {
        abi_version: VRB_OPERATOR_PLUGIN_ABI_VERSION,
        struct_size: expected_operator_plugin_struct_size(),
        name: abi::c_name(&PLUGIN_NAME),
        operator_count: 1,
        reserved0: 0,
        capability_bits: capability::HOST_BYTES,
        user_data: 0,
        query_operator,
        output_size,
        execute,
        shutdown,
        reserved: [0; 4],
    }
}

/// A request is run if and only if it is as long as it has to be, names the operator, has a place
/// for the length, has room for as many bytes as it hands in, and has addresses for them where
/// there are any. A lack of room is told from the rest.
pub proof fn a_request_that_is_run(request: VrbOperatorExecutionRequestV1)
    ensures
        ({
            let own = request.struct_size >= operator_plugin_api::execution_request_layout().size()
                && request.operator_id == FIXTURE_OPERATOR_ID && request.output_len != 0;
            &&& refusal(request) is None <==> {
                &&& own
                &&& request.input_len <= request.output_capacity
                &&& request.input_len == 0 || request.input_ptr != 0 && request.output_ptr != 0
                &&& request.input_len <= usize::MAX
            }
            &&& refusal(request) == Some(4i32) <==> own && request.input_len
                > request.output_capacity
            &&& refusal(request) is None || refusal(request) == Some(4i32) || refusal(request)
                == Some(1i32)
        }),
{
}

/// What the plugin says of its operator.
pub proof fn what_the_plugin_says(info: VrbOperatorInfoV1)
    requires
        is_own_info(info),
    ensures
        info.struct_size == operator_plugin_api::operator_info_layout().size(),
        info.operator_id == FIXTURE_OPERATOR_ID,
        info.operator_kind == 1,
        info.backend_kind == 1,
        info.capability_bits == 0x14,
{
}

} // verus!
