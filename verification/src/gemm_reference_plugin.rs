//! The processor's matrix multiplication as an operator plugin: what its callbacks answer.
//!
//! Memory behind pointers is read and written elsewhere. Here it comes and goes as plain bytes.

use crate::abi;
use crate::float::Float32;
use crate::gemm_protocol;
use crate::gemm_reference;
use crate::gemm_reference::{GemmLimits, ReferenceGemmError};
use crate::operator_plugin_api;
use crate::operator_plugin_api::{
    backend_kind, capability, expected_execution_request_struct_size,
    expected_operator_info_struct_size, expected_operator_plugin_struct_size, operator_kind,
    status, VrbOperatorExecutionRequestV1, VrbOperatorInfoV1, VrbOperatorPluginV1,
    VRB_OPERATOR_PLUGIN_ABI_VERSION,
};
use vstd::prelude::*;

verus! {

pub const REFERENCE_GEMM_OPERATOR_ID: u32 = 1;

/// "vrb-reference-gemm"
pub const PLUGIN_NAME: [u8; 18] = [
    0x76, 0x72, 0x62, 0x2d, 0x72, 0x65, 0x66, 0x65, 0x72, 0x65, 0x6e, 0x63, 0x65, 0x2d, 0x67,
    0x65, 0x6d, 0x6d,
];

/// "cpu-reference-gemm"
pub const OPERATOR_NAME: [u8; 18] = [
    0x63, 0x70, 0x75, 0x2d, 0x72, 0x65, 0x66, 0x65, 0x72, 0x65, 0x6e, 0x63, 0x65, 0x2d, 0x67,
    0x65, 0x6d, 0x6d,
];

/// FP32 and host bytes.
pub const CAPABILITY_BITS: u64 = 0x14;

/// The capabilities are those of their names.
pub proof fn capabilities_are_those_of_their_names()
    ensures
        CAPABILITY_BITS == capability::FP32 | capability::HOST_BYTES,
{
    assert(0x14u64 == 0x04u64 | 0x10u64) by (bit_vector);
}

/// Whether this is what the plugin says of its operator.
pub open spec fn is_own_info(info: VrbOperatorInfoV1) -> bool {
    &&& info.struct_size == operator_plugin_api::operator_info_layout().size()
    &&& info.operator_id == REFERENCE_GEMM_OPERATOR_ID
    &&& info.operator_kind == operator_kind::GEMM
    &&& info.backend_kind == backend_kind::CPU
    &&& info.capability_bits == CAPABILITY_BITS
    &&& abi::is_written_name(OPERATOR_NAME@, 128, info.name@)
    &&& forall|i: int| 0 <= i < 4 ==> info.reserved@[i] == 0
}

/// What the plugin says of operator `index`, for a place at `out_info`.
pub fn query_operator(index: u32, out_info: usize) -> (r: Result<VrbOperatorInfoV1, i32>)
    ensures
        match r {
            Ok(info) => index == 0 && out_info != 0 && is_own_info(info),
            Err(answer) => answer == status::INVALID_ARGUMENT && (index != 0 || out_info == 0),
        },
{
    if index != 0 || out_info == 0 {
        return Err(status::INVALID_ARGUMENT);
    }
    Ok(
        VrbOperatorInfoV1 {
            struct_size: expected_operator_info_struct_size(),
            operator_id: REFERENCE_GEMM_OPERATOR_ID,
            operator_kind: operator_kind::GEMM,
            backend_kind: backend_kind::CPU,
            capability_bits: CAPABILITY_BITS,
            name: abi::c_name(&OPERATOR_NAME),
            reserved: [0; 4],
        },
    )
}

/// How many bytes an input has. A pointer is needed only where there are any.
pub fn input_length(input_ptr: usize, input_len: u64) -> (r: Result<usize, i32>)
    ensures
        match r {
            Ok(length) => length == input_len && (length > 0 ==> input_ptr != 0),
            Err(answer) => {
                &&& answer == status::INVALID_ARGUMENT
                &&& input_len > usize::MAX || (input_len > 0 && input_ptr == 0)
            },
        },
{
    if input_len > usize::MAX as u64 {
        return Err(status::INVALID_ARGUMENT);
    }
    if input_len > 0 && input_ptr == 0 {
        return Err(status::INVALID_ARGUMENT);
    }
    Ok(input_len as usize)
}

/// The status that stands for an error.
pub open spec fn status_of(error: ReferenceGemmError) -> i32 {
    match error {
        ReferenceGemmError::Protocol(_) => status::INVALID_ARGUMENT,
        _ => status::UNSUPPORTED,
    }
}

pub fn map_error(error: &ReferenceGemmError) -> (r: i32)
    ensures
        r == status_of(*error),
{
    match error {
        ReferenceGemmError::Protocol(_) => status::INVALID_ARGUMENT,
        ReferenceGemmError::ResourceLimit { .. } => status::UNSUPPORTED,
        ReferenceGemmError::AddressSpaceOverflow => status::UNSUPPORTED,
    }
}

/// The limits that the plugin works within.
pub open spec fn own_limits() -> GemmLimits {
    GemmLimits { max_matrix_elements: 16_777_216, max_multiply_adds: 1_000_000_000 }
}

/// What stands against telling the length of the answer to a message.
pub open spec fn length_defect(input: Seq<u8>) -> Option<ReferenceGemmError> {
    let meta = gemm_protocol::request_meta(input);
    if gemm_reference::request_defect(input, own_limits()) is Some {
        gemm_reference::request_defect(input, own_limits())
    } else {
        gemm_reference::response_defect(meta.m, meta.n)
    }
}

/// How long the answer to a message will be, for a place at `out_output_len`.
pub fn output_size(operator_id: u32, input: &[u8], out_output_len: usize) -> (r: Result<u64, i32>)
    ensures
        ({
            let meta = gemm_protocol::request_meta(input@);
            let refused = operator_id != REFERENCE_GEMM_OPERATOR_ID || out_output_len == 0;
            match r {
                Ok(length) => {
                    &&& !refused
                    &&& length_defect(input@) is None
                    &&& length == gemm_protocol::response_length(meta.m, meta.n)
                },
                Err(answer) => if refused {
                    answer == status::INVALID_ARGUMENT
                } else {
                    &&& length_defect(input@) is Some
                    &&& answer == status_of(length_defect(input@)->0)
                },
            }
        }),
{
    if operator_id != REFERENCE_GEMM_OPERATOR_ID || out_output_len == 0 {
        return Err(status::INVALID_ARGUMENT);
    }
    match gemm_reference::required_output_len(input, GemmLimits::default()) {
        Ok(length) => Ok(length),
        Err(error) => Err(map_error(&error)),
    }
}

/// What a run answers: its status, the length to report where one is reported, and the bytes to
/// write where any are written.
#[derive(Debug, PartialEq, Eq)]
pub struct OperatorReply {
    pub status: i32,
    pub output_len: Option<u64>,
    pub output: Option<Vec<u8>>,
}

impl OperatorReply {
    /// Only a status.
    pub open spec fn is_only(&self, answer: i32) -> bool {
        &&& self.status == answer
        &&& self.output_len is None
        &&& self.output is None
    }
}

/// What stands against answering a message.
pub open spec fn answer_defect(input: Seq<u8>) -> Option<ReferenceGemmError> {
    let meta = gemm_protocol::request_meta(input);
    if gemm_reference::request_defect(input, own_limits()) is Some {
        gemm_reference::request_defect(input, own_limits())
    } else {
        gemm_reference::space_defect(meta)
    }
}

/// Whether bytes answer a message.
pub open spec fn is_answer(input: Seq<u8>, output: Seq<u8>) -> bool {
    let meta = gemm_protocol::request_meta(input);
    exists|values: Seq<Float32>|
        gemm_reference::gemm_of(input).is_result(values) && output
            == #[trigger] gemm_protocol::response_message(meta.m, meta.n, values)
}

/// Whether a request is one that the operator takes.
pub open spec fn is_own_request(request: VrbOperatorExecutionRequestV1) -> bool {
    &&& request.struct_size >= operator_plugin_api::execution_request_layout().size()
    &&& request.operator_id == REFERENCE_GEMM_OPERATOR_ID
    &&& request.output_len != 0
}

/// Whether a reply reports the length of an answer, and hands it out where there is room for it.
pub open spec fn is_reply(
    request: VrbOperatorExecutionRequestV1,
    answer: Seq<u8>,
    reply: OperatorReply,
) -> bool {
    &&& reply.output_len == Some(answer.len() as u64)
    &&& if answer.len() > request.output_capacity {
        reply.status == status::BUFFER_TOO_SMALL && reply.output is None
    } else if answer.len() > 0 && request.output_ptr == 0 {
        reply.status == status::INVALID_ARGUMENT && reply.output is None
    } else {
        reply.status == status::OK && reply.output is Some && (reply.output->0)@ == answer
    }
}

/// Answers a message.
pub fn execute(request: &VrbOperatorExecutionRequestV1, input: &[u8]) -> (r: OperatorReply)
    ensures
        if !is_own_request(*request) {
            r.is_only(status::INVALID_ARGUMENT)
        } else if answer_defect(input@) is Some {
            r.is_only(status_of(answer_defect(input@)->0))
        } else {
            exists|answer: Seq<u8>|
                #[trigger] is_answer(input@, answer) && is_reply(*request, answer, r)
        },
{
    let expected: u32 = expected_execution_request_struct_size();
    if request.struct_size < expected || request.operator_id != REFERENCE_GEMM_OPERATOR_ID
        || request.output_len == 0 {
        return OperatorReply { status: status::INVALID_ARGUMENT, output_len: None, output: None };
    }
    let output = match gemm_reference::execute_gemm_bytes(input, GemmLimits::default()) {
        Ok(output) => output,
        Err(error) => {
            return OperatorReply { status: map_error(&error), output_len: None, output: None };
        },
    };
    assert(is_answer(input@, output@));
    let length: usize = output.len();
    let required: u64 = length as u64;
    if required > request.output_capacity {
        return OperatorReply {
            status: status::BUFFER_TOO_SMALL,
            output_len: Some(required),
            output: None,
        };
    }
    if length > 0 && request.output_ptr == 0 {
        return OperatorReply {
            status: status::INVALID_ARGUMENT,
            output_len: Some(required),
            output: None,
        };
    }
    OperatorReply { status: status::OK, output_len: Some(required), output: Some(output) }
}

/// How the plugin describes itself, with its callbacks at these addresses.
pub fn descriptor(query_operator: usize, output_size: usize, execute: usize) -> (r:
    VrbOperatorPluginV1)
    ensures
        r.abi_version == VRB_OPERATOR_PLUGIN_ABI_VERSION,
        r.struct_size == operator_plugin_api::operator_plugin_layout().size(),
        abi::is_written_name(PLUGIN_NAME@, 128, r.name@),
        r.operator_count == 1,
        r.reserved0 == 0,
        r.capability_bits == CAPABILITY_BITS,
        r.user_data == 0,
        r.query_operator == query_operator,
        r.output_size == output_size,
        r.execute == execute,
        r.shutdown == 0,
        forall|i: int| 0 <= i < 4 ==> r.reserved@[i] == 0,
{
    VrbOperatorPluginV1 {
        abi_version: VRB_OPERATOR_PLUGIN_ABI_VERSION,
        struct_size: expected_operator_plugin_struct_size(),
        name: abi::c_name(&PLUGIN_NAME),
        operator_count: 1,
        reserved0: 0,
        capability_bits: CAPABILITY_BITS,
        user_data: 0,
        query_operator,
        output_size,
        execute,
        shutdown: 0,
        reserved: [0; 4],
    }
}

/// A buffer of the announced size has room for the answer, so a request with one is answered.
pub proof fn the_announced_size_is_enough(
    request: VrbOperatorExecutionRequestV1,
    input: Seq<u8>,
    answer: Seq<u8>,
    reply: OperatorReply,
)
    requires
        is_answer(input, answer),
        is_reply(request, answer, reply),
        request.output_ptr != 0,
        ({
            let meta = gemm_protocol::request_meta(input);
            request.output_capacity == gemm_protocol::response_length(meta.m, meta.n)
        }),
    ensures
        reply.status == status::OK,
        reply.output is Some,
        (reply.output->0)@ == answer,
        reply.output_len == Some(request.output_capacity),
{
    let meta = gemm_protocol::request_meta(input);
    let values = choose|values: Seq<Float32>|
        gemm_reference::gemm_of(input).is_result(values) && answer
            == #[trigger] gemm_protocol::response_message(meta.m, meta.n, values);
    gemm_reference::the_announced_length_is_the_length(input, values);
}

/// What a reply comes to: the length is always reported, and the bytes are handed out if and only
/// if there is room and a place for them.
pub proof fn a_reply_by_its_fields(
    request: VrbOperatorExecutionRequestV1,
    answer: Seq<u8>,
    reply: OperatorReply,
)
    requires
        is_reply(request, answer, reply),
        answer.len() <= u64::MAX,
    ensures
        reply.output_len matches Some(length) && length == answer.len(),
        reply.output is Some <==> answer.len() <= request.output_capacity && (answer.len() == 0
            || request.output_ptr != 0),
        reply.output matches Some(output) ==> output@ == answer && reply.status == 0,
        answer.len() > request.output_capacity ==> reply.status == 4,
        answer.len() <= request.output_capacity && answer.len() > 0 && request.output_ptr == 0
            ==> reply.status == 1,
{
}

/// The operator takes a request if and only if it is as long as it has to be, names the operator
/// and has a place for the length. A message that is not in order is an invalid argument; one that
/// is beyond the limits is not supported.
pub proof fn requests_and_errors(
    request: VrbOperatorExecutionRequestV1,
    error: ReferenceGemmError,
)
    ensures
        is_own_request(request) <==> {
            &&& request.struct_size >= operator_plugin_api::execution_request_layout().size()
            &&& request.operator_id == REFERENCE_GEMM_OPERATOR_ID
            &&& request.output_len != 0
        },
        error is Protocol ==> status_of(error) == 1,
        !(error is Protocol) ==> status_of(error) == 2,
{
}

/// What the plugin says of its operator: a multiplication of matrices on the processor, in single
/// precision and on host bytes.
pub proof fn what_the_plugin_says(info: VrbOperatorInfoV1)
    requires
        is_own_info(info),
    ensures
        info.struct_size == operator_plugin_api::operator_info_layout().size(),
        info.operator_id == REFERENCE_GEMM_OPERATOR_ID,
        info.operator_kind == 1,
        info.backend_kind == 1,
        info.capability_bits == 0x14,
{
}

} // verus!
