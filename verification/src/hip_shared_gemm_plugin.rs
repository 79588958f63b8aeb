//! Matrix multiplication on shared memory by rocBLAS, as a plugin: what its callbacks check and
//! answer.
//!
//! Memory behind pointers is read and written elsewhere, and so are the calls of HIP and rocBLAS
//! made. Here they come and go as plain values.

use crate::abi;
use crate::abi::StructLayout;
use crate::float::Float32;
use crate::platform;
use crate::platform::{LibraryCandidate, Platform, RuntimeRoot, RuntimeRoots};
use crate::shared_gemm_protocol;
use crate::shared_gemm_protocol::{
    SharedGemmControl, A_RESOURCE_INDEX, B_RESOURCE_INDEX, C_RESOURCE_INDEX,
    SHARED_GEMM_RESOURCE_COUNT,
};
use crate::shared_operator_plugin_api;
use crate::shared_operator_plugin_api::{
    backend_kind, capability, expected_execution_request_struct_size,
    expected_operator_info_struct_size, expected_plugin_struct_size,
    expected_resource_region_struct_size, memory_handle_kind, operator_kind, resource_access,
    status, VrbSharedOperatorExecutionRequestV1, VrbSharedOperatorInfoV1,
    VrbSharedOperatorPluginV1, VrbSharedResourceRegionV1, VRB_SHARED_OPERATOR_PLUGIN_ABI_VERSION,
};
use vstd::prelude::*;

verus! {

pub const OPERATOR_ID: u32 = 1;

/// "vrb-hip-shared-gemm"
pub const PLUGIN_NAME: [u8; 19] = [
    0x76, 0x72, 0x62, 0x2d, 0x68, 0x69, 0x70, 0x2d, 0x73, 0x68, 0x61, 0x72, 0x65, 0x64, 0x2d,
    0x67, 0x65, 0x6d, 0x6d,
];

/// "hip-rocblas-shared-fp32-gemm"
pub const OPERATOR_NAME: [u8; 28] = [
    0x68, 0x69, 0x70, 0x2d, 0x72, 0x6f, 0x63, 0x62, 0x6c, 0x61, 0x73, 0x2d, 0x73, 0x68, 0x61,
    0x72, 0x65, 0x64, 0x2d, 0x66, 0x70, 0x33, 0x32, 0x2d, 0x67, 0x65, 0x6d, 0x6d,
];

/// "hip-rocblas-shared-gemm-ok"
pub const SUCCESS_RECEIPT: [u8; 26] = [
    0x68, 0x69, 0x70, 0x2d, 0x72, 0x6f, 0x63, 0x62, 0x6c, 0x61, 0x73, 0x2d, 0x73, 0x68, 0x61,
    0x72, 0x65, 0x64, 0x2d, 0x67, 0x65, 0x6d, 0x6d, 0x2d, 0x6f, 0x6b,
];

/// Shared resources and FP32. Zero-copy is not claimed: that takes a proof on hardware.
pub const CAPABILITY_BITS: u64 = 0x11;

/// The capabilities are those of their names, and zero-copy is not among them.
pub proof fn zero_copy_is_not_claimed()
    ensures
        CAPABILITY_BITS == capability::EXTERNAL_RESOURCE | capability::FP32,
        CAPABILITY_BITS & capability::EXTERNAL_RESOURCE != 0,
        CAPABILITY_BITS & capability::PROVEN_ZERO_COPY == 0,
{
    assert(0x11u64 == 0x01u64 | 0x10u64) by (bit_vector);
    assert(0x11u64 & 0x01u64 != 0) by (bit_vector);
    assert(0x11u64 & 0x04u64 == 0) by (bit_vector);
}

/// Whether this is what the plugin says of its operator.
pub open spec fn is_own_info(info: VrbSharedOperatorInfoV1) -> bool {
    &&& info.struct_size == shared_operator_plugin_api::operator_info_layout().size()
    &&& info.operator_id == OPERATOR_ID
    &&& info.operator_kind == operator_kind::GEMM
    &&& info.backend_kind == backend_kind::HIP
    &&& info.capability_bits == CAPABILITY_BITS
    &&& info.memory_kind_bits == 1u64 << memory_handle_kind::WIN32_KMT
    &&& info.sync_kind_bits == 0
    &&& abi::is_written_name(OPERATOR_NAME@, 128, info.name@)
    &&& forall|i: int| 0 <= i < 4 ==> info.reserved@[i] == 0
}

/// What the plugin says of operator `index`, for a place at `out_info`.
pub fn query_operator(index: u32, out_info: usize) -> (r: Result<VrbSharedOperatorInfoV1, i32>)
    ensures
        match r {
            Ok(info) => index == 0 && out_info != 0 && is_own_info(info),
            Err(answer) => answer == status::INVALID_ARGUMENT && (index != 0 || out_info == 0),
        },
{
    if index != 0 || out_info == 0 {
        return Err(status::INVALID_ARGUMENT);
    }
    Ok(
        VrbSharedOperatorInfoV1 {
            struct_size: expected_operator_info_struct_size(),
            operator_id: OPERATOR_ID,
            operator_kind: operator_kind::GEMM,
            backend_kind: backend_kind::HIP,
            capability_bits: CAPABILITY_BITS,
            memory_kind_bits: abi::bit_for(memory_handle_kind::WIN32_KMT),
            sync_kind_bits: 0,
            name: abi::c_name(&OPERATOR_NAME),
            reserved: [0; 4],
        },
    )
}

/// Whether a request is one that the operator takes.
pub open spec fn is_own_request(request: VrbSharedOperatorExecutionRequestV1) -> bool {
    &&& request.struct_size >= shared_operator_plugin_api::execution_request_layout().size()
    &&& request.operator_id == OPERATOR_ID
    &&& request.receipt_len != 0
}

/// Checks a request before anything behind it is looked at. Only Windows is supported.
pub fn check_request(platform: Platform, request: &VrbSharedOperatorExecutionRequestV1) -> (r:
    Result<(), i32>)
    ensures
        match r {
            Ok(_) => is_own_request(*request) && platform == Platform::Windows,
            Err(answer) => if is_own_request(*request) {
                platform != Platform::Windows && answer == status::UNSUPPORTED
            } else {
                answer == status::INVALID_ARGUMENT
            },
        },
{
    let expected: u32 = expected_execution_request_struct_size();
    if request.struct_size < expected || request.operator_id != OPERATOR_ID || request.receipt_len
        == 0 {
        return Err(status::INVALID_ARGUMENT);
    }
    match platform {
        Platform::Windows => Ok(()),
        _ => Err(status::UNSUPPORTED),
    }
}

/// How many bytes an input has. A pointer is needed only where there are any.
pub fn input_length(input_ptr: usize, input_len: u64) -> (r: Result<usize, i32>)
    ensures
        match r {
            Ok(length) => length == input_len && (length > 0 ==> input_ptr != 0),
            Err(answer) => {
                &&& answer == status::INVALID_ARGUMENT
                &&& input_len > usize::MAX || (input_len > 0 && input_ptr == 0)
            },
        },
{
    if input_len > usize::MAX as u64 {
        return Err(status::INVALID_ARGUMENT);
    }
    if input_len > 0 && input_ptr == 0 {
        return Err(status::INVALID_ARGUMENT);
    }
    Ok(input_len as usize)
}

/// Whether a request names three resources and no points.
pub open spec fn has_own_counts(request: VrbSharedOperatorExecutionRequestV1) -> bool {
    &&& request.resource_count == SHARED_GEMM_RESOURCE_COUNT
    &&& request.resources_ptr != 0
    &&& request.wait_count == 0
    &&& request.signal_count == 0
}

/// Checks how many resources and points a request names, before they are looked at.
pub fn check_counts(request: &VrbSharedOperatorExecutionRequestV1) -> (r: Result<(), i32>)
    ensures
        match r {
            Ok(_) => has_own_counts(*request),
            Err(answer) => !has_own_counts(*request) && answer == status::INVALID_ARGUMENT,
        },
{
    if request.resource_count != 3 || request.resources_ptr == 0 || request.wait_count != 0
        || request.signal_count != 0 {
        return Err(status::INVALID_ARGUMENT);
    }
    Ok(())
}

/// Whether a region is a KMT handle with this access, exactly as long as expected and inside its
/// allocation.
pub open spec fn is_valid_region(
    region: VrbSharedResourceRegionV1,
    access: u32,
    expected_bytes: int,
) -> bool {
    &&& region.struct_size >= shared_operator_plugin_api::resource_region_layout().size()
    &&& region.handle_kind == memory_handle_kind::WIN32_KMT
    &&& region.access == access
    &&& region.handle != 0
    &&& region.length == expected_bytes
    &&& region.allocation_size != 0
    &&& region.offset + region.length <= region.allocation_size
}

pub fn validate_region(region: &VrbSharedResourceRegionV1, access: u32, expected_bytes: u64) -> (r:
    bool)
    ensures
        r == is_valid_region(*region, access, expected_bytes as int),
{
    let expected: u32 = expected_resource_region_struct_size();
    if region.struct_size < expected || region.handle_kind != memory_handle_kind::WIN32_KMT
        || region.access != access || region.handle == 0 || region.length != expected_bytes
        || region.allocation_size == 0 {
        return false;
    }
    match region.offset.checked_add(region.length) {
        Some(end) => end <= region.allocation_size,
        None => false,
    }
}

/// A multiplication as rocBLAS takes it, with matrices by columns.
#[derive(Debug, Clone, Copy, PartialEq)]
pub struct GemmLaunch {
    pub rows: i32,
    pub columns: i32,
    pub depth: i32,
    pub first_leading: i32,
    pub second_leading: i32,
    pub output_leading: i32,
    pub alpha: Float32,
    pub beta: Float32,
    pub hip_device_index: i32,
}

/// Whether a launch computes what a control message asks for: `B` and `A` in exchanged places.
pub open spec fn is_launch_of(launch: GemmLaunch, control: SharedGemmControl) -> bool {
    &&& launch.rows == control.n
    &&& launch.columns == control.m
    &&& launch.depth == control.k
    &&& launch.first_leading == control.n
    &&& launch.second_leading == control.k
    &&& launch.output_leading == control.n
    &&& launch.alpha == control.alpha
    &&& launch.beta == control.beta
    &&& launch.hip_device_index == control.hip_device_index
}

/// Whether the three regions are those of a control message: `A` and `B` to read, `C` to read and
/// write.
pub open spec fn are_regions_of(
    control: SharedGemmControl,
    resources: Seq<VrbSharedResourceRegionV1>,
) -> bool {
    &&& is_valid_region(
        resources[A_RESOURCE_INDEX as int],
        resource_access::READ_ONLY,
        4 * (control.m * control.k),
    )
    &&& is_valid_region(
        resources[B_RESOURCE_INDEX as int],
        resource_access::READ_ONLY,
        4 * (control.k * control.n),
    )
    &&& is_valid_region(
        resources[C_RESOURCE_INDEX as int],
        resource_access::READ_WRITE,
        4 * (control.m * control.n),
    )
}

/// What a message and its regions are refused with.
pub open spec fn launch_refusal(
    metadata: Seq<u8>,
    resources: Seq<VrbSharedResourceRegionV1>,
) -> Option<i32> {
    let control = shared_gemm_protocol::control_fields(metadata);
    if shared_gemm_protocol::message_defect(metadata) is Some || control.length_defect() is Some
        || !are_regions_of(control, resources) {
        Some(status::INVALID_ARGUMENT)
    } else if control.m > i32::MAX || control.n > i32::MAX || control.k > i32::MAX {
        Some(status::UNSUPPORTED)
    } else {
        None
    }
}

/// The multiplication that a control message asks for on three regions.
pub fn prepare_launch(metadata: &[u8], resources: &[VrbSharedResourceRegionV1]) -> (r: Result<
    GemmLaunch,
    i32,
>)
    requires
        resources@.len() == SHARED_GEMM_RESOURCE_COUNT,
    ensures
        match r {
            Ok(launch) => {
                &&& launch_refusal(metadata@, resources@) is None
                &&& is_launch_of(launch, shared_gemm_protocol::control_fields(metadata@))
            },
            Err(answer) => launch_refusal(metadata@, resources@) == Some(answer),
        },
{
    let control = match shared_gemm_protocol::decode_control(metadata) {
        Ok(control) => control,
        Err(_) => {
            return Err(status::INVALID_ARGUMENT);
        },
    };
    let lengths = match shared_gemm_protocol::expected_resource_lengths(control) {
        Ok(lengths) => lengths,
        Err(_) => {
            return Err(status::INVALID_ARGUMENT);
        },
    };
    if !validate_region(&resources[0], resource_access::READ_ONLY, lengths.a_bytes)
        || !validate_region(&resources[1], resource_access::READ_ONLY, lengths.b_bytes)
        || !validate_region(&resources[2], resource_access::READ_WRITE, lengths.c_bytes) {
        return Err(status::INVALID_ARGUMENT);
    }
    let most: u64 = i32::MAX as u64;
    if control.m > most || control.n > most || control.k > most {
        return Err(status::UNSUPPORTED);
    }
    let m: i32 = control.m as i32;
    let n: i32 = control.n as i32;
    let k: i32 = control.k as i32;
    Ok(
        GemmLaunch {
            rows: n,
            columns: m,
            depth: k,
            first_leading: n,
            second_leading: k,
            output_leading: n,
            alpha: control.alpha,
            beta: control.beta,
            hip_device_index: control.hip_device_index,
        },
    )
}

/// The place of an element in a matrix by rows.
pub open spec fn by_rows(row: int, column: int, columns: int) -> int {
    row * columns + column
}

/// The place of an element in a matrix by columns.
pub open spec fn by_columns(row: int, column: int, leading: int) -> int {
    column * leading + row
}

/// A launch reads and writes the bytes of the matrices as they are, without transposing any: by
/// columns, `B` stands first with its columns as rows, `A` second, and the result is `C`.
pub proof fn a_launch_needs_no_transposition(
    launch: GemmLaunch,
    control: SharedGemmControl,
    row: int,
    column: int,
    depth: int,
)
    requires
        is_launch_of(launch, control),
    ensures
        by_columns(column, depth, launch.first_leading as int) == by_rows(
            depth,
            column,
            control.n as int,
        ),
        by_columns(depth, row, launch.second_leading as int) == by_rows(
            row,
            depth,
            control.k as int,
        ),
        by_columns(column, row, launch.output_leading as int) == by_rows(
            row,
            column,
            control.n as int,
        ),
{
}

/// What a call that obtains something comes to: it must succeed and give an address.
pub fn check_obtained(code: i32, address: usize) -> (r: Result<(), i32>)
    ensures
        match r {
            Ok(_) => code == 0 && address != 0,
            Err(answer) => answer == status::UNAVAILABLE && (code != 0 || address == 0),
        },
{
    if code != 0 || address == 0 {
        return Err(status::UNAVAILABLE);
    }
    Ok(())
}

/// What a call that readies the runtime comes to.
pub fn check_ready(code: i32) -> (r: Result<(), i32>)
    ensures
        match r {
            Ok(_) => code == 0,
            Err(answer) => code != 0 && answer == status::UNAVAILABLE,
        },
{
    if code != 0 {
        return Err(status::UNAVAILABLE);
    }
    Ok(())
}

/// What a call that computes comes to.
pub fn check_computed(code: i32) -> (r: Result<(), i32>)
    ensures
        match r {
            Ok(_) => code == 0,
            Err(answer) => code != 0 && answer == status::INTERNAL_ERROR,
        },
{
    if code != 0 {
        return Err(status::INTERNAL_ERROR);
    }
    Ok(())
}

/// The layout of HIP's description of memory to import: a type, two pointers, a size, flags and
/// sixteen reserved numbers.
pub open spec fn handle_description_layout() -> StructLayout {
    StructLayout::empty().with(abi::half()).with(abi::address().times(2)).with(abi::word()).with(
        abi::half(),
    ).with(abi::half().times(16))
}

/// The size of HIP's description of memory to import, in bytes.
pub fn handle_description_size() -> (r: u32)
    ensures
        r == handle_description_layout().size(),
        abi::is_usual_machine() ==> r == 104,
{
    StructLayout::new().with_half().with_addresses(2).with_word().with_half().with_halves(
        16,
    ).size_in_bytes()
}

/// The layout of HIP's description of memory to map: an offset, a size, flags and sixteen reserved
/// numbers.
pub open spec fn buffer_description_layout() -> StructLayout {
    StructLayout::empty().with(abi::word()).with(abi::word()).with(abi::half()).with(
        abi::half().times(16),
    )
}

/// The size of HIP's description of memory to map, in bytes.
pub fn buffer_description_size() -> (r: u32)
    ensures
        r == buffer_description_layout().size(),
        abi::is_usual_machine() ==> r == 88,
{
    StructLayout::new().with_word().with_word().with_half().with_halves(16).size_in_bytes()
}

/// What is reported of a receipt: always its length, and whether it is written.
#[derive(Debug, Clone, Copy, PartialEq, Eq, Structural)]
pub struct ReceiptReply {
    pub status: i32,
    pub receipt_len: u64,
    pub written: bool,
}

/// Whether a receipt of a length is written: only where there is room for it.
pub fn write_receipt(request: &VrbSharedOperatorExecutionRequestV1, receipt: &[u8]) -> (r:
    ReceiptReply)
    ensures
        r.receipt_len == receipt@.len(),
        r.status == if request.receipt_capacity < receipt@.len() {
            status::BUFFER_TOO_SMALL
        } else if receipt@.len() > 0 && request.receipt_ptr == 0 {
            status::INVALID_ARGUMENT
        } else {
            status::OK
        },
        r.written == (r.status == status::OK && receipt@.len() > 0),
{
    let length: usize = receipt.len();
    let required: u64 = length as u64;
    if request.receipt_capacity < required {
        return ReceiptReply {
            status: status::BUFFER_TOO_SMALL,
            receipt_len: required,
            written: false,
        };
    }
    if required > 0 && request.receipt_ptr == 0 {
        return ReceiptReply {
            status: status::INVALID_ARGUMENT,
            receipt_len: required,
            written: false,
        };
    }
    ReceiptReply { status: status::OK, receipt_len: required, written: required > 0 }
}

/// The files of the HIP runtime under a root: the plain name, then the numbered ones from the
/// latest.
pub open spec fn hip_files_under(roots: RuntimeRoots, root: RuntimeRoot) -> Seq<LibraryCandidate> {
    platform::under(roots, root, "bin", "amdhip64.dll") + platform::under(
        roots,
        root,
        "bin",
        "amdhip64_9.dll",
    ) + platform::under(roots, root, "bin", "amdhip64_8.dll") + platform::under(
        roots,
        root,
        "bin",
        "amdhip64_7.dll",
    ) + platform::under(roots, root, "bin", "amdhip64_6.dll") + platform::under(
        roots,
        root,
        "bin",
        "amdhip64_5.dll",
    )
}

fn push_hip_files(
    candidates: &mut Vec<LibraryCandidate>,
    roots: RuntimeRoots,
    root: RuntimeRoot,
)
    ensures
        final(candidates)@ == old(candidates)@ + hip_files_under(roots, root),
{
    platform::push_under(candidates, roots, root, "bin", "amdhip64.dll");
    platform::push_under(candidates, roots, root, "bin", "amdhip64_9.dll");
    platform::push_under(candidates, roots, root, "bin", "amdhip64_8.dll");
    platform::push_under(candidates, roots, root, "bin", "amdhip64_7.dll");
    platform::push_under(candidates, roots, root, "bin", "amdhip64_6.dll");
    platform::push_under(candidates, roots, root, "bin", "amdhip64_5.dll");
    assert(candidates@ =~= old(candidates)@ + hip_files_under(roots, root));
}

/// Where the HIP runtime is looked for, in this order.
pub fn hip_library_candidates(roots: RuntimeRoots) -> (r: Vec<LibraryCandidate>)
    ensures
        r@ == hip_files_under(roots, RuntimeRoot::HipPath) + hip_files_under(
            roots,
            RuntimeRoot::RocmPath,
        ) + platform::alone("", "amdhip64.dll") + platform::alone("", "amdhip64_9.dll")
            + platform::alone("", "amdhip64_8.dll") + platform::alone("", "amdhip64_7.dll")
            + platform::alone("", "amdhip64_6.dll") + platform::alone("", "amdhip64_5.dll"),
{
    let mut r: Vec<LibraryCandidate> = Vec::new();
    push_hip_files(&mut r, roots, RuntimeRoot::HipPath);
    assert(r@ =~= hip_files_under(roots, RuntimeRoot::HipPath));
    push_hip_files(&mut r, roots, RuntimeRoot::RocmPath);
    platform::push_alone(&mut r, "", "amdhip64.dll");
    platform::push_alone(&mut r, "", "amdhip64_9.dll");
    platform::push_alone(&mut r, "", "amdhip64_8.dll");
    platform::push_alone(&mut r, "", "amdhip64_7.dll");
    platform::push_alone(&mut r, "", "amdhip64_6.dll");
    platform::push_alone(&mut r, "", "amdhip64_5.dll");
    r
}

/// Where rocBLAS is looked for, in this order.
pub fn rocblas_library_candidates(roots: RuntimeRoots) -> (r: Vec<LibraryCandidate>)
    ensures
        r@ == platform::under(roots, RuntimeRoot::RocmPath, "bin", "rocblas.dll")
            + platform::under(roots, RuntimeRoot::HipPath, "bin", "rocblas.dll")
            + platform::alone("", "rocblas.dll"),
{
    let mut r: Vec<LibraryCandidate> = Vec::new();
    platform::push_under(&mut r, roots, RuntimeRoot::RocmPath, "bin", "rocblas.dll");
    assert(r@ =~= platform::under(roots, RuntimeRoot::RocmPath, "bin", "rocblas.dll"));
    platform::push_under(&mut r, roots, RuntimeRoot::HipPath, "bin", "rocblas.dll");
    platform::push_alone(&mut r, "", "rocblas.dll");
    r
}

/// How the plugin describes itself, with its callbacks at these addresses.
pub fn descriptor(query_operator: usize, execute: usize) -> (r: VrbSharedOperatorPluginV1)
    ensures
        r.abi_version == VRB_SHARED_OPERATOR_PLUGIN_ABI_VERSION,
        r.struct_size == shared_operator_plugin_api::plugin_layout().size(),
        abi::is_written_name(PLUGIN_NAME@, 128, r.name@),
        r.operator_count == 1,
        r.reserved0 == 0,
        r.capability_bits == CAPABILITY_BITS,
        r.user_data == 0,
        r.query_operator == query_operator,
        r.execute == execute,
        r.shutdown == 0,
        forall|i: int| 0 <= i < 5 ==> r.reserved@[i] == 0,
{
    VrbSharedOperatorPluginV1 {
        abi_version: VRB_SHARED_OPERATOR_PLUGIN_ABI_VERSION,
        struct_size: expected_plugin_struct_size(),
        name: abi::c_name(&PLUGIN_NAME),
        operator_count: 1,
        reserved0: 0,
        capability_bits: CAPABILITY_BITS,
        user_data: 0,
        query_operator,
        execute,
        shutdown: 0,
        reserved: [0; 5],
    }
}

/// A launch by its fields: rows and columns in exchanged places, the depth and the factors as they
/// are, on the device that the control names.
pub proof fn a_launch_by_its_fields(launch: GemmLaunch, control: SharedGemmControl)
    requires
        is_launch_of(launch, control),
    ensures
        launch.rows == control.n,
        launch.columns == control.m,
        launch.depth == control.k,
        launch.first_leading == control.n,
        launch.second_leading == control.k,
        launch.output_leading == control.n,
        launch.alpha == control.alpha,
        launch.beta == control.beta,
        launch.hip_device_index == control.hip_device_index,
{
}

/// A region is accepted if and only if it is as long a description as it has to be, a KMT handle
/// with just this access, exactly as long as the matrix, and inside its allocation.
pub proof fn a_region_by_its_fields(
    region: VrbSharedResourceRegionV1,
    access: u32,
    expected_bytes: int,
)
    ensures
        is_valid_region(region, access, expected_bytes) <==> {
            &&& region.struct_size >= shared_operator_plugin_api::resource_region_layout().size()
            &&& region.handle_kind == 1
            &&& region.access == access
            &&& region.handle != 0
            &&& region.length == expected_bytes
            &&& region.allocation_size > 0
            &&& region.offset + region.length <= region.allocation_size
        },
{
}

/// The regions of a multiplication: `A` first and `B` second, to read, and `C` third, to read and
/// write, four bytes for each element.
pub proof fn regions_of_a_multiplication(
    control: SharedGemmControl,
    resources: Seq<VrbSharedResourceRegionV1>,
)
    ensures
        are_regions_of(control, resources) <==> {
            &&& is_valid_region(resources[0], 1, 4 * (control.m * control.k))
            &&& is_valid_region(resources[1], 1, 4 * (control.k * control.n))
            &&& is_valid_region(resources[2], 3, 4 * (control.m * control.n))
        },
{
}

/// A launch is prepared if and only if the message is in order, the matrices have lengths, the
/// regions are theirs, and every dimension fits the library. Only the last is answered with
/// "unsupported".
pub proof fn a_launch_that_is_prepared(
    metadata: Seq<u8>,
    resources: Seq<VrbSharedResourceRegionV1>,
)
    ensures
        ({
            let control = shared_gemm_protocol::control_fields(metadata);
            let in_order = shared_gemm_protocol::message_defect(metadata) is None
                && control.length_defect() is None && are_regions_of(control, resources);
            let fits = control.m <= 0x7fff_ffff && control.n <= 0x7fff_ffff && control.k
                <= 0x7fff_ffff;
            &&& launch_refusal(metadata, resources) is None <==> in_order && fits
            &&& launch_refusal(metadata, resources) == Some(2i32) <==> in_order && !fits
            &&& launch_refusal(metadata, resources) == Some(1i32) <==> !in_order
        }),
{
}

/// The operator takes a request if and only if it is as long as it has to be, names the operator
/// and has a place for the length of the receipt, and works on three resources and no points.
pub proof fn a_request_by_its_fields(request: VrbSharedOperatorExecutionRequestV1)
    ensures
        is_own_request(request) <==> {
            &&& request.struct_size
                >= shared_operator_plugin_api::execution_request_layout().size()
            &&& request.operator_id == OPERATOR_ID
            &&& request.receipt_len != 0
        },
        has_own_counts(request) <==> {
            &&& request.resource_count == 3
            &&& request.resources_ptr != 0
            &&& request.wait_count == 0
            &&& request.signal_count == 0
        },
{
}

/// What the plugin says of its operator: a multiplication of matrices on HIP, in single precision,
/// on shared resources by KMT handles, without points.
pub proof fn what_the_plugin_says(info: VrbSharedOperatorInfoV1)
    requires
        is_own_info(info),
    ensures
        info.struct_size == shared_operator_plugin_api::operator_info_layout().size(),
        info.operator_id == OPERATOR_ID,
        info.operator_kind == 1,
        info.backend_kind == 3,
        info.capability_bits == 0x11,
        info.memory_kind_bits == 1u64 << 1u32,
        info.sync_kind_bits == 0,
{
}

} // verus!
