use vrb::operator_plugin_api;
use vrb::operator_plugin_api::{
    VrbOperatorExecutionRequestV1, VrbOperatorInfoV1, VRB_OPERATOR_PLUGIN_ABI_VERSION,
    VRB_OPERATOR_PLUGIN_ENTRY_SYMBOL,
};
use vrb::plugin_api;
use vrb::plugin_api::{
    capability, VrbBackendInfoV1, VrbBackendKind, VrbExecutionRequestV1, VrbStatus,
    VRB_PLUGIN_ABI_VERSION, VRB_PLUGIN_ENTRY_SYMBOL,
};
use vrb::shared_operator_plugin_api;
use vrb::shared_operator_plugin_api::{
    VrbSharedOperatorExecutionRequestV1, VrbSharedOperatorInfoV1, VrbSharedResourceRegionV1,
    VrbSharedSyncPointV1, VRB_SHARED_OPERATOR_PLUGIN_ABI_VERSION,
    VRB_SHARED_OPERATOR_PLUGIN_ENTRY_SYMBOL,
};

#[test]
fn abi_version_is_stable() {
    assert_eq!(VRB_PLUGIN_ABI_VERSION, 1);
    assert!(plugin_api::expected_plugin_struct_size() >= 48);
    assert!(plugin_api::expected_backend_info_struct_size() >= 200);
}

#[test]
fn version_symbol_and_status_values_are_stable() {
    assert_eq!(VRB_PLUGIN_ABI_VERSION, 1);
    assert_eq!(&VRB_PLUGIN_ENTRY_SYMBOL, b"vrb_plugin_entry_v1\0");
    assert_eq!(VrbStatus::Success.raw(), 0);
    assert_eq!(VrbStatus::InvalidArgument.raw(), 1);
    assert_eq!(VrbStatus::Unsupported.raw(), 2);
    assert_eq!(VrbStatus::Unavailable.raw(), 3);
    assert_eq!(VrbStatus::InternalError.raw(), 4);
    assert_eq!(VrbBackendKind::Cpu.raw(), 1);
    assert_eq!(VrbBackendKind::Vulkan.raw(), 2);
    assert_eq!(VrbBackendKind::Hip.raw(), 3);
    assert_eq!(VrbBackendKind::Hybrid.raw(), 4);
    assert_eq!(VrbBackendKind::Other.raw(), 255);
}

#[test]
fn capability_bits_are_unique_and_non_overlapping() {
    let bits = [
        capability::COMPUTE,
        capability::EXTERNAL_MEMORY,
        capability::EXTERNAL_SEMAPHORE,
        capability::ZERO_COPY,
        capability::TIMESTAMPS,
        capability::FP16,
        capability::FP32,
        capability::INT8,
    ];
    let mut union = 0_u64;
    for bit in bits {
        assert_ne!(bit, 0);
        assert_eq!(bit.count_ones(), 1);
        assert_eq!(union & bit, 0);
        union |= bit;
    }
}

// The layouts on machines of 64-bit pointers.
#[test]
fn abi_struct_defaults_and_size_helpers_match_real_layout() {
    let info = VrbBackendInfoV1::default();
    assert_eq!(info.struct_size, 216);
    assert_eq!(info.backend_kind, VrbBackendKind::Other);
    assert_eq!(info.capability_bits, 0);
    assert_eq!(info.device_count, 0);
    assert!(info.name.iter().all(|value| *value == 0));
    assert!(info.vendor.iter().all(|value| *value == 0));
    assert_eq!(plugin_api::expected_backend_info_struct_size(), 216);
    assert_eq!(plugin_api::expected_plugin_struct_size(), 64);

    let request = VrbExecutionRequestV1::default();
    assert_eq!(request.struct_size, 0);
    assert_eq!(request.operation, 0);
    assert_eq!(request.element_count, 0);
    assert_eq!(plugin_api::expected_execution_request_struct_size(), 56);
}

#[test]
fn abi_version_and_struct_sizes_are_stable() {
    assert_eq!(VRB_OPERATOR_PLUGIN_ABI_VERSION, 1);
    assert!(operator_plugin_api::expected_operator_info_struct_size() >= 184);
    assert!(operator_plugin_api::expected_execution_request_struct_size() >= 88);
    assert!(operator_plugin_api::expected_operator_plugin_struct_size() >= 224);
}

#[test]
fn defaults_publish_their_actual_sizes() {
    assert_eq!(
        VrbOperatorInfoV1::default().struct_size,
        operator_plugin_api::expected_operator_info_struct_size()
    );
    assert_eq!(
        VrbOperatorExecutionRequestV1::default().struct_size,
        operator_plugin_api::expected_execution_request_struct_size()
    );
}

#[test]
fn abi_version_and_defaults_are_self_describing() {
    assert_eq!(VRB_SHARED_OPERATOR_PLUGIN_ABI_VERSION, 1);
    assert_eq!(
        VrbSharedResourceRegionV1::default().struct_size,
        shared_operator_plugin_api::expected_resource_region_struct_size()
    );
    assert_eq!(
        VrbSharedSyncPointV1::default().struct_size,
        shared_operator_plugin_api::expected_sync_point_struct_size()
    );
    assert_eq!(
        VrbSharedOperatorInfoV1::default().struct_size,
        shared_operator_plugin_api::expected_operator_info_struct_size()
    );
    assert_eq!(
        VrbSharedOperatorExecutionRequestV1::default().struct_size,
        shared_operator_plugin_api::expected_execution_request_struct_size()
    );
    assert!(shared_operator_plugin_api::expected_plugin_struct_size() > 0);
}

#[test]
fn proven_zero_copy_is_a_distinct_capability() {
    assert_ne!(
        shared_operator_plugin_api::capability::EXTERNAL_RESOURCE,
        shared_operator_plugin_api::capability::PROVEN_ZERO_COPY
    );
    assert_eq!(
        shared_operator_plugin_api::capability::EXTERNAL_RESOURCE
            & shared_operator_plugin_api::capability::PROVEN_ZERO_COPY,
        0
    );
}

#[test]
fn shared_sizes_and_symbols_are_those_of_the_boundary() {
    assert_eq!(shared_operator_plugin_api::expected_resource_region_struct_size(), 80);
    assert_eq!(shared_operator_plugin_api::expected_sync_point_struct_size(), 64);
    assert_eq!(shared_operator_plugin_api::expected_operator_info_struct_size(), 200);
    assert_eq!(shared_operator_plugin_api::expected_execution_request_struct_size(), 136);
    assert_eq!(shared_operator_plugin_api::expected_plugin_struct_size(), 224);
    assert_eq!(
        &VRB_SHARED_OPERATOR_PLUGIN_ENTRY_SYMBOL,
        b"vrb_shared_operator_plugin_entry_v1\0"
    );
    assert_eq!(&VRB_OPERATOR_PLUGIN_ENTRY_SYMBOL, b"vrb_operator_plugin_entry_v1\0");
}

struct Laid {
    _a: u32,
    _b: u32,
}

// Sizes of numbers as the compiler has them.
#[test]
fn pointers_have_the_size_of_a_word() {
    assert_eq!(std::mem::size_of::<usize>(), 8);
    assert_eq!(std::mem::align_of::<u64>(), 8);
    assert_eq!(std::mem::size_of::<Laid>(), 8);
}

#[test]
fn names_are_read_up_to_the_first_zero_byte() {
    let name = vrb::abi::c_name(b"  AMD Radeon  ");
    assert_eq!(vrb::abi::abi_chars_to_string(&name), "AMD Radeon");
    assert_eq!(vrb::abi::decode_name(&name), "  AMD Radeon  ");
    let long = vrb::abi::c_name(&[b'x'; 300]);
    assert_eq!(vrb::abi::abi_chars_to_string(&long), "x".repeat(127));
    assert_eq!(long[127], 0);
    let short = vrb::abi::short_c_name("\u{e9}t\u{e9}".as_bytes());
    assert_eq!(vrb::abi::abi_chars_to_string(&short), "\u{e9}t\u{e9}");
    assert_eq!(vrb::abi::abi_chars_to_string(b"a\xffb"), "a\u{fffd}b");
    assert_eq!(vrb::abi::abi_chars_to_string(b"no end"), "no end");
}

#[test]
fn words_hold_numbers_below_sixty_four() {
    assert_eq!(vrb::abi::bit_for(0), 1);
    assert_eq!(vrb::abi::bit_for(63), 1 << 63);
    assert_eq!(vrb::abi::bit_for(64), 0);
    assert!(vrb::abi::has_bit(0b1010, 3));
    assert!(!vrb::abi::has_bit(0b1010, 2));
    assert!(!vrb::abi::has_bit(u64::MAX, 64));
}
