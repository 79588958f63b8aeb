use vrb::backend::BackendError;
use vrb::float::Float32;
use vrb::hip_shared_gemm_plugin;
use vrb::interop::{
    check_device_count, check_hip, check_imported, check_mapped, check_smoke_size,
    correlate_device, find_memory_type, missing_symbol, normalize_device_name, not_loadable,
    run_zero_copy_smoke, select_hip_device, select_vulkan_device, smoke_limit, smoke_report,
    verify_pattern, ShareCandidate, SharedReadback,
};
use vrb::platform::{Platform, RuntimeRoots};
use vrb::shared_buffer::{
    check_staging_write, readback_length, session_limit, settle_operation, validate_specs,
    with_exported_shared_buffers, ExportedBufferSessionOutput, ExportedSharedBuffer,
    SharedBufferSpec,
};
use vrb::shared_gemm_protocol::{encode_control, SharedGemmControl};
use vrb::shared_operator_plugin_api::{
    capability, memory_handle_kind, resource_access, status, VrbSharedOperatorExecutionRequestV1,
    VrbSharedResourceRegionV1,
};
use vrb::vulkan::PhysicalDeviceType;

fn internal<T>(text: &str) -> Result<T, BackendError> {
    Err(BackendError::Internal(text.to_owned()))
}

fn unsupported<T>(text: &str) -> Result<T, BackendError> {
    Err(BackendError::Unsupported(text.to_owned()))
}

fn unavailable<T>(text: &str) -> Result<T, BackendError> {
    Err(BackendError::Unavailable(text.to_owned()))
}

#[test]
fn device_name_normalization_is_stable() {
    assert_eq!(
        normalize_device_name("AMD Radeon RX 6800 XT"),
        "amdradeonrx6800xt"
    );
    assert_eq!(normalize_device_name("amdradeonrx6800xt"), "amdradeonrx6800xt");
    assert_eq!(normalize_device_name("\u{c9}-(TM)"), "tm");
}

#[test]
fn devices_are_correlated_by_name() {
    let names = |names: &[&str]| names.iter().map(|n| (*n).to_owned()).collect::<Vec<String>>();
    let two = names(&["gfx1036", "AMD Radeon RX 6800 XT (extended)"]);
    assert_eq!(correlate_device("AMD Radeon RX 6800 XT", &two), Some(1));
    let exact = names(&["AMD Radeon RX 6800 XT (extended)", "amd radeon rx-6800-xt"]);
    assert_eq!(correlate_device("AMD Radeon RX 6800 XT", &exact), Some(1));
    assert_eq!(correlate_device("AMD", &names(&["NVIDIA", "Intel"])), None);
    assert_eq!(correlate_device("AMD", &names(&["NVIDIA"])), Some(0));
    assert_eq!(
        select_hip_device("AMD Radeon RX 6800 XT", &two),
        Ok((1, "AMD Radeon RX 6800 XT (extended)".to_owned()))
    );
    assert_eq!(
        select_hip_device("AMD", &[]),
        unavailable("HIP runtime initialized but exposed no devices")
    );
    assert_eq!(
        select_hip_device("AMD", &names(&["NVIDIA", "Intel"])),
        unavailable("could not correlate Vulkan device 'AMD' with HIP devices: NVIDIA, Intel")
    );
}

#[test]
fn sizes_of_smoke_tests_are_bounded() {
    assert_eq!(smoke_limit(None), 256 * 1024 * 1024);
    assert_eq!(smoke_limit(Some("4096")), 4096);
    assert_eq!(smoke_limit(Some("4k")), 256 * 1024 * 1024);
    assert_eq!(check_smoke_size(4096, 4096), Ok(4096));
    assert_eq!(
        check_smoke_size(0, 4096),
        internal("zero-copy smoke size must be greater than zero")
    );
    assert_eq!(
        check_smoke_size(4097, 4096),
        unsupported("requested 4097 bytes exceeds VRB_MAX_SMOKE_BYTES=4096")
    );
}

fn readback(bytes: &[u8]) -> SharedReadback {
    SharedReadback {
        vulkan_device: "v".to_owned(),
        hip_device: "h".to_owned(),
        bytes: bytes.to_vec(),
    }
}

#[test]
fn smoke_tests_share_memory_on_windows_only() {
    for platform in [Platform::Linux, Platform::Other] {
        assert_eq!(
            run_zero_copy_smoke(platform, None, 0, 1, |_| panic!("shared")),
            unsupported(
                "the v0.1 zero-copy smoke test currently implements the Windows Win32/KMT path only"
            )
        );
    }
    let run = |bytes: u64, shared: Result<SharedReadback, BackendError>| {
        run_zero_copy_smoke(Platform::Windows, Some("16"), bytes, 7, |size| {
            assert_eq!(size as u64, bytes);
            shared
        })
    };
    assert_eq!(
        run(0, internal("shared")),
        internal("zero-copy smoke size must be greater than zero")
    );
    assert_eq!(
        run(17, internal("shared")),
        unsupported("requested 17 bytes exceeds VRB_MAX_SMOKE_BYTES=16")
    );
    assert_eq!(run(3, internal("no device")), internal("no device"));
    assert_eq!(
        run(3, Ok(readback(&[7, 8, 7]))),
        internal("zero-copy verification failed at byte 1: expected 0x07, got 0x08")
    );
    let report = run(16, Ok(readback(&[7; 16]))).unwrap();
    assert_eq!((report.bytes, report.verified_bytes, report.pattern), (16, 16, 7));
    assert_eq!((report.vulkan_device.as_str(), report.hip_device.as_str()), ("v", "h"));
}

fn candidate(vendor_id: u32, discrete: bool, device_id: u32) -> ShareCandidate {
    ShareCandidate {
        vendor_id,
        device_type: if discrete {
            PhysicalDeviceType::discrete_gpu()
        } else {
            PhysicalDeviceType::integrated_gpu()
        },
        device_id,
        compute_family: Some(0),
        has_external_memory_win32: true,
    }
}

#[test]
fn the_device_to_share_with_is_selected() {
    let mut best = candidate(0x1002, true, 1);
    let devices = [candidate(0x10de, true, 1), candidate(0x1002, false, 1), best];
    assert_eq!(select_vulkan_device(&devices), Ok(2));
    best.compute_family = None;
    let devices = [candidate(0x10de, true, 1), candidate(0x1002, false, 1), best];
    assert_eq!(select_vulkan_device(&devices), Ok(1));
    best.compute_family = Some(0);
    best.has_external_memory_win32 = false;
    assert_eq!(
        select_vulkan_device(&[best]),
        unavailable("no compute-capable Vulkan device with VK_KHR_external_memory_win32 was found")
    );
    let devices = [candidate(0x1002, true, 9), candidate(0x1002, true, 3)];
    assert_eq!(select_vulkan_device(&devices), Ok(1));
}

#[test]
fn memory_types_are_found_by_bits_and_flags() {
    let flags = [1, 7, 6, 15];
    assert_eq!(find_memory_type(&flags, 0b1111, 6), Some(1));
    assert_eq!(find_memory_type(&flags, 0b1100, 6), Some(2));
    assert_eq!(find_memory_type(&flags, 0b1100, 9), Some(3));
    assert_eq!(find_memory_type(&flags, 0b0100, 9), None);
    assert_eq!(find_memory_type(&[], u32::MAX, 0), None);
}

#[test]
fn answers_of_the_runtime_are_checked() {
    assert_eq!(check_hip(0, "hipMemcpy", None), Ok(()));
    assert_eq!(
        check_hip(2, "hipMemcpy", Some("out of memory")),
        internal("hipMemcpy failed with HIP error 2: out of memory")
    );
    assert_eq!(
        check_hip(-7, "hipMemcpy", None),
        internal("hipMemcpy failed with HIP error -7: unknown HIP error")
    );
    assert_eq!(check_imported(5), Ok(()));
    assert_eq!(
        check_imported(0),
        internal("hipImportExternalMemory succeeded but returned a null handle")
    );
    assert_eq!(check_mapped(5), Ok(()));
    assert_eq!(
        check_mapped(0),
        internal("HIP mapped external memory to a null device pointer")
    );
    assert_eq!(
        not_loadable(&["x".to_owned()]),
        BackendError::Unavailable(
            "HIP runtime library was not loadable for zero-copy smoke test (x)".to_owned()
        )
    );
    assert_eq!(
        missing_symbol("hipFree", "gone"),
        BackendError::Unavailable("required HIP symbol 'hipFree' is missing: gone".to_owned())
    );
}

#[test]
fn patterns_are_verified_to_the_byte() {
    assert_eq!(verify_pattern(&[0x5a; 7], 0x5a), Ok(7));
    assert_eq!(
        verify_pattern(&[0x5a, 0x5a, 0x0b, 0], 0x5a),
        internal("zero-copy verification failed at byte 2: expected 0x5a, got 0x0b")
    );
    let report = smoke_report(readback(&[1, 1, 1]), 3, 1).unwrap();
    assert_eq!((report.bytes, report.verified_bytes, report.pattern), (3, 3, 1));
    assert!(report.external_memory_handle.contains("WIN32"));
    assert!(smoke_report(readback(&[1, 1, 0]), 3, 1).is_err());
}

#[test]
fn spec_validation_rejects_zero_size() {
    let specs = [SharedBufferSpec {
        bytes: 0,
        initial_data: None,
        readback: false,
    }];
    assert!(validate_specs(&specs, session_limit(None)).is_err());
}

#[test]
fn faults_of_shared_buffers_are_told_apart() {
    let spec = |bytes: u64| SharedBufferSpec { bytes, initial_data: None, readback: false };
    assert_eq!(validate_specs(&[spec(4), spec(8)], 12), Ok(()));
    assert_eq!(
        validate_specs(&[], 12),
        internal("shared-buffer session requires at least one buffer")
    );
    assert_eq!(
        validate_specs(&vec![spec(1); 65], 1000),
        unsupported("shared-buffer session requests 65 buffers, maximum is 64")
    );
    assert_eq!(
        validate_specs(&[spec(1), spec(0)], 12),
        internal("shared-buffer 1 size must be non-zero")
    );
    let filled = SharedBufferSpec { bytes: 4, initial_data: Some(b"abc"), readback: true };
    assert_eq!(
        validate_specs(&[filled], 12),
        internal("shared-buffer 0 initial data is 3 bytes, expected 4")
    );
    assert_eq!(
        validate_specs(&[spec(u64::MAX), spec(1), spec(0)], 12),
        unsupported("shared-buffer session byte count overflow")
    );
    assert_eq!(
        validate_specs(&[spec(8), spec(5)], 12),
        unsupported(
            "shared-buffer session requests 13 bytes, exceeding VRB_MAX_SHARED_SESSION_BYTES=12"
        )
    );
    assert_eq!(session_limit(None), 1 << 30);
    assert_eq!(session_limit(Some("77")), 77);
    assert_eq!(session_limit(Some(" 77")), 1 << 30);
    assert_eq!(check_staging_write(4, 4), Ok(()));
    assert_eq!(
        check_staging_write(3, 4),
        internal("staging write length 3 does not match buffer size 4")
    );
    assert_eq!(readback_length(9), Ok(9));
}

#[test]
fn sessions_are_run_on_windows_only() {
    let spec = |bytes: u64| SharedBufferSpec { bytes, initial_data: None, readback: false };
    let session = |platform: Platform, specs: &[SharedBufferSpec<'_>]| {
        with_exported_shared_buffers(
            platform,
            Some("12"),
            specs,
            |exported| Ok(exported.len()),
            |operation| {
                let exported = ExportedSharedBuffer {
                    handle: 1,
                    allocation_size: 4,
                    logical_size: 4,
                };
                Ok(ExportedBufferSessionOutput {
                    value: operation(&[exported, exported])?,
                    vulkan_device: "v".to_owned(),
                    readbacks: vec![None],
                })
            },
        )
    };
    for platform in [Platform::Linux, Platform::Other] {
        assert_eq!(
            session(platform, &[]),
            unsupported("Vulkan shared-buffer export currently implements the Win32 KMT path only")
        );
    }
    assert_eq!(
        session(Platform::Windows, &[]),
        internal("shared-buffer session requires at least one buffer")
    );
    assert_eq!(
        session(Platform::Windows, &[spec(13)]),
        unsupported(
            "shared-buffer session requests 13 bytes, exceeding VRB_MAX_SHARED_SESSION_BYTES=12"
        )
    );
    let output = session(Platform::Windows, &[spec(4)]).unwrap();
    assert_eq!((output.value, output.vulkan_device.as_str()), (2, "v"));
    assert_eq!(output.readbacks, [None]);
}

#[test]
fn sessions_are_settled_by_the_first_failure() {
    assert_eq!(settle_operation(Ok(5), vec![Ok(()), Ok(())]), Ok(5));
    assert_eq!(
        settle_operation(Ok(5), vec![Ok(()), internal("a"), internal("b")]),
        internal("a")
    );
    assert_eq!(
        settle_operation::<u8>(internal("own"), vec![internal("a")]),
        internal("own")
    );
}

#[test]
fn descriptor_does_not_claim_zero_copy_before_hardware_certification() {
    let descriptor = hip_shared_gemm_plugin::descriptor(1, 2);
    assert_eq!(descriptor.capability_bits & capability::PROVEN_ZERO_COPY, 0);
    assert_ne!(descriptor.capability_bits & capability::EXTERNAL_RESOURCE, 0);
}

#[test]
fn hip_external_memory_abi_matches_certified_win64_layout() {
    assert_eq!(hip_shared_gemm_plugin::handle_description_size(), 104);
    assert_eq!(hip_shared_gemm_plugin::buffer_description_size(), 88);
}

fn float(value: f32) -> Float32 {
    Float32 { bits: value.to_bits() }
}

fn message(m: u64, n: u64, k: u64) -> Vec<u8> {
    encode_control(SharedGemmControl {
        m,
        n,
        k,
        alpha: float(1.0),
        beta: float(0.5),
        hip_device_index: 3,
    })
    .unwrap()
    .to_vec()
}

fn region(access: u32, length: u64) -> VrbSharedResourceRegionV1 {
    VrbSharedResourceRegionV1 {
        handle_kind: memory_handle_kind::WIN32_KMT,
        access,
        handle: 0x77,
        allocation_size: 4096,
        offset: 16,
        length,
        ..VrbSharedResourceRegionV1::default()
    }
}

fn regions(m: u64, n: u64, k: u64) -> Vec<VrbSharedResourceRegionV1> {
    vec![
        region(resource_access::READ_ONLY, 4 * m * k),
        region(resource_access::READ_ONLY, 4 * k * n),
        region(resource_access::READ_WRITE, 4 * m * n),
    ]
}

#[test]
fn row_major_dimension_mapping_is_i32_safe_for_small_case() {
    let (m, n, k) = (2, 4, 3);
    let launch =
        hip_shared_gemm_plugin::prepare_launch(&message(m, n, k), &regions(m, n, k)).unwrap();
    assert_eq!(
        (
            launch.rows,
            launch.columns,
            launch.depth,
            launch.first_leading,
            launch.second_leading,
            launch.output_leading
        ),
        (4, 2, 3, 4, 3, 4)
    );
    assert_eq!((launch.alpha, launch.beta), (float(1.0), float(0.5)));
    assert_eq!(launch.hip_device_index, 3);
}

#[test]
fn faults_of_launches_are_told_apart() {
    let launch = |change: fn(&mut Vec<VrbSharedResourceRegionV1>)| {
        let mut changed = regions(2, 4, 3);
        change(&mut changed);
        hip_shared_gemm_plugin::prepare_launch(&message(2, 4, 3), &changed).map(|_| ())
    };
    let invalid = Err(status::INVALID_ARGUMENT);
    assert_eq!(launch(|_| {}), Ok(()));
    assert_eq!(launch(|r| r[0].handle = 0), invalid);
    assert_eq!(launch(|r| r[1].handle_kind = memory_handle_kind::WIN32_NT), invalid);
    assert_eq!(launch(|r| r[2].access = resource_access::WRITE_ONLY), invalid);
    assert_eq!(launch(|r| r[0].length += 1), invalid);
    assert_eq!(launch(|r| r[0].offset = u64::MAX), invalid);
    assert_eq!(launch(|r| r[0].offset = 4090), invalid);
    assert_eq!(launch(|r| r[0].struct_size = 79), invalid);
    let short = &message(2, 4, 3)[..10];
    assert_eq!(
        hip_shared_gemm_plugin::prepare_launch(short, &regions(2, 4, 3)),
        Err(status::INVALID_ARGUMENT)
    );
    let large = 1 << 31;
    let mut wide = regions(1, large, 1);
    for one in &mut wide {
        one.allocation_size = u64::MAX;
    }
    assert_eq!(
        hip_shared_gemm_plugin::prepare_launch(&message(1, large, 1), &wide),
        Err(status::UNSUPPORTED)
    );
}

#[test]
fn requests_of_the_hip_plugin_are_checked() {
    let mut request = VrbSharedOperatorExecutionRequestV1::default();
    request.operator_id = 1;
    request.receipt_len = 9;
    request.resource_count = 3;
    request.resources_ptr = 8;
    let check = hip_shared_gemm_plugin::check_request;
    assert_eq!(check(Platform::Windows, &request), Ok(()));
    assert_eq!(check(Platform::Linux, &request), Err(status::UNSUPPORTED));
    assert_eq!(hip_shared_gemm_plugin::check_counts(&request), Ok(()));
    let mut waiting = request;
    waiting.wait_count = 1;
    assert_eq!(
        hip_shared_gemm_plugin::check_counts(&waiting),
        Err(status::INVALID_ARGUMENT)
    );
    let mut foreign = request;
    foreign.operator_id = 2;
    assert_eq!(check(Platform::Linux, &foreign), Err(status::INVALID_ARGUMENT));
    assert_eq!(hip_shared_gemm_plugin::input_length(0, 0), Ok(0));
    assert_eq!(hip_shared_gemm_plugin::input_length(0, 1), Err(status::INVALID_ARGUMENT));
    assert_eq!(hip_shared_gemm_plugin::check_obtained(0, 1), Ok(()));
    assert_eq!(hip_shared_gemm_plugin::check_obtained(0, 0), Err(status::UNAVAILABLE));
    assert_eq!(hip_shared_gemm_plugin::check_ready(4), Err(status::UNAVAILABLE));
    assert_eq!(hip_shared_gemm_plugin::check_computed(4), Err(status::INTERNAL_ERROR));

    let receipt = hip_shared_gemm_plugin::SUCCESS_RECEIPT;
    let reply = hip_shared_gemm_plugin::write_receipt(&request, &receipt);
    assert_eq!((reply.status, reply.receipt_len), (status::BUFFER_TOO_SMALL, 26));
    request.receipt_capacity = 26;
    let reply = hip_shared_gemm_plugin::write_receipt(&request, &receipt);
    assert_eq!((reply.status, reply.written), (status::INVALID_ARGUMENT, false));
    request.receipt_ptr = 5;
    let reply = hip_shared_gemm_plugin::write_receipt(&request, &receipt);
    assert_eq!((reply.status, reply.written), (status::OK, true));

    let roots = RuntimeRoots { hip_path: true, rocm_path: false };
    let hip = hip_shared_gemm_plugin::hip_library_candidates(roots);
    assert_eq!(hip[0].file, "amdhip64.dll");
    assert_eq!(hip[1].file, "amdhip64_9.dll");
    let rocblas = hip_shared_gemm_plugin::rocblas_library_candidates(roots);
    assert_eq!(rocblas[rocblas.len() - 1].root, None);
}

#[test]
fn devices_are_counted_from_zero_on() {
    assert_eq!(check_device_count(0), Ok(0));
    assert_eq!(check_device_count(3), Ok(3));
    assert_eq!(
        check_device_count(-1),
        Err(BackendError::Probe("HIP returned a negative device count".to_owned()))
    );
}
