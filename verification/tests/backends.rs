use ash::vk;
use vrb::abi::abi_chars_to_string;
use vrb::backend::{BackendError, BackendKind, DataType, OperationKind, RouteRequest};
use vrb::cpu::CpuBackend;
use vrb::float::Float32;
use vrb::hip::{
    candidate_libraries, check_hip, HipAnswers, HipBackend, HipNameAnswer, HipRuntimeInfo,
    HipSymbols,
};
use vrb::platform::{LibraryCandidate, Platform, RuntimeRoot, RuntimeRoots};
use vrb::plugin_api::{capability, VrbBackendInfoV1, VrbExecutionRequestV1, VrbPluginV1, VrbStatus};
use vrb::plugin_backend::{
    data_types_from_bits, status_result, DynamicPluginBackend, PluginLoadError,
};
use vrb::test_plugin;
use vrb::vulkan::{
    external_resource_support, PhysicalDeviceType, QueueFamily, VulkanBackend,
    VulkanDeviceAnswers, VulkanDeviceInfo, VulkanRuntimeInfo, AMD_PCI_VENDOR_ID, QUEUE_COMPUTE,
};

fn floats(values: &[f32]) -> Vec<Float32> {
    values.iter().map(|v| Float32 { bits: v.to_bits() }).collect()
}

#[test]
fn vector_add_is_correct() {
    let backend = CpuBackend::new();
    let left = floats(&[1.0, 2.5, -3.0]);
    let right = floats(&[4.0, -0.5, 8.0]);
    let mut output = floats(&[0.0; 3]);
    backend.vector_add_f32(&left, &right, &mut output).unwrap();
    assert_eq!(output, floats(&[5.0, 2.0, 5.0]));
}

#[test]
fn cpu_backend_public_surface_succeeds_and_fails_closed() {
    let backend = CpuBackend::new();
    let default_backend = CpuBackend::default();
    assert_eq!(backend.id().as_str(), "cpu");
    assert_eq!(default_backend.id().as_str(), "cpu");
    assert_eq!(backend.kind(), BackendKind::Cpu);

    let probe = backend.probe_on("x86_64");
    assert_eq!(probe.vendor, "x86_64");
    assert!(probe.available);
    assert_eq!(probe.device_count, 1);
    assert!(probe.capabilities.operations.contains(&OperationKind::Copy));
    assert!(probe
        .capabilities
        .operations
        .contains(&OperationKind::VectorAdd));
    assert!(probe.capabilities.data_types.contains(&DataType::F32));
    assert!(!probe.capabilities.zero_copy);

    let left = floats(&[1.0, -2.0, 3.5, 0.0]);
    let right = floats(&[2.0, 8.0, -1.5, 4.0]);
    let mut output = floats(&[0.0; 4]);
    backend.vector_add_f32(&left, &right, &mut output).unwrap();
    assert_eq!(output, floats(&[3.0, 6.0, 2.0, 4.0]));

    let mut short_output = floats(&[0.0; 3]);
    let error = backend
        .vector_add_f32(&left, &right, &mut short_output)
        .expect_err("length mismatch must fail");
    assert!(matches!(error, BackendError::Internal(_)));
    assert_eq!(short_output, floats(&[0.0; 3]));
}

#[test]
fn hip_candidates_are_non_empty() {
    let none = RuntimeRoots { hip_path: false, rocm_path: false };
    for platform in [Platform::Windows, Platform::Linux, Platform::Other] {
        assert!(!candidate_libraries(platform, none).is_empty());
    }
    let both = RuntimeRoots { hip_path: true, rocm_path: true };
    let linux = candidate_libraries(Platform::Linux, both);
    assert_eq!(linux.len(), 6);
    assert_eq!(
        linux[1],
        LibraryCandidate {
            root: Some(RuntimeRoot::HipPath),
            directory: "lib64",
            file: "libamdhip64.so"
        }
    );
    assert_eq!(RuntimeRoot::RocmPath.variable_name(), "ROCM_PATH");
}

#[test]
fn hip_error_zero_is_success() {
    assert!(check_hip(0, "test").is_ok());
    assert!(check_hip(1, "test").is_err());
}

fn symbols(all: bool) -> HipSymbols {
    HipSymbols {
        import_external_memory: true,
        external_memory_get_mapped_buffer: true,
        destroy_external_memory: true,
        import_external_semaphore: true,
        signal_external_semaphores: true,
        wait_external_semaphores: all,
        destroy_external_semaphore: true,
    }
}

fn hip_answers(names: Vec<HipNameAnswer>) -> HipAnswers {
    HipAnswers {
        library: "libamdhip64.so".to_owned(),
        init: 0,
        version_status: 0,
        version: 60_000,
        count_status: 0,
        count: names.len() as i32,
        names,
        symbols: symbols(true),
    }
}

#[test]
fn hip_backend_constructor_identity_and_probe_contract_are_stable() {
    let backend = HipBackend::new();
    let default_backend = HipBackend::default();
    assert_eq!(backend.id().as_str(), "hip");
    assert_eq!(default_backend.id().as_str(), "hip");
    assert_eq!(backend.kind(), BackendKind::Hip);

    let name = |status: i32, name: &[u8]| HipNameAnswer { status, name: name.to_vec() };
    let answers = hip_answers(vec![
        name(0, b"AMD Radeon RX 6800 XT\0rest"),
        name(0, b"\0"),
        name(101, b"\0"),
    ]);
    let info = HipRuntimeInfo::from_answers(answers).unwrap();
    assert!(!info.library.is_empty());
    assert!(info.runtime_version_raw > 0);
    assert_eq!(
        info.devices,
        ["AMD Radeon RX 6800 XT", "HIP device 1", "HIP device 2 (name error 101)"]
    );
    assert!(info.external_memory_api && info.external_semaphore_api);

    let probe = backend.probe_from(&info);
    assert_eq!(probe.id.as_str(), "hip");
    assert!(probe.available);
    assert_eq!(probe.device_count, 3);
    assert!(probe.capabilities.zero_copy);
    assert_eq!(
        probe.detail,
        "library=libamdhip64.so, runtime_version_raw=60000, external_memory=true, external_semaphore=true"
    );
}

#[test]
fn failures_of_the_hip_runtime_are_told_apart() {
    let refused = |change: fn(&mut HipAnswers)| {
        let mut answers = hip_answers(vec![]);
        change(&mut answers);
        HipRuntimeInfo::from_answers(answers)
    };
    assert_eq!(
        refused(|a| a.init = 100),
        Err(BackendError::Unavailable("hipInit returned HIP error code 100".to_owned()))
    );
    assert_eq!(
        refused(|a| a.version_status = -1),
        Err(BackendError::Unavailable(
            "hipRuntimeGetVersion returned HIP error code -1".to_owned()
        ))
    );
    assert_eq!(
        refused(|a| a.count_status = 3),
        Err(BackendError::Unavailable("hipGetDeviceCount returned HIP error code 3".to_owned()))
    );
    assert_eq!(
        refused(|a| a.count = -2),
        Err(BackendError::Probe("HIP returned a negative device count".to_owned()))
    );
    let lacking = refused(|a| a.symbols = symbols(false)).unwrap();
    assert!(lacking.external_memory_api && !lacking.external_semaphore_api);
    let probe = HipBackend::new().probe_from(&lacking);
    assert_eq!(probe.name, "HIP runtime");
    assert!(!probe.available && !probe.capabilities.zero_copy);
    assert_eq!(
        vrb::hip::not_loadable(&["a: no".to_owned(), "b: no".to_owned()]),
        BackendError::Unavailable("HIP runtime library was not loadable (a: no; b: no)".to_owned())
    );
    assert_eq!(
        vrb::hip::missing_symbol("hipInit", "gone"),
        BackendError::Probe("hipInit missing: gone".to_owned())
    );
}

#[test]
fn capability_bits_map_to_data_types() {
    assert_eq!(
        data_types_from_bits(capability::FP32 | capability::FP16),
        vec![DataType::F32, DataType::F16]
    );
    assert_eq!(data_types_from_bits(0), vec![DataType::Unknown]);
}

#[test]
fn abi_char_buffer_conversion_stops_at_nul() {
    let mut value = [0_u8; 8];
    value[0] = b'A';
    value[1] = b'M';
    value[2] = b'D';
    assert_eq!(abi_chars_to_string(&value), "AMD");
}

#[test]
fn platform_extension_detection_is_deterministic() {
    let mut extensions = Vec::new();
    extensions.push("VK_KHR_external_memory_win32".to_owned());
    assert_eq!(external_resource_support(Platform::Windows, &extensions), (true, false));
    assert_eq!(external_resource_support(Platform::Linux, &extensions), (false, false));

    let mut extensions = Vec::new();
    extensions.push("VK_KHR_external_memory_fd".to_owned());
    assert_eq!(external_resource_support(Platform::Linux, &extensions), (true, false));
    extensions.push("VK_KHR_external_semaphore_fd".to_owned());
    assert_eq!(external_resource_support(Platform::Linux, &extensions), (true, true));
    assert_eq!(external_resource_support(Platform::Other, &extensions), (false, false));
}

fn device(
    name: &str,
    vendor_id: u32,
    device_id: u32,
    device_type: PhysicalDeviceType,
) -> VulkanDeviceInfo {
    VulkanDeviceInfo {
        name: name.to_owned(),
        vendor_id,
        device_id,
        api_version: 0,
        device_type,
        compute_queue: true,
        external_memory: true,
        external_semaphore: true,
    }
}

#[test]
fn preferred_device_chooses_discrete_amd_over_integrated_amd() {
    let info = VulkanRuntimeInfo {
        loader_available: true,
        devices: vec![
            device(
                "AMD Radeon(TM) Graphics",
                AMD_PCI_VENDOR_ID,
                0x164e,
                PhysicalDeviceType::integrated_gpu(),
            ),
            device(
                "AMD Radeon RX 6800 XT",
                AMD_PCI_VENDOR_ID,
                0x73bf,
                PhysicalDeviceType::discrete_gpu(),
            ),
        ],
    };

    assert_eq!(
        info.preferred_compute_device().unwrap().name,
        "AMD Radeon RX 6800 XT"
    );
    assert!(info.devices[1].is_discrete() && !info.devices[0].is_discrete());
    assert!(info.devices[1].bridge_score() < info.devices[0].bridge_score());
}

#[test]
fn vulkan_backend_constructor_identity_and_probe_contract_are_stable() {
    let backend = VulkanBackend::new();
    let default_backend = VulkanBackend::default();
    assert_eq!(backend.id().as_str(), "vulkan");
    assert_eq!(default_backend.id().as_str(), "vulkan");
    assert_eq!(backend.kind(), BackendKind::Vulkan);

    let answers = VulkanDeviceAnswers {
        name: b"AMD Radeon RX 6800 XT\0\0".to_vec(),
        vendor_id: AMD_PCI_VENDOR_ID,
        device_id: 0x73bf,
        api_version: 4_206_592,
        device_type: PhysicalDeviceType::discrete_gpu(),
        families: vec![
            QueueFamily { queue_count: 0, queue_flags: 7 },
            QueueFamily { queue_count: 1, queue_flags: 6 },
        ],
        extensions: vec![b"VK_KHR_external_memory_fd\0".to_vec()],
    };
    let amd = VulkanDeviceInfo::from_answers(Platform::Linux, &answers);
    assert_eq!(amd.name, "AMD Radeon RX 6800 XT");
    assert!(amd.compute_queue && amd.external_memory && !amd.external_semaphore);
    let mut idle = device("idle", 1, 2, PhysicalDeviceType::discrete_gpu());
    idle.compute_queue = false;
    let other = device("llvmpipe", 0x10005, 0, PhysicalDeviceType { raw: 4 });
    let strange = device("odd", 7, 9, PhysicalDeviceType { raw: -9 });

    let info = VulkanRuntimeInfo {
        loader_available: true,
        devices: vec![idle, other, strange, amd],
    };
    let preferred = info.preferred_compute_device().unwrap();
    assert!(preferred.compute_queue);
    assert!(info
        .devices
        .iter()
        .filter(|device| device.compute_queue)
        .all(|device| preferred.bridge_score() <= device.bridge_score()));

    let probe = backend.probe_from(&info);
    assert_eq!(probe.id.as_str(), "vulkan");
    assert_eq!(probe.available, probe.device_count > 0);
    assert_eq!(probe.device_count, 3);
    assert_eq!(probe.vendor, "PCI vendor 0x1002");
    assert!(probe.capabilities.external_memory && !probe.capabilities.zero_copy);
    assert_eq!(
        probe.detail,
        "selected_device_id=0x73bf, selected_type=DISCRETE_GPU, api_version=4206592, \
         external_memory=true, external_semaphore=false; \
         inventory=llvmpipe[vendor=0x10005,device=0x0000,type=CPU]; \
         odd[vendor=0x0007,device=0x0009,type=-9]; \
         AMD Radeon RX 6800 XT[vendor=0x1002,device=0x73bf,type=DISCRETE_GPU]"
    );

    let nothing = VulkanRuntimeInfo { loader_available: true, devices: vec![] };
    let probe = backend.probe_from(&nothing);
    assert_eq!(probe.available, probe.device_count > 0);
    assert_eq!(probe.detail, "No compute-capable Vulkan physical device");
}

#[test]
fn ties_between_devices_go_to_the_first() {
    let info = VulkanRuntimeInfo {
        loader_available: true,
        devices: vec![
            device("first", 5, 8, PhysicalDeviceType::other()),
            device("second", 5, 8, PhysicalDeviceType::other()),
            device("third", 5, 7, PhysicalDeviceType::integrated_gpu()),
        ],
    };
    assert_eq!(info.preferred_index(), Some(2));
    let tied = VulkanRuntimeInfo {
        loader_available: true,
        devices: vec![
            device("first", 5, 8, PhysicalDeviceType::other()),
            device("second", 5, 8, PhysicalDeviceType::other()),
        ],
    };
    assert_eq!(tied.preferred_compute_device().unwrap().name, "first");
}

const PLUGIN_NAME: &[u8] = b"certification-fixture\0";

fn request() -> VrbExecutionRequestV1 {
    VrbExecutionRequestV1 {
        struct_size: 56,
        operation: 42,
        data_type: 1,
        flags: 0,
        element_count: 1024,
        input_handle: 11,
        output_handle: 22,
        opaque: 33,
    }
}

#[test]
fn a_plugin_backend_is_loaded_probed_and_run() {
    let descriptor = test_plugin::descriptor(1, 2, 3, 4);
    let backend = DynamicPluginBackend::load(&descriptor, PLUGIN_NAME).unwrap();
    assert_eq!(backend.id().as_str(), "plugin:certification-fixture");
    assert_eq!(backend.kind(), BackendKind::Hybrid);

    let info = test_plugin::probe(1).unwrap();
    let probe = backend.probe(VrbStatus::Success, &info).unwrap();
    assert!(probe.available);
    assert_eq!(probe.device_count, 1);
    assert_eq!(probe.name, "VRB E2E Fixture");
    assert_eq!(probe.vendor, "Techmad Certification");
    assert_eq!(probe.detail, "plugin ABI v1");
    assert!(probe.capabilities.operations.contains(&OperationKind::Custom));
    assert!(probe.capabilities.data_types.contains(&DataType::F32));
    assert!(probe.capabilities.external_memory);
    assert!(probe.capabilities.external_semaphore);
    assert!(probe.capabilities.zero_copy);

    assert_eq!(backend.execute_callback(), Ok(3));
    let run = |request: VrbExecutionRequestV1| status_result(test_plugin::execute(Some(request)));
    assert_eq!(run(request()), Ok(()));
    assert_eq!(
        run(VrbExecutionRequestV1 { operation: 7, ..request() }),
        Err(PluginLoadError::PluginStatus(VrbStatus::Unsupported))
    );
    assert_eq!(
        run(VrbExecutionRequestV1 { struct_size: 0, ..request() }),
        Err(PluginLoadError::PluginStatus(VrbStatus::InvalidArgument))
    );
    assert_eq!(test_plugin::probe(0), Err(VrbStatus::InvalidArgument));
    assert_eq!(test_plugin::execute(None), VrbStatus::InvalidArgument);
}

#[test]
fn faults_of_plugins_are_told_apart() {
    let fault = |change: fn(&mut VrbPluginV1), name: &[u8]| {
        let mut descriptor = test_plugin::descriptor(1, 2, 3, 4);
        change(&mut descriptor);
        match DynamicPluginBackend::load(&descriptor, name) {
            Ok(_) => "loaded".to_owned(),
            Err(error) => error.message(),
        }
    };
    assert_eq!(fault(|_| {}, PLUGIN_NAME), "loaded");
    assert_eq!(
        fault(|d| d.abi_version = 9, PLUGIN_NAME),
        "plugin ABI version 9 is incompatible with host ABI 1"
    );
    assert_eq!(
        fault(|d| d.struct_size = 63, PLUGIN_NAME),
        "plugin descriptor is too small: 63 bytes, expected at least 64"
    );
    assert_eq!(fault(|d| d.name = 0, PLUGIN_NAME), "plugin name pointer is null");
    assert_eq!(fault(|_| {}, b" \t\0x"), "plugin name is empty");
    assert_eq!(fault(|d| d.probe = 0, PLUGIN_NAME), "plugin probe callback is missing");

    let mut silent = test_plugin::descriptor(1, 2, 0, 0);
    silent.capability_bits = capability::INT8;
    let backend = DynamicPluginBackend::load(&silent, PLUGIN_NAME).unwrap();
    assert_eq!(backend.execute_callback(), Err(PluginLoadError::MissingExecute));
    let probe = backend.probe(VrbStatus::Success, &VrbBackendInfoV1::default()).unwrap();
    assert_eq!(probe.name, "certification-fixture");
    assert_eq!(probe.capabilities.data_types, [DataType::I8]);
    assert!(!probe.available);
    assert!(matches!(
        backend.probe(VrbStatus::Unavailable, &VrbBackendInfoV1::default()),
        Err(BackendError::Probe(_))
    ));
}

#[test]
fn capabilities_of_other_versions_are_passed_over() {
    let known = capability::FP32 | capability::INT8;
    assert_eq!(data_types_from_bits(known | 1 << 40), data_types_from_bits(known));
    assert_eq!(data_types_from_bits(1 << 63), vec![DataType::Unknown]);
}

#[test]
fn runtimes_leave_kernels_to_plugins() {
    let name = HipNameAnswer { status: 0, name: b"gpu\0".to_vec() };
    let info = HipRuntimeInfo::from_answers(hip_answers(vec![name])).unwrap();
    let hip = HipBackend::new().probe_from(&info);
    let vulkan = VulkanBackend::new().probe_from(&VulkanRuntimeInfo {
        loader_available: true,
        devices: vec![device("gpu", AMD_PCI_VENDOR_ID, 1, PhysicalDeviceType::discrete_gpu())],
    });
    for operation in [OperationKind::Gemm, OperationKind::VectorAdd, OperationKind::Attention] {
        let request = RouteRequest::new(operation, DataType::Unknown);
        assert!(!hip.can_serve(&request) && !vulkan.can_serve(&request));
    }
    let copy = RouteRequest::new(OperationKind::Copy, DataType::Unknown);
    assert!(!hip.can_serve(&copy) && vulkan.can_serve(&copy));
    let custom = RouteRequest::new(OperationKind::Custom, DataType::Unknown);
    assert!(hip.can_serve(&custom) && vulkan.can_serve(&custom));
}

#[test]
fn names_and_numbers_are_those_of_vulkan() {
    for raw in [i32::MIN, -7, 0, 1, 2, 3, 4, 5, 1000, i32::MAX] {
        let mut text = String::new();
        PhysicalDeviceType { raw }.append_to(&mut text);
        assert_eq!(text, format!("{:?}", vk::PhysicalDeviceType::from_raw(raw)));
    }
    assert_eq!(
        PhysicalDeviceType::discrete_gpu().raw,
        vk::PhysicalDeviceType::DISCRETE_GPU.as_raw()
    );
    assert_eq!(
        PhysicalDeviceType::integrated_gpu().raw,
        vk::PhysicalDeviceType::INTEGRATED_GPU.as_raw()
    );
    assert_eq!(QUEUE_COMPUTE, vk::QueueFlags::COMPUTE.as_raw());
    for (platform, memory, semaphore) in [
        (
            Platform::Windows,
            ash::khr::external_memory_win32::NAME,
            ash::khr::external_semaphore_win32::NAME,
        ),
        (
            Platform::Linux,
            ash::khr::external_memory_fd::NAME,
            ash::khr::external_semaphore_fd::NAME,
        ),
    ] {
        let memory = memory.to_str().unwrap().to_owned();
        let semaphore = semaphore.to_str().unwrap().to_owned();
        assert_eq!(external_resource_support(platform, &[memory.clone()]), (true, false));
        assert_eq!(external_resource_support(platform, &[semaphore.clone()]), (false, true));
        assert_eq!(external_resource_support(Platform::Other, &[memory, semaphore]), (false, false));
    }
}
