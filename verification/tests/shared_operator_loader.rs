use std::sync::Arc;
use vrb::backend::BackendKind;
use vrb::hip_shared_gemm_plugin;
use vrb::operators::OperatorKind;
use vrb::shared_operator_loader::{
    map_backend_kind, map_memory_kinds, map_operator_kind, map_resource_to_abi, map_sync_kinds,
    map_sync_to_abi, operator_result, validate_capabilities, validate_plugin_descriptor,
    DynamicSharedOperator, LoadedSharedOperatorLibrary, SharedOperatorDiscovery,
    SharedOperatorExecutionError, SharedOperatorLoadError, SharedOperatorLoadPolicy,
};
use vrb::shared_operator_plugin_api::{
    capability, status, VrbSharedOperatorInfoV1, VrbSharedOperatorPluginV1,
};
use vrb::shared_operators::{
    ExternalMemoryHandleKind, ExternalSyncHandleKind, FirstCompatibleShared, ResourceAccess,
    SharedOperator, SharedOperatorCapabilities, SharedOperatorError, SharedOperatorInvocation,
    SharedOperatorOutput, SharedOperatorRegistry, SharedOperatorRequest, SharedResourceRegion,
    SharedSyncPoint,
};
use vrb::test_shared_operator_plugin;

#[test]
fn policy_is_bounded() {
    let policy = SharedOperatorLoadPolicy::default();
    assert!(policy.max_operators > 0);
    assert!(policy.max_metadata_bytes > 0);
    assert!(policy.max_resources > 0);
    assert!(policy.max_sync_points > 0);
    assert!(policy.max_receipt_bytes > 0);
}

#[test]
fn unknown_operator_and_backend_tags_degrade_safely() {
    assert_eq!(map_operator_kind(u32::MAX), OperatorKind::Custom);
    assert_eq!(map_backend_kind(u32::MAX), BackendKind::Plugin);
}

#[test]
fn proven_zero_copy_cannot_exist_without_external_resource_support() {
    let mut info = VrbSharedOperatorInfoV1::default();
    info.operator_id = 7;
    let error = validate_capabilities(7, capability::PROVEN_ZERO_COPY, &info)
        .expect_err("invalid capability combination must be rejected");
    assert!(matches!(
        error,
        SharedOperatorLoadError::InvalidCapabilities { operator_id: 7, .. }
    ));
}

fn discovered(
    descriptor: &VrbSharedOperatorPluginV1,
    query: impl Fn(u32) -> Result<VrbSharedOperatorInfoV1, i32>,
) -> Result<(String, Vec<DynamicSharedOperator>), SharedOperatorLoadError> {
    let mut discovery =
        SharedOperatorDiscovery::begin(descriptor, SharedOperatorLoadPolicy::default())?;
    while let Some(index) = discovery.next_index() {
        match query(index) {
            Ok(info) => discovery.accept(status::OK, &info)?,
            Err(answer) => discovery.accept(answer, &VrbSharedOperatorInfoV1::default())?,
        }
    }
    Ok(discovery.finish())
}

struct FixtureOperator {
    described: DynamicSharedOperator,
}

impl SharedOperator for FixtureOperator {
    fn name(&self) -> &str {
        self.described.name()
    }

    fn capabilities(&self) -> SharedOperatorCapabilities {
        self.described.capabilities()
    }

    fn execute_shared(
        &self,
        invocation: SharedOperatorInvocation<'_>,
    ) -> Result<SharedOperatorOutput, SharedOperatorError> {
        let run = || {
            let operator = &self.described;
            let prepared = operator.prepare(&invocation)?;
            let request = operator.execution_request(&prepared, 1, 2, 3, 4, 5, 6);
            let mut receipt = vec![0_u8; prepared.receipt_capacity];
            let checked = test_shared_operator_plugin::check_request(&request).and_then(|()| {
                test_shared_operator_plugin::check_contents(
                    invocation.metadata,
                    &prepared.resources[0],
                    &prepared.waits[0],
                    &prepared.signals[0],
                )
            });
            let (code, length) = match checked {
                Ok(()) => {
                    let reply = test_shared_operator_plugin::write_receipt(&request);
                    if reply.written {
                        let bytes = test_shared_operator_plugin::RECEIPT;
                        receipt[..bytes.len()].copy_from_slice(&bytes);
                    }
                    (reply.status, reply.receipt_len)
                }
                Err(answer) => (answer, 0),
            };
            operator.settle(code, receipt, length)
        };
        operator_result(run())
    }
}

#[test]
fn dynamic_shared_operator_round_trips_borrowed_descriptors_without_claiming_zero_copy() {
    let (name, operators) = discovered(&test_shared_operator_plugin::descriptor(1, 2), |index| {
        test_shared_operator_plugin::query_operator(index, 1)
    })
    .expect("shared operator test plugin should load");
    let library: LoadedSharedOperatorLibrary<dyn SharedOperator> =
        LoadedSharedOperatorLibrary::new(
            name,
            operators
                .into_iter()
                .map(|described| Arc::new(FixtureOperator { described }) as Arc<dyn SharedOperator>)
                .collect(),
        );
    assert_eq!(library.plugin_name(), "vrb-test-shared-operator");
    assert_eq!(library.operators().len(), 1);
    let capabilities = library.operators()[0].capabilities();
    assert!(capabilities.supports_external_synchronization);
    assert!(!capabilities.proven_zero_copy);
    assert!(capabilities
        .memory_kinds
        .contains(&ExternalMemoryHandleKind::Win32Kmt));

    let mut registry: SharedOperatorRegistry<dyn SharedOperator, FirstCompatibleShared> =
        SharedOperatorRegistry::new(Arc::new(FirstCompatibleShared));
    library.register_into(&mut registry);

    let resource = SharedResourceRegion {
        handle_kind: ExternalMemoryHandleKind::Win32Kmt,
        handle: 0x1234,
        allocation_size: 4096,
        offset: 256,
        length: 1024,
        access: ResourceAccess::ReadWrite,
    };
    let wait = SharedSyncPoint {
        handle_kind: ExternalSyncHandleKind::Win32Opaque,
        handle: 0x2001,
        value: 0,
    };
    let signal = SharedSyncPoint {
        handle_kind: ExternalSyncHandleKind::Win32Opaque,
        handle: 0x2002,
        value: 0,
    };
    let invocation = SharedOperatorInvocation {
        metadata: b"vrb-shared",
        resources: &[resource],
        waits: &[wait],
        signals: &[signal],
    };
    let request = SharedOperatorRequest {
        kind: OperatorKind::Custom,
        preferred_backend: None,
        required_memory_kind: Some(ExternalMemoryHandleKind::Win32Kmt),
        requires_synchronization: true,
        requires_proven_zero_copy: false,
    };

    let output = registry
        .execute(&request, invocation)
        .expect("shared operator should execute through DI registry");
    assert_eq!(output.receipt, b"shared-contract-ok");

    let proven_request = SharedOperatorRequest {
        requires_proven_zero_copy: true,
        ..request
    };
    let error = registry
        .execute(&proven_request, invocation)
        .expect_err("fixture must not satisfy a proven-zero-copy request");
    assert!(error.message().contains("no compatible shared operator"));

    let wrong = SharedOperatorInvocation { metadata: b"vrb-sharer", ..invocation };
    assert_eq!(
        registry.execute(&request, wrong),
        Err(SharedOperatorError::Execution(
            "shared operator plugin returned status 1".to_owned()
        ))
    );
}

#[test]
fn the_hip_plugin_is_loaded_without_claiming_zero_copy() {
    let (name, operators) = discovered(&hip_shared_gemm_plugin::descriptor(1, 2), |index| {
        hip_shared_gemm_plugin::query_operator(index, 1)
    })
    .unwrap();
    assert_eq!(name, "vrb-hip-shared-gemm");
    assert_eq!(operators.len(), 1);
    assert_eq!(operators[0].name(), "hip-rocblas-shared-fp32-gemm");
    let capabilities = operators[0].capabilities();
    assert_eq!(capabilities.kind, OperatorKind::Gemm);
    assert_eq!(capabilities.backend, BackendKind::Hip);
    assert_eq!(capabilities.memory_kinds, [ExternalMemoryHandleKind::Win32Kmt]);
    assert!(!capabilities.proven_zero_copy);
    assert!(!capabilities.supports_external_synchronization);
    assert!(capabilities.sync_kinds.is_empty());
}

#[test]
fn faults_of_shared_descriptors_are_told_apart() {
    let fault = |change: fn(&mut VrbSharedOperatorPluginV1)| {
        let mut changed = test_shared_operator_plugin::descriptor(1, 2);
        change(&mut changed);
        match SharedOperatorDiscovery::begin(&changed, SharedOperatorLoadPolicy::default()) {
            Ok(_) => "accepted".to_owned(),
            Err(error) => error.message(),
        }
    };
    assert_eq!(fault(|_| {}), "accepted");
    assert_eq!(
        fault(|d| d.abi_version = 0),
        "shared-operator ABI version 0 is incompatible with host ABI 1"
    );
    assert_eq!(
        fault(|d| d.struct_size = 0),
        "shared-operator descriptor is too small: 0 bytes, expected at least 224"
    );
    assert_eq!(
        fault(|d| d.name = [0; 128]),
        "shared-operator plugin name is empty"
    );
    assert_eq!(
        fault(|d| d.operator_count = 0),
        "shared-operator plugin declares no operators"
    );
    assert_eq!(
        fault(|d| d.operator_count = 5000),
        "shared-operator plugin declares 5000 operators, exceeding host limit 4096"
    );
    assert_eq!(
        fault(|d| d.query_operator = 0),
        "shared-operator plugin query callback is missing"
    );
    assert_eq!(fault(|d| d.execute = 0), "shared-operator plugin execute callback is missing");
    let mut nameless = test_shared_operator_plugin::descriptor(1, 2);
    nameless.name = [0; 128];
    assert_eq!(
        validate_plugin_descriptor(&nameless, SharedOperatorLoadPolicy::default()),
        Err(SharedOperatorLoadError::EmptyPluginName)
    );
}

#[test]
fn faults_of_answers_about_shared_operators_are_told_apart() {
    let mut two = test_shared_operator_plugin::descriptor(1, 2);
    two.operator_count = 2;
    let info = |id: u32, name: &[u8]| VrbSharedOperatorInfoV1 {
        operator_id: id,
        name: vrb::abi::c_name(name),
        ..VrbSharedOperatorInfoV1::default()
    };
    assert_eq!(
        discovered(&two, |_| Ok(info(5, b"a"))).unwrap_err(),
        SharedOperatorLoadError::DuplicateOperatorId(5)
    );
    assert_eq!(
        discovered(&two, |_| Ok(info(5, b""))).unwrap_err(),
        SharedOperatorLoadError::EmptyOperatorName { index: 0 }
    );
    assert_eq!(
        discovered(&two, |_| Err(3)).unwrap_err(),
        SharedOperatorLoadError::QueryStatus { index: 0, status: 3 }
    );
    assert_eq!(
        discovered(&two, |_| Ok(VrbSharedOperatorInfoV1 { struct_size: 1, ..info(5, b"a") }))
            .unwrap_err(),
        SharedOperatorLoadError::OperatorDescriptorTooSmall { index: 0, actual: 1, expected: 200 }
    );
    let claims = |bits: u64| {
        discovered(&two, |index| {
            Ok(VrbSharedOperatorInfoV1 { capability_bits: bits, ..info(index, b"a") })
        })
        .unwrap_err()
        .message()
    };
    assert_eq!(
        claims(capability::EXTERNAL_RESOURCE),
        "shared operator 0 advertises invalid capabilities: external-resource capability requires at least one memory-handle kind"
    );
    assert_eq!(
        claims(capability::EXTERNAL_SYNCHRONIZATION),
        "shared operator 0 advertises invalid capabilities: external-synchronization capability requires at least one sync-handle kind"
    );
    assert_eq!(
        claims(capability::PROVEN_ZERO_COPY),
        "shared operator 0 advertises invalid capabilities: proven zero-copy requires external-resource capability"
    );
}

#[test]
fn kinds_of_handles_are_listed_by_their_bits() {
    assert_eq!(
        map_memory_kinds(0b11110),
        [
            ExternalMemoryHandleKind::Win32Kmt,
            ExternalMemoryHandleKind::Win32Nt,
            ExternalMemoryHandleKind::OpaqueFd,
            ExternalMemoryHandleKind::DmaBuf
        ]
    );
    assert_eq!(map_memory_kinds(0b1000), [ExternalMemoryHandleKind::OpaqueFd]);
    assert_eq!(map_memory_kinds(0b100001), []);
    assert_eq!(
        map_sync_kinds(0b1110),
        [
            ExternalSyncHandleKind::Win32Opaque,
            ExternalSyncHandleKind::OpaqueFd,
            ExternalSyncHandleKind::Timeline
        ]
    );
    assert_eq!(map_sync_kinds(0b1000), [ExternalSyncHandleKind::Timeline]);
    assert_eq!(map_sync_kinds(u64::MAX ^ 0b1110), []);
}

fn operator(policy: SharedOperatorLoadPolicy) -> DynamicSharedOperator {
    DynamicSharedOperator {
        plugin_name: "p".to_owned(),
        policy,
        operator_id: 3,
        name: "o".to_owned(),
        capabilities: SharedOperatorCapabilities {
            kind: OperatorKind::Custom,
            backend: BackendKind::Plugin,
            memory_kinds: vec![],
            sync_kinds: vec![],
            supports_external_synchronization: false,
            proven_zero_copy: false,
        },
        raw_capability_bits: 0,
    }
}

#[test]
fn invocations_are_held_to_their_limits_and_brought_across() {
    let policy = SharedOperatorLoadPolicy {
        max_operators: 1,
        max_metadata_bytes: 4,
        max_resources: 1,
        max_sync_points: 2,
        max_receipt_bytes: 8,
    };
    let one = operator(policy);
    let region = SharedResourceRegion {
        handle_kind: ExternalMemoryHandleKind::Custom(0x8000_0001),
        handle: 9,
        allocation_size: 100,
        offset: 10,
        length: 20,
        access: ResourceAccess::WriteOnly,
    };
    let point = SharedSyncPoint {
        handle_kind: ExternalSyncHandleKind::Timeline,
        handle: 4,
        value: 17,
    };
    let good = SharedOperatorInvocation {
        metadata: b"meta",
        resources: &[region],
        waits: &[point],
        signals: &[point],
    };
    let prepared = one.prepare(&good).unwrap();
    assert_eq!(prepared.metadata_len, 4);
    assert_eq!(prepared.receipt_capacity, 8);
    assert_eq!(prepared.resources[0], map_resource_to_abi(region));
    assert_eq!(prepared.waits[0], map_sync_to_abi(point));
    assert_eq!(prepared.resources[0].handle_kind, 0x8000_0001);
    assert_eq!(prepared.resources[0].access, 2);
    assert_eq!(prepared.resources[0].struct_size, 80);
    assert_eq!(prepared.waits[0].handle_kind, 3);
    assert_eq!(prepared.waits[0].value, 17);
    let request = one.execution_request(&prepared, 1, 2, 3, 4, 5, 6);
    assert_eq!((request.metadata_ptr, request.metadata_len), (1, 4));
    assert_eq!((request.resources_ptr, request.resource_count), (2, 1));
    assert_eq!((request.waits_ptr, request.wait_count), (3, 1));
    assert_eq!((request.signals_ptr, request.signal_count), (4, 1));
    assert_eq!((request.receipt_ptr, request.receipt_capacity, request.receipt_len), (5, 8, 6));

    let nothing = SharedOperatorInvocation {
        metadata: b"",
        resources: &[],
        waits: &[],
        signals: &[],
    };
    let empty = one.prepare(&nothing).unwrap();
    let request = one.execution_request(&empty, 1, 2, 3, 4, 5, 6);
    assert_eq!(
        (request.metadata_ptr, request.resources_ptr, request.waits_ptr, request.signals_ptr),
        (0, 0, 0, 0)
    );

    assert_eq!(
        one.prepare(&SharedOperatorInvocation { metadata: b"metas", ..good }),
        Err(SharedOperatorExecutionError::MetadataTooLarge { actual: 5, maximum: 4 })
    );
    assert_eq!(
        one.prepare(&SharedOperatorInvocation { resources: &[region, region], ..good }),
        Err(SharedOperatorExecutionError::TooManyResources { actual: 2, maximum: 1 })
    );
    assert_eq!(
        one.prepare(&SharedOperatorInvocation { waits: &[point, point], ..good }),
        Err(SharedOperatorExecutionError::TooManySyncPoints { actual: 3, maximum: 2 })
    );
    let bad = SharedSyncPoint { handle: 0, ..point };
    let error = one
        .prepare(&SharedOperatorInvocation { waits: &[bad], ..good })
        .unwrap_err();
    assert_eq!(
        error.message(),
        "invalid external synchronization point: external synchronization handle must be non-zero"
    );
}

#[test]
fn receipts_are_held_to_their_limits() {
    let policy = SharedOperatorLoadPolicy {
        max_receipt_bytes: 3,
        ..SharedOperatorLoadPolicy::default()
    };
    let one = operator(policy);
    assert_eq!(one.settle(status::OK, vec![1, 2, 3], 2), Ok(vec![1, 2]));
    assert_eq!(
        one.settle(status::OK, vec![1, 2, 3], 4),
        Err(SharedOperatorExecutionError::ReceiptTooLarge { actual: 4, capacity: 3 })
    );
    assert_eq!(
        one.settle(status::BUFFER_TOO_SMALL, vec![0, 0, 0], 4),
        Err(SharedOperatorExecutionError::ReceiptTooLarge { actual: 4, capacity: 3 })
    );
    assert_eq!(
        one.settle(status::BUFFER_TOO_SMALL, vec![0, 0, 0], 3),
        Err(SharedOperatorExecutionError::PluginStatus(4))
    );
    assert_eq!(
        one.settle(status::UNAVAILABLE, vec![0, 0, 0], 9),
        Err(SharedOperatorExecutionError::PluginStatus(3))
    );
    assert_eq!(
        SharedOperatorExecutionError::PluginStatus(-3).message(),
        "shared operator plugin returned status -3"
    );
}
