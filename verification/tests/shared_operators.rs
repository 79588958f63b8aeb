use std::sync::atomic::{AtomicUsize, Ordering};
use std::sync::Arc;
use vrb::backend::BackendKind;
use vrb::operators::OperatorKind;
use vrb::shared_operators::{
    ExternalMemoryHandleKind, ExternalSyncHandleKind, FirstCompatibleShared, ResourceAccess,
    SharedOperator, SharedOperatorCapabilities, SharedOperatorError, SharedOperatorInvocation,
    SharedOperatorOutput, SharedOperatorRegistry, SharedOperatorRequest,
    SharedOperatorSelectionPolicy, SharedResourceRegion, SharedSyncPoint,
};

struct ReceiptOperator;

impl SharedOperator for ReceiptOperator {
    fn name(&self) -> &str {
        "receipt"
    }

    fn capabilities(&self) -> SharedOperatorCapabilities {
        SharedOperatorCapabilities {
            kind: OperatorKind::Custom,
            backend: BackendKind::Plugin,
            memory_kinds: vec![ExternalMemoryHandleKind::Win32Kmt],
            sync_kinds: vec![ExternalSyncHandleKind::Win32Opaque],
            supports_external_synchronization: true,
            proven_zero_copy: false,
        }
    }

    fn execute_shared(
        &self,
        invocation: SharedOperatorInvocation<'_>,
    ) -> Result<SharedOperatorOutput, SharedOperatorError> {
        Ok(SharedOperatorOutput {
            receipt: invocation.metadata.to_vec(),
        })
    }
}

fn registry() -> SharedOperatorRegistry<dyn SharedOperator, FirstCompatibleShared> {
    let mut registry: SharedOperatorRegistry<dyn SharedOperator, FirstCompatibleShared> =
        SharedOperatorRegistry::new(Arc::new(FirstCompatibleShared));
    registry.register(Arc::new(ReceiptOperator));
    registry
}

fn valid_kmt_resource() -> SharedResourceRegion {
    SharedResourceRegion {
        handle_kind: ExternalMemoryHandleKind::Win32Kmt,
        handle: 1,
        allocation_size: 64,
        offset: 0,
        length: 64,
        access: ResourceAccess::ReadWrite,
    }
}

#[test]
fn invalid_region_fails_before_operator_execution() {
    let registry = registry();
    let resource = SharedResourceRegion {
        offset: 48,
        length: 32,
        ..valid_kmt_resource()
    };
    let error = registry
        .execute(
            &SharedOperatorRequest::new(OperatorKind::Custom),
            SharedOperatorInvocation {
                metadata: b"x",
                resources: &[resource],
                waits: &[],
                signals: &[],
            },
        )
        .expect_err("out-of-range shared region must be rejected");
    assert!(matches!(error, SharedOperatorError::InvalidResource(_)));
}

#[test]
fn actual_resource_kind_is_part_of_selection() {
    let registry = registry();
    let resource = SharedResourceRegion {
        handle_kind: ExternalMemoryHandleKind::DmaBuf,
        ..valid_kmt_resource()
    };
    assert_eq!(
        registry.execute(
            &SharedOperatorRequest::new(OperatorKind::Custom),
            SharedOperatorInvocation {
                metadata: b"x",
                resources: &[resource],
                waits: &[],
                signals: &[],
            },
        ),
        Err(SharedOperatorError::NoCompatibleOperator(OperatorKind::Custom))
    );
}

#[test]
fn actual_sync_kind_is_part_of_selection() {
    let registry = registry();
    let resource = valid_kmt_resource();
    let wait = SharedSyncPoint {
        handle_kind: ExternalSyncHandleKind::Timeline,
        handle: 2,
        value: 7,
    };
    assert_eq!(
        registry.execute(
            &SharedOperatorRequest::new(OperatorKind::Custom),
            SharedOperatorInvocation {
                metadata: b"x",
                resources: &[resource],
                waits: &[wait],
                signals: &[],
            },
        ),
        Err(SharedOperatorError::NoCompatibleOperator(OperatorKind::Custom))
    );
}

#[test]
fn proven_zero_copy_is_not_inferred_from_shared_resource_support() {
    let registry = registry();
    let request = SharedOperatorRequest {
        kind: OperatorKind::Custom,
        preferred_backend: None,
        required_memory_kind: Some(ExternalMemoryHandleKind::Win32Kmt),
        requires_synchronization: true,
        requires_proven_zero_copy: true,
    };
    let resource = valid_kmt_resource();
    assert_eq!(
        registry.execute(
            &request,
            SharedOperatorInvocation {
                metadata: b"x",
                resources: &[resource],
                waits: &[],
                signals: &[],
            },
        ),
        Err(SharedOperatorError::NoCompatibleOperator(OperatorKind::Custom))
    );
}

#[test]
fn valid_invocations_reach_the_operator() {
    let registry = registry();
    assert_eq!(registry.len(), 1);
    assert!(!registry.is_empty());
    let output = registry
        .execute(
            &SharedOperatorRequest::new(OperatorKind::Custom),
            SharedOperatorInvocation {
                metadata: b"receipt",
                resources: &[valid_kmt_resource()],
                waits: &[],
                signals: &[],
            },
        )
        .unwrap();
    assert_eq!(output.receipt, b"receipt");
}

#[test]
fn complaints_about_regions_and_points_are_told_apart() {
    let good = valid_kmt_resource();
    let text = |region: SharedResourceRegion| match region.validate() {
        Err(error) => error.message(),
        Ok(()) => "valid".to_owned(),
    };
    assert_eq!(text(good), "valid");
    assert_eq!(
        text(SharedResourceRegion { handle: 0, ..good }),
        "invalid shared resource: external-memory handle must be non-zero"
    );
    assert_eq!(
        text(SharedResourceRegion { length: 0, ..good }),
        "invalid shared resource: shared-resource allocation and region length must be non-zero"
    );
    assert_eq!(
        text(SharedResourceRegion { offset: u64::MAX, ..good }),
        "invalid shared resource: shared-resource range overflow"
    );
    assert_eq!(
        text(SharedResourceRegion { offset: 48, length: 32, ..good }),
        "invalid shared resource: shared-resource range [48, 80) exceeds allocation size 64"
    );
    let point = SharedSyncPoint {
        handle_kind: ExternalSyncHandleKind::Custom(9),
        handle: 0,
        value: 0,
    };
    assert_eq!(
        point.validate().unwrap_err().message(),
        "invalid external synchronization point: external synchronization handle must be non-zero"
    );
}

// Answers with the next of its backends each time it is asked, and with the last one from then on.
struct PlacedOperator {
    name: &'static str,
    backends: Vec<BackendKind>,
    asked: AtomicUsize,
}

impl SharedOperator for PlacedOperator {
    fn name(&self) -> &str {
        self.name
    }

    fn capabilities(&self) -> SharedOperatorCapabilities {
        let asked = self.asked.fetch_add(1, Ordering::SeqCst).min(self.backends.len() - 1);
        let mut capabilities = ReceiptOperator.capabilities();
        capabilities.backend = self.backends[asked];
        capabilities
    }

    fn execute_shared(
        &self,
        invocation: SharedOperatorInvocation<'_>,
    ) -> Result<SharedOperatorOutput, SharedOperatorError> {
        ReceiptOperator.execute_shared(invocation)
    }
}

fn placed(name: &'static str, backends: &[BackendKind]) -> Arc<dyn SharedOperator> {
    Arc::new(PlacedOperator {
        name,
        backends: backends.to_vec(),
        asked: AtomicUsize::new(0),
    })
}

fn selected(all: &[Arc<dyn SharedOperator>]) -> String {
    let mut request = SharedOperatorRequest::new(OperatorKind::Custom);
    request.preferred_backend = Some(BackendKind::Hip);
    let invocation = SharedOperatorInvocation {
        metadata: b"",
        resources: &[valid_kmt_resource()],
        waits: &[],
        signals: &[],
    };
    let operator = FirstCompatibleShared.select(&request, &invocation, all).unwrap();
    operator.name().to_owned()
}

#[test]
fn later_shared_operators_displace_none_but_where_they_alone_are_preferred() {
    let mut all = vec![placed("plugin", &[BackendKind::Plugin])];
    assert_eq!(selected(&all), "plugin");
    all.push(placed("cpu", &[BackendKind::Cpu]));
    assert_eq!(selected(&all), "plugin");
    all.push(placed("hip", &[BackendKind::Hip]));
    assert_eq!(selected(&all), "hip");
    all.push(placed("later-hip", &[BackendKind::Hip]));
    assert_eq!(selected(&all), "hip");
}

#[test]
fn shared_operators_are_asked_again_for_their_backend() {
    let all = [
        placed("cpu", &[BackendKind::Cpu]),
        placed("changing", &[BackendKind::Vulkan, BackendKind::Hip]),
    ];
    assert_eq!(selected(&all), "changing");
    let all = [
        placed("cpu", &[BackendKind::Cpu]),
        placed("changing", &[BackendKind::Hip, BackendKind::Vulkan]),
    ];
    assert_eq!(selected(&all), "cpu");
}
