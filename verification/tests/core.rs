use std::sync::Arc;
use vrb::backend::{
    failed_probe, BackendError, BackendId, BackendKind, BackendProbe, CapabilitySet,
    ComputeBackend, DataType, OperationKind, RouteRequest, RuntimeError,
};
use vrb::float::Float64;
use vrb::performance::{PerformanceRecord, PerformanceTable};
use vrb::routing::{FastestCompatible, RoutingPolicy};
use vrb::runtime::{BackendRegistry, RuntimeBuilder};

fn f64_bits(value: f64) -> Float64 {
    Float64 { bits: value.to_bits() }
}

struct FakeBackend {
    id: BackendId,
    kind: BackendKind,
    zero_copy: bool,
}

impl ComputeBackend for FakeBackend {
    fn id(&self) -> &BackendId {
        &self.id
    }

    fn kind(&self) -> BackendKind {
        self.kind
    }

    fn probe(&self) -> Result<BackendProbe, BackendError> {
        Ok(BackendProbe {
            id: self.id.clone(),
            kind: self.kind,
            name: self.id.to_string(),
            vendor: "test".to_owned(),
            available: true,
            device_count: 1,
            detail: "ok".to_owned(),
            capabilities: CapabilitySet {
                operations: vec![OperationKind::Gemm],
                data_types: vec![DataType::F32],
                external_memory: self.zero_copy,
                external_semaphore: self.zero_copy,
                zero_copy: self.zero_copy,
            },
        })
    }
}

fn fake(id: &str, kind: BackendKind, zero_copy: bool) -> Arc<dyn ComputeBackend> {
    Arc::new(FakeBackend {
        id: BackendId::new(id).unwrap(),
        kind,
        zero_copy,
    })
}

#[test]
fn benchmark_data_overrides_bootstrap_preference() {
    let mut table = PerformanceTable::default();
    table.record(PerformanceRecord {
        backend: BackendId::new("vulkan").unwrap(),
        operation: OperationKind::Gemm,
        data_type: DataType::F32,
        median_microseconds: f64_bits(10.0),
        samples: 20,
    });
    table.record(PerformanceRecord {
        backend: BackendId::new("hip").unwrap(),
        operation: OperationKind::Gemm,
        data_type: DataType::F32,
        median_microseconds: f64_bits(14.0),
        samples: 20,
    });

    let runtime = RuntimeBuilder::new()
        .backend(fake("hip", BackendKind::Hip, true))
        .unwrap()
        .backend(fake("vulkan", BackendKind::Vulkan, true))
        .unwrap()
        .performance_table(table)
        .build();

    let selected = runtime
        .route(&RouteRequest::new(OperationKind::Gemm, DataType::F32))
        .unwrap();
    assert_eq!(selected.as_str(), "vulkan");
}

#[test]
fn zero_copy_requirement_filters_incompatible_backends() {
    let runtime = RuntimeBuilder::new()
        .backend(fake("cpu", BackendKind::Cpu, false))
        .unwrap()
        .backend(fake("hip", BackendKind::Hip, true))
        .unwrap()
        .build();

    let selected = runtime
        .route(&RouteRequest::new(OperationKind::Gemm, DataType::F32).zero_copy())
        .unwrap();
    assert_eq!(selected.as_str(), "hip");
}

#[test]
fn duplicate_backend_ids_fail_closed() {
    let result = RuntimeBuilder::new()
        .backend(fake("same", BackendKind::Cpu, false))
        .unwrap()
        .backend(fake("same", BackendKind::Vulkan, false));
    assert!(matches!(result, Err(RuntimeError::DuplicateBackend(_))));
}

struct FixtureBackend {
    id: BackendId,
    kind: BackendKind,
    available: bool,
    fail_probe: bool,
    capabilities: CapabilitySet,
}

impl ComputeBackend for FixtureBackend {
    fn id(&self) -> &BackendId {
        &self.id
    }

    fn kind(&self) -> BackendKind {
        self.kind
    }

    fn probe(&self) -> Result<BackendProbe, BackendError> {
        if self.fail_probe {
            return Err(BackendError::Probe(
                "intentional certification failure".to_owned(),
            ));
        }
        Ok(BackendProbe {
            id: self.id.clone(),
            kind: self.kind,
            name: format!("{} fixture", self.id.as_str()),
            vendor: "certification".to_owned(),
            available: self.available,
            device_count: u32::from(self.available),
            detail: "fixture".to_owned(),
            capabilities: self.capabilities.clone(),
        })
    }
}

fn caps(zero_copy: bool) -> CapabilitySet {
    CapabilitySet {
        operations: vec![OperationKind::Copy, OperationKind::Gemm],
        data_types: vec![DataType::F32, DataType::I8],
        external_memory: zero_copy,
        external_semaphore: zero_copy,
        zero_copy,
    }
}

fn fixture(id: &str, kind: BackendKind, available: bool, zero_copy: bool) -> Arc<dyn ComputeBackend> {
    Arc::new(FixtureBackend {
        id: BackendId::new(id).expect("valid fixture id"),
        kind,
        available,
        fail_probe: false,
        capabilities: caps(zero_copy),
    })
}

#[test]
fn backend_id_trims_rejects_empty_and_displays() {
    let id = BackendId::new("  hip-main  ").expect("trimmed id should be valid");
    assert_eq!(id.as_str(), "hip-main");
    assert_eq!(id.to_string(), "hip-main");
    assert!(matches!(BackendId::new("   "), Err(RuntimeError::InvalidBackendId)));
}

#[test]
fn route_request_and_capability_requirements_are_fail_closed() {
    let normal = RouteRequest::new(OperationKind::Gemm, DataType::F32);
    let zero = normal.zero_copy();
    assert!(!normal.requires_external_memory);
    assert!(zero.requires_external_memory);
    assert!(zero.requires_external_semaphore);
    assert!(zero.requires_zero_copy);
    assert!(caps(true).supports(&zero));
    assert!(!caps(false).supports(&zero));
    assert!(!caps(true).supports(&RouteRequest::new(OperationKind::Attention, DataType::F32)));
    assert!(!caps(true).supports(&RouteRequest::new(OperationKind::Gemm, DataType::F16)));
}

#[test]
fn performance_table_inserts_updates_and_queries_exact_keys() {
    let backend = BackendId::new("hip").unwrap();
    let mut table = PerformanceTable::default();
    table.record(PerformanceRecord {
        backend: backend.clone(),
        operation: OperationKind::Gemm,
        data_type: DataType::F32,
        median_microseconds: f64_bits(20.0),
        samples: 5,
    });
    table.record(PerformanceRecord {
        backend: backend.clone(),
        operation: OperationKind::Gemm,
        data_type: DataType::F32,
        median_microseconds: f64_bits(11.0),
        samples: 9,
    });

    assert_eq!(table.records.len(), 1);
    assert_eq!(
        table.median_us(&backend, OperationKind::Gemm, DataType::F32),
        Some(f64_bits(11.0))
    );
    assert_eq!(table.median_us(&backend, OperationKind::Copy, DataType::F32), None);
}

#[test]
fn fastest_compatible_prefers_measurement_then_kind_and_ignores_bad_measurements() {
    let hip = fixture("hip", BackendKind::Hip, true, true).probe().unwrap();
    let vulkan = fixture("vulkan", BackendKind::Vulkan, true, true).probe().unwrap();
    let cpu = fixture("cpu", BackendKind::Cpu, true, false).probe().unwrap();
    let request = RouteRequest::new(OperationKind::Gemm, DataType::F32);
    let policy = FastestCompatible;

    let bootstrap = policy
        .select(
            &request,
            &[cpu.clone(), vulkan.clone(), hip.clone()],
            &PerformanceTable::default(),
        )
        .unwrap();
    assert_eq!(bootstrap.as_str(), "hip");

    let mut measured = PerformanceTable::default();
    measured.record(PerformanceRecord {
        backend: hip.id.clone(),
        operation: OperationKind::Gemm,
        data_type: DataType::F32,
        median_microseconds: f64_bits(f64::NAN),
        samples: 4,
    });
    measured.record(PerformanceRecord {
        backend: vulkan.id.clone(),
        operation: OperationKind::Gemm,
        data_type: DataType::F32,
        median_microseconds: f64_bits(8.0),
        samples: 4,
    });
    assert_eq!(
        policy.select(&request, &[hip, vulkan], &measured).unwrap().as_str(),
        "vulkan"
    );
}

#[test]
fn fastest_compatible_rejects_unavailable_or_incompatible_candidates() {
    let unavailable = fixture("hip", BackendKind::Hip, false, true).probe().unwrap();
    let cpu = fixture("cpu", BackendKind::Cpu, true, false).probe().unwrap();
    let request = RouteRequest::new(OperationKind::Gemm, DataType::F32).zero_copy();
    let result =
        FastestCompatible.select(&request, &[unavailable, cpu], &PerformanceTable::default());
    assert!(matches!(result, Err(RuntimeError::NoCompatibleBackend)));
}

#[test]
fn registry_get_probes_and_probe_failure_conversion_are_certified() {
    let mut registry: BackendRegistry<dyn ComputeBackend> = BackendRegistry::default();
    registry.register(fixture("cpu", BackendKind::Cpu, true, false)).unwrap();
    let broken: Arc<dyn ComputeBackend> = Arc::new(FixtureBackend {
        id: BackendId::new("broken").unwrap(),
        kind: BackendKind::Plugin,
        available: false,
        fail_probe: true,
        capabilities: caps(false),
    });
    registry.register(broken).unwrap();

    assert!(registry.get(&BackendId::new("cpu").unwrap()).is_some());
    assert!(registry.get(&BackendId::new("missing").unwrap()).is_none());
    let probes = registry.probes();
    assert_eq!(probes.len(), 2);
    let broken_probe = probes.iter().find(|probe| probe.id.as_str() == "broken").unwrap();
    assert!(!broken_probe.available);
    assert_eq!(broken_probe.device_count, 0);
    assert!(broken_probe.detail.contains("intentional certification failure"));
}

struct ForceCpu;

impl RoutingPolicy for ForceCpu {
    fn select(
        &self,
        _request: &RouteRequest,
        candidates: &[BackendProbe],
        _performance: &PerformanceTable,
    ) -> Result<BackendId, RuntimeError> {
        candidates
            .iter()
            .find(|probe| probe.id.as_str() == "cpu")
            .map(|probe| probe.id.clone())
            .ok_or_else(|| RuntimeError::Routing("cpu missing".to_owned()))
    }
}

#[test]
fn runtime_builder_runtime_accessors_custom_policy_and_duplicate_detection_work() {
    let mut perf = PerformanceTable::default();
    perf.record(PerformanceRecord {
        backend: BackendId::new("cpu").unwrap(),
        operation: OperationKind::Copy,
        data_type: DataType::I8,
        median_microseconds: f64_bits(3.0),
        samples: 3,
    });

    let runtime = RuntimeBuilder::new()
        .backend(fixture("cpu", BackendKind::Cpu, true, false))
        .unwrap()
        .backend(fixture("hip", BackendKind::Hip, true, true))
        .unwrap()
        .routing_policy(Arc::new(ForceCpu))
        .performance_table(perf.clone())
        .build();

    assert_eq!(runtime.probes().len(), 2);
    assert_eq!(runtime.performance(), &perf);
    assert!(runtime.backend(&BackendId::new("hip").unwrap()).is_some());
    assert_eq!(
        runtime
            .route(&RouteRequest::new(OperationKind::Gemm, DataType::F32))
            .unwrap()
            .as_str(),
        "cpu"
    );

    let duplicate = RuntimeBuilder::new()
        .backend(fixture("same", BackendKind::Cpu, true, false))
        .unwrap()
        .backend(fixture("same", BackendKind::Hip, true, true));
    assert!(matches!(duplicate, Err(RuntimeError::DuplicateBackend(_))));
}

#[test]
fn ids_keep_inner_white_space_and_lose_unicode_white_space_around() {
    let id = BackendId::new("\u{3000}a b\u{a0}\n").unwrap();
    assert_eq!(id.as_str(), "a b");
    assert!(BackendId::new("\u{2003}\u{85}").is_err());
    assert!(BackendId::new("").is_err());
    assert!(id.is_same(&BackendId::new("a b").unwrap()));
    assert!(!id.is_same(&BackendId::new("a  b").unwrap()));
}

#[test]
fn probes_come_in_the_order_of_ids() {
    let mut registry: BackendRegistry<dyn ComputeBackend> = BackendRegistry::default();
    for id in ["vulkan", "cpu", "hip", "h", "\u{e9}", "z"] {
        registry.register(fixture(id, BackendKind::Plugin, true, false)).unwrap();
    }
    let probes = registry.probes();
    let ids: Vec<&str> = probes.iter().map(|probe| probe.id.as_str()).collect();
    assert_eq!(ids, ["cpu", "h", "hip", "vulkan", "z", "\u{e9}"]);
}

#[test]
fn a_failed_probe_serves_nothing_and_says_why() {
    let id = BackendId::new("gone").unwrap();
    for (error, text) in [
        (BackendError::Unavailable("a".to_owned()), "backend unavailable: a"),
        (BackendError::Probe("b".to_owned()), "backend probe failed: b"),
        (BackendError::Unsupported("c".to_owned()), "backend operation unsupported: c"),
        (BackendError::Internal("d".to_owned()), "backend internal error: d"),
    ] {
        let probe = failed_probe(&id, BackendKind::Hip, &id, &error);
        assert_eq!(probe.detail, text);
        assert_eq!(probe.name, "gone");
        assert_eq!(probe.vendor, "");
        assert!(!probe.can_serve(&RouteRequest::new(OperationKind::Custom, DataType::Unknown)));
    }
}

#[test]
fn runtime_errors_have_texts() {
    assert_eq!(RuntimeError::InvalidBackendId.message(), "backend id cannot be empty");
    assert_eq!(
        RuntimeError::DuplicateBackend(BackendId::new("x").unwrap()).message(),
        "backend 'x' is already registered"
    );
    assert_eq!(
        RuntimeError::NoCompatibleBackend.message(),
        "no compatible backend is available"
    );
    assert_eq!(
        RuntimeError::Routing("why".to_owned()).message(),
        "routing policy failed: why"
    );
}

#[test]
fn equal_latencies_choose_the_first_and_negative_ones_do_not_count() {
    let hip = fixture("hip", BackendKind::Hip, true, true).probe().unwrap();
    let vulkan = fixture("vulkan", BackendKind::Vulkan, true, true).probe().unwrap();
    let cpu = fixture("cpu", BackendKind::Cpu, true, true).probe().unwrap();
    let request = RouteRequest::new(OperationKind::Gemm, DataType::F32);
    let mut table = PerformanceTable::default();
    for (backend, latency) in [("hip", -1.0), ("vulkan", 5.0), ("cpu", 5.0)] {
        table.record(PerformanceRecord {
            backend: BackendId::new(backend).unwrap(),
            operation: OperationKind::Gemm,
            data_type: DataType::F32,
            median_microseconds: f64_bits(latency),
            samples: 1,
        });
    }
    let candidates = [cpu, vulkan, hip];
    let chosen = FastestCompatible.select(&request, &candidates, &table).unwrap();
    assert_eq!(chosen.as_str(), "cpu");
}

#[test]
fn kinds_are_preferred_in_bootstrap_order() {
    let order = [
        BackendKind::Hip,
        BackendKind::Vulkan,
        BackendKind::Hybrid,
        BackendKind::Plugin,
        BackendKind::Cpu,
    ];
    for (place, kind) in order.iter().enumerate() {
        assert_eq!(vrb::backend::bootstrap_rank(*kind) as usize, place);
    }
}

#[test]
fn a_failed_backend_is_not_chosen_though_it_was_the_fastest() {
    let request = RouteRequest::new(OperationKind::Gemm, DataType::F32);
    let cpu = fixture("cpu", BackendKind::Cpu, true, true).probe().unwrap();
    let hip = failed_probe(
        &BackendId::new("hip").unwrap(),
        BackendKind::Hip,
        &BackendId::new("hip").unwrap(),
        &BackendError::Probe("gone".to_owned()),
    );
    let mut table = PerformanceTable::default();
    table.record(PerformanceRecord {
        backend: BackendId::new("hip").unwrap(),
        operation: OperationKind::Gemm,
        data_type: DataType::F32,
        median_microseconds: f64_bits(1.0),
        samples: 20,
    });
    let chosen = FastestCompatible.select(&request, &[hip.clone(), cpu], &table).unwrap();
    assert_eq!(chosen.as_str(), "cpu");
    assert_eq!(
        FastestCompatible.select(&request, &[hip], &table),
        Err(RuntimeError::NoCompatibleBackend)
    );
}
