use vrb::backend::{
    BackendId, BackendKind, BackendProbe, CapabilitySet, DataType, OperationKind, RouteRequest,
};
use vrb::execution_plan::{
    CostAwarePlanner, ExecutionPlan, ExecutionPlanError, PlannerConfig, TransitionCostTable,
};
use vrb::float::Float64;
use vrb::performance::{PerformanceRecord, PerformanceTable};

fn f64_bits(value: f64) -> Float64 {
    Float64 { bits: value.to_bits() }
}

fn to_f64(value: Float64) -> f64 {
    f64::from_bits(value.bits)
}

fn probe(id: &str, kind: BackendKind, operations: Vec<OperationKind>) -> BackendProbe {
    BackendProbe {
        id: BackendId::new(id).unwrap(),
        kind,
        name: id.to_owned(),
        vendor: "test".to_owned(),
        available: true,
        device_count: 1,
        detail: "ok".to_owned(),
        capabilities: CapabilitySet {
            operations,
            data_types: vec![DataType::F32],
            external_memory: true,
            external_semaphore: true,
            zero_copy: true,
        },
    }
}

fn measured(entries: &[(&str, OperationKind, f64)]) -> PerformanceTable {
    let mut performance = PerformanceTable::default();
    for (backend, operation, cost) in entries {
        performance.record(PerformanceRecord {
            backend: BackendId::new(backend).unwrap(),
            operation: *operation,
            data_type: DataType::F32,
            median_microseconds: f64_bits(*cost),
            samples: 20,
        });
    }
    performance
}

#[test]
fn whole_plan_can_reject_locally_fastest_first_kernel() {
    let hip = probe(
        "hip",
        BackendKind::Hip,
        vec![OperationKind::Gemm, OperationKind::Attention],
    );
    let vulkan = probe(
        "vulkan",
        BackendKind::Vulkan,
        vec![OperationKind::Gemm, OperationKind::Attention],
    );
    let performance = measured(&[
        ("hip", OperationKind::Gemm, 10.0),
        ("vulkan", OperationKind::Gemm, 20.0),
        ("hip", OperationKind::Attention, 200.0),
        ("vulkan", OperationKind::Attention, 20.0),
    ]);
    let mut transitions = TransitionCostTable::default();
    transitions
        .record(
            BackendId::new("hip").unwrap(),
            BackendId::new("vulkan").unwrap(),
            f64_bits(100.0),
        )
        .unwrap();
    transitions
        .record(
            BackendId::new("vulkan").unwrap(),
            BackendId::new("hip").unwrap(),
            f64_bits(100.0),
        )
        .unwrap();

    let planner = CostAwarePlanner::new(PlannerConfig::default(), transitions).unwrap();
    let plan = planner
        .plan(
            &[
                RouteRequest::new(OperationKind::Gemm, DataType::F32),
                RouteRequest::new(OperationKind::Attention, DataType::F32),
            ],
            &[hip, vulkan],
            &performance,
        )
        .unwrap();

    assert_eq!(plan.steps[0].backend.as_str(), "vulkan");
    assert_eq!(plan.steps[1].backend.as_str(), "vulkan");
    assert!((to_f64(plan.estimated_total_us) - 40.0).abs() < f64::EPSILON);
}

#[test]
fn zero_copy_requirement_filters_candidates() {
    let mut cpu = probe("cpu", BackendKind::Cpu, vec![OperationKind::Gemm]);
    cpu.capabilities.zero_copy = false;
    cpu.capabilities.external_memory = false;
    cpu.capabilities.external_semaphore = false;
    let hip = probe("hip", BackendKind::Hip, vec![OperationKind::Gemm]);
    let planner =
        CostAwarePlanner::new(PlannerConfig::default(), TransitionCostTable::default()).unwrap();

    let plan = planner
        .plan(
            &[RouteRequest::new(OperationKind::Gemm, DataType::F32).zero_copy()],
            &[cpu, hip],
            &PerformanceTable::default(),
        )
        .unwrap();
    assert_eq!(plan.steps[0].backend.as_str(), "hip");
}

#[test]
fn empty_request_list_produces_empty_plan() {
    let planner =
        CostAwarePlanner::new(PlannerConfig::default(), TransitionCostTable::default()).unwrap();
    assert_eq!(
        planner.plan(&[], &[], &PerformanceTable::default()).unwrap(),
        ExecutionPlan::default()
    );
}

#[test]
fn a_step_without_a_compatible_backend_is_named() {
    let hip = probe("hip", BackendKind::Hip, vec![OperationKind::Gemm]);
    let planner =
        CostAwarePlanner::new(PlannerConfig::default(), TransitionCostTable::default()).unwrap();
    let result = planner.plan(
        &[
            RouteRequest::new(OperationKind::Gemm, DataType::F32),
            RouteRequest::new(OperationKind::Softmax, DataType::F32),
        ],
        &[hip],
        &PerformanceTable::default(),
    );
    assert!(matches!(
        result,
        Err(ExecutionPlanError::NoCompatibleBackend { step: 1 })
    ));
}

#[test]
fn costs_that_are_no_costs_are_refused() {
    let mut transitions = TransitionCostTable::default();
    for bad in [f64::NAN, f64::INFINITY, -1.0] {
        let result = transitions.record(
            BackendId::new("a").unwrap(),
            BackendId::new("b").unwrap(),
            f64_bits(bad),
        );
        assert!(matches!(result, Err(ExecutionPlanError::InvalidCost { .. })));
    }
    transitions
        .record(
            BackendId::new("a").unwrap(),
            BackendId::new("b").unwrap(),
            f64_bits(0.0),
        )
        .unwrap();
    assert_eq!(
        transitions.get(&BackendId::new("a").unwrap(), &BackendId::new("b").unwrap()),
        Some(f64_bits(0.0))
    );
    assert_eq!(
        transitions.get(&BackendId::new("b").unwrap(), &BackendId::new("a").unwrap()),
        None
    );
}

// Every way through three steps on two backends, by exhaustion.
#[test]
fn no_other_way_through_the_steps_is_cheaper() {
    let kinds = [OperationKind::Gemm, OperationKind::Attention, OperationKind::Softmax];
    let hip = probe("hip", BackendKind::Hip, kinds.to_vec());
    let vulkan = probe("vulkan", BackendKind::Vulkan, kinds.to_vec());
    for seed in 0..64_u32 {
        let cost = |n: u32| f64::from((seed.wrapping_mul(2654435761) >> (n * 3)) % 50);
        let kernels = [[cost(0), cost(1)], [cost(2), cost(3)], [cost(4), cost(5)]];
        let crossing = [f64::from(seed % 7) * 5.0, f64::from(seed % 11) * 3.0];
        let mut entries = Vec::new();
        for (step, kind) in kinds.iter().enumerate() {
            entries.push(("hip", *kind, kernels[step][0]));
            entries.push(("vulkan", *kind, kernels[step][1]));
        }
        let performance = measured(&entries);
        let mut transitions = TransitionCostTable::default();
        transitions
            .record(
                BackendId::new("hip").unwrap(),
                BackendId::new("vulkan").unwrap(),
                f64_bits(crossing[0]),
            )
            .unwrap();
        transitions
            .record(
                BackendId::new("vulkan").unwrap(),
                BackendId::new("hip").unwrap(),
                f64_bits(crossing[1]),
            )
            .unwrap();
        let planner = CostAwarePlanner::new(PlannerConfig::default(), transitions).unwrap();
        let requests: Vec<RouteRequest> = kinds
            .iter()
            .map(|kind| RouteRequest::new(*kind, DataType::F32))
            .collect();
        let plan = planner
            .plan(&requests, &[hip.clone(), vulkan.clone()], &performance)
            .unwrap();
        let mut least = f64::INFINITY;
        for way in 0..8_usize {
            let at = |step: usize| (way >> step) & 1;
            let mut total = kernels[0][at(0)];
            for step in 1..3 {
                if at(step) != at(step - 1) {
                    total += crossing[at(step - 1)];
                }
                total += kernels[step][at(step)];
            }
            least = least.min(total);
        }
        assert_eq!(to_f64(plan.estimated_total_us), least, "seed {seed}");
        assert_eq!(plan.steps.len(), 3);
    }
}

#[test]
fn recorded_costs_are_found_and_leave_others_alone() {
    let id = |name: &str| BackendId::new(name).unwrap();
    let mut transitions = TransitionCostTable::default();
    transitions.record(id("a"), id("b"), f64_bits(1.0)).unwrap();
    transitions.record(id("b"), id("a"), f64_bits(2.0)).unwrap();
    transitions.record(id("a"), id("b"), f64_bits(3.0)).unwrap();
    assert_eq!(transitions.get(&id("a"), &id("b")), Some(f64_bits(3.0)));
    assert_eq!(transitions.get(&id("b"), &id("a")), Some(f64_bits(2.0)));
    assert_eq!(transitions.get(&id("a"), &id("c")), None);
}

#[test]
fn plan_errors_have_texts() {
    assert_eq!(
        ExecutionPlanError::NoCompatibleBackend { step: 4 }.message(""),
        "no compatible backend exists for execution-plan step 4"
    );
    let error = ExecutionPlanError::InvalidCost {
        name: "transition",
        value: f64_bits(f64::NEG_INFINITY),
    };
    let number = error.number().map(to_f64).unwrap();
    assert_eq!(error.message(&format!("{number}")), "invalid transition cost -inf");
}
