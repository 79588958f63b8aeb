use std::sync::Arc;
use vrb::backend::BackendKind;
use vrb::gemm_protocol::{decode_response, encode_request, GemmRequest};
use vrb::gemm_reference_plugin;
use vrb::operator_loader::{
    map_backend_kind, map_operator_kind, operator_result, DynamicOperator, LoadedOperatorLibrary,
    OperatorDiscovery, OperatorPluginExecutionError, OperatorPluginLoadError,
    OperatorPluginLoadPolicy,
};
use vrb::operator_plugin_api::{
    backend_kind, capability, operator_kind, status, VrbOperatorInfoV1, VrbOperatorPluginV1,
};
use vrb::operators::{
    FirstCompatible, Operator, OperatorCapabilities, OperatorError, OperatorInvocation,
    OperatorKind, OperatorOutput, OperatorRegistry, OperatorRequest,
};
use vrb::test_operator_plugin;

#[test]
fn unknown_tags_degrade_without_invalid_ffi_enums() {
    assert_eq!(map_operator_kind(u32::MAX), OperatorKind::Custom);
    assert_eq!(map_backend_kind(u32::MAX), BackendKind::Plugin);
}

#[test]
fn load_policy_has_bounded_defaults() {
    let policy = OperatorPluginLoadPolicy::default();
    assert!(policy.max_operators > 0);
    assert!(policy.max_output_bytes > 0);
}

fn descriptor() -> VrbOperatorPluginV1 {
    test_operator_plugin::descriptor(1, 2, 3, 4)
}

fn discovered(
    descriptor: &VrbOperatorPluginV1,
    query: impl Fn(u32) -> Result<VrbOperatorInfoV1, i32>,
) -> Result<(String, Vec<DynamicOperator>), OperatorPluginLoadError> {
    let mut discovery = OperatorDiscovery::begin(descriptor, OperatorPluginLoadPolicy::default())?;
    while let Some(index) = discovery.next_index() {
        match query(index) {
            Ok(info) => discovery.accept(status::OK, &info)?,
            Err(answer) => discovery.accept(answer, &VrbOperatorInfoV1::default())?,
        }
    }
    Ok(discovery.finish())
}

struct FixtureOperator {
    described: DynamicOperator,
}

impl Operator for FixtureOperator {
    fn name(&self) -> &str {
        self.described.name()
    }

    fn capabilities(&self) -> OperatorCapabilities {
        self.described.capabilities()
    }

    fn execute(&self, invocation: OperatorInvocation<'_>) -> Result<OperatorOutput, OperatorError> {
        let run = || {
            let operator = &self.described;
            let input = invocation.input;
            let length = input.len() as u64;
            let (code, wanted) =
                match test_operator_plugin::output_size(operator.operator_id(), length, 1) {
                    Ok(wanted) => (status::OK, wanted),
                    Err(answer) => (answer, 0),
                };
            let capacity = operator.output_capacity(code, wanted)?;
            let mut output = vec![0_u8; capacity];
            let request = operator.execution_request(1, length, 1, capacity as u64, 1);
            let (code, actual) = match test_operator_plugin::execute(&request) {
                Ok(copied) => {
                    output[..copied].copy_from_slice(&input[..copied]);
                    (status::OK, copied as u64)
                }
                Err(answer) => (answer, capacity as u64),
            };
            operator.settle(code, output, actual)
        };
        operator_result(run())
    }
}

#[test]
fn an_echo_plugin_is_loaded_and_run() {
    let (name, operators) = discovered(&descriptor(), |index| {
        test_operator_plugin::query_operator(index, 1)
    })
    .unwrap();
    assert_eq!(name, "operator-certification-fixture");
    assert_eq!(operators.len(), 1);
    assert_eq!(operators[0].operator_id(), 7);
    assert_eq!(operators[0].plugin_name(), name);
    assert_eq!(
        operators[0].raw_capability_bits(),
        capability::FP32 | capability::HOST_BYTES
    );

    let library: LoadedOperatorLibrary<dyn Operator> = LoadedOperatorLibrary::new(
        name,
        operators
            .into_iter()
            .map(|described| Arc::new(FixtureOperator { described }) as Arc<dyn Operator>)
            .collect(),
    );
    assert_eq!(library.plugin_name(), "operator-certification-fixture");
    assert_eq!(library.operators().len(), 1);
    let operator = &library.operators()[0];
    assert_eq!(operator.name(), "fixture-gemm");
    assert_eq!(operator.capabilities().kind, OperatorKind::Gemm);
    assert_eq!(operator.capabilities().backend, BackendKind::Cpu);
    assert!(!operator.capabilities().supports_zero_copy);
    let output = operator
        .execute(OperatorInvocation { input: b"operator-plugin-e2e" })
        .unwrap();
    assert_eq!(output.bytes, b"operator-plugin-e2e");
    assert_eq!(operator.execute(OperatorInvocation { input: b"" }).unwrap().bytes, b"");

    let mut registry: OperatorRegistry<dyn Operator, FirstCompatible> =
        OperatorRegistry::new(Arc::new(FirstCompatible));
    library.register_into(&mut registry);
    assert_eq!(registry.len(), 1);
    let request = OperatorRequest {
        kind: OperatorKind::Gemm,
        preferred_backend: Some(BackendKind::Cpu),
        requires_zero_copy: false,
    };
    let output = registry.execute(&request, OperatorInvocation { input: b"again" }).unwrap();
    assert_eq!(output.bytes, b"again");
}

#[test]
fn faults_of_descriptors_are_told_apart() {
    let policy = OperatorPluginLoadPolicy::default();
    let fault = |change: fn(&mut VrbOperatorPluginV1)| {
        let mut changed = descriptor();
        change(&mut changed);
        match OperatorDiscovery::begin(&changed, policy) {
            Ok(_) => "accepted".to_owned(),
            Err(error) => error.message(),
        }
    };
    assert_eq!(fault(|_| {}), "accepted");
    assert_eq!(
        fault(|d| d.abi_version = 2),
        "operator plugin ABI version 2 is incompatible with host ABI 1"
    );
    assert_eq!(
        fault(|d| d.struct_size = 223),
        "operator plugin descriptor is too small: 223 bytes, expected at least 224"
    );
    assert_eq!(fault(|d| d.struct_size = 500), "accepted");
    assert_eq!(
        fault(|d| d.name = vrb::abi::c_name(b"  ")),
        "operator plugin name is empty"
    );
    assert_eq!(
        fault(|d| d.operator_count = 0),
        "operator plugin declares no operators"
    );
    assert_eq!(
        fault(|d| d.operator_count = 4097),
        "operator plugin declares 4097 operators, exceeding host limit 4096"
    );
    assert_eq!(
        fault(|d| d.query_operator = 0),
        "operator plugin query callback is missing"
    );
    assert_eq!(
        fault(|d| d.output_size = 0),
        "operator plugin output-size callback is missing"
    );
    assert_eq!(fault(|d| d.execute = 0), "operator plugin execute callback is missing");
    assert_eq!(fault(|d| d.shutdown = 0), "accepted");
}

#[test]
fn faults_of_answers_about_operators_are_told_apart() {
    let mut two = descriptor();
    two.operator_count = 2;
    two.capability_bits = capability::INT8;
    let info = |id: u32, name: &[u8]| VrbOperatorInfoV1 {
        operator_id: id,
        operator_kind: operator_kind::TRANSFORM,
        backend_kind: backend_kind::HYBRID,
        capability_bits: capability::FP16,
        name: vrb::abi::c_name(name),
        ..VrbOperatorInfoV1::default()
    };
    assert_eq!(
        discovered(&two, |index| Ok(info(5, if index == 0 { b"a" } else { b"b" }))).unwrap_err(),
        OperatorPluginLoadError::DuplicateOperatorId(5)
    );
    assert_eq!(
        discovered(&two, |index| Ok(info(index, if index == 0 { b"a" } else { b" " }))).unwrap_err(),
        OperatorPluginLoadError::EmptyOperatorName { index: 1 }
    );
    assert_eq!(
        discovered(&two, |_| Err(status::INTERNAL_ERROR)).unwrap_err(),
        OperatorPluginLoadError::QueryStatus { index: 0, status: 5 }
    );
    assert_eq!(
        discovered(&two, |index| {
            Ok(VrbOperatorInfoV1 { struct_size: 183, ..info(index, b"a") })
        })
        .unwrap_err(),
        OperatorPluginLoadError::OperatorDescriptorTooSmall { index: 0, actual: 183, expected: 184 }
    );
    let (_, operators) =
        discovered(&two, |index| Ok(info(index, if index == 0 { b"a" } else { b"b" }))).unwrap();
    assert_eq!(operators.len(), 2);
    assert_eq!(operators[1].name(), "b");
    assert_eq!(operators[1].kind, OperatorKind::Transform);
    assert_eq!(operators[1].backend, BackendKind::Hybrid);
    assert_eq!(operators[1].raw_capability_bits(), capability::FP16 | capability::INT8);
}

fn operator(max_output_bytes: u64) -> DynamicOperator {
    DynamicOperator {
        plugin_name: "p".to_owned(),
        max_output_bytes,
        operator_id: 3,
        name: "o".to_owned(),
        kind: OperatorKind::Custom,
        backend: BackendKind::Plugin,
        raw_capability_bits: 0,
    }
}

#[test]
fn outputs_are_held_to_their_limits() {
    let one = operator(10);
    assert_eq!(one.output_capacity(status::OK, 10), Ok(10));
    assert_eq!(
        one.output_capacity(status::OK, 11),
        Err(OperatorPluginExecutionError::OutputTooLarge { requested: 11, maximum: 10 })
    );
    assert_eq!(
        one.output_capacity(status::UNSUPPORTED, 0),
        Err(OperatorPluginExecutionError::PluginStatus(2))
    );
    assert_eq!(one.settle(status::OK, vec![1, 2, 3], 2), Ok(vec![1, 2]));
    assert_eq!(one.settle(status::OK, vec![1, 2, 3], 0), Ok(vec![]));
    assert_eq!(
        one.settle(status::OK, vec![1, 2, 3], 4),
        Err(OperatorPluginExecutionError::OutputLengthExceeded { actual: 4, capacity: 3 })
    );
    assert_eq!(
        one.settle(status::BUFFER_TOO_SMALL, vec![1], 1),
        Err(OperatorPluginExecutionError::PluginStatus(4))
    );
    let request = one.execution_request(11, 5, 22, 0, 33);
    assert_eq!(request.output_ptr, 0);
    assert_eq!(request.input_ptr, 11);
    assert_eq!(request.output_len, 33);
    assert_eq!(request.struct_size, 88);
    assert_eq!(
        operator_result(Err(OperatorPluginExecutionError::OutputTooLarge {
            requested: 11,
            maximum: 10
        })),
        Err(OperatorError::Execution(
            "plugin requested 11 output bytes, exceeding host limit 10".to_owned()
        ))
    );
}

fn f32_bits(value: f32) -> vrb::float::Float32 {
    vrb::float::Float32 { bits: value.to_bits() }
}

#[test]
fn the_reference_plugin_is_loaded_and_multiplies() {
    let described = gemm_reference_plugin::descriptor(1, 2, 3);
    let (name, operators) = discovered(&described, |index| {
        gemm_reference_plugin::query_operator(index, 1)
    })
    .unwrap();
    assert_eq!(name, "vrb-reference-gemm");
    let one = &operators[0];
    assert_eq!(one.name(), "cpu-reference-gemm");
    assert_eq!(one.capabilities().kind, OperatorKind::Gemm);

    let values = |values: &[f32]| values.iter().map(|v| f32_bits(*v)).collect::<Vec<_>>();
    let input = encode_request(GemmRequest {
        m: 2,
        n: 2,
        k: 3,
        alpha: f32_bits(1.0),
        beta: f32_bits(0.0),
        a: &values(&[1.0, 2.0, 3.0, 4.0, 5.0, 6.0]),
        b: &values(&[7.0, 8.0, 9.0, 10.0, 11.0, 12.0]),
        c: None,
    })
    .unwrap();
    let wanted = gemm_reference_plugin::output_size(one.operator_id(), &input, 1).unwrap();
    let capacity = one.output_capacity(status::OK, wanted).unwrap();
    let request = one.execution_request(1, input.len() as u64, 1, capacity as u64, 1);
    let reply = gemm_reference_plugin::execute(&request, &input);
    assert_eq!(reply.status, status::OK);
    assert_eq!(reply.output_len, Some(wanted));
    let output = one.settle(reply.status, reply.output.unwrap(), wanted).unwrap();
    let response = decode_response(&output).unwrap();
    assert_eq!((response.m, response.n), (2, 2));
    assert_eq!(response.values, values(&[58.0, 64.0, 139.0, 154.0]));

    let small = one.execution_request(1, input.len() as u64, 1, 3, 1);
    let reply = gemm_reference_plugin::execute(&small, &input);
    assert_eq!(reply.status, status::BUFFER_TOO_SMALL);
    assert_eq!(reply.output_len, Some(wanted));
    assert_eq!(reply.output, None);

    let mut nowhere = request;
    nowhere.output_ptr = 0;
    assert_eq!(
        gemm_reference_plugin::execute(&nowhere, &input).status,
        status::INVALID_ARGUMENT
    );
    nowhere = request;
    nowhere.operator_id = 2;
    let reply = gemm_reference_plugin::execute(&nowhere, &input);
    assert_eq!((reply.status, reply.output_len), (status::INVALID_ARGUMENT, None));
    let reply = gemm_reference_plugin::execute(&request, b"");
    assert_eq!((reply.status, reply.output_len), (status::INVALID_ARGUMENT, None));
    assert_eq!(
        gemm_reference_plugin::output_size(9, &input, 1),
        Err(status::INVALID_ARGUMENT)
    );
    assert!(gemm_reference_plugin::query_operator(1, 1).is_err());
    assert!(gemm_reference_plugin::query_operator(0, 0).is_err());
    assert_eq!(gemm_reference_plugin::input_length(0, 0), Ok(0));
    assert_eq!(gemm_reference_plugin::input_length(0, 1), Err(status::INVALID_ARGUMENT));
}
