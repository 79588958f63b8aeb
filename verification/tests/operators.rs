use std::sync::atomic::{AtomicUsize, Ordering};
use std::sync::Arc;
use vrb::backend::BackendKind;
use vrb::operators::{
    FirstCompatible, Operator, OperatorCapabilities, OperatorError, OperatorInvocation,
    OperatorKind, OperatorOutput, OperatorRegistry, OperatorRequest, OperatorSelectionPolicy,
};

struct EchoOperator {
    backend: BackendKind,
    zero_copy: bool,
}

impl Operator for EchoOperator {
    fn name(&self) -> &str {
        "echo"
    }

    fn capabilities(&self) -> OperatorCapabilities {
        OperatorCapabilities {
            kind: OperatorKind::Custom,
            backend: self.backend,
            supports_zero_copy: self.zero_copy,
        }
    }

    fn execute(&self, invocation: OperatorInvocation<'_>) -> Result<OperatorOutput, OperatorError> {
        Ok(OperatorOutput {
            bytes: invocation.input.to_vec(),
        })
    }
}

#[test]
fn registry_executes_injected_operator() {
    let mut registry: OperatorRegistry<dyn Operator, FirstCompatible> =
        OperatorRegistry::new(Arc::new(FirstCompatible));
    registry.register(Arc::new(EchoOperator {
        backend: BackendKind::Cpu,
        zero_copy: false,
    }));

    let result = registry
        .execute(
            &OperatorRequest::new(OperatorKind::Custom),
            OperatorInvocation { input: b"vrb" },
        )
        .expect("registered operator should execute");

    assert_eq!(result.bytes, b"vrb");
}

#[test]
fn policy_honors_zero_copy_requirement() {
    let mut registry: OperatorRegistry<dyn Operator, FirstCompatible> =
        OperatorRegistry::new(Arc::new(FirstCompatible));
    registry.register(Arc::new(EchoOperator {
        backend: BackendKind::Cpu,
        zero_copy: false,
    }));

    let request = OperatorRequest {
        kind: OperatorKind::Custom,
        preferred_backend: None,
        requires_zero_copy: true,
    };

    assert_eq!(
        registry.execute(&request, OperatorInvocation { input: b"vrb" }),
        Err(OperatorError::NoCompatibleOperator(OperatorKind::Custom))
    );
}

struct TestOperator {
    name: &'static str,
    backend: BackendKind,
    zero_copy: bool,
}

impl Operator for TestOperator {
    fn name(&self) -> &str {
        self.name
    }

    fn capabilities(&self) -> OperatorCapabilities {
        OperatorCapabilities {
            kind: OperatorKind::Gemm,
            backend: self.backend,
            supports_zero_copy: self.zero_copy,
        }
    }

    fn execute(&self, invocation: OperatorInvocation<'_>) -> Result<OperatorOutput, OperatorError> {
        Ok(OperatorOutput {
            bytes: invocation.input.to_vec(),
        })
    }
}

#[test]
fn prefers_requested_backend_when_compatible() {
    let mut registry: OperatorRegistry<dyn Operator, FirstCompatible> =
        OperatorRegistry::new(Arc::new(FirstCompatible));
    registry.register(Arc::new(TestOperator {
        name: "cpu-gemm",
        backend: BackendKind::Cpu,
        zero_copy: false,
    }));
    registry.register(Arc::new(TestOperator {
        name: "hip-gemm",
        backend: BackendKind::Hip,
        zero_copy: true,
    }));

    let request = OperatorRequest {
        kind: OperatorKind::Gemm,
        preferred_backend: Some(BackendKind::Hip),
        requires_zero_copy: true,
    };

    let result = registry
        .execute(&request, OperatorInvocation { input: b"matrix" })
        .expect("HIP operator should satisfy the request");

    assert_eq!(result.bytes, b"matrix");
}

fn test_operator(name: &'static str, backend: BackendKind, zero_copy: bool) -> Arc<dyn Operator> {
    Arc::new(TestOperator { name, backend, zero_copy })
}

fn selected(request: &OperatorRequest, all: &[Arc<dyn Operator>]) -> Option<String> {
    FirstCompatible.select(request, all).map(|operator| operator.name().to_owned())
}

fn named(name: &str) -> Option<String> {
    Some(name.to_owned())
}

#[test]
fn registries_count_their_operators() {
    let mut registry: OperatorRegistry<dyn Operator, FirstCompatible> =
        OperatorRegistry::new(Arc::new(FirstCompatible));
    assert!(registry.is_empty());
    assert_eq!(registry.len(), 0);
    registry.register(Arc::new(EchoOperator { backend: BackendKind::Cpu, zero_copy: false }));
    registry.register(Arc::new(TestOperator {
        name: "a",
        backend: BackendKind::Cpu,
        zero_copy: false,
    }));
    registry.register(Arc::new(TestOperator {
        name: "b",
        backend: BackendKind::Cpu,
        zero_copy: false,
    }));
    assert!(!registry.is_empty());
    assert_eq!(registry.len(), 3);
}

#[test]
fn the_first_of_the_preferred_backend_or_the_first_of_all_is_selected() {
    let all = [
        test_operator("cpu", BackendKind::Cpu, false),
        test_operator("hip", BackendKind::Hip, false),
        test_operator("hip-zero-copy", BackendKind::Hip, true),
    ];
    let mut request = OperatorRequest::new(OperatorKind::Gemm);
    assert_eq!(selected(&request, &all), named("cpu"));
    request.preferred_backend = Some(BackendKind::Hip);
    assert_eq!(selected(&request, &all), named("hip"));
    request.requires_zero_copy = true;
    assert_eq!(selected(&request, &all), named("hip-zero-copy"));
    request.preferred_backend = Some(BackendKind::Vulkan);
    assert_eq!(selected(&request, &all), named("hip-zero-copy"));
    request.kind = OperatorKind::Attention;
    assert_eq!(selected(&request, &all), None);
}

#[test]
fn operator_errors_have_texts() {
    assert_eq!(
        OperatorError::NoCompatibleOperator(OperatorKind::Dequantize).message(),
        "no compatible operator registered for Dequantize"
    );
    assert_eq!(
        OperatorError::Unavailable("x".to_owned()).message(),
        "operator is unavailable: x"
    );
    assert_eq!(
        OperatorError::Execution("y".to_owned()).message(),
        "operator execution failed: y"
    );
}

#[test]
fn later_operators_displace_none_but_where_they_alone_are_preferred() {
    let mut request = OperatorRequest::new(OperatorKind::Gemm);
    request.preferred_backend = Some(BackendKind::Hip);
    let mut all = vec![test_operator("cpu", BackendKind::Cpu, false)];
    assert_eq!(selected(&request, &all), named("cpu"));
    all.push(test_operator("vulkan", BackendKind::Vulkan, false));
    assert_eq!(selected(&request, &all), named("cpu"));
    all.push(test_operator("hip", BackendKind::Hip, false));
    assert_eq!(selected(&request, &all), named("hip"));
    all.push(test_operator("later-hip", BackendKind::Hip, false));
    assert_eq!(selected(&request, &all), named("hip"));
}

// Answers with the next of its backends each time it is asked.
struct ChangingOperator {
    backends: Vec<BackendKind>,
    asked: AtomicUsize,
}

impl Operator for ChangingOperator {
    fn name(&self) -> &str {
        "changing"
    }

    fn capabilities(&self) -> OperatorCapabilities {
        OperatorCapabilities {
            kind: OperatorKind::Gemm,
            backend: self.backends[self.asked.fetch_add(1, Ordering::SeqCst)],
            supports_zero_copy: false,
        }
    }

    fn execute(&self, _: OperatorInvocation<'_>) -> Result<OperatorOutput, OperatorError> {
        Ok(OperatorOutput { bytes: Vec::new() })
    }
}

#[test]
fn operators_are_asked_again_for_their_backend() {
    let mut request = OperatorRequest::new(OperatorKind::Gemm);
    request.preferred_backend = Some(BackendKind::Hip);
    let changing = |backends: Vec<BackendKind>| {
        Arc::new(ChangingOperator { backends, asked: AtomicUsize::new(0) })
    };

    let late = changing(vec![BackendKind::Vulkan, BackendKind::Hip]);
    let all = [test_operator("cpu", BackendKind::Cpu, false), late.clone() as Arc<dyn Operator>];
    assert_eq!(selected(&request, &all), named("changing"));
    assert_eq!(late.asked.load(Ordering::SeqCst), 2);

    let early = changing(vec![BackendKind::Hip, BackendKind::Vulkan, BackendKind::Hip]);
    let all = [early.clone() as Arc<dyn Operator>, test_operator("cpu", BackendKind::Cpu, false)];
    assert_eq!(selected(&request, &all), named("changing"));
    assert_eq!(early.asked.load(Ordering::SeqCst), 3);
}
