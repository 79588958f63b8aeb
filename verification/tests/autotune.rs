use vrb::autotune::{
    AutotuneDatabase, AutotuneError, EnvironmentFingerprint, TuningKey, TuningRecord, WorkloadShape,
};
use vrb::backend::{BackendId, DataType, OperationKind};
use vrb::float::Float64;

fn f64_bits(value: f64) -> Float64 {
    Float64 { bits: value.to_bits() }
}

fn environment(runtime: &str) -> EnvironmentFingerprint {
    EnvironmentFingerprint {
        gpu_arch: "gfx1030".to_owned(),
        driver_version: "test-driver".to_owned(),
        runtime_version: runtime.to_owned(),
        plugin_version: "plugin-v1".to_owned(),
    }
}

fn shape() -> WorkloadShape {
    WorkloadShape {
        dims: vec![128, 128, 128],
        alignment: 16,
    }
}

fn record(runtime: &str, latency: f64) -> TuningRecord {
    TuningRecord {
        key: TuningKey {
            environment: environment(runtime),
            backend: BackendId::new("hip").unwrap(),
            operation: OperationKind::Gemm,
            data_type: DataType::F32,
            shape: shape(),
        },
        median_microseconds: f64_bits(latency),
        samples: 25,
    }
}

#[test]
fn exact_environment_and_shape_project_into_core_table() {
    let mut database = AutotuneDatabase::default();
    database.record(record("runtime-a", 12.5)).unwrap();
    database.record(record("runtime-b", 99.0)).unwrap();

    let table = database
        .performance_table_for(&environment("runtime-a"), &shape())
        .unwrap();
    assert_eq!(
        table.median_us(
            &BackendId::new("hip").unwrap(),
            OperationKind::Gemm,
            DataType::F32
        ),
        Some(f64_bits(12.5))
    );
}

#[test]
fn invalid_alignment_fails_closed() {
    let invalid = WorkloadShape {
        dims: vec![1, 2, 3],
        alignment: 3,
    };
    assert!(matches!(
        invalid.validate(),
        Err(AutotuneError::InvalidAlignment(3))
    ));
}

#[test]
fn a_later_measurement_replaces_an_earlier_one_of_the_same_key() {
    let mut database = AutotuneDatabase::default();
    database.record(record("runtime-a", 12.5)).unwrap();
    database.record(record("runtime-a", 7.0)).unwrap();
    let found = database.lookup(&record("runtime-a", 0.0).key).unwrap();
    assert_eq!(found.median_microseconds, f64_bits(7.0));
    assert!(database.lookup(&record("runtime-c", 0.0).key).is_none());
    assert!(database.validate().is_ok());
}

#[test]
fn faults_of_records_are_told_apart() {
    let mut database = AutotuneDatabase::default();

    let mut blank = record("  ", 1.0);
    assert!(matches!(
        database.record(blank),
        Err(AutotuneError::InvalidFingerprint("runtime_version"))
    ));

    blank = record("r", 1.0);
    blank.key.shape.dims = vec![];
    assert!(matches!(database.record(blank), Err(AutotuneError::InvalidShape)));

    blank = record("r", 1.0);
    blank.key.shape.dims = vec![4, 0];
    assert!(matches!(database.record(blank), Err(AutotuneError::InvalidShape)));

    blank = record("r", 1.0);
    blank.key.shape.dims = vec![u64::MAX, 2];
    assert!(matches!(database.record(blank), Err(AutotuneError::ShapeOverflow)));

    blank = record("r", 1.0);
    blank.key.shape.alignment = 0;
    assert!(matches!(database.record(blank), Err(AutotuneError::InvalidAlignment(0))));

    assert!(matches!(
        database.record(record("r", f64::NAN)),
        Err(AutotuneError::InvalidLatency(_))
    ));

    blank = record("r", 1.0);
    blank.samples = 0;
    assert!(matches!(database.record(blank), Err(AutotuneError::ZeroSamples)));

    database.schema_version = 99;
    assert!(matches!(database.validate(), Err(AutotuneError::UnsupportedSchema(99))));
}

#[test]
fn autotune_errors_have_texts() {
    for (error, text) in [
        (
            AutotuneError::InvalidFingerprint("gpu_arch"),
            "invalid empty environment fingerprint field 'gpu_arch'",
        ),
        (
            AutotuneError::InvalidShape,
            "workload shape must contain non-zero dimensions",
        ),
        (
            AutotuneError::ShapeOverflow,
            "workload shape element-count arithmetic overflow",
        ),
        (
            AutotuneError::InvalidAlignment(3),
            "workload alignment must be a non-zero power of two, got 3",
        ),
        (
            AutotuneError::ZeroSamples,
            "benchmark sample count must be non-zero",
        ),
        (
            AutotuneError::UnsupportedSchema(7),
            "unsupported autotune schema version 7",
        ),
    ] {
        assert_eq!(error.number(), None);
        assert_eq!(error.message(""), text);
    }
    let error = AutotuneError::InvalidLatency(f64_bits(-1.5));
    assert_eq!(error.number(), Some(f64_bits(-1.5)));
    assert_eq!(
        error.message("-1.5"),
        "benchmark latency must be finite and non-negative, got -1.5"
    );
}
