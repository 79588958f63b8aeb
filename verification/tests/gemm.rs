use vrb::float::Float32;
use vrb::gemm_protocol::{
    decode_request, decode_response, encode_request, encode_response, encoded_response_len,
    inspect_request, GemmProtocolError, GemmRequest,
};
use vrb::gemm_reference::{
    execute_gemm_bytes, required_output_len, CpuReferenceGemm, GemmLimits, ReferenceGemmError,
    REFERENCE_GEMM_NAME,
};
use vrb::operators::{Operator, OperatorError, OperatorInvocation};
use vrb::shared_gemm_protocol::{
    decode_control, encode_control, expected_resource_lengths, SharedGemmControl,
    SharedGemmProtocolError, SHARED_GEMM_HEADER_LEN,
};

fn f32_bits(value: f32) -> Float32 {
    Float32 { bits: value.to_bits() }
}

fn all(values: &[f32]) -> Vec<Float32> {
    values.iter().map(|value| f32_bits(*value)).collect()
}

fn back(values: &[Float32]) -> Vec<f32> {
    values.iter().map(|value| f32::from_bits(value.bits)).collect()
}

fn request(
    m: u64,
    n: u64,
    k: u64,
    alpha: f32,
    beta: f32,
    a: &[f32],
    b: &[f32],
    c: Option<&[f32]>,
) -> Result<Vec<u8>, GemmProtocolError> {
    let c = c.map(all);
    encode_request(GemmRequest {
        m,
        n,
        k,
        alpha: f32_bits(alpha),
        beta: f32_bits(beta),
        a: &all(a),
        b: &all(b),
        c: c.as_deref(),
    })
}

#[test]
fn request_round_trip_preserves_gemm_inputs() {
    let encoded = request(
        2,
        2,
        3,
        0.5,
        2.0,
        &[1.0, 2.0, 3.0, 4.0, 5.0, 6.0],
        &[7.0, 8.0, 9.0, 10.0, 11.0, 12.0],
        Some(&[1.0, 2.0, 3.0, 4.0]),
    )
    .expect("valid request should encode");
    let decoded = decode_request(&encoded).expect("encoded request should decode");

    assert_eq!(decoded.meta.m, 2);
    assert_eq!(decoded.meta.n, 2);
    assert_eq!(decoded.meta.k, 3);
    assert_eq!(f32::from_bits(decoded.meta.alpha.bits), 0.5);
    assert_eq!(f32::from_bits(decoded.meta.beta.bits), 2.0);
    assert_eq!(back(&decoded.a), [1.0, 2.0, 3.0, 4.0, 5.0, 6.0]);
    assert_eq!(back(&decoded.b), [7.0, 8.0, 9.0, 10.0, 11.0, 12.0]);
    assert_eq!(decoded.c.as_deref().map(back), Some(vec![1.0, 2.0, 3.0, 4.0]));
}

#[test]
fn response_round_trip_preserves_shape_and_values() {
    let encoded = encode_response(2, 2, &all(&[58.0, 64.0, 139.0, 154.0]))
        .expect("valid response should encode");
    let decoded = decode_response(&encoded).expect("encoded response should decode");
    assert_eq!((decoded.m, decoded.n), (2, 2));
    assert_eq!(back(&decoded.values), [58.0, 64.0, 139.0, 154.0]);
}

#[test]
fn malformed_dimensions_are_rejected_without_wrapping() {
    let error = request(u64::MAX, 1, 2, 1.0, 0.0, &[], &[], None)
        .expect_err("overflowing matrix dimensions must fail");
    assert_eq!(error, GemmProtocolError::DimensionOverflow("matrix A"));
}

#[test]
fn reference_gemm_matches_known_product() {
    let request = request(
        2,
        2,
        3,
        1.0,
        0.0,
        &[1.0, 2.0, 3.0, 4.0, 5.0, 6.0],
        &[7.0, 8.0, 9.0, 10.0, 11.0, 12.0],
        None,
    )
    .expect("request should encode");

    let response = execute_gemm_bytes(&request, GemmLimits::default())
        .expect("reference GEMM should execute");
    let decoded = decode_response(&response).expect("response should decode");

    assert_eq!(back(&decoded.values), [58.0, 64.0, 139.0, 154.0]);
}

#[test]
fn alpha_beta_and_c_are_applied() {
    let request = request(
        1,
        2,
        2,
        0.5,
        2.0,
        &[2.0, 4.0],
        &[1.0, 3.0, 2.0, 5.0],
        Some(&[10.0, 20.0]),
    )
    .expect("request should encode");

    let response = CpuReferenceGemm::default()
        .execute_bytes(&request)
        .expect("reference GEMM should execute");
    let decoded = decode_response(&response).expect("response should decode");

    assert_eq!(back(&decoded.values), [25.0, 53.0]);
}

#[test]
fn configured_limits_reject_excessive_work_before_decode_allocation() {
    let request = request(2, 2, 2, 1.0, 0.0, &[1.0; 4], &[1.0; 4], None)
        .expect("request should encode");
    let limits = GemmLimits {
        max_matrix_elements: 16,
        max_multiply_adds: 7,
    };

    let error = required_output_len(&request, limits)
        .expect_err("work above configured operation limit must fail");
    assert_eq!(
        error,
        ReferenceGemmError::ResourceLimit {
            resource: "multiply-add count",
            actual: 8,
            maximum: 7,
        }
    );
}

#[test]
fn control_round_trip_preserves_shape_scalars_and_device() {
    let control = SharedGemmControl {
        m: 2,
        n: 4,
        k: 3,
        alpha: f32_bits(0.5),
        beta: f32_bits(2.0),
        hip_device_index: 1,
    };
    let encoded = encode_control(control).expect("valid control should encode");
    assert_eq!(encoded.len(), SHARED_GEMM_HEADER_LEN);
    assert_eq!(decode_control(&encoded), Ok(control));
}

#[test]
fn resource_lengths_match_row_major_fp32_matrices() {
    let lengths = expected_resource_lengths(SharedGemmControl {
        m: 2,
        n: 4,
        k: 3,
        alpha: f32_bits(1.0),
        beta: f32_bits(0.0),
        hip_device_index: 0,
    })
    .expect("valid dimensions should produce lengths");
    assert_eq!(lengths.a_bytes, 24);
    assert_eq!(lengths.b_bytes, 48);
    assert_eq!(lengths.c_bytes, 32);
}

#[test]
fn negative_device_index_is_rejected() {
    let error = encode_control(SharedGemmControl {
        m: 1,
        n: 1,
        k: 1,
        alpha: f32_bits(1.0),
        beta: f32_bits(0.0),
        hip_device_index: -1,
    })
    .expect_err("negative HIP device must fail");
    assert_eq!(error, SharedGemmProtocolError::InvalidDeviceIndex(-1));
}

#[test]
fn faults_of_messages_are_told_apart() {
    let good = request(1, 1, 1, 1.0, 0.0, &[2.0], &[3.0], None).unwrap();
    assert!(inspect_request(&good).is_ok());
    assert!(matches!(
        inspect_request(&good[..10]),
        Err(GemmProtocolError::Truncated { minimum: 56, actual: 10 })
    ));
    let mut bad = good.clone();
    bad[0] = 0;
    assert_eq!(inspect_request(&bad), Err(GemmProtocolError::InvalidMagic));
    bad = good.clone();
    bad[8] = 9;
    assert_eq!(
        inspect_request(&bad),
        Err(GemmProtocolError::UnsupportedVersion { actual: 9, expected: 1 })
    );
    bad = good.clone();
    bad[12] = 57;
    assert_eq!(
        inspect_request(&bad),
        Err(GemmProtocolError::InvalidHeaderLength { actual: 57, expected: 56 })
    );
    bad = good.clone();
    bad[16] = 2;
    assert_eq!(inspect_request(&bad), Err(GemmProtocolError::UnsupportedFlags(2)));
    bad = good.clone();
    bad.push(0);
    assert!(matches!(
        inspect_request(&bad),
        Err(GemmProtocolError::LengthMismatch { .. })
    ));
    assert_eq!(
        request(1, 1, 1, 1.0, 0.0, &[], &[3.0], None),
        Err(GemmProtocolError::MatrixLengthMismatch { matrix: "A", expected: 1, actual: 0 })
    );
    assert_eq!(
        GemmProtocolError::UnsupportedFlags(2).message(),
        "unsupported GEMM request flags 0x00000002"
    );
    assert_eq!(
        encoded_response_len(u64::MAX, 2),
        Err(GemmProtocolError::DimensionOverflow("response matrix"))
    );
}

#[test]
fn the_operator_answers_messages_and_says_what_is_wrong_with_others() {
    let operator = CpuReferenceGemm::default();
    assert_eq!(operator.name(), REFERENCE_GEMM_NAME);
    let good = request(1, 1, 1, 1.0, 0.0, &[2.0], &[3.0], None).unwrap();
    let output = operator.execute(OperatorInvocation { input: &good }).unwrap();
    assert_eq!(back(&decode_response(&output.bytes).unwrap().values), [6.0]);
    assert_eq!(
        operator.execute(OperatorInvocation { input: b"" }),
        Err(OperatorError::Execution(
            "GEMM message is truncated: need at least 56 bytes, got 0".to_owned()
        ))
    );
}

// The same sums in hardware arithmetic, in the same order.
#[test]
fn products_agree_with_hardware_arithmetic() {
    let (m, n, k) = (3_usize, 4_usize, 5_usize);
    let number = |i: usize| ((i * 7919 + 13) % 1000) as f32 / 37.0 - 13.5;
    let a: Vec<f32> = (0..m * k).map(number).collect();
    let b: Vec<f32> = (0..k * n).map(|i| number(i + 100)).collect();
    let c: Vec<f32> = (0..m * n).map(|i| number(i + 500)).collect();
    let (alpha, beta) = (1.25_f32, -0.75_f32);
    let message = request(3, 4, 5, alpha, beta, &a, &b, Some(&c)).unwrap();
    let response = execute_gemm_bytes(&message, GemmLimits::default()).unwrap();
    let actual = back(&decode_response(&response).unwrap().values);
    for row in 0..m {
        for column in 0..n {
            let mut expected = beta * c[row * n + column];
            for depth in 0..k {
                expected += (alpha * a[row * k + depth]) * b[depth * n + column];
            }
            assert_eq!(actual[row * n + column].to_bits(), expected.to_bits());
        }
    }
}

#[test]
fn messages_are_written_as_they_were_read() {
    let message = request(1, 2, 1, 0.5, 2.0, &[3.0], &[4.0, 5.0], Some(&[6.0, 7.0])).unwrap();
    let read = decode_request(&message).unwrap();
    let written = encode_request(GemmRequest {
        m: read.meta.m,
        n: read.meta.n,
        k: read.meta.k,
        alpha: read.meta.alpha,
        beta: read.meta.beta,
        a: &read.a,
        b: &read.b,
        c: read.c.as_deref(),
    })
    .unwrap();
    assert_eq!(written, message);

    let message = encode_response(1, 2, &all(&[0.25, -8.0])).unwrap();
    let read = decode_response(&message).unwrap();
    assert_eq!(encode_response(read.m, read.n, &read.values).unwrap(), message);

    let message = encode_control(SharedGemmControl {
        m: 7,
        n: 5,
        k: 3,
        alpha: f32_bits(-1.5),
        beta: f32_bits(0.0),
        hip_device_index: 2,
    })
    .unwrap();
    let read = decode_control(&message).unwrap();
    assert_eq!(encode_control(read).unwrap(), message);
}

#[test]
fn the_length_of_a_product_is_announced() {
    let message = request(2, 3, 1, 1.0, 0.0, &[1.0, 2.0], &[3.0, 4.0, 5.0], None).unwrap();
    let announced = required_output_len(&message, GemmLimits::default()).unwrap();
    let product = execute_gemm_bytes(&message, GemmLimits::default()).unwrap();
    assert_eq!(announced, product.len() as u64);
    assert_eq!(Ok(announced), encoded_response_len(2, 3));
    let read = decode_response(&product).unwrap();
    assert_eq!((read.m, read.n), (2, 3));
    assert_eq!(back(&read.values), [3.0, 4.0, 5.0, 6.0, 8.0, 10.0]);
}

#[test]
fn shared_gemm_errors_have_texts() {
    type Error = SharedGemmProtocolError;
    for (error, text) in [
        (
            Error::Truncated { minimum: 64, actual: 3 },
            "shared GEMM metadata is truncated: need 64 bytes, got 3",
        ),
        (Error::InvalidMagic, "invalid shared GEMM metadata magic"),
        (
            Error::UnsupportedVersion { actual: 2, expected: 1 },
            "unsupported shared GEMM protocol version 2; expected 1",
        ),
        (
            Error::InvalidHeaderLength { actual: 65, expected: 64 },
            "invalid shared GEMM header length 65; expected 64",
        ),
        (
            Error::LengthMismatch { expected: 64, actual: 65 },
            "shared GEMM metadata length 65 does not match required length 64",
        ),
        (
            Error::DimensionOverflow("matrix A"),
            "shared GEMM dimensions overflow while computing matrix A",
        ),
        (
            Error::ByteLengthOverflow("matrix B"),
            "shared GEMM byte length overflow while computing matrix B",
        ),
        (
            Error::InvalidDeviceIndex(-1),
            "HIP device index must be non-negative, got -1",
        ),
    ] {
        assert_eq!(error.message(), text);
    }
}

#[test]
fn controls_are_compared_as_numbers() {
    let control = |alpha: f32| SharedGemmControl {
        m: 1,
        n: 1,
        k: 1,
        alpha: f32_bits(alpha),
        beta: f32_bits(0.0),
        hip_device_index: 0,
    };
    assert_eq!(control(0.0), control(-0.0));
    assert_ne!(control(f32::NAN), control(f32::NAN));
    assert_ne!(control(1.0), control(-1.0));
}
