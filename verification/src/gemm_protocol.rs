//! The wire format of matrix multiplications and their results.
//!
//! A message is a header of fixed length and the matrices behind it, row by row. All numbers are
//! little-endian.

use crate::bytes;
use crate::float::Float32;
use crate::text;
use vstd::prelude::*;
use vstd::string::*;

verus! {

pub const GEMM_PROTOCOL_VERSION: u32 = 1;

/// "VRBGEMM1"
pub const GEMM_REQUEST_MAGIC: [u8; 8] = [0x56, 0x52, 0x42, 0x47, 0x45, 0x4d, 0x4d, 0x31];

/// "VRBGEMR1"
pub const GEMM_RESPONSE_MAGIC: [u8; 8] = [0x56, 0x52, 0x42, 0x47, 0x45, 0x4d, 0x52, 0x31];

pub const GEMM_REQUEST_HEADER_LEN: usize = 56;

pub const GEMM_RESPONSE_HEADER_LEN: usize = 32;

pub const GEMM_FLAG_HAS_C: u32 = 1;

const GEMM_KNOWN_FLAGS: u32 = 1;

/// `alpha * A * B + beta * C`, with `A` of `m` rows and `k` columns and `B` of `k` rows and `n`
/// columns.
#[derive(Debug, Clone, Copy, PartialEq)]
pub struct GemmRequest<'a> {
    pub m: u64,
    pub n: u64,
    pub k: u64,
    pub alpha: Float32,
    pub beta: Float32,
    pub a: &'a [Float32],
    pub b: &'a [Float32],
    pub c: Option<&'a [Float32]>,
}

#[derive(Debug, Clone, Copy, PartialEq)]
pub struct GemmRequestMeta {
    pub m: u64,
    pub n: u64,
    pub k: u64,
    pub alpha: Float32,
    pub beta: Float32,
    pub has_c: bool,
    pub a_elements: u64,
    pub b_elements: u64,
    pub c_elements: u64,
    pub encoded_len: u64,
}

#[derive(Debug, Clone, PartialEq)]
pub struct DecodedGemmRequest {
    pub meta: GemmRequestMeta,
    pub a: Vec<Float32>,
    pub b: Vec<Float32>,
    pub c: Option<Vec<Float32>>,
}

#[derive(Debug, Clone, PartialEq)]
pub struct DecodedGemmResponse {
    pub m: u64,
    pub n: u64,
    pub values: Vec<Float32>,
}

#[derive(Debug, Clone, Copy, PartialEq, Eq)]
#[allow(inconsistent_fields)]
pub enum GemmProtocolError {
    Truncated { minimum: usize, actual: usize },
    InvalidMagic,
    UnsupportedVersion { actual: u32, expected: u32 },
    InvalidHeaderLength { actual: u32, expected: usize },
    UnsupportedFlags(u32),
    DimensionOverflow(&'static str),
    LengthOverflow,
    LengthMismatch { expected: u64, actual: u64 },
    MatrixLengthMismatch { matrix: &'static str, expected: u64, actual: u64 },
    AddressSpaceOverflow,
}

impl GemmProtocolError {
    /// The text of the error.
    pub open spec fn text(self) -> Seq<char> {
        match self {
            GemmProtocolError::Truncated { minimum, actual } => {
                "GEMM message is truncated: need at least "@ + text::decimal(minimum as nat)
                    + " bytes, got "@ + text::decimal(actual as nat)
            },
            GemmProtocolError::InvalidMagic => "invalid GEMM message magic"@,
            GemmProtocolError::UnsupportedVersion { actual, expected } => {
                "unsupported GEMM protocol version "@ + text::decimal(actual as nat)
                    + "; expected "@ + text::decimal(expected as nat)
            },
            GemmProtocolError::InvalidHeaderLength { actual, expected } => {
                "invalid GEMM header length "@ + text::decimal(actual as nat) + "; expected "@
                    + text::decimal(expected as nat)
            },
            GemmProtocolError::UnsupportedFlags(flags) => {
                "unsupported GEMM request flags 0x"@ + text::hexadecimal(flags as nat, 8)
            },
            GemmProtocolError::DimensionOverflow(what) => {
                "GEMM dimensions overflow while computing "@ + what@
            },
            GemmProtocolError::LengthOverflow => "GEMM message length overflow"@,
            GemmProtocolError::LengthMismatch { expected, actual } => {
                "GEMM message length "@ + text::decimal(actual as nat)
                    + " does not match required length "@ + text::decimal(expected as nat)
            },
            GemmProtocolError::MatrixLengthMismatch { matrix, expected, actual } => {
                "matrix "@ + matrix@ + " contains "@ + text::decimal(actual as nat)
                    + " elements; expected "@ + text::decimal(expected as nat)
            },
            GemmProtocolError::AddressSpaceOverflow => {
                "GEMM message cannot be represented in this process address space"@
            },
        }
    }

    pub fn message(self) -> (r: String)
        ensures
            r@ == self.text(),
    {
        match self {
            GemmProtocolError::Truncated { minimum, actual } => {
                let mut r = "GEMM message is truncated: need at least ".to_owned();
                text::append_decimal(&mut r, minimum as u64);
                r.append(" bytes, got ");
                text::append_decimal(&mut r, actual as u64);
                r
            },
            GemmProtocolError::InvalidMagic => "invalid GEMM message magic".to_owned(),
            GemmProtocolError::UnsupportedVersion { actual, expected } => {
                let mut r = "unsupported GEMM protocol version ".to_owned();
                text::append_decimal(&mut r, actual as u64);
                r.append("; expected ");
                text::append_decimal(&mut r, expected as u64);
                r
            },
            GemmProtocolError::InvalidHeaderLength { actual, expected } => {
                let mut r = "invalid GEMM header length ".to_owned();
                text::append_decimal(&mut r, actual as u64);
                r.append("; expected ");
                text::append_decimal(&mut r, expected as u64);
                r
            },
            GemmProtocolError::UnsupportedFlags(flags) => {
                let mut r = "unsupported GEMM request flags 0x".to_owned();
                text::append_hexadecimal(&mut r, flags as u64, 8);
                r
            },
            GemmProtocolError::DimensionOverflow(what) => {
                let mut r = "GEMM dimensions overflow while computing ".to_owned();
                r.append(what);
                r
            },
            GemmProtocolError::LengthOverflow => "GEMM message length overflow".to_owned(),
            GemmProtocolError::LengthMismatch { expected, actual } => {
                let mut r = "GEMM message length ".to_owned();
                text::append_decimal(&mut r, actual);
                r.append(" does not match required length ");
                text::append_decimal(&mut r, expected);
                r
            },
            GemmProtocolError::MatrixLengthMismatch { matrix, expected, actual } => {
                let mut r = "matrix ".to_owned();
                r.append(matrix);
                r.append(" contains ");
                text::append_decimal(&mut r, actual);
                r.append(" elements; expected ");
                text::append_decimal(&mut r, expected);
                r
            },
            GemmProtocolError::AddressSpaceOverflow => {
                "GEMM message cannot be represented in this process address space".to_owned()
            },
        }
    }
}

/// What the fields of a request say, each read where it stands.
pub open spec fn request_flags(input: Seq<u8>) -> u32 {
    bytes::field(input, 16, 4) as u32
}

pub open spec fn request_m(input: Seq<u8>) -> u64 {
    bytes::field(input, 24, 8) as u64
}

pub open spec fn request_n(input: Seq<u8>) -> u64 {
    bytes::field(input, 32, 8) as u64
}

pub open spec fn request_k(input: Seq<u8>) -> u64 {
    bytes::field(input, 40, 8) as u64
}

pub open spec fn float_field(input: Seq<u8>, offset: int) -> Float32 {
    Float32 { bits: bytes::field(input, offset, 4) as u32 }
}

/// How many elements the matrices of a request hold together.
pub open spec fn payload_elements(m: u64, n: u64, k: u64, has_c: bool) -> int {
    m * k + k * n + if has_c {
        m * n
    } else {
        0
    }
}

/// How long the message of a request is.
pub open spec fn request_length(m: u64, n: u64, k: u64, has_c: bool) -> int {
    GEMM_REQUEST_HEADER_LEN + 4 * payload_elements(m, n, k, has_c)
}

/// How long the message of a result is.
pub open spec fn response_length(m: u64, n: u64) -> int {
    GEMM_RESPONSE_HEADER_LEN + 4 * (m * n)
}

/// What is wrong with the first sixteen bytes of a message: its magic, version and header length.
pub open spec fn preamble_defect(input: Seq<u8>, magic: Seq<u8>, header_len: usize) -> Option<
    GemmProtocolError,
> {
    let version = bytes::field(input, 8, 4) as u32;
    let stated = bytes::field(input, 12, 4) as u32;
    if input.len() < header_len {
        Some(
            GemmProtocolError::Truncated { minimum: header_len, actual: input.len() as usize },
        )
    } else if !bytes::starts_with(input, magic) {
        Some(GemmProtocolError::InvalidMagic)
    } else if version != GEMM_PROTOCOL_VERSION {
        Some(
            GemmProtocolError::UnsupportedVersion {
                actual: version,
                expected: GEMM_PROTOCOL_VERSION,
            },
        )
    } else if stated != header_len {
        Some(GemmProtocolError::InvalidHeaderLength { actual: stated, expected: header_len })
    } else {
        None
    }
}

/// Why matrices of these dimensions cannot be sent.
pub open spec fn dimension_defect(m: u64, n: u64, k: u64) -> Option<GemmProtocolError> {
    if m * k > u64::MAX {
        Some(GemmProtocolError::DimensionOverflow("matrix A"))
    } else if k * n > u64::MAX {
        Some(GemmProtocolError::DimensionOverflow("matrix B"))
    } else if m * n > u64::MAX {
        Some(GemmProtocolError::DimensionOverflow("matrix C"))
    } else {
        None
    }
}

/// What is wrong with a request message.
pub open spec fn request_defect(input: Seq<u8>) -> Option<GemmProtocolError> {
    let flags = request_flags(input);
    let m = request_m(input);
    let n = request_n(input);
    let k = request_k(input);
    let length = request_length(m, n, k, flags & GEMM_FLAG_HAS_C != 0);
    let preamble = preamble_defect(input, GEMM_REQUEST_MAGIC@, GEMM_REQUEST_HEADER_LEN);
    if preamble is Some {
        preamble
    } else if flags & !1u32 != 0 {
        Some(GemmProtocolError::UnsupportedFlags(flags))
    } else if dimension_defect(m, n, k) is Some {
        dimension_defect(m, n, k)
    } else if length > u64::MAX {
        Some(GemmProtocolError::LengthOverflow)
    } else if input.len() != length {
        Some(
            GemmProtocolError::LengthMismatch {
                expected: length as u64,
                actual: input.len() as u64,
            },
        )
    } else {
        None
    }
}

/// What a request message says, apart from its matrices.
pub open spec fn request_meta(input: Seq<u8>) -> GemmRequestMeta {
    let m = request_m(input);
    let n = request_n(input);
    let k = request_k(input);
    GemmRequestMeta {
        m,
        n,
        k,
        alpha: float_field(input, 48),
        beta: float_field(input, 52),
        has_c: request_flags(input) & GEMM_FLAG_HAS_C != 0,
        a_elements: (m * k) as u64,
        b_elements: (k * n) as u64,
        c_elements: (m * n) as u64,
        encoded_len: input.len() as u64,
    }
}

fn checked_elements(rows: u64, columns: u64, label: &'static str) -> (r: Result<
    u64,
    GemmProtocolError,
>)
    ensures
        match r {
            Ok(elements) => elements == rows * columns,
            Err(error) => rows * columns > u64::MAX && error
                == GemmProtocolError::DimensionOverflow(label),
        },
{
    match rows.checked_mul(columns) {
        Some(elements) => Ok(elements),
        None => Err(GemmProtocolError::DimensionOverflow(label)),
    }
}

/// The length of a message with a header and elements of four bytes.
fn message_len(header: usize, elements: u64) -> (r: Result<u64, GemmProtocolError>)
    requires
        header <= 64,
    ensures
        match r {
            Ok(length) => length == header + 4 * elements,
            Err(error) => header + 4 * elements > u64::MAX && error
                == GemmProtocolError::LengthOverflow,
        },
{
    match elements.checked_mul(4) {
        Some(payload) => match (header as u64).checked_add(payload) {
            Some(length) => Ok(length),
            None => Err(GemmProtocolError::LengthOverflow),
        },
        None => Err(GemmProtocolError::LengthOverflow),
    }
}

pub fn encoded_response_len(m: u64, n: u64) -> (r: Result<u64, GemmProtocolError>)
    ensures
        match r {
            Ok(length) => length == response_length(m, n),
            Err(error) => if m * n > u64::MAX {
                error == GemmProtocolError::DimensionOverflow("response matrix")
            } else {
                response_length(m, n) > u64::MAX && error == GemmProtocolError::LengthOverflow
            },
        },
{
    match checked_elements(m, n, "response matrix") {
        Ok(elements) => message_len(GEMM_RESPONSE_HEADER_LEN, elements),
        Err(error) => Err(error),
    }
}

fn check_preamble(input: &[u8], magic: &[u8], header_len: usize) -> (r: Result<
    (),
    GemmProtocolError,
>)
    requires
        header_len >= 16,
    ensures
        match r {
            Ok(_) => preamble_defect(input@, magic@, header_len) is None,
            Err(error) => preamble_defect(input@, magic@, header_len) == Some(error),
        },
{
    if input.len() < header_len {
        return Err(
            GemmProtocolError::Truncated { minimum: header_len, actual: input.len() },
        );
    }
    if !bytes::begins_with(input, magic) {
        return Err(GemmProtocolError::InvalidMagic);
    }
    let version: u32 = bytes::read_u32(input, 8);
    if version != GEMM_PROTOCOL_VERSION {
        return Err(
            GemmProtocolError::UnsupportedVersion {
                actual: version,
                expected: GEMM_PROTOCOL_VERSION,
            },
        );
    }
    let stated: u32 = bytes::read_u32(input, 12);
    if stated as usize != header_len {
        return Err(
            GemmProtocolError::InvalidHeaderLength { actual: stated, expected: header_len },
        );
    }
    Ok(())
}

/// The three element counts and the length of a request message.
struct Extent {
    a_elements: u64,
    b_elements: u64,
    c_elements: u64,
}

fn extent_of(m: u64, n: u64, k: u64) -> (r: Result<Extent, GemmProtocolError>)
    ensures
        match r {
            Ok(extent) => {
                &&& dimension_defect(m, n, k) is None
                &&& extent.a_elements == m * k
                &&& extent.b_elements == k * n
                &&& extent.c_elements == m * n
            },
            Err(error) => dimension_defect(m, n, k) == Some(error),
        },
{
    let a_elements: u64 = match checked_elements(m, k, "matrix A") {
        Ok(elements) => elements,
        Err(error) => {
            return Err(error);
        },
    };
    let b_elements: u64 = match checked_elements(k, n, "matrix B") {
        Ok(elements) => elements,
        Err(error) => {
            return Err(error);
        },
    };
    let c_elements: u64 = match checked_elements(m, n, "matrix C") {
        Ok(elements) => elements,
        Err(error) => {
            return Err(error);
        },
    };
    Ok(Extent { a_elements, b_elements, c_elements })
}

fn request_len(extent: &Extent, has_c: bool, m: u64, n: u64, k: u64) -> (r: Result<
    u64,
    GemmProtocolError,
>)
    requires
        extent.a_elements == m * k,
        extent.b_elements == k * n,
        extent.c_elements == m * n,
    ensures
        match r {
            Ok(length) => length == request_length(m, n, k, has_c),
            Err(error) => request_length(m, n, k, has_c) > u64::MAX && error
                == GemmProtocolError::LengthOverflow,
        },
{
    let both: u64 = match extent.a_elements.checked_add(extent.b_elements) {
        Some(value) => value,
        None => {
            return Err(GemmProtocolError::LengthOverflow);
        },
    };
    let all: u64 = if has_c {
        match both.checked_add(extent.c_elements) {
            Some(value) => value,
            None => {
                return Err(GemmProtocolError::LengthOverflow);
            },
        }
    } else {
        both
    };
    message_len(GEMM_REQUEST_HEADER_LEN, all)
}

/// Reads the header of a request and holds the message to the length that the header implies.
pub fn inspect_request(input: &[u8]) -> (r: Result<GemmRequestMeta, GemmProtocolError>)
    ensures
        match r {
            Ok(meta) => request_defect(input@) is None && meta == request_meta(input@),
            Err(error) => request_defect(input@) == Some(error),
        },
{
    match check_preamble(input, &GEMM_REQUEST_MAGIC, GEMM_REQUEST_HEADER_LEN) {
        Ok(_) => {},
        Err(error) => {
            return Err(error);
        },
    }
    let flags: u32 = bytes::read_u32(input, 16);
    if flags & !GEMM_KNOWN_FLAGS != 0 {
        return Err(GemmProtocolError::UnsupportedFlags(flags));
    }
    let m: u64 = bytes::read_u64(input, 24);
    let n: u64 = bytes::read_u64(input, 32);
    let k: u64 = bytes::read_u64(input, 40);
    let alpha = Float32 { bits: bytes::read_u32(input, 48) };
    let beta = Float32 { bits: bytes::read_u32(input, 52) };
    let has_c: bool = flags & GEMM_FLAG_HAS_C != 0;
    let extent = match extent_of(m, n, k) {
        Ok(extent) => extent,
        Err(error) => {
            return Err(error);
        },
    };
    let encoded_len: u64 = match request_len(&extent, has_c, m, n, k) {
        Ok(length) => length,
        Err(error) => {
            return Err(error);
        },
    };
    let actual_len: u64 = input.len() as u64;
    if actual_len != encoded_len {
        return Err(
            GemmProtocolError::LengthMismatch { expected: encoded_len, actual: actual_len },
        );
    }
    Ok(
        GemmRequestMeta {
            m,
            n,
            k,
            alpha,
            beta,
            has_c,
            a_elements: extent.a_elements,
            b_elements: extent.b_elements,
            c_elements: extent.c_elements,
            encoded_len,
        },
    )
}

/// The matrices of a request message, in the order in which they stand.
pub open spec fn request_matrices(input: Seq<u8>) -> (
    Seq<Float32>,
    Seq<Float32>,
    Option<Seq<Float32>>,
) {
    let meta = request_meta(input);
    let b_at = GEMM_REQUEST_HEADER_LEN + 4 * meta.a_elements;
    let c_at = b_at + 4 * meta.b_elements;
    (
        bytes::floats_at(input, GEMM_REQUEST_HEADER_LEN as int, meta.a_elements as nat),
        bytes::floats_at(input, b_at, meta.b_elements as nat),
        if meta.has_c {
            Some(bytes::floats_at(input, c_at, meta.c_elements as nat))
        } else {
            None
        },
    )
}

/// An optional matrix by its elements.
pub open spec fn optional_view(c: Option<Vec<Float32>>) -> Option<Seq<Float32>> {
    match c {
        Some(values) => Some(values@),
        None => None,
    }
}

pub fn decode_request(input: &[u8]) -> (r: Result<DecodedGemmRequest, GemmProtocolError>)
    ensures
        match r {
            Ok(request) => {
                &&& request_defect(input@) is None
                &&& request.meta == request_meta(input@)
                &&& (request.a@, request.b@, optional_view(request.c)) == request_matrices(input@)
            },
            Err(error) => request_defect(input@) == Some(error),
        },
{
    let meta = match inspect_request(input) {
        Ok(meta) => meta,
        Err(error) => {
            return Err(error);
        },
    };
    let length: usize = input.len();
    let a_count: usize = meta.a_elements as usize;
    let b_count: usize = meta.b_elements as usize;
    let a = bytes::read_floats(input, GEMM_REQUEST_HEADER_LEN, a_count);
    let b_at: usize = GEMM_REQUEST_HEADER_LEN + 4 * a_count;
    let b = bytes::read_floats(input, b_at, b_count);
    let c = if meta.has_c {
        let c_count: usize = meta.c_elements as usize;
        Some(bytes::read_floats(input, b_at + 4 * b_count, c_count))
    } else {
        None
    };
    Ok(DecodedGemmRequest { meta, a, b, c })
}

/// Why a request cannot be written as a message.
pub open spec fn request_refusal(request: GemmRequest<'_>) -> Option<GemmProtocolError> {
    let m = request.m;
    let n = request.n;
    let k = request.k;
    let length = request_length(m, n, k, request.c is Some);
    if dimension_defect(m, n, k) is Some {
        dimension_defect(m, n, k)
    } else if request.a@.len() != m * k {
        Some(
            GemmProtocolError::MatrixLengthMismatch {
                matrix: "A",
                expected: (m * k) as u64,
                actual: request.a@.len() as u64,
            },
        )
    } else if request.b@.len() != k * n {
        Some(
            GemmProtocolError::MatrixLengthMismatch {
                matrix: "B",
                expected: (k * n) as u64,
                actual: request.b@.len() as u64,
            },
        )
    } else if request.c is Some && request.c->0@.len() != m * n {
        Some(
            GemmProtocolError::MatrixLengthMismatch {
                matrix: "C",
                expected: (m * n) as u64,
                actual: request.c->0@.len() as u64,
            },
        )
    } else if length > u64::MAX {
        Some(GemmProtocolError::LengthOverflow)
    } else if length > usize::MAX {
        Some(GemmProtocolError::AddressSpaceOverflow)
    } else {
        None
    }
}

/// The elements of an optional matrix.
pub open spec fn optional_elements(c: Option<&[Float32]>) -> Seq<Float32> {
    match c {
        Some(values) => values@,
        None => Seq::empty(),
    }
}

/// The header of a request message.
pub open spec fn request_header(
    m: u64,
    n: u64,
    k: u64,
    alpha: Float32,
    beta: Float32,
    has_c: bool,
) -> Seq<u8> {
    GEMM_REQUEST_MAGIC@ + bytes::le_bytes(GEMM_PROTOCOL_VERSION as nat, 4) + bytes::le_bytes(
        GEMM_REQUEST_HEADER_LEN as nat,
        4,
    ) + bytes::le_bytes(
        if has_c {
            1
        } else {
            0
        },
        4,
    ) + bytes::le_bytes(0, 4) + bytes::le_bytes(m as nat, 8) + bytes::le_bytes(n as nat, 8)
        + bytes::le_bytes(k as nat, 8) + bytes::le_bytes(alpha.bits as nat, 4) + bytes::le_bytes(
        beta.bits as nat,
        4,
    )
}

/// The message of a request.
pub open spec fn request_message(request: GemmRequest<'_>) -> Seq<u8> {
    request_header(
        request.m,
        request.n,
        request.k,
        request.alpha,
        request.beta,
        request.c is Some,
    ) + bytes::float_bytes(request.a@) + bytes::float_bytes(request.b@) + bytes::float_bytes(
        optional_elements(request.c),
    )
}

fn validate_slice_len(matrix: &'static str, expected: u64, actual: usize) -> (r: Result<
    (),
    GemmProtocolError,
>)
    ensures
        match r {
            Ok(_) => actual == expected,
            Err(error) => actual != expected && error == (GemmProtocolError::MatrixLengthMismatch {
                matrix,
                expected,
                actual: actual as u64,
            }),
        },
{
    if actual as u64 != expected {
        return Err(
            GemmProtocolError::MatrixLengthMismatch { matrix, expected, actual: actual as u64 },
        );
    }
    Ok(())
}

pub fn encode_request(request: GemmRequest<'_>) -> (r: Result<Vec<u8>, GemmProtocolError>)
    ensures
        match r {
            Ok(output) => request_refusal(request) is None && output@ == request_message(request),
            Err(error) => request_refusal(request) == Some(error),
        },
{
    let extent = match extent_of(request.m, request.n, request.k) {
        Ok(extent) => extent,
        Err(error) => {
            return Err(error);
        },
    };
    match validate_slice_len("A", extent.a_elements, request.a.len()) {
        Ok(_) => {},
        Err(error) => {
            return Err(error);
        },
    }
    match validate_slice_len("B", extent.b_elements, request.b.len()) {
        Ok(_) => {},
        Err(error) => {
            return Err(error);
        },
    }
    match request.c {
        Some(c) => match validate_slice_len("C", extent.c_elements, c.len()) {
            Ok(_) => {},
            Err(error) => {
                return Err(error);
            },
        },
        None => {},
    }
    let has_c: bool = request.c.is_some();
    let total_len: u64 = match request_len(&extent, has_c, request.m, request.n, request.k) {
        Ok(length) => length,
        Err(error) => {
            return Err(error);
        },
    };
    if total_len > usize::MAX as u64 {
        return Err(GemmProtocolError::AddressSpaceOverflow);
    }
    let mut output: Vec<u8> = Vec::with_capacity(total_len as usize);
    output.extend_from_slice(&GEMM_REQUEST_MAGIC);
    proof {
        assert(output@ =~= GEMM_REQUEST_MAGIC@);
    }
    bytes::append_u32(&mut output, GEMM_PROTOCOL_VERSION);
    bytes::append_u32(&mut output, GEMM_REQUEST_HEADER_LEN as u32);
    let flags: u32 = if has_c {
        GEMM_FLAG_HAS_C
    } else {
        0
    };
    bytes::append_u32(&mut output, flags);
    bytes::append_u32(&mut output, 0);
    bytes::append_u64(&mut output, request.m);
    bytes::append_u64(&mut output, request.n);
    bytes::append_u64(&mut output, request.k);
    bytes::append_u32(&mut output, request.alpha.bits);
    bytes::append_u32(&mut output, request.beta.bits);
    bytes::append_floats(&mut output, request.a);
    bytes::append_floats(&mut output, request.b);
    match request.c {
        Some(c) => {
            bytes::append_floats(&mut output, c);
        },
        None => {
            assert(output@ + Seq::<u8>::empty() =~= output@);
        },
    }
    Ok(output)
}

/// The message of a result.
pub open spec fn response_message(m: u64, n: u64, values: Seq<Float32>) -> Seq<u8> {
    GEMM_RESPONSE_MAGIC@ + bytes::le_bytes(GEMM_PROTOCOL_VERSION as nat, 4) + bytes::le_bytes(
        GEMM_RESPONSE_HEADER_LEN as nat,
        4,
    ) + bytes::le_bytes(m as nat, 8) + bytes::le_bytes(n as nat, 8) + bytes::float_bytes(values)
}

/// Why a result cannot be written as a message.
pub open spec fn response_refusal(m: u64, n: u64, count: nat) -> Option<GemmProtocolError> {
    if m * n > u64::MAX {
        Some(GemmProtocolError::DimensionOverflow("response matrix"))
    } else if count != m * n {
        Some(
            GemmProtocolError::MatrixLengthMismatch {
                matrix: "response",
                expected: (m * n) as u64,
                actual: count as u64,
            },
        )
    } else if response_length(m, n) > u64::MAX {
        Some(GemmProtocolError::LengthOverflow)
    } else if response_length(m, n) > usize::MAX {
        Some(GemmProtocolError::AddressSpaceOverflow)
    } else {
        None
    }
}

pub fn encode_response(m: u64, n: u64, values: &[Float32]) -> (r: Result<
    Vec<u8>,
    GemmProtocolError,
>)
    ensures
        match r {
            Ok(output) => response_refusal(m, n, values@.len()) is None && output@
                == response_message(m, n, values@),
            Err(error) => response_refusal(m, n, values@.len()) == Some(error),
        },
{
    let elements: u64 = match checked_elements(m, n, "response matrix") {
        Ok(elements) => elements,
        Err(error) => {
            return Err(error);
        },
    };
    match validate_slice_len("response", elements, values.len()) {
        Ok(_) => {},
        Err(error) => {
            return Err(error);
        },
    }
    let total_len: u64 = match encoded_response_len(m, n) {
        Ok(length) => length,
        Err(error) => {
            return Err(error);
        },
    };
    if total_len > usize::MAX as u64 {
        return Err(GemmProtocolError::AddressSpaceOverflow);
    }
    let mut output: Vec<u8> = Vec::with_capacity(total_len as usize);
    output.extend_from_slice(&GEMM_RESPONSE_MAGIC);
    proof {
        assert(output@ =~= GEMM_RESPONSE_MAGIC@);
    }
    bytes::append_u32(&mut output, GEMM_PROTOCOL_VERSION);
    bytes::append_u32(&mut output, GEMM_RESPONSE_HEADER_LEN as u32);
    bytes::append_u64(&mut output, m);
    bytes::append_u64(&mut output, n);
    bytes::append_floats(&mut output, values);
    Ok(output)
}

/// What is wrong with a result message.
pub open spec fn response_defect(input: Seq<u8>) -> Option<GemmProtocolError> {
    let m = bytes::field(input, 16, 8) as u64;
    let n = bytes::field(input, 24, 8) as u64;
    let preamble = preamble_defect(input, GEMM_RESPONSE_MAGIC@, GEMM_RESPONSE_HEADER_LEN);
    if preamble is Some {
        preamble
    } else if m * n > u64::MAX {
        Some(GemmProtocolError::DimensionOverflow("response matrix"))
    } else if response_length(m, n) > u64::MAX {
        Some(GemmProtocolError::LengthOverflow)
    } else if input.len() != response_length(m, n) {
        Some(
            GemmProtocolError::LengthMismatch {
                expected: response_length(m, n) as u64,
                actual: input.len() as u64,
            },
        )
    } else {
        None
    }
}

pub fn decode_response(input: &[u8]) -> (r: Result<DecodedGemmResponse, GemmProtocolError>)
    ensures
        match r {
            Ok(response) => {
                &&& response_defect(input@) is None
                &&& response.m == bytes::field(input@, 16, 8)
                &&& response.n == bytes::field(input@, 24, 8)
                &&& response.values@ == bytes::floats_at(
                    input@,
                    GEMM_RESPONSE_HEADER_LEN as int,
                    (response.m * response.n) as nat,
                )
            },
            Err(error) => response_defect(input@) == Some(error),
        },
{
    match check_preamble(input, &GEMM_RESPONSE_MAGIC, GEMM_RESPONSE_HEADER_LEN) {
        Ok(_) => {},
        Err(error) => {
            return Err(error);
        },
    }
    let m: u64 = bytes::read_u64(input, 16);
    let n: u64 = bytes::read_u64(input, 24);
    let expected_len: u64 = match encoded_response_len(m, n) {
        Ok(length) => length,
        Err(error) => {
            return Err(error);
        },
    };
    let actual_len: u64 = input.len() as u64;
    if expected_len != actual_len {
        return Err(
            GemmProtocolError::LengthMismatch { expected: expected_len, actual: actual_len },
        );
    }
    let length: usize = input.len();
    let count: usize = (length - GEMM_RESPONSE_HEADER_LEN) / 4;
    let values = bytes::read_floats(input, GEMM_RESPONSE_HEADER_LEN, count);
    Ok(DecodedGemmResponse { m, n, values })
}

/// The fields of a header, each where it stands, whatever follows.
proof fn lemma_request_header(
    m: u64,
    n: u64,
    k: u64,
    alpha: Float32,
    beta: Float32,
    has_c: bool,
    rest: Seq<u8>,
)
    ensures
        ({
            let all = request_header(m, n, k, alpha, beta, has_c) + rest;
            &&& request_header(m, n, k, alpha, beta, has_c).len() == GEMM_REQUEST_HEADER_LEN
            &&& bytes::starts_with(all, GEMM_REQUEST_MAGIC@)
            &&& bytes::field(all, 8, 4) == GEMM_PROTOCOL_VERSION
            &&& bytes::field(all, 12, 4) == GEMM_REQUEST_HEADER_LEN
            &&& request_flags(all) == if has_c {
                1u32
            } else {
                0u32
            }
            &&& request_m(all) == m
            &&& request_n(all) == n
            &&& request_k(all) == k
            &&& float_field(all, 48) == alpha
            &&& float_field(all, 52) == beta
        }),
{
    bytes::lemma_byte_ranges();
    let flags: nat = if has_c {
        1
    } else {
        0
    };
    let p0 = GEMM_REQUEST_MAGIC@;
    let p1 = bytes::le_bytes(GEMM_PROTOCOL_VERSION as nat, 4);
    let p2 = bytes::le_bytes(GEMM_REQUEST_HEADER_LEN as nat, 4);
    let p3 = bytes::le_bytes(flags, 4);
    let p4 = bytes::le_bytes(0, 4);
    let p5 = bytes::le_bytes(m as nat, 8);
    let p6 = bytes::le_bytes(n as nat, 8);
    let p7 = bytes::le_bytes(k as nat, 8);
    let p8 = bytes::le_bytes(alpha.bits as nat, 4);
    let p9 = bytes::le_bytes(beta.bits as nat, 4);
    let t9 = rest;
    let t8 = p9 + t9;
    let t7 = p8 + t8;
    let t6 = p7 + t7;
    let t5 = p6 + t6;
    let t4 = p5 + t5;
    let t3 = p4 + t4;
    let t2 = p3 + t3;
    let t1 = p2 + t2;
    let h1 = p0 + p1;
    let h2 = h1 + p2;
    let h3 = h2 + p3;
    let h4 = h3 + p4;
    let h5 = h4 + p5;
    let h6 = h5 + p6;
    let h7 = h6 + p7;
    let h8 = h7 + p8;
    let all = request_header(m, n, k, alpha, beta, has_c) + rest;
    bytes::lemma_field_behind(p0, GEMM_PROTOCOL_VERSION as nat, 4, t1);
    bytes::lemma_field_behind(h1, GEMM_REQUEST_HEADER_LEN as nat, 4, t2);
    bytes::lemma_field_behind(h2, flags, 4, t3);
    bytes::lemma_field_behind(h3, 0, 4, t4);
    bytes::lemma_field_behind(h4, m as nat, 8, t5);
    bytes::lemma_field_behind(h5, n as nat, 8, t6);
    bytes::lemma_field_behind(h6, k as nat, 8, t7);
    bytes::lemma_field_behind(h7, alpha.bits as nat, 4, t8);
    bytes::lemma_field_behind(h8, beta.bits as nat, 4, t9);
    assert(p0.len() == 8);
    bytes::lemma_concat(p0, p1, t1);
    bytes::lemma_concat(h1, p2, t2);
    bytes::lemma_concat(h2, p3, t3);
    bytes::lemma_concat(h3, p4, t4);
    bytes::lemma_concat(h4, p5, t5);
    bytes::lemma_concat(h5, p6, t6);
    bytes::lemma_concat(h6, p7, t7);
    bytes::lemma_concat(h7, p8, t8);
    bytes::lemma_concat(h8, p9, t9);
    assert(all.subrange(0, 8) =~= p0);
}

/// A request that was written is the request that is read: dimensions, factors and matrices.
pub proof fn a_request_is_read_as_written(request: GemmRequest<'_>)
    requires
        request_refusal(request) is None,
    ensures
        ({
            let message = request_message(request);
            let meta = request_meta(message);
            &&& request_defect(message) is None
            &&& meta.m == request.m
            &&& meta.n == request.n
            &&& meta.k == request.k
            &&& meta.alpha == request.alpha
            &&& meta.beta == request.beta
            &&& meta.has_c == request.c is Some
            &&& request_matrices(message) == (
                request.a@,
                request.b@,
                if request.c is Some {
                    Some(optional_elements(request.c))
                } else {
                    None
                },
            )
        }),
{
    let has_c = request.c is Some;
    let header = request_header(
        request.m,
        request.n,
        request.k,
        request.alpha,
        request.beta,
        has_c,
    );
    let a = bytes::float_bytes(request.a@);
    let b = bytes::float_bytes(request.b@);
    let elements = optional_elements(request.c);
    let c = bytes::float_bytes(elements);
    let message = request_message(request);
    assert(header + (a + b + c) =~= message);
    lemma_request_header(
        request.m,
        request.n,
        request.k,
        request.alpha,
        request.beta,
        has_c,
        a + b + c,
    );
    bytes::lemma_float_bytes_len(request.a@);
    bytes::lemma_float_bytes_len(request.b@);
    bytes::lemma_float_bytes_len(elements);
    bytes::floats_are_read_as_written(header, request.a@, b + c);
    assert(header + a + (b + c) =~= message);
    bytes::floats_are_read_as_written(header + a, request.b@, c);
    bytes::floats_are_read_as_written(header + a + b, elements, Seq::empty());
    assert(header + a + b + c + Seq::<u8>::empty() =~= message);
    assert(1u32 & !1u32 == 0 && 0u32 & !1u32 == 0 && 1u32 & 1u32 == 1 && 0u32 & 1u32 == 0)
        by (bit_vector);
}

/// A result that was written is the result that is read.
pub proof fn a_response_is_read_as_written(m: u64, n: u64, values: Seq<Float32>)
    requires
        response_refusal(m, n, values.len()) is None,
    ensures
        ({
            let message = response_message(m, n, values);
            &&& response_defect(message) is None
            &&& bytes::field(message, 16, 8) == m
            &&& bytes::field(message, 24, 8) == n
            &&& bytes::floats_at(message, GEMM_RESPONSE_HEADER_LEN as int, (m * n) as nat)
                == values
        }),
{
    bytes::lemma_byte_ranges();
    bytes::lemma_float_bytes_len(values);
    let p0 = GEMM_RESPONSE_MAGIC@;
    let p1 = bytes::le_bytes(GEMM_PROTOCOL_VERSION as nat, 4);
    let p2 = bytes::le_bytes(GEMM_RESPONSE_HEADER_LEN as nat, 4);
    let p3 = bytes::le_bytes(m as nat, 8);
    let p4 = bytes::le_bytes(n as nat, 8);
    let p5 = bytes::float_bytes(values);
    let all = response_message(m, n, values);
    let h1 = p0 + p1;
    let h2 = h1 + p2;
    let h3 = h2 + p3;
    let h4 = h3 + p4;
    bytes::lemma_field_behind(p0, GEMM_PROTOCOL_VERSION as nat, 4, p2 + p3 + p4 + p5);
    bytes::lemma_field_behind(h1, GEMM_RESPONSE_HEADER_LEN as nat, 4, p3 + p4 + p5);
    bytes::lemma_field_behind(h2, m as nat, 8, p4 + p5);
    bytes::lemma_field_behind(h3, n as nat, 8, p5);
    bytes::floats_are_read_as_written(h4, values, Seq::empty());
    assert(p0.len() == 8);
    assert(p0 + p1 + (p2 + p3 + p4 + p5) =~= all);
    assert(h1 + p2 + (p3 + p4 + p5) =~= all);
    assert(h2 + p3 + (p4 + p5) =~= all);
    assert(h3 + p4 + p5 =~= all);
    assert(h4 + p5 + Seq::<u8>::empty() =~= all);
    assert(all.subrange(0, 8) =~= p0);
}

/// A request that can be read from a message with nothing in its unused field is written as that
/// message again.
pub proof fn a_request_is_written_as_read(input: Seq<u8>)
    requires
        request_defect(input) is None,
        bytes::field(input, 20, 4) == 0,
    ensures
        ({
            let meta = request_meta(input);
            let (a, b, c) = request_matrices(input);
            let elements = match c {
                Some(values) => values,
                None => Seq::empty(),
            };
            request_header(meta.m, meta.n, meta.k, meta.alpha, meta.beta, meta.has_c)
                + bytes::float_bytes(a) + bytes::float_bytes(b) + bytes::float_bytes(elements)
                == input
        }),
{
    let meta = request_meta(input);
    let flags = request_flags(input);
    assert(flags & !1u32 == 0 ==> (flags == 0 || flags == 1) && (flags & 1u32 != 0) == (flags
        == 1)) by (bit_vector);
    bytes::lemma_byte_ranges();
    bytes::lemma_bytes_of_field(input, 8, 4);
    bytes::lemma_bytes_of_field(input, 12, 4);
    bytes::lemma_bytes_of_field(input, 16, 4);
    bytes::lemma_bytes_of_field(input, 20, 4);
    bytes::lemma_bytes_of_field(input, 24, 8);
    bytes::lemma_bytes_of_field(input, 32, 8);
    bytes::lemma_bytes_of_field(input, 40, 8);
    bytes::lemma_bytes_of_field(input, 48, 4);
    bytes::lemma_bytes_of_field(input, 52, 4);
    bytes::lemma_joined(input, 0, 8, 12);
    bytes::lemma_joined(input, 0, 12, 16);
    bytes::lemma_joined(input, 0, 16, 20);
    bytes::lemma_joined(input, 0, 20, 24);
    bytes::lemma_joined(input, 0, 24, 32);
    bytes::lemma_joined(input, 0, 32, 40);
    bytes::lemma_joined(input, 0, 40, 48);
    bytes::lemma_joined(input, 0, 48, 52);
    bytes::lemma_joined(input, 0, 52, 56);
    let header = request_header(meta.m, meta.n, meta.k, meta.alpha, meta.beta, meta.has_c);
    assert(header == input.subrange(0, 56));
    let b_at = 56 + 4 * meta.a_elements;
    let c_at = b_at + 4 * meta.b_elements;
    bytes::floats_are_written_as_read(input, 56, meta.a_elements as nat);
    bytes::floats_are_written_as_read(input, b_at, meta.b_elements as nat);
    bytes::lemma_joined(input, 0, 56, b_at);
    bytes::lemma_joined(input, 0, b_at, c_at);
    if meta.has_c {
        bytes::floats_are_written_as_read(input, c_at, meta.c_elements as nat);
        bytes::lemma_joined(input, 0, c_at, input.len() as int);
    }
    assert(input.subrange(0, input.len() as int) =~= input);
    assert(input + Seq::<u8>::empty() =~= input);
}

/// A result that can be read from a message is written as that message again: the format has no
/// second way to say the same.
pub proof fn a_response_is_written_as_read(input: Seq<u8>)
    requires
        response_defect(input) is None,
    ensures
        ({
            let m = bytes::field(input, 16, 8) as u64;
            let n = bytes::field(input, 24, 8) as u64;
            let values = bytes::floats_at(
                input,
                GEMM_RESPONSE_HEADER_LEN as int,
                (m * n) as nat,
            );
            response_message(m, n, values) == input
        }),
{
    let m = bytes::field(input, 16, 8) as u64;
    let n = bytes::field(input, 24, 8) as u64;
    bytes::lemma_byte_ranges();
    bytes::lemma_bytes_of_field(input, 8, 4);
    bytes::lemma_bytes_of_field(input, 12, 4);
    bytes::lemma_bytes_of_field(input, 16, 8);
    bytes::lemma_bytes_of_field(input, 24, 8);
    bytes::lemma_joined(input, 0, 8, 12);
    bytes::lemma_joined(input, 0, 12, 16);
    bytes::lemma_joined(input, 0, 16, 24);
    bytes::lemma_joined(input, 0, 24, 32);
    bytes::floats_are_written_as_read(input, 32, (m * n) as nat);
    bytes::lemma_joined(input, 0, 32, input.len() as int);
    assert(input.subrange(0, input.len() as int) =~= input);
}

/// A request message is in order if and only if it starts with its eight letters, states version
/// one and a header of 56 bytes, has no flag but the first, has dimensions whose products can be
/// counted, and is as long as the header and four bytes for each element of its matrices.
pub proof fn a_request_in_order_byte_by_byte(input: Seq<u8>)
    ensures
        request_defect(input) is None <==> {
            let flags = bytes::field(input, 16, 4);
            let m = bytes::field(input, 24, 8);
            let n = bytes::field(input, 32, 8);
            let k = bytes::field(input, 40, 8);
            &&& input.len() >= 56
            &&& input.subrange(0, 8) == seq![
                0x56u8,
                0x52u8,
                0x42u8,
                0x47u8,
                0x45u8,
                0x4du8,
                0x4du8,
                0x31u8,
            ]
            &&& bytes::field(input, 8, 4) == 1
            &&& bytes::field(input, 12, 4) == 56
            &&& flags <= 1
            &&& m * k <= 0xffff_ffff_ffff_ffff
            &&& k * n <= 0xffff_ffff_ffff_ffff
            &&& m * n <= 0xffff_ffff_ffff_ffff
            &&& input.len() <= 0xffff_ffff_ffff_ffff
            &&& input.len() == 56 + 4 * (m * k + k * n + if flags == 1 {
                m * n
            } else {
                0
            })
        },
{
    let flags = bytes::field(input, 16, 4) as u32;
    assert(GEMM_REQUEST_MAGIC@ =~= seq![
        0x56u8,
        0x52u8,
        0x42u8,
        0x47u8,
        0x45u8,
        0x4du8,
        0x4du8,
        0x31u8,
    ]);
    if input.len() >= 56 {
        bytes::fields_are_bounded(input, 8);
        bytes::fields_are_bounded(input, 12);
        bytes::fields_are_bounded(input, 16);
        bytes::fields_are_bounded(input, 24);
        bytes::fields_are_bounded(input, 32);
        bytes::fields_are_bounded(input, 40);
    }
    assert((flags & !1u32 == 0) == (flags <= 1)) by (bit_vector);
    assert(flags <= 1 ==> (flags & 1u32 != 0) == (flags == 1)) by (bit_vector);
}

/// Where everything stands in a request message: the dimensions from byte 24 on, `alpha` at 48,
/// `beta` at 52, and from byte 56 on `A`, `B` and, where the flag says so, `C`.
pub proof fn the_layout_of_a_request(input: Seq<u8>)
    requires
        request_defect(input) is None,
    ensures
        ({
            let meta = request_meta(input);
            let (a, b, c) = request_matrices(input);
            let b_at = 56 + 4 * (meta.m * meta.k);
            let c_at = b_at + 4 * (meta.k * meta.n);
            &&& meta.m == bytes::field(input, 24, 8)
            &&& meta.n == bytes::field(input, 32, 8)
            &&& meta.k == bytes::field(input, 40, 8)
            &&& meta.alpha.bits == bytes::field(input, 48, 4)
            &&& meta.beta.bits == bytes::field(input, 52, 4)
            &&& meta.has_c == (bytes::field(input, 16, 4) == 1)
            &&& meta.a_elements == meta.m * meta.k
            &&& meta.b_elements == meta.k * meta.n
            &&& meta.c_elements == meta.m * meta.n
            &&& meta.encoded_len == input.len()
            &&& a.len() == meta.m * meta.k
            &&& b.len() == meta.k * meta.n
            &&& forall|i: int|
                #![trigger a[i]]
                0 <= i < a.len() ==> a[i].bits == bytes::field(input, 56 + 4 * i, 4)
            &&& forall|i: int|
                #![trigger b[i]]
                0 <= i < b.len() ==> b[i].bits == bytes::field(input, b_at + 4 * i, 4)
            &&& c is Some == (bytes::field(input, 16, 4) == 1)
            &&& c is Some ==> c->0.len() == meta.m * meta.n && forall|i: int|
                #![trigger c->0[i]]
                0 <= i < c->0.len() ==> c->0[i].bits == bytes::field(input, c_at + 4 * i, 4)
        }),
{
    a_request_in_order_byte_by_byte(input);
    bytes::fields_are_bounded(input, 16);
    bytes::fields_are_bounded(input, 24);
    bytes::fields_are_bounded(input, 32);
    bytes::fields_are_bounded(input, 40);
    bytes::fields_are_bounded(input, 48);
    bytes::fields_are_bounded(input, 52);
    let flags = bytes::field(input, 16, 4) as u32;
    assert(flags <= 1 ==> (flags & 1u32 != 0) == (flags == 1)) by (bit_vector);
    let meta = request_meta(input);
    let (a, b, c) = request_matrices(input);
    let b_at = 56 + 4 * (meta.m * meta.k);
    let c_at = b_at + 4 * (meta.k * meta.n);
    assert(0 <= meta.m * meta.k && 0 <= meta.k * meta.n && 0 <= meta.m * meta.n)
        by (nonlinear_arith)
        requires
            0 <= meta.m,
            0 <= meta.k,
            0 <= meta.n,
    ;
    assert forall|i: int| #![trigger a[i]] 0 <= i < a.len() implies a[i].bits == bytes::field(
        input,
        56 + 4 * i,
        4,
    ) by {
        bytes::fields_are_bounded(input, 56 + 4 * i);
    }
    assert forall|i: int| #![trigger b[i]] 0 <= i < b.len() implies b[i].bits == bytes::field(
        input,
        b_at + 4 * i,
        4,
    ) by {
        bytes::fields_are_bounded(input, b_at + 4 * i);
    }
    if c is Some {
        assert forall|i: int| #![trigger c->0[i]] 0 <= i < c->0.len() implies c->0[i].bits
            == bytes::field(input, c_at + 4 * i, 4) by {
            bytes::fields_are_bounded(input, c_at + 4 * i);
        }
    }
}

/// A result message is in order if and only if it starts with its eight letters, states version one
/// and a header of 32 bytes, has dimensions whose product can be counted, and is as long as the
/// header and four bytes for each element.
pub proof fn a_result_in_order_byte_by_byte(input: Seq<u8>)
    ensures
        response_defect(input) is None <==> {
            let m = bytes::field(input, 16, 8);
            let n = bytes::field(input, 24, 8);
            &&& input.len() >= 32
            &&& input.subrange(0, 8) == seq![
                0x56u8,
                0x52u8,
                0x42u8,
                0x47u8,
                0x45u8,
                0x4du8,
                0x52u8,
                0x31u8,
            ]
            &&& bytes::field(input, 8, 4) == 1
            &&& bytes::field(input, 12, 4) == 32
            &&& m * n <= 0xffff_ffff_ffff_ffff
            &&& input.len() <= 0xffff_ffff_ffff_ffff
            &&& input.len() == 32 + 4 * (m * n)
        },
{
    assert(GEMM_RESPONSE_MAGIC@ =~= seq![
        0x56u8,
        0x52u8,
        0x42u8,
        0x47u8,
        0x45u8,
        0x4du8,
        0x52u8,
        0x31u8,
    ]);
    if input.len() >= 32 {
        bytes::fields_are_bounded(input, 8);
        bytes::fields_are_bounded(input, 12);
        bytes::fields_are_bounded(input, 16);
        bytes::fields_are_bounded(input, 24);
    }
}

/// A result is written with its elements from byte 32 on, its rows at byte 16 and its columns at
/// byte 24.
pub proof fn the_layout_of_a_result(m: u64, n: u64, values: Seq<Float32>, i: int)
    requires
        response_refusal(m, n, values.len()) is None,
        0 <= i < values.len(),
    ensures
        ({
            let message = response_message(m, n, values);
            &&& message.len() == 32 + 4 * values.len()
            &&& values.len() == m * n
            &&& bytes::field(message, 16, 8) == m
            &&& bytes::field(message, 24, 8) == n
            &&& bytes::field(message, 32 + 4 * i, 4) == values[i].bits
        }),
{
    a_response_is_read_as_written(m, n, values);
    let message = response_message(m, n, values);
    a_result_in_order_byte_by_byte(message);
    bytes::floats_stand_side_by_side(message, 32, values.len(), i);
    assert(bytes::floats_at(message, 32, values.len())[i] == values[i]);
}

/// A request can be written if and only if its dimensions can be counted, each matrix has as many
/// elements as its dimensions say, and the message fits in memory.
pub proof fn a_request_that_can_be_written(request: GemmRequest<'_>)
    ensures
        request_refusal(request) is None <==> {
            let m = request.m as int;
            let n = request.n as int;
            let k = request.k as int;
            &&& m * k <= u64::MAX
            &&& k * n <= u64::MAX
            &&& m * n <= u64::MAX
            &&& request.a@.len() == m * k
            &&& request.b@.len() == k * n
            &&& request.c matches Some(c) ==> c@.len() == m * n
            &&& 56 + 4 * (m * k + k * n + if request.c is Some {
                m * n
            } else {
                0
            }) <= usize::MAX
        },
{
}

/// What is told of a message that is no request: each error comes where everything before it is in
/// order, with what the message says at its place.
pub proof fn what_is_wrong_with_a_request(input: Seq<u8>)
    requires
        input.len() <= usize::MAX,
    ensures
        ({
            let version = bytes::field(input, 8, 4) as u32;
            let stated = bytes::field(input, 12, 4) as u32;
            let flags = bytes::field(input, 16, 4) as u32;
            let m = bytes::field(input, 24, 8);
            let n = bytes::field(input, 32, 8);
            let k = bytes::field(input, 40, 8);
            let most = 0xffff_ffff_ffff_ffffint;
            let c = if flags == 1 {
                m * n
            } else {
                0
            };
            let length = 56 + 4 * (m * k + k * n + c);
            let error = request_defect(input);
            &&& input.len() < 56 ==> error == Some(
                GemmProtocolError::Truncated { minimum: 56, actual: input.len() as usize },
            )
            &&& input.len() >= 56 && input.take(8) != GEMM_REQUEST_MAGIC@ ==> error == Some(
                GemmProtocolError::InvalidMagic,
            )
            &&& input.len() >= 56 && input.take(8) == GEMM_REQUEST_MAGIC@ ==> {
                &&& version != 1 ==> error == Some(
                    GemmProtocolError::UnsupportedVersion { actual: version, expected: 1 },
                )
                &&& version == 1 && stated != 56 ==> error == Some(
                    GemmProtocolError::InvalidHeaderLength { actual: stated, expected: 56 },
                )
                &&& version == 1 && stated == 56 && flags > 1 ==> error == Some(
                    GemmProtocolError::UnsupportedFlags(flags),
                )
                &&& version == 1 && stated == 56 && flags <= 1 ==> {
                    &&& m * k > most ==> error == Some(
                        GemmProtocolError::DimensionOverflow("matrix A"),
                    )
                    &&& m * k <= most && k * n > most ==> error == Some(
                        GemmProtocolError::DimensionOverflow("matrix B"),
                    )
                    &&& m * k <= most && k * n <= most && m * n > most ==> error == Some(
                        GemmProtocolError::DimensionOverflow("matrix C"),
                    )
                    &&& m * k <= most && k * n <= most && m * n <= most ==> {
                        &&& length > most ==> error == Some(GemmProtocolError::LengthOverflow)
                        &&& length <= most && input.len() != length ==> error == Some(
                            GemmProtocolError::LengthMismatch {
                                expected: length as u64,
                                actual: input.len() as u64,
                            },
                        )
                    }
                }
            }
        }),
{
    if input.len() >= 56 {
        bytes::fields_are_bounded(input, 8);
        bytes::fields_are_bounded(input, 12);
        bytes::fields_are_bounded(input, 16);
        bytes::fields_are_bounded(input, 24);
        bytes::fields_are_bounded(input, 32);
        bytes::fields_are_bounded(input, 40);
    }
    let flags = request_flags(input);
    assert((flags & !1u32 != 0) == (flags > 1)) by (bit_vector);
    assert(flags <= 1 ==> (flags & 1 != 0) == (flags == 1)) by (bit_vector);
    if input.len() >= 8 {
        assert(input.take(8) =~= input.subrange(0, 8));
    }
}

} // verus!
