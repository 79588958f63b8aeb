//! The control message of matrix multiplications on shared resources.
//!
//! The matrices themselves are resources that both sides share. The message says only what they
//! are and where to multiply them.

use crate::bytes;
use crate::float::Float32;
use crate::text;
use vstd::prelude::*;
use vstd::string::*;

verus! {

pub const SHARED_GEMM_PROTOCOL_VERSION: u32 = 1;

/// "VRBSGM01"
pub const SHARED_GEMM_MAGIC: [u8; 8] = [0x56, 0x52, 0x42, 0x53, 0x47, 0x4d, 0x30, 0x31];

pub const SHARED_GEMM_HEADER_LEN: usize = 64;

pub const SHARED_GEMM_RESOURCE_COUNT: usize = 3;

pub const A_RESOURCE_INDEX: usize = 0;

pub const B_RESOURCE_INDEX: usize = 1;

pub const C_RESOURCE_INDEX: usize = 2;

#[derive(Debug, Clone, Copy, PartialEq)]
pub struct SharedGemmControl {
    pub m: u64,
    pub n: u64,
    pub k: u64,
    pub alpha: Float32,
    pub beta: Float32,
    pub hip_device_index: i32,
}

#[derive(Debug, Clone, Copy, PartialEq, Eq, Structural)]
pub struct SharedGemmResourceLengths {
    pub a_bytes: u64,
    pub b_bytes: u64,
    pub c_bytes: u64,
}

#[derive(Debug, Clone, Copy, PartialEq, Eq)]
#[allow(inconsistent_fields)]
pub enum SharedGemmProtocolError {
    Truncated { minimum: usize, actual: usize },
    InvalidMagic,
    UnsupportedVersion { actual: u32, expected: u32 },
    InvalidHeaderLength { actual: u32, expected: usize },
    LengthMismatch { expected: usize, actual: usize },
    DimensionOverflow(&'static str),
    ByteLengthOverflow(&'static str),
    InvalidDeviceIndex(i32),
}

impl SharedGemmProtocolError {
    /// The text of the error.
    pub open spec fn text(self) -> Seq<char> {
        match self {
            SharedGemmProtocolError::Truncated { minimum, actual } => {
                "shared GEMM metadata is truncated: need "@
                    + text::decimal(minimum as nat) + " bytes, got "@
                    + text::decimal(actual as nat)
            },
            SharedGemmProtocolError::InvalidMagic => "invalid shared GEMM metadata magic"@,
            SharedGemmProtocolError::UnsupportedVersion { actual, expected } => {
                "unsupported shared GEMM protocol version "@
                    + text::decimal(actual as nat) + "; expected "@
                    + text::decimal(expected as nat)
            },
            SharedGemmProtocolError::InvalidHeaderLength { actual, expected } => {
                "invalid shared GEMM header length "@ + text::decimal(actual as nat)
                    + "; expected "@ + text::decimal(expected as nat)
            },
            SharedGemmProtocolError::LengthMismatch { expected, actual } => {
                "shared GEMM metadata length "@ + text::decimal(actual as nat)
                    + " does not match required length "@ + text::decimal(expected as nat)
            },
            SharedGemmProtocolError::DimensionOverflow(what) => {
                "shared GEMM dimensions overflow while computing "@ + what@
            },
            SharedGemmProtocolError::ByteLengthOverflow(what) => {
                "shared GEMM byte length overflow while computing "@ + what@
            },
            SharedGemmProtocolError::InvalidDeviceIndex(index) => {
                "HIP device index must be non-negative, got "@
                    + text::signed_decimal(index as int)
            },
        }
    }

    pub fn message(self) -> (r: String)
        ensures
            r@ == self.text(),
    {
        match self {
            SharedGemmProtocolError::Truncated { minimum, actual } => {
                let mut r = "shared GEMM metadata is truncated: need ".to_owned();
                text::append_decimal(&mut r, minimum as u64);
                r.append(" bytes, got ");
                text::append_decimal(&mut r, actual as u64);
                r
            },
            SharedGemmProtocolError::InvalidMagic => {
                "invalid shared GEMM metadata magic".to_owned()
            },
            SharedGemmProtocolError::UnsupportedVersion { actual, expected } => {
                let mut r = "unsupported shared GEMM protocol version ".to_owned();
                text::append_decimal(&mut r, actual as u64);
                r.append("; expected ");
                text::append_decimal(&mut r, expected as u64);
                r
            },
            SharedGemmProtocolError::InvalidHeaderLength { actual, expected } => {
                let mut r = "invalid shared GEMM header length ".to_owned();
                text::append_decimal(&mut r, actual as u64);
                r.append("; expected ");
                text::append_decimal(&mut r, expected as u64);
                r
            },
            SharedGemmProtocolError::LengthMismatch { expected, actual } => {
                let mut r = "shared GEMM metadata length ".to_owned();
                text::append_decimal(&mut r, actual as u64);
                r.append(" does not match required length ");
                text::append_decimal(&mut r, expected as u64);
                r
            },
            SharedGemmProtocolError::DimensionOverflow(what) => {
                let mut r = "shared GEMM dimensions overflow while computing ".to_owned();
                r.append(what);
                r
            },
            SharedGemmProtocolError::ByteLengthOverflow(what) => {
                let mut r = "shared GEMM byte length overflow while computing ".to_owned();
                r.append(what);
                r
            },
            SharedGemmProtocolError::InvalidDeviceIndex(index) => {
                let mut r = "HIP device index must be non-negative, got ".to_owned();
                text::append_signed_decimal(&mut r, index);
                r
            },
        }
    }
}

impl SharedGemmControl {
    /// What is wrong with the control.
    pub open spec fn defect(self) -> Option<SharedGemmProtocolError> {
        if self.hip_device_index < 0 {
            Some(SharedGemmProtocolError::InvalidDeviceIndex(self.hip_device_index))
        } else if self.m * self.k > u64::MAX {
            Some(SharedGemmProtocolError::DimensionOverflow("matrix A"))
        } else if self.k * self.n > u64::MAX {
            Some(SharedGemmProtocolError::DimensionOverflow("matrix B"))
        } else if self.m * self.n > u64::MAX {
            Some(SharedGemmProtocolError::DimensionOverflow("matrix C"))
        } else {
            None
        }
    }

    /// Why the matrices have no length in bytes.
    pub open spec fn length_defect(self) -> Option<SharedGemmProtocolError> {
        if self.defect() is Some {
            self.defect()
        } else if 4 * (self.m * self.k) > u64::MAX {
            Some(SharedGemmProtocolError::ByteLengthOverflow("matrix A"))
        } else if 4 * (self.k * self.n) > u64::MAX {
            Some(SharedGemmProtocolError::ByteLengthOverflow("matrix B"))
        } else if 4 * (self.m * self.n) > u64::MAX {
            Some(SharedGemmProtocolError::ByteLengthOverflow("matrix C"))
        } else {
            None
        }
    }
}

fn expected_elements(rows: u64, columns: u64, label: &'static str) -> (r: Result<
    u64,
    SharedGemmProtocolError,
>)
    ensures
        match r {
            Ok(elements) => elements == rows * columns,
            Err(error) => rows * columns > u64::MAX && error
                == SharedGemmProtocolError::DimensionOverflow(label),
        },
{
    match rows.checked_mul(columns) {
        Some(elements) => Ok(elements),
        None => Err(SharedGemmProtocolError::DimensionOverflow(label)),
    }
}

fn validate_control(control: SharedGemmControl) -> (r: Result<(), SharedGemmProtocolError>)
    ensures
        match r {
            Ok(_) => control.defect() is None,
            Err(error) => control.defect() == Some(error),
        },
{
    if control.hip_device_index < 0 {
        return Err(SharedGemmProtocolError::InvalidDeviceIndex(control.hip_device_index));
    }
    match expected_elements(control.m, control.k, "matrix A") {
        Ok(_) => {},
        Err(error) => {
            return Err(error);
        },
    }
    match expected_elements(control.k, control.n, "matrix B") {
        Ok(_) => {},
        Err(error) => {
            return Err(error);
        },
    }
    match expected_elements(control.m, control.n, "matrix C") {
        Ok(_) => Ok(()),
        Err(error) => Err(error),
    }
}

fn matrix_bytes(rows: u64, columns: u64, label: &'static str) -> (r: Result<
    u64,
    SharedGemmProtocolError,
>)
    requires
        rows * columns <= u64::MAX,
    ensures
        match r {
            Ok(length) => length == 4 * (rows * columns),
            Err(error) => 4 * (rows * columns) > u64::MAX && error
                == SharedGemmProtocolError::ByteLengthOverflow(label),
        },
{
    let elements: u64 = rows * columns;
    match elements.checked_mul(4) {
        Some(length) => Ok(length),
        None => Err(SharedGemmProtocolError::ByteLengthOverflow(label)),
    }
}

/// How long the three matrices are, four bytes for each element.
pub fn expected_resource_lengths(control: SharedGemmControl) -> (r: Result<
    SharedGemmResourceLengths,
    SharedGemmProtocolError,
>)
    ensures
        match r {
            Ok(lengths) => {
                &&& control.length_defect() is None
                &&& lengths.a_bytes == 4 * (control.m * control.k)
                &&& lengths.b_bytes == 4 * (control.k * control.n)
                &&& lengths.c_bytes == 4 * (control.m * control.n)
            },
            Err(error) => control.length_defect() == Some(error),
        },
{
    match validate_control(control) {
        Ok(_) => {},
        Err(error) => {
            return Err(error);
        },
    }
    let a_bytes: u64 = match matrix_bytes(control.m, control.k, "matrix A") {
        Ok(length) => length,
        Err(error) => {
            return Err(error);
        },
    };
    let b_bytes: u64 = match matrix_bytes(control.k, control.n, "matrix B") {
        Ok(length) => length,
        Err(error) => {
            return Err(error);
        },
    };
    let c_bytes: u64 = match matrix_bytes(control.m, control.n, "matrix C") {
        Ok(length) => length,
        Err(error) => {
            return Err(error);
        },
    };
    Ok(SharedGemmResourceLengths { a_bytes, b_bytes, c_bytes })
}

/// The message of a control.
pub open spec fn control_message(control: SharedGemmControl) -> Seq<u8> {
    SHARED_GEMM_MAGIC@ + bytes::le_bytes(SHARED_GEMM_PROTOCOL_VERSION as nat, 4)
        + bytes::le_bytes(SHARED_GEMM_HEADER_LEN as nat, 4) + bytes::le_bytes(control.m as nat, 8)
        + bytes::le_bytes(control.n as nat, 8) + bytes::le_bytes(control.k as nat, 8)
        + bytes::le_bytes(control.alpha.bits as nat, 4) + bytes::le_bytes(
        control.beta.bits as nat,
        4,
    ) + bytes::le_bytes(control.hip_device_index as nat, 4) + bytes::le_bytes(
        SHARED_GEMM_RESOURCE_COUNT as nat,
        4,
    ) + bytes::le_bytes(0, 8)
}

#[must_use]
pub fn encode_control(control: SharedGemmControl) -> (r: Result<
    Vec<u8>,
    SharedGemmProtocolError,
>)
    ensures
        match r {
            Ok(output) => control.defect() is None && output@ == control_message(control),
            Err(error) => control.defect() == Some(error),
        },
{
    match validate_control(control) {
        Ok(_) => {},
        Err(error) => {
            return Err(error);
        },
    }
    let mut output: Vec<u8> = Vec::with_capacity(SHARED_GEMM_HEADER_LEN);
    output.extend_from_slice(&SHARED_GEMM_MAGIC);
    proof {
        assert(output@ =~= SHARED_GEMM_MAGIC@);
    }
    bytes::append_u32(&mut output, SHARED_GEMM_PROTOCOL_VERSION);
    bytes::append_u32(&mut output, SHARED_GEMM_HEADER_LEN as u32);
    bytes::append_u64(&mut output, control.m);
    bytes::append_u64(&mut output, control.n);
    bytes::append_u64(&mut output, control.k);
    bytes::append_u32(&mut output, control.alpha.bits);
    bytes::append_u32(&mut output, control.beta.bits);
    bytes::append_u32(&mut output, control.hip_device_index as u32);
    bytes::append_u32(&mut output, SHARED_GEMM_RESOURCE_COUNT as u32);
    bytes::append_u64(&mut output, 0);
    Ok(output)
}

/// What the fields of a message say.
pub open spec fn control_fields(input: Seq<u8>) -> SharedGemmControl {
    SharedGemmControl {
        m: bytes::field(input, 16, 8) as u64,
        n: bytes::field(input, 24, 8) as u64,
        k: bytes::field(input, 32, 8) as u64,
        alpha: Float32 { bits: bytes::field(input, 40, 4) as u32 },
        beta: Float32 { bits: bytes::field(input, 44, 4) as u32 },
        hip_device_index: bytes::signed(bytes::field(input, 48, 4)) as i32,
    }
}

/// What is wrong with a message. The last eight bytes are not looked at.
pub open spec fn message_defect(input: Seq<u8>) -> Option<SharedGemmProtocolError> {
    let version = bytes::field(input, 8, 4) as u32;
    let stated = bytes::field(input, 12, 4) as u32;
    let count = bytes::field(input, 52, 4) as u32;
    if input.len() < SHARED_GEMM_HEADER_LEN {
        Some(
            SharedGemmProtocolError::Truncated {
                minimum: SHARED_GEMM_HEADER_LEN,
                actual: input.len() as usize,
            },
        )
    } else if input.len() != SHARED_GEMM_HEADER_LEN {
        Some(
            SharedGemmProtocolError::LengthMismatch {
                expected: SHARED_GEMM_HEADER_LEN,
                actual: input.len() as usize,
            },
        )
    } else if !bytes::starts_with(input, SHARED_GEMM_MAGIC@) {
        Some(SharedGemmProtocolError::InvalidMagic)
    } else if version != SHARED_GEMM_PROTOCOL_VERSION {
        Some(
            SharedGemmProtocolError::UnsupportedVersion {
                actual: version,
                expected: SHARED_GEMM_PROTOCOL_VERSION,
            },
        )
    } else if stated != SHARED_GEMM_HEADER_LEN {
        Some(
            SharedGemmProtocolError::InvalidHeaderLength {
                actual: stated,
                expected: SHARED_GEMM_HEADER_LEN,
            },
        )
    } else if count != SHARED_GEMM_RESOURCE_COUNT {
        Some(
            SharedGemmProtocolError::LengthMismatch {
                expected: SHARED_GEMM_RESOURCE_COUNT,
                actual: count as usize,
            },
        )
    } else {
        control_fields(input).defect()
    }
}

pub fn decode_control(input: &[u8]) -> (r: Result<SharedGemmControl, SharedGemmProtocolError>)
    ensures
        match r {
            Ok(control) => message_defect(input@) is None && control == control_fields(input@),
            Err(error) => message_defect(input@) == Some(error),
        },
{
    if input.len() < SHARED_GEMM_HEADER_LEN {
        return Err(
            SharedGemmProtocolError::Truncated {
                minimum: SHARED_GEMM_HEADER_LEN,
                actual: input.len(),
            },
        );
    }
    if input.len() != SHARED_GEMM_HEADER_LEN {
        return Err(
            SharedGemmProtocolError::LengthMismatch {
                expected: SHARED_GEMM_HEADER_LEN,
                actual: input.len(),
            },
        );
    }
    if !bytes::begins_with(input, &SHARED_GEMM_MAGIC) {
        return Err(SharedGemmProtocolError::InvalidMagic);
    }
    let version: u32 = bytes::read_u32(input, 8);
    if version != SHARED_GEMM_PROTOCOL_VERSION {
        return Err(
            SharedGemmProtocolError::UnsupportedVersion {
                actual: version,
                expected: SHARED_GEMM_PROTOCOL_VERSION,
            },
        );
    }
    let stated: u32 = bytes::read_u32(input, 12);
    if stated as usize != SHARED_GEMM_HEADER_LEN {
        return Err(
            SharedGemmProtocolError::InvalidHeaderLength {
                actual: stated,
                expected: SHARED_GEMM_HEADER_LEN,
            },
        );
    }
    let count: u32 = bytes::read_u32(input, 52);
    if count != SHARED_GEMM_RESOURCE_COUNT as u32 {
        return Err(
            SharedGemmProtocolError::LengthMismatch {
                expected: SHARED_GEMM_RESOURCE_COUNT,
                actual: count as usize,
            },
        );
    }
    let control = SharedGemmControl {
        m: bytes::read_u64(input, 16),
        n: bytes::read_u64(input, 24),
        k: bytes::read_u64(input, 32),
        alpha: Float32 { bits: bytes::read_u32(input, 40) },
        beta: Float32 { bits: bytes::read_u32(input, 44) },
        hip_device_index: bytes::as_signed(bytes::read_u32(input, 48)),
    };
    match validate_control(control) {
        Ok(_) => Ok(control),
        Err(error) => Err(error),
    }
}

/// A control that was written is the control that is read.
pub proof fn a_control_is_read_as_written(control: SharedGemmControl)
    requires
        control.defect() is None,
    ensures
        control_message(control).len() == SHARED_GEMM_HEADER_LEN,
        message_defect(control_message(control)) is None,
        control_fields(control_message(control)) == control,
{
    bytes::lemma_byte_ranges();
    let device = control.hip_device_index as nat;
    let p0 = SHARED_GEMM_MAGIC@;
    let p1 = bytes::le_bytes(SHARED_GEMM_PROTOCOL_VERSION as nat, 4);
    let p2 = bytes::le_bytes(SHARED_GEMM_HEADER_LEN as nat, 4);
    let p3 = bytes::le_bytes(control.m as nat, 8);
    let p4 = bytes::le_bytes(control.n as nat, 8);
    let p5 = bytes::le_bytes(control.k as nat, 8);
    let p6 = bytes::le_bytes(control.alpha.bits as nat, 4);
    let p7 = bytes::le_bytes(control.beta.bits as nat, 4);
    let p8 = bytes::le_bytes(device, 4);
    let p9 = bytes::le_bytes(SHARED_GEMM_RESOURCE_COUNT as nat, 4);
    let t9 = bytes::le_bytes(0, 8);
    let t8 = p9 + t9;
    let t7 = p8 + t8;
    let t6 = p7 + t7;
    let t5 = p6 + t6;
    let t4 = p5 + t5;
    let t3 = p4 + t4;
    let t2 = p3 + t3;
    let t1 = p2 + t2;
    let h1 = p0 + p1;
    let h2 = h1 + p2;
    let h3 = h2 + p3;
    let h4 = h3 + p4;
    let h5 = h4 + p5;
    let h6 = h5 + p6;
    let h7 = h6 + p7;
    let h8 = h7 + p8;
    let all = control_message(control);
    bytes::lemma_field_behind(p0, SHARED_GEMM_PROTOCOL_VERSION as nat, 4, t1);
    bytes::lemma_field_behind(h1, SHARED_GEMM_HEADER_LEN as nat, 4, t2);
    bytes::lemma_field_behind(h2, control.m as nat, 8, t3);
    bytes::lemma_field_behind(h3, control.n as nat, 8, t4);
    bytes::lemma_field_behind(h4, control.k as nat, 8, t5);
    bytes::lemma_field_behind(h5, control.alpha.bits as nat, 4, t6);
    bytes::lemma_field_behind(h6, control.beta.bits as nat, 4, t7);
    bytes::lemma_field_behind(h7, device, 4, t8);
    bytes::lemma_field_behind(h8, SHARED_GEMM_RESOURCE_COUNT as nat, 4, t9);
    bytes::lemma_le_bytes_len(0, 8);
    assert(p0.len() == 8);
    bytes::lemma_concat(p0, p1, t1);
    bytes::lemma_concat(h1, p2, t2);
    bytes::lemma_concat(h2, p3, t3);
    bytes::lemma_concat(h3, p4, t4);
    bytes::lemma_concat(h4, p5, t5);
    bytes::lemma_concat(h5, p6, t6);
    bytes::lemma_concat(h6, p7, t7);
    bytes::lemma_concat(h7, p8, t8);
    bytes::lemma_concat(h8, p9, t9);
    assert(all.subrange(0, 8) =~= p0);
}

/// A control that can be read from a message with nothing in its last eight bytes is written as
/// that message again.
pub proof fn a_message_is_written_as_read(input: Seq<u8>)
    requires
        message_defect(input) is None,
        bytes::field(input, 56, 8) == 0,
    ensures
        control_message(control_fields(input)) == input,
{
    bytes::lemma_byte_ranges();
    bytes::lemma_bytes_of_field(input, 8, 4);
    bytes::lemma_bytes_of_field(input, 12, 4);
    bytes::lemma_bytes_of_field(input, 16, 8);
    bytes::lemma_bytes_of_field(input, 24, 8);
    bytes::lemma_bytes_of_field(input, 32, 8);
    bytes::lemma_bytes_of_field(input, 40, 4);
    bytes::lemma_bytes_of_field(input, 44, 4);
    bytes::lemma_bytes_of_field(input, 48, 4);
    bytes::lemma_bytes_of_field(input, 52, 4);
    bytes::lemma_bytes_of_field(input, 56, 8);
    bytes::lemma_joined(input, 0, 8, 12);
    bytes::lemma_joined(input, 0, 12, 16);
    bytes::lemma_joined(input, 0, 16, 24);
    bytes::lemma_joined(input, 0, 24, 32);
    bytes::lemma_joined(input, 0, 32, 40);
    bytes::lemma_joined(input, 0, 40, 44);
    bytes::lemma_joined(input, 0, 44, 48);
    bytes::lemma_joined(input, 0, 48, 52);
    bytes::lemma_joined(input, 0, 52, 56);
    bytes::lemma_joined(input, 0, 56, 64);
    assert(input.subrange(0, 64) =~= input);
}

/// A control message is in order if and only if it is 64 bytes long, starts with its eight letters,
/// states version one, a header of 64 bytes and three resources, names a device that is not
/// negative, and has dimensions whose products can be counted. Its last eight bytes may be
/// anything.
pub proof fn a_message_in_order_byte_by_byte(input: Seq<u8>)
    ensures
        message_defect(input) is None <==> {
            let m = bytes::field(input, 16, 8);
            let n = bytes::field(input, 24, 8);
            let k = bytes::field(input, 32, 8);
            &&& input.len() == 64
            &&& input.subrange(0, 8) == seq![
                0x56u8,
                0x52u8,
                0x42u8,
                0x53u8,
                0x47u8,
                0x4du8,
                0x30u8,
                0x31u8,
            ]
            &&& bytes::field(input, 8, 4) == 1
            &&& bytes::field(input, 12, 4) == 64
            &&& bytes::field(input, 48, 4) < 0x8000_0000
            &&& bytes::field(input, 52, 4) == 3
            &&& m * k <= 0xffff_ffff_ffff_ffff
            &&& k * n <= 0xffff_ffff_ffff_ffff
            &&& m * n <= 0xffff_ffff_ffff_ffff
        },
{
    assert(SHARED_GEMM_MAGIC@ =~= seq![
        0x56u8,
        0x52u8,
        0x42u8,
        0x53u8,
        0x47u8,
        0x4du8,
        0x30u8,
        0x31u8,
    ]);
    if input.len() == 64 {
        bytes::fields_are_bounded(input, 8);
        bytes::fields_are_bounded(input, 12);
        bytes::fields_are_bounded(input, 16);
        bytes::fields_are_bounded(input, 24);
        bytes::fields_are_bounded(input, 32);
        bytes::fields_are_bounded(input, 48);
        bytes::fields_are_bounded(input, 52);
    }
}

/// Where everything stands in a control message.
pub proof fn the_layout_of_a_control(input: Seq<u8>)
    requires
        input.len() == 64,
    ensures
        control_fields(input).m == bytes::field(input, 16, 8),
        control_fields(input).n == bytes::field(input, 24, 8),
        control_fields(input).k == bytes::field(input, 32, 8),
        control_fields(input).alpha.bits == bytes::field(input, 40, 4),
        control_fields(input).beta.bits == bytes::field(input, 44, 4),
        bytes::field(input, 48, 4) < 0x8000_0000 ==> control_fields(input).hip_device_index
            == bytes::field(input, 48, 4),
        bytes::field(input, 48, 4) >= 0x8000_0000 ==> control_fields(input).hip_device_index
            == bytes::field(input, 48, 4) - 0x1_0000_0000,
{
    bytes::fields_are_bounded(input, 16);
    bytes::fields_are_bounded(input, 24);
    bytes::fields_are_bounded(input, 32);
    bytes::fields_are_bounded(input, 40);
    bytes::fields_are_bounded(input, 44);
    bytes::fields_are_bounded(input, 48);
}

/// A control is written with zeros in its last eight bytes.
pub proof fn a_written_control_ends_in_zeros(control: SharedGemmControl)
    requires
        control.defect() is None,
    ensures
        control_message(control).len() == 64,
        bytes::field(control_message(control), 56, 8) == 0,
        bytes::field(control_message(control), 52, 4) == 3,
{
    a_control_is_read_as_written(control);
    let message = control_message(control);
    a_message_in_order_byte_by_byte(message);
    bytes::lemma_byte_ranges();
    let tail = bytes::le_bytes(0, 8);
    bytes::lemma_le_bytes_len(0, 8);
    bytes::reading_gives_back_what_was_written(0, 8);
    assert(message.subrange(56, 64) =~= tail);
}

/// A control is valid if and only if its device is not negative and each product of two dimensions
/// can be counted. Its matrices have lengths if and only if four bytes for each element can be
/// counted too.
pub proof fn a_valid_control_by_its_fields(control: SharedGemmControl)
    ensures
        ({
            let m = control.m as int;
            let n = control.n as int;
            let k = control.k as int;
            &&& control.defect() is None <==> control.hip_device_index >= 0 && m * k <= u64::MAX
                && k * n <= u64::MAX && m * n <= u64::MAX
            &&& control.length_defect() is None <==> control.hip_device_index >= 0 && 4 * (m * k)
                <= u64::MAX && 4 * (k * n) <= u64::MAX && 4 * (m * n) <= u64::MAX
        }),
{
    let m = control.m as int;
    let n = control.n as int;
    let k = control.k as int;
    assert(0 <= m * k && 0 <= k * n && 0 <= m * n) by (nonlinear_arith)
        requires
            0 <= m,
            0 <= k,
            0 <= n,
    ;
}

/// What is told of a control: a device that cannot be, else the first matrix whose elements cannot
/// be counted, else the first whose bytes cannot.
pub proof fn what_is_wrong_with_a_control(control: SharedGemmControl)
    ensures
        ({
            let most = 0xffff_ffff_ffff_ffffint;
            let a = control.m * control.k;
            let b = control.k * control.n;
            let c = control.m * control.n;
            let device = control.hip_device_index;
            let error = control.length_defect();
            &&& device < 0 ==> error == Some(SharedGemmProtocolError::InvalidDeviceIndex(device))
            &&& device >= 0 && a > most ==> error == Some(
                SharedGemmProtocolError::DimensionOverflow("matrix A"),
            )
            &&& device >= 0 && a <= most && b > most ==> error == Some(
                SharedGemmProtocolError::DimensionOverflow("matrix B"),
            )
            &&& device >= 0 && a <= most && b <= most && c > most ==> error == Some(
                SharedGemmProtocolError::DimensionOverflow("matrix C"),
            )
            &&& device >= 0 && a <= most && b <= most && c <= most ==> {
                &&& control.defect() is None
                &&& 4 * a > most ==> error == Some(
                    SharedGemmProtocolError::ByteLengthOverflow("matrix A"),
                )
                &&& 4 * a <= most && 4 * b > most ==> error == Some(
                    SharedGemmProtocolError::ByteLengthOverflow("matrix B"),
                )
                &&& 4 * a <= most && 4 * b <= most && 4 * c > most ==> error == Some(
                    SharedGemmProtocolError::ByteLengthOverflow("matrix C"),
                )
            }
            &&& control.defect() is Some ==> error == control.defect()
        }),
{
}

/// What is told of a message: each error comes with what the message says at its place.
pub proof fn what_is_wrong_with_a_message(input: Seq<u8>)
    requires
        input.len() <= usize::MAX,
    ensures
        ({
            let length = input.len() as usize;
            let version = bytes::field(input, 8, 4) as u32;
            let stated = bytes::field(input, 12, 4) as u32;
            let count = bytes::field(input, 52, 4) as u32;
            let error = message_defect(input);
            &&& input.len() < 64 ==> error == Some(
                SharedGemmProtocolError::Truncated { minimum: 64, actual: length },
            )
            &&& input.len() > 64 ==> error == Some(
                SharedGemmProtocolError::LengthMismatch { expected: 64, actual: length },
            )
            &&& error == Some(SharedGemmProtocolError::InvalidMagic) ==> input.take(8)
                != SHARED_GEMM_MAGIC@
            &&& input.len() == 64 && input.take(8) == SHARED_GEMM_MAGIC@ ==> {
                &&& version != 1 ==> error == Some(
                    SharedGemmProtocolError::UnsupportedVersion { actual: version, expected: 1 },
                )
                &&& version == 1 && stated != 64 ==> error == Some(
                    SharedGemmProtocolError::InvalidHeaderLength { actual: stated, expected: 64 },
                )
                &&& version == 1 && stated == 64 && count != 3 ==> error == Some(
                    SharedGemmProtocolError::LengthMismatch {
                        expected: 3,
                        actual: count as usize,
                    },
                )
                &&& version == 1 && stated == 64 && count == 3 ==> error == control_fields(
                    input,
                ).defect()
            }
        }),
{
    if input.len() >= 8 {
        assert(input.take(8) =~= input.subrange(0, 8));
    }
}

} // verus!
