//! The control message of scaled dot-product attention on shared resources.
//!
//! Tensors never appear in the message. Its header of fixed length says only their shape and data
//! type, whether attention is causal, the scale and the device.

use crate::bytes;
use crate::float::Float32;
use crate::text;
use vstd::prelude::*;
use vstd::string::*;

verus! {

/// "VRBA" in little-endian bytes.
pub const ATTENTION_MAGIC: u32 = 0x4142_5256;

pub const ATTENTION_PROTOCOL_VERSION: u16 = 1;

pub const ATTENTION_HEADER_LEN: usize = 64;

pub const ATTENTION_RESOURCE_COUNT: u32 = 4;

pub const Q_RESOURCE_INDEX: usize = 0;

pub const K_RESOURCE_INDEX: usize = 1;

pub const V_RESOURCE_INDEX: usize = 2;

pub const O_RESOURCE_INDEX: usize = 3;

pub const FLAG_CAUSAL: u32 = 1;

const KNOWN_FLAGS: u32 = 1;

#[derive(Debug, Clone, Copy, PartialEq, Eq, Structural)]
pub enum AttentionDataType {
    F32,
    F16,
    Bf16,
}

impl Default for AttentionDataType {
    fn default() -> (r: Self)
        ensures
            r == AttentionDataType::F32,
    {
        AttentionDataType::F32
    }
}

impl AttentionDataType {
    /// The name of the type.
    pub open spec fn label(self) -> Seq<char> {
        match self {
            AttentionDataType::F32 => "F32"@,
            AttentionDataType::F16 => "F16"@,
            AttentionDataType::Bf16 => "Bf16"@,
        }
    }

    pub fn name(self) -> (r: &'static str)
        ensures
            r@ == self.label(),
    {
        match self {
            AttentionDataType::F32 => "F32",
            AttentionDataType::F16 => "F16",
            AttentionDataType::Bf16 => "Bf16",
        }
    }

    pub open spec fn width(self) -> u64 {
        match self {
            AttentionDataType::F32 => 4,
            AttentionDataType::F16 => 2,
            AttentionDataType::Bf16 => 2,
        }
    }

    #[must_use]
    pub fn element_bytes(self) -> (r: u64)
        ensures
            r == self.width(),
    {
        match self {
            AttentionDataType::F32 => 4,
            AttentionDataType::F16 => 2,
            AttentionDataType::Bf16 => 2,
        }
    }

    /// The tag of the data type on the wire.
    pub open spec fn tag(self) -> u32 {
        match self {
            AttentionDataType::F32 => 1,
            AttentionDataType::F16 => 2,
            AttentionDataType::Bf16 => 3,
        }
    }

    pub fn raw(self) -> (r: u32)
        ensures
            r == self.tag(),
    {
        match self {
            AttentionDataType::F32 => 1,
            AttentionDataType::F16 => 2,
            AttentionDataType::Bf16 => 3,
        }
    }

    /// The data type with a tag.
    pub open spec fn of_tag(tag: u32) -> Option<Self> {
        if tag == 1 {
            Some(AttentionDataType::F32)
        } else if tag == 2 {
            Some(AttentionDataType::F16)
        } else if tag == 3 {
            Some(AttentionDataType::Bf16)
        } else {
            None
        }
    }

    fn from_raw(value: u32) -> (r: Result<Self, AttentionProtocolError>)
        ensures
            match r {
                Ok(data_type) => Self::of_tag(value) == Some(data_type),
                Err(error) => Self::of_tag(value) is None && error
                    == AttentionProtocolError::UnsupportedDataType(value),
            },
    {
        match value {
            1 => Ok(AttentionDataType::F32),
            2 => Ok(AttentionDataType::F16),
            3 => Ok(AttentionDataType::Bf16),
            other => Err(AttentionProtocolError::UnsupportedDataType(other)),
        }
    }
}

#[derive(Debug, Clone, Copy, PartialEq)]
#[allow(inconsistent_fields)]
pub enum AttentionProtocolError {
    InvalidLength { expected: usize, actual: usize },
    InvalidMagic,
    UnsupportedVersion(u16),
    InvalidHeaderLength(u16),
    UnsupportedFlags(u32),
    UnsupportedDataType(u32),
    ZeroDimension,
    InvalidHeadGrouping { query_heads: u32, kv_heads: u32 },
    InvalidCausalLengths { query_len: u32, kv_len: u32 },
    InvalidScale(Float32),
    InvalidDeviceIndex(i32),
    InvalidResourceCount(u32),
    ReservedFieldNonZero,
    SizeOverflow,
}

impl AttentionProtocolError {
    /// The number that the error quotes, where it quotes one that is not an integer.
    pub open spec fn quoted(self) -> Option<Float32> {
        match self {
            AttentionProtocolError::InvalidScale(scale) => Some(scale),
            _ => None,
        }
    }

    pub fn number(self) -> (r: Option<Float32>)
        ensures
            r == self.quoted(),
    {
        match self {
            AttentionProtocolError::InvalidScale(scale) => Some(scale),
            _ => None,
        }
    }

    /// The text of the error, with `number` for the number that it quotes.
    pub open spec fn text(self, number: Seq<char>) -> Seq<char> {
        match self {
            AttentionProtocolError::InvalidLength { expected, actual } => {
                "attention control length mismatch: expected "@
                    + text::decimal(expected as nat) + ", got "@
                    + text::decimal(actual as nat)
            },
            AttentionProtocolError::InvalidMagic => "attention control magic is invalid"@,
            AttentionProtocolError::UnsupportedVersion(version) => {
                "unsupported attention protocol version "@
                    + text::decimal(version as nat)
            },
            AttentionProtocolError::InvalidHeaderLength(length) => {
                "invalid attention header length "@ + text::decimal(length as nat)
            },
            AttentionProtocolError::UnsupportedFlags(flags) => {
                "unsupported attention flags 0x"@ + text::hexadecimal(flags as nat, 8)
            },
            AttentionProtocolError::UnsupportedDataType(tag) => {
                "unsupported attention datatype tag "@ + text::decimal(tag as nat)
            },
            AttentionProtocolError::ZeroDimension => "attention dimensions must be non-zero"@,
            AttentionProtocolError::InvalidHeadGrouping { query_heads, kv_heads } => {
                "invalid attention head grouping: query_heads="@
                    + text::decimal(query_heads as nat) + ", kv_heads="@
                    + text::decimal(kv_heads as nat)
            },
            AttentionProtocolError::InvalidCausalLengths { query_len, kv_len } => {
                "causal attention requires kv_len >= query_len: query_len="@
                    + text::decimal(query_len as nat) + ", kv_len="@
                    + text::decimal(kv_len as nat)
            },
            AttentionProtocolError::InvalidScale(_) => {
                "attention scale must be finite and positive, got "@ + number
            },
            AttentionProtocolError::InvalidDeviceIndex(index) => {
                "attention device index must be non-negative, got "@
                    + text::signed_decimal(index as int)
            },
            AttentionProtocolError::InvalidResourceCount(count) => {
                "invalid attention resource count "@ + text::decimal(count as nat)
            },
            AttentionProtocolError::ReservedFieldNonZero => {
                "reserved attention header field is non-zero"@
            },
            AttentionProtocolError::SizeOverflow => {
                "attention tensor size arithmetic overflow"@
            },
        }
    }

    /// The text of the error. `number` is how the number that it quotes is written: giving a
    /// floating-point number its decimal digits is left to the caller.
    pub fn message(self, number: &str) -> (r: String)
        ensures
            r@ == self.text(number@),
    {
        match self {
            AttentionProtocolError::InvalidLength { expected, actual } => {
                let mut r = "attention control length mismatch: expected ".to_owned();
                text::append_decimal(&mut r, expected as u64);
                r.append(", got ");
                text::append_decimal(&mut r, actual as u64);
                r
            },
            AttentionProtocolError::InvalidMagic => {
                "attention control magic is invalid".to_owned()
            },
            AttentionProtocolError::UnsupportedVersion(version) => {
                let mut r = "unsupported attention protocol version ".to_owned();
                text::append_decimal(&mut r, version as u64);
                r
            },
            AttentionProtocolError::InvalidHeaderLength(length) => {
                let mut r = "invalid attention header length ".to_owned();
                text::append_decimal(&mut r, length as u64);
                r
            },
            AttentionProtocolError::UnsupportedFlags(flags) => {
                let mut r = "unsupported attention flags 0x".to_owned();
                text::append_hexadecimal(&mut r, flags as u64, 8);
                r
            },
            AttentionProtocolError::UnsupportedDataType(tag) => {
                let mut r = "unsupported attention datatype tag ".to_owned();
                text::append_decimal(&mut r, tag as u64);
                r
            },
            AttentionProtocolError::ZeroDimension => {
                "attention dimensions must be non-zero".to_owned()
            },
            AttentionProtocolError::InvalidHeadGrouping { query_heads, kv_heads } => {
                let mut r = "invalid attention head grouping: query_heads=".to_owned();
                text::append_decimal(&mut r, query_heads as u64);
                r.append(", kv_heads=");
                text::append_decimal(&mut r, kv_heads as u64);
                r
            },
            AttentionProtocolError::InvalidCausalLengths { query_len, kv_len } => {
                let mut r = "causal attention requires kv_len >= query_len: query_len=".to_owned();
                text::append_decimal(&mut r, query_len as u64);
                r.append(", kv_len=");
                text::append_decimal(&mut r, kv_len as u64);
                r
            },
            AttentionProtocolError::InvalidScale(_) => {
                let mut r = "attention scale must be finite and positive, got ".to_owned();
                r.append(number);
                r
            },
            AttentionProtocolError::InvalidDeviceIndex(index) => {
                let mut r = "attention device index must be non-negative, got ".to_owned();
                text::append_signed_decimal(&mut r, index);
                r
            },
            AttentionProtocolError::InvalidResourceCount(count) => {
                let mut r = "invalid attention resource count ".to_owned();
                text::append_decimal(&mut r, count as u64);
                r
            },
            AttentionProtocolError::ReservedFieldNonZero => {
                "reserved attention header field is non-zero".to_owned()
            },
            AttentionProtocolError::SizeOverflow => {
                "attention tensor size arithmetic overflow".to_owned()
            },
        }
    }
}

#[derive(Debug, Clone, Copy, PartialEq)]
pub struct AttentionControl {
    pub flags: u32,
    pub data_type: AttentionDataType,
    pub batch: u32,
    pub query_heads: u32,
    pub kv_heads: u32,
    pub query_len: u32,
    pub kv_len: u32,
    pub head_dim: u32,
    pub scale: Float32,
    pub device_index: i32,
}

impl Default for AttentionControl {
    fn default() -> (r: Self)
        ensures
            r == (AttentionControl {
                flags: 0,
                data_type: AttentionDataType::F32,
                batch: 0,
                query_heads: 0,
                kv_heads: 0,
                query_len: 0,
                kv_len: 0,
                head_dim: 0,
                scale: Float32 { bits: 0 },
                device_index: 0,
            }),
    {
        AttentionControl {
            flags: 0,
            data_type: AttentionDataType::F32,
            batch: 0,
            query_heads: 0,
            kv_heads: 0,
            query_len: 0,
            kv_len: 0,
            head_dim: 0,
            scale: Float32 { bits: 0 },
            device_index: 0,
        }
    }
}

impl AttentionControl {
    /// Whether a query position attends only to the positions up to its own.
    pub open spec fn causal(self) -> bool {
        self.flags & FLAG_CAUSAL != 0
    }

    #[must_use]
    pub fn is_causal(self) -> (r: bool)
        ensures
            r == self.causal(),
    {
        self.flags & FLAG_CAUSAL != 0
    }

    /// How many elements the queries, and so the results, hold.
    pub open spec fn query_elements(self) -> int {
        self.batch * self.query_heads * self.query_len * self.head_dim
    }

    /// How many elements the keys, and so the values, hold.
    pub open spec fn kv_elements(self) -> int {
        self.batch * self.kv_heads * self.kv_len * self.head_dim
    }

    /// Whether every size along the way can be counted.
    pub open spec fn sizes_fit(self) -> bool {
        &&& self.batch * self.query_heads * self.query_len <= u64::MAX
        &&& self.batch * self.kv_heads * self.kv_len <= u64::MAX
        &&& self.query_elements() * self.data_type.width() <= u64::MAX
        &&& self.kv_elements() * self.data_type.width() <= u64::MAX
    }

    /// What is wrong with the control.
    pub open spec fn defect(self) -> Option<AttentionProtocolError> {
        if self.flags & !1u32 != 0 {
            Some(AttentionProtocolError::UnsupportedFlags(self.flags))
        } else if self.batch == 0 || self.query_heads == 0 || self.kv_heads == 0 || self.query_len
            == 0 || self.kv_len == 0 || self.head_dim == 0 {
            Some(AttentionProtocolError::ZeroDimension)
        } else if self.kv_heads > self.query_heads || self.query_heads % self.kv_heads != 0 {
            Some(
                AttentionProtocolError::InvalidHeadGrouping {
                    query_heads: self.query_heads,
                    kv_heads: self.kv_heads,
                },
            )
        } else if self.causal() && self.kv_len < self.query_len {
            Some(
                AttentionProtocolError::InvalidCausalLengths {
                    query_len: self.query_len,
                    kv_len: self.kv_len,
                },
            )
        } else if !self.scale.is_positive() {
            Some(AttentionProtocolError::InvalidScale(self.scale))
        } else if self.device_index < 0 {
            Some(AttentionProtocolError::InvalidDeviceIndex(self.device_index))
        } else if !self.sizes_fit() {
            Some(AttentionProtocolError::SizeOverflow)
        } else {
            None
        }
    }

    pub fn validate(self) -> (r: Result<(), AttentionProtocolError>)
        ensures
            match r {
                Ok(_) => self.defect() is None,
                Err(error) => self.defect() == Some(error),
            },
    {
        if self.flags & !KNOWN_FLAGS != 0 {
            return Err(AttentionProtocolError::UnsupportedFlags(self.flags));
        }
        if self.batch == 0 || self.query_heads == 0 || self.kv_heads == 0 || self.query_len == 0
            || self.kv_len == 0 || self.head_dim == 0 {
            return Err(AttentionProtocolError::ZeroDimension);
        }
        if self.kv_heads > self.query_heads || self.query_heads % self.kv_heads != 0 {
            return Err(
                AttentionProtocolError::InvalidHeadGrouping {
                    query_heads: self.query_heads,
                    kv_heads: self.kv_heads,
                },
            );
        }
        if self.is_causal() && self.kv_len < self.query_len {
            return Err(
                AttentionProtocolError::InvalidCausalLengths {
                    query_len: self.query_len,
                    kv_len: self.kv_len,
                },
            );
        }
        if !self.scale.is_finite_positive() {
            return Err(AttentionProtocolError::InvalidScale(self.scale));
        }
        if self.device_index < 0 {
            return Err(AttentionProtocolError::InvalidDeviceIndex(self.device_index));
        }
        match expected_resource_lengths(self) {
            Ok(_) => Ok(()),
            Err(error) => Err(error),
        }
    }
}

/// The product of four factors, where the products along the way and the bytes can be counted.
fn tensor_bytes(a: u32, b: u32, c: u32, d: u32, width: u64) -> (r: Result<
    u64,
    AttentionProtocolError,
>)
    requires
        width >= 1,
    ensures
        match r {
            Ok(length) => length == a * b * c * d * width && a * b * c <= u64::MAX,
            Err(error) => (a * b * c > u64::MAX || a * b * c * d * width > u64::MAX) && error
                == AttentionProtocolError::SizeOverflow,
        },
{
    proof {
        lemma_small_product(a, b);
        if a * b * c * d > u64::MAX {
            lemma_wider(a * b * c * d, width as int);
        }
    }
    let mut product: u64 = a as u64 * b as u64;
    product = match product.checked_mul(c as u64) {
        Some(value) => value,
        None => {
            return Err(AttentionProtocolError::SizeOverflow);
        },
    };
    product = match product.checked_mul(d as u64) {
        Some(value) => value,
        None => {
            return Err(AttentionProtocolError::SizeOverflow);
        },
    };
    match product.checked_mul(width) {
        Some(value) => Ok(value),
        None => Err(AttentionProtocolError::SizeOverflow),
    }
}

proof fn lemma_wider(product: int, width: int)
    requires
        product >= 0,
        width >= 1,
    ensures
        product * width >= product,
{
    assert(product * width >= product) by (nonlinear_arith)
        requires
            product >= 0,
            width >= 1,
    ;
}

proof fn lemma_small_product(a: u32, b: u32)
    ensures
        0 <= a * b <= u64::MAX,
{
    assert(0 <= a * b <= 0xffff_ffff * 0xffff_ffff) by (nonlinear_arith)
        requires
            0 <= a <= 0xffff_ffff,
            0 <= b <= 0xffff_ffff,
    ;
}

/// The lengths of the queries, keys, values and results in bytes.
pub fn expected_resource_lengths(control: AttentionControl) -> (r: Result<
    [u64; 4],
    AttentionProtocolError,
>)
    ensures
        match r {
            Ok(lengths) => {
                let query_bytes = control.query_elements() * control.data_type.width();
                let kv_bytes = control.kv_elements() * control.data_type.width();
                &&& control.sizes_fit()
                &&& lengths@[Q_RESOURCE_INDEX as int] == query_bytes
                &&& lengths@[K_RESOURCE_INDEX as int] == kv_bytes
                &&& lengths@[V_RESOURCE_INDEX as int] == kv_bytes
                &&& lengths@[O_RESOURCE_INDEX as int] == query_bytes
            },
            Err(error) => !control.sizes_fit() && error == AttentionProtocolError::SizeOverflow,
        },
{
    let width: u64 = control.data_type.element_bytes();
    let q_bytes: u64 = match tensor_bytes(
        control.batch,
        control.query_heads,
        control.query_len,
        control.head_dim,
        width,
    ) {
        Ok(length) => length,
        Err(error) => {
            return Err(error);
        },
    };
    let kv_bytes: u64 = match tensor_bytes(
        control.batch,
        control.kv_heads,
        control.kv_len,
        control.head_dim,
        width,
    ) {
        Ok(length) => length,
        Err(error) => {
            return Err(error);
        },
    };
    Ok([q_bytes, kv_bytes, kv_bytes, q_bytes])
}

/// The message of a control.
pub open spec fn control_message(control: AttentionControl) -> Seq<u8> {
    bytes::le_bytes(ATTENTION_MAGIC as nat, 4) + bytes::le_bytes(
        ATTENTION_PROTOCOL_VERSION as nat,
        2,
    ) + bytes::le_bytes(ATTENTION_HEADER_LEN as nat, 2) + bytes::le_bytes(
        control.flags as nat,
        4,
    ) + bytes::le_bytes(control.data_type.tag() as nat, 4) + bytes::le_bytes(
        control.batch as nat,
        4,
    ) + bytes::le_bytes(control.query_heads as nat, 4) + bytes::le_bytes(
        control.kv_heads as nat,
        4,
    ) + bytes::le_bytes(control.query_len as nat, 4) + bytes::le_bytes(control.kv_len as nat, 4)
        + bytes::le_bytes(control.head_dim as nat, 4) + bytes::le_bytes(
        control.scale.bits as nat,
        4,
    ) + bytes::le_bytes(control.device_index as nat, 4) + bytes::le_bytes(
        ATTENTION_RESOURCE_COUNT as nat,
        4,
    ) + bytes::le_bytes(0, 4) + bytes::le_bytes(0, 8)
}

/// Sixty-four bytes as an array.
fn as_array(bytes: &Vec<u8>) -> (r: [u8; 64])
    requires
        bytes@.len() == 64,
    ensures
        r@ == bytes@,
{
    let mut r: [u8; 64] = [0u8; 64];
    let mut i: usize = 0;
    while i < 64
        invariant
            i <= 64,
            bytes@.len() == 64,
            forall|j: int| 0 <= j < i ==> r@[j] == bytes@[j],
        decreases 64 - i,
    {
        r[i] = bytes[i];
        i = i + 1;
    }
    assert(r@ =~= bytes@);
    r
}

pub fn encode_control(control: AttentionControl) -> (r: Result<
    [u8; 64],
    AttentionProtocolError,
>)
    ensures
        match r {
            Ok(output) => control.defect() is None && output@ == control_message(control),
            Err(error) => control.defect() == Some(error),
        },
{
    match control.validate() {
        Ok(_) => {},
        Err(error) => {
            return Err(error);
        },
    }
    let mut output: Vec<u8> = Vec::with_capacity(ATTENTION_HEADER_LEN);
    bytes::append_u32(&mut output, ATTENTION_MAGIC);
    bytes::append_u16(&mut output, ATTENTION_PROTOCOL_VERSION);
    bytes::append_u16(&mut output, ATTENTION_HEADER_LEN as u16);
    bytes::append_u32(&mut output, control.flags);
    bytes::append_u32(&mut output, control.data_type.raw());
    bytes::append_u32(&mut output, control.batch);
    bytes::append_u32(&mut output, control.query_heads);
    bytes::append_u32(&mut output, control.kv_heads);
    bytes::append_u32(&mut output, control.query_len);
    bytes::append_u32(&mut output, control.kv_len);
    bytes::append_u32(&mut output, control.head_dim);
    bytes::append_u32(&mut output, control.scale.bits);
    bytes::append_u32(&mut output, control.device_index as u32);
    bytes::append_u32(&mut output, ATTENTION_RESOURCE_COUNT);
    bytes::append_u32(&mut output, 0);
    bytes::append_u64(&mut output, 0);
    proof {
        assert(Seq::<u8>::empty() + bytes::le_bytes(ATTENTION_MAGIC as nat, 4)
            =~= bytes::le_bytes(ATTENTION_MAGIC as nat, 4));
        assert(output@ == control_message(control));
        lemma_message_fields(control);
    }
    Ok(as_array(&output))
}

/// What the fields of a message say, but for the data type, which is there as a tag.
pub open spec fn control_fields(input: Seq<u8>) -> AttentionControl {
    AttentionControl {
        flags: bytes::field(input, 8, 4) as u32,
        data_type: AttentionDataType::of_tag(bytes::field(input, 12, 4) as u32)->0,
        batch: bytes::field(input, 16, 4) as u32,
        query_heads: bytes::field(input, 20, 4) as u32,
        kv_heads: bytes::field(input, 24, 4) as u32,
        query_len: bytes::field(input, 28, 4) as u32,
        kv_len: bytes::field(input, 32, 4) as u32,
        head_dim: bytes::field(input, 36, 4) as u32,
        scale: Float32 { bits: bytes::field(input, 40, 4) as u32 },
        device_index: bytes::signed(bytes::field(input, 44, 4)) as i32,
    }
}

/// What is wrong with a message.
pub open spec fn message_defect(input: Seq<u8>) -> Option<AttentionProtocolError> {
    let version = bytes::field(input, 4, 2) as u16;
    let stated = bytes::field(input, 6, 2) as u16;
    let tag = bytes::field(input, 12, 4) as u32;
    let count = bytes::field(input, 48, 4) as u32;
    if input.len() != ATTENTION_HEADER_LEN {
        Some(
            AttentionProtocolError::InvalidLength {
                expected: ATTENTION_HEADER_LEN,
                actual: input.len() as usize,
            },
        )
    } else if bytes::field(input, 0, 4) != ATTENTION_MAGIC {
        Some(AttentionProtocolError::InvalidMagic)
    } else if version != ATTENTION_PROTOCOL_VERSION {
        Some(AttentionProtocolError::UnsupportedVersion(version))
    } else if stated != ATTENTION_HEADER_LEN {
        Some(AttentionProtocolError::InvalidHeaderLength(stated))
    } else if count != ATTENTION_RESOURCE_COUNT {
        Some(AttentionProtocolError::InvalidResourceCount(count))
    } else if bytes::field(input, 52, 4) != 0 || bytes::field(input, 56, 8) != 0 {
        Some(AttentionProtocolError::ReservedFieldNonZero)
    } else if AttentionDataType::of_tag(tag) is None {
        Some(AttentionProtocolError::UnsupportedDataType(tag))
    } else {
        control_fields(input).defect()
    }
}

pub fn decode_control(input: &[u8]) -> (r: Result<AttentionControl, AttentionProtocolError>)
    ensures
        match r {
            Ok(control) => message_defect(input@) is None && control == control_fields(input@),
            Err(error) => message_defect(input@) == Some(error),
        },
{
    if input.len() != ATTENTION_HEADER_LEN {
        return Err(
            AttentionProtocolError::InvalidLength {
                expected: ATTENTION_HEADER_LEN,
                actual: input.len(),
            },
        );
    }
    if bytes::read_u32(input, 0) != ATTENTION_MAGIC {
        return Err(AttentionProtocolError::InvalidMagic);
    }
    let version: u16 = bytes::read_u16(input, 4);
    if version != ATTENTION_PROTOCOL_VERSION {
        return Err(AttentionProtocolError::UnsupportedVersion(version));
    }
    let stated: u16 = bytes::read_u16(input, 6);
    if stated as usize != ATTENTION_HEADER_LEN {
        return Err(AttentionProtocolError::InvalidHeaderLength(stated));
    }
    let count: u32 = bytes::read_u32(input, 48);
    if count != ATTENTION_RESOURCE_COUNT {
        return Err(AttentionProtocolError::InvalidResourceCount(count));
    }
    if bytes::read_u32(input, 52) != 0 || bytes::read_u64(input, 56) != 0 {
        return Err(AttentionProtocolError::ReservedFieldNonZero);
    }
    let data_type = match AttentionDataType::from_raw(bytes::read_u32(input, 12)) {
        Ok(data_type) => data_type,
        Err(error) => {
            return Err(error);
        },
    };
    let control = AttentionControl {
        flags: bytes::read_u32(input, 8),
        data_type,
        batch: bytes::read_u32(input, 16),
        query_heads: bytes::read_u32(input, 20),
        kv_heads: bytes::read_u32(input, 24),
        query_len: bytes::read_u32(input, 28),
        kv_len: bytes::read_u32(input, 32),
        head_dim: bytes::read_u32(input, 36),
        scale: Float32 { bits: bytes::read_u32(input, 40) },
        device_index: bytes::as_signed(bytes::read_u32(input, 44)),
    };
    match control.validate() {
        Ok(_) => Ok(control),
        Err(error) => Err(error),
    }
}

/// The fields of a message, each where it stands.
proof fn lemma_message_fields(control: AttentionControl)
    requires
        control.device_index >= 0,
    ensures
        ({
            let all = control_message(control);
            &&& all.len() == ATTENTION_HEADER_LEN
            &&& bytes::field(all, 0, 4) == ATTENTION_MAGIC
            &&& bytes::field(all, 4, 2) == ATTENTION_PROTOCOL_VERSION
            &&& bytes::field(all, 6, 2) == ATTENTION_HEADER_LEN
            &&& bytes::field(all, 8, 4) == control.flags
            &&& bytes::field(all, 12, 4) == control.data_type.tag()
            &&& bytes::field(all, 16, 4) == control.batch
            &&& bytes::field(all, 20, 4) == control.query_heads
            &&& bytes::field(all, 24, 4) == control.kv_heads
            &&& bytes::field(all, 28, 4) == control.query_len
            &&& bytes::field(all, 32, 4) == control.kv_len
            &&& bytes::field(all, 36, 4) == control.head_dim
            &&& bytes::field(all, 40, 4) == control.scale.bits
            &&& bytes::field(all, 44, 4) == control.device_index
            &&& bytes::field(all, 48, 4) == ATTENTION_RESOURCE_COUNT
            &&& bytes::field(all, 52, 4) == 0
            &&& bytes::field(all, 56, 8) == 0
        }),
{
    bytes::lemma_byte_ranges();
    let device = control.device_index as nat;
    let p0 = bytes::le_bytes(ATTENTION_MAGIC as nat, 4);
    let p1 = bytes::le_bytes(ATTENTION_PROTOCOL_VERSION as nat, 2);
    let p2 = bytes::le_bytes(ATTENTION_HEADER_LEN as nat, 2);
    let p3 = bytes::le_bytes(control.flags as nat, 4);
    let p4 = bytes::le_bytes(control.data_type.tag() as nat, 4);
    let p5 = bytes::le_bytes(control.batch as nat, 4);
    let p6 = bytes::le_bytes(control.query_heads as nat, 4);
    let p7 = bytes::le_bytes(control.kv_heads as nat, 4);
    let p8 = bytes::le_bytes(control.query_len as nat, 4);
    let p9 = bytes::le_bytes(control.kv_len as nat, 4);
    let p10 = bytes::le_bytes(control.head_dim as nat, 4);
    let p11 = bytes::le_bytes(control.scale.bits as nat, 4);
    let p12 = bytes::le_bytes(device, 4);
    let p13 = bytes::le_bytes(ATTENTION_RESOURCE_COUNT as nat, 4);
    let p14 = bytes::le_bytes(0, 4);
    let p15 = bytes::le_bytes(0, 8);
    let none = Seq::<u8>::empty();
    let t14 = p15;
    let t13 = p14 + t14;
    let t12 = p13 + t13;
    let t11 = p12 + t12;
    let t10 = p11 + t11;
    let t9 = p10 + t10;
    let t8 = p9 + t9;
    let t7 = p8 + t8;
    let t6 = p7 + t7;
    let t5 = p6 + t6;
    let t4 = p5 + t5;
    let t3 = p4 + t4;
    let t2 = p3 + t3;
    let t1 = p2 + t2;
    let t0 = p1 + t1;
    let h1 = p0 + p1;
    let h2 = h1 + p2;
    let h3 = h2 + p3;
    let h4 = h3 + p4;
    let h5 = h4 + p5;
    let h6 = h5 + p6;
    let h7 = h6 + p7;
    let h8 = h7 + p8;
    let h9 = h8 + p9;
    let h10 = h9 + p10;
    let h11 = h10 + p11;
    let h12 = h11 + p12;
    let h13 = h12 + p13;
    let h14 = h13 + p14;
    let all = control_message(control);
    bytes::lemma_field_behind(none, ATTENTION_MAGIC as nat, 4, t0);
    bytes::lemma_field_behind(p0, ATTENTION_PROTOCOL_VERSION as nat, 2, t1);
    bytes::lemma_field_behind(h1, ATTENTION_HEADER_LEN as nat, 2, t2);
    bytes::lemma_field_behind(h2, control.flags as nat, 4, t3);
    bytes::lemma_field_behind(h3, control.data_type.tag() as nat, 4, t4);
    bytes::lemma_field_behind(h4, control.batch as nat, 4, t5);
    bytes::lemma_field_behind(h5, control.query_heads as nat, 4, t6);
    bytes::lemma_field_behind(h6, control.kv_heads as nat, 4, t7);
    bytes::lemma_field_behind(h7, control.query_len as nat, 4, t8);
    bytes::lemma_field_behind(h8, control.kv_len as nat, 4, t9);
    bytes::lemma_field_behind(h9, control.head_dim as nat, 4, t10);
    bytes::lemma_field_behind(h10, control.scale.bits as nat, 4, t11);
    bytes::lemma_field_behind(h11, device, 4, t12);
    bytes::lemma_field_behind(h12, ATTENTION_RESOURCE_COUNT as nat, 4, t13);
    bytes::lemma_field_behind(h13, 0, 4, t14);
    bytes::lemma_field_behind(h14, 0, 8, none);
    bytes::lemma_concat(none, p0, t0);
    bytes::lemma_concat(p0, p1, t1);
    bytes::lemma_concat(h1, p2, t2);
    bytes::lemma_concat(h2, p3, t3);
    bytes::lemma_concat(h3, p4, t4);
    bytes::lemma_concat(h4, p5, t5);
    bytes::lemma_concat(h5, p6, t6);
    bytes::lemma_concat(h6, p7, t7);
    bytes::lemma_concat(h7, p8, t8);
    bytes::lemma_concat(h8, p9, t9);
    bytes::lemma_concat(h9, p10, t10);
    bytes::lemma_concat(h10, p11, t11);
    bytes::lemma_concat(h11, p12, t12);
    bytes::lemma_concat(h12, p13, t13);
    bytes::lemma_concat(h13, p14, t14);
    bytes::lemma_concat(h14, p15, none);
    assert(p15 + none =~= p15);
    assert(none + p0 =~= p0);
}

/// A control that was written is the control that is read.
pub proof fn a_control_is_read_as_written(control: AttentionControl)
    requires
        control.defect() is None,
    ensures
        control_message(control).len() == ATTENTION_HEADER_LEN,
        message_defect(control_message(control)) is None,
        control_fields(control_message(control)) == control,
{
    lemma_message_fields(control);
}

/// A control that can be read is the one that its message was written from: the format has no
/// second way to say the same.
pub proof fn a_message_is_written_as_read(input: Seq<u8>)
    requires
        message_defect(input) is None,
    ensures
        control_message(control_fields(input)) == input,
{
    lemma_field_ranges(input);
    lemma_message_fields(control_fields(input));
    lemma_fields_are_everything(input, control_message(control_fields(input)));
}

/// No field is larger than its bytes allow.
proof fn lemma_field_ranges(input: Seq<u8>)
    requires
        input.len() == 64,
    ensures
        bytes::field(input, 4, 2) <= u16::MAX,
        bytes::field(input, 6, 2) <= u16::MAX,
        forall|offset: int|
            0 <= offset <= 60 ==> #[trigger] bytes::field(input, offset, 4) <= u32::MAX,
{
    bytes::lemma_byte_ranges();
    bytes::writing_gives_back_what_was_read(input.subrange(4, 6));
    bytes::writing_gives_back_what_was_read(input.subrange(6, 8));
    assert forall|offset: int| 0 <= offset <= 60 implies #[trigger] bytes::field(input, offset, 4)
        <= u32::MAX by {
        bytes::writing_gives_back_what_was_read(input.subrange(offset, offset + 4));
    }
}

/// The fields make up the whole message.
proof fn lemma_fields_are_everything(a: Seq<u8>, b: Seq<u8>)
    requires
        a.len() == 64,
        b.len() == 64,
        bytes::field(a, 4, 2) == bytes::field(b, 4, 2),
        bytes::field(a, 6, 2) == bytes::field(b, 6, 2),
        bytes::field(a, 56, 8) == bytes::field(b, 56, 8),
        bytes::field(a, 0, 4) == bytes::field(b, 0, 4),
        bytes::field(a, 8, 4) == bytes::field(b, 8, 4),
        bytes::field(a, 12, 4) == bytes::field(b, 12, 4),
        bytes::field(a, 16, 4) == bytes::field(b, 16, 4),
        bytes::field(a, 20, 4) == bytes::field(b, 20, 4),
        bytes::field(a, 24, 4) == bytes::field(b, 24, 4),
        bytes::field(a, 28, 4) == bytes::field(b, 28, 4),
        bytes::field(a, 32, 4) == bytes::field(b, 32, 4),
        bytes::field(a, 36, 4) == bytes::field(b, 36, 4),
        bytes::field(a, 40, 4) == bytes::field(b, 40, 4),
        bytes::field(a, 44, 4) == bytes::field(b, 44, 4),
        bytes::field(a, 48, 4) == bytes::field(b, 48, 4),
        bytes::field(a, 52, 4) == bytes::field(b, 52, 4),
    ensures
        a == b,
{
    assert forall|i: int| 0 <= i < 64 implies a[i] == b[i] by {
        let n: int = if 4 <= i < 8 {
            2
        } else if i < 56 {
            4
        } else {
            8
        };
        lemma_same_field(a, b, i - i % n, n, i);
    }
    assert(a =~= b);
}

/// Equal numbers at the same place are equal bytes.
proof fn lemma_same_field(a: Seq<u8>, b: Seq<u8>, offset: int, n: int, i: int)
    requires
        0 <= offset <= i < offset + n <= a.len(),
        a.len() == b.len(),
    ensures
        bytes::field(a, offset, n) == bytes::field(b, offset, n) ==> a[i] == b[i],
{
    let x = a.subrange(offset, offset + n);
    let y = b.subrange(offset, offset + n);
    bytes::writing_gives_back_what_was_read(x);
    bytes::writing_gives_back_what_was_read(y);
    assert(x[i - offset] == a[i]);
    assert(y[i - offset] == b[i]);
}

/// A control is valid if and only if it has no flag but the first, no dimension is zero, the query
/// heads are a multiple of the key heads, causal attention has at least as many keys as queries,
/// the scale is finite and above zero, the device is not negative and all sizes can be counted.
pub proof fn a_valid_control_by_its_fields(control: AttentionControl)
    ensures
        control.defect() is None <==> {
            &&& control.flags <= 1
            &&& control.batch > 0
            &&& control.query_heads > 0
            &&& control.kv_heads > 0
            &&& control.query_len > 0
            &&& control.kv_len > 0
            &&& control.head_dim > 0
            &&& control.query_heads % control.kv_heads == 0
            &&& control.flags == 1 ==> control.query_len <= control.kv_len
            &&& 0 < control.scale.bits < 0x7f80_0000
            &&& control.device_index >= 0
            &&& control.sizes_fit()
        },
        control.flags <= 1 ==> control.causal() == (control.flags == 1),
{
    let flags = control.flags;
    assert((flags & !1u32 == 0) == (flags <= 1)) by (bit_vector);
    assert(flags <= 1 ==> (flags & 1u32 != 0) == (flags == 1)) by (bit_vector);
    if control.kv_heads > control.query_heads && control.query_heads > 0 {
        vstd::arithmetic::div_mod::lemma_small_mod(
            control.query_heads as nat,
            control.kv_heads as nat,
        );
    }
}

/// How large everything is: queries and results go by batch, query head and position, keys and
/// values by batch, key head and position, with one element for each dimension, of four bytes or,
/// in half precision, of two.
pub proof fn the_sizes_of_a_control(control: AttentionControl)
    ensures
        control.query_elements() == control.batch * control.query_heads * control.query_len
            * control.head_dim,
        control.kv_elements() == control.batch * control.kv_heads * control.kv_len
            * control.head_dim,
        control.data_type.width() == if control.data_type == AttentionDataType::F32 {
            4u64
        } else {
            2u64
        },
        control.sizes_fit() <==> {
            &&& control.batch * control.query_heads * control.query_len <= u64::MAX
            &&& control.batch * control.kv_heads * control.kv_len <= u64::MAX
            &&& control.batch * control.query_heads * control.query_len * control.head_dim
                * control.data_type.width() <= u64::MAX
            &&& control.batch * control.kv_heads * control.kv_len * control.head_dim
                * control.data_type.width() <= u64::MAX
        },
{
}

/// A message is in order if and only if it is 64 bytes long, starts with the letters of the
/// protocol, states version one, a header of 64 bytes and four resources, has zeros where nothing
/// is defined and a data type that there is, and its control is valid.
pub proof fn a_message_in_order_byte_by_byte(input: Seq<u8>)
    ensures
        message_defect(input) is None <==> {
            &&& input.len() == 64
            &&& input[0] == 0x56
            &&& input[1] == 0x52
            &&& input[2] == 0x42
            &&& input[3] == 0x41
            &&& bytes::field(input, 4, 2) == 1
            &&& bytes::field(input, 6, 2) == 64
            &&& 1 <= bytes::field(input, 12, 4) <= 3
            &&& bytes::field(input, 48, 4) == 4
            &&& bytes::field(input, 52, 4) == 0
            &&& bytes::field(input, 56, 8) == 0
            &&& control_fields(input).defect() is None
        },
{
    if input.len() == 64 {
        lemma_field_ranges(input);
        bytes::the_lowest_byte_comes_first(input, 0, 4);
        bytes::fields_are_bounded(input, 12);
        bytes::fields_are_bounded(input, 48);
    }
}

/// Where everything stands in a control message.
pub proof fn the_layout_of_a_control(input: Seq<u8>)
    requires
        input.len() == 64,
    ensures
        ({
            let control = control_fields(input);
            &&& control.flags == bytes::field(input, 8, 4)
            &&& bytes::field(input, 12, 4) == 1 ==> control.data_type == AttentionDataType::F32
            &&& bytes::field(input, 12, 4) == 2 ==> control.data_type == AttentionDataType::F16
            &&& bytes::field(input, 12, 4) == 3 ==> control.data_type == AttentionDataType::Bf16
            &&& control.batch == bytes::field(input, 16, 4)
            &&& control.query_heads == bytes::field(input, 20, 4)
            &&& control.kv_heads == bytes::field(input, 24, 4)
            &&& control.query_len == bytes::field(input, 28, 4)
            &&& control.kv_len == bytes::field(input, 32, 4)
            &&& control.head_dim == bytes::field(input, 36, 4)
            &&& control.scale.bits == bytes::field(input, 40, 4)
            &&& bytes::field(input, 44, 4) < 0x8000_0000 ==> control.device_index
                == bytes::field(input, 44, 4)
            &&& bytes::field(input, 44, 4) >= 0x8000_0000 ==> control.device_index
                == bytes::field(input, 44, 4) - 0x1_0000_0000
        }),
{
    lemma_field_ranges(input);
}

/// What is told of a control: each error comes where everything before it is in order, with what
/// the control says.
pub proof fn what_is_wrong_with_a_control(control: AttentionControl)
    ensures
        ({
            let flags = control.flags <= 1;
            let sizes = control.batch > 0 && control.query_heads > 0 && control.kv_heads > 0
                && control.query_len > 0 && control.kv_len > 0 && control.head_dim > 0;
            let grouped = exists|group: int|
                #![trigger control.kv_heads * group]
                group > 0 && control.query_heads == control.kv_heads * group;
            let lengths = control.flags == 0 || control.query_len <= control.kv_len;
            let scale = 0 < control.scale.bits < 0x7f80_0000;
            let error = control.defect();
            &&& !flags ==> error == Some(AttentionProtocolError::UnsupportedFlags(control.flags))
            &&& flags && !sizes ==> error == Some(AttentionProtocolError::ZeroDimension)
            &&& flags && sizes && !grouped ==> error == Some(
                AttentionProtocolError::InvalidHeadGrouping {
                    query_heads: control.query_heads,
                    kv_heads: control.kv_heads,
                },
            )
            &&& flags && sizes && grouped && !lengths ==> error == Some(
                AttentionProtocolError::InvalidCausalLengths {
                    query_len: control.query_len,
                    kv_len: control.kv_len,
                },
            )
            &&& flags && sizes && grouped && lengths && !scale ==> error == Some(
                AttentionProtocolError::InvalidScale(control.scale),
            )
            &&& flags && sizes && grouped && lengths && scale && control.device_index < 0
                ==> error == Some(
                AttentionProtocolError::InvalidDeviceIndex(control.device_index),
            )
            &&& flags && sizes && grouped && lengths && scale && control.device_index >= 0
                && error is Some ==> error == Some(AttentionProtocolError::SizeOverflow)
        }),
{
    let flags = control.flags;
    assert((flags & !1u32 == 0) == (flags <= 1)) by (bit_vector);
    assert(flags <= 1 ==> (flags & 1 != 0) == (flags == 1)) by (bit_vector);
    if control.kv_heads > 0 && control.query_heads > 0 {
        let q = control.query_heads as int;
        let h = control.kv_heads as int;
        if h <= q && q % h == 0 {
            vstd::arithmetic::div_mod::lemma_fundamental_div_mod(q, h);
            let group = q / h;
            assert(group > 0) by (nonlinear_arith)
                requires
                    q == h * group,
                    q > 0,
                    h > 0,
            ;
            assert(control.query_heads == control.kv_heads * group);
        }
        assert forall|group: int|
            #![trigger control.kv_heads * group]
            group > 0 && control.query_heads == control.kv_heads * group implies h <= q && q % h
            == 0 by {
            vstd::arithmetic::div_mod::lemma_mod_multiples_basic(group, h);
            assert(h * group == group * h) by (nonlinear_arith);
            assert(h <= h * group) by (nonlinear_arith)
                requires
                    group > 0,
                    h > 0,
            ;
        }
    }
}

/// What is told of a message: each error comes where everything before it is in order, with what
/// the message says at its place.
pub proof fn what_is_wrong_with_a_message(input: Seq<u8>)
    requires
        input.len() <= usize::MAX,
    ensures
        ({
            let magic = bytes::field(input, 0, 4) == ATTENTION_MAGIC;
            let version = bytes::field(input, 4, 2) as u16;
            let stated = bytes::field(input, 6, 2) as u16;
            let tag = bytes::field(input, 12, 4) as u32;
            let count = bytes::field(input, 48, 4) as u32;
            let zeros = bytes::field(input, 52, 4) == 0 && bytes::field(input, 56, 8) == 0;
            let error = message_defect(input);
            &&& input.len() != 64 ==> error == Some(
                AttentionProtocolError::InvalidLength { expected: 64, actual: input.len() as usize },
            )
            &&& input.len() == 64 ==> {
                &&& !magic ==> error == Some(AttentionProtocolError::InvalidMagic)
                &&& magic && version != 1 ==> error == Some(
                    AttentionProtocolError::UnsupportedVersion(version),
                )
                &&& magic && version == 1 && stated != 64 ==> error == Some(
                    AttentionProtocolError::InvalidHeaderLength(stated),
                )
                &&& magic && version == 1 && stated == 64 && count != 4 ==> error == Some(
                    AttentionProtocolError::InvalidResourceCount(count),
                )
                &&& magic && version == 1 && stated == 64 && count == 4 && !zeros ==> error == Some(
                    AttentionProtocolError::ReservedFieldNonZero,
                )
                &&& magic && version == 1 && stated == 64 && count == 4 && zeros && !(1 <= tag <= 3)
                    ==> error == Some(AttentionProtocolError::UnsupportedDataType(tag))
                &&& magic && version == 1 && stated == 64 && count == 4 && zeros && 1 <= tag <= 3
                    ==> error == control_fields(input).defect()
            }
        }),
{
}

} // verus!
