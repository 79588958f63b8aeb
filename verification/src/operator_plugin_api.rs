//! The versioned boundary to operator plugins.
//!
//! Tags are plain numbers, so that a plugin made for a later contract cannot hand over a value
//! that an earlier host has no name for. Pointers stand here as their addresses: zero is the null
//! pointer, and no callback.

use crate::abi;
use crate::abi::StructLayout;
use vstd::prelude::*;

pub mod backend_kind;
pub mod capability;
pub mod operator_kind;
pub mod status;

verus! {

pub const VRB_OPERATOR_PLUGIN_ABI_VERSION: u32 = 1;

/// "vrb_operator_plugin_entry_v1", ended by a zero byte.
pub const VRB_OPERATOR_PLUGIN_ENTRY_SYMBOL: [u8; 29] = [
    0x76, 0x72, 0x62, 0x5f, 0x6f, 0x70, 0x65, 0x72, 0x61, 0x74, 0x6f, 0x72, 0x5f, 0x70, 0x6c,
    0x75, 0x67, 0x69, 0x6e, 0x5f, 0x65, 0x6e, 0x74, 0x72, 0x79, 0x5f, 0x76, 0x31, 0x00,
];

pub const VRB_OPERATOR_NAME_CAPACITY: usize = 128;

pub const VRB_OPERATOR_PLUGIN_NAME_CAPACITY: usize = 128;

/// What a plugin says of one of its operators.
#[derive(Debug, Clone, Copy, PartialEq, Eq)]
pub struct VrbOperatorInfoV1 {
    pub struct_size: u32,
    pub operator_id: u32,
    pub operator_kind: u32,
    pub backend_kind: u32,
    pub capability_bits: u64,
    pub name: [u8; 128],
    pub reserved: [u64; 4],
}

impl Default for VrbOperatorInfoV1 {
    /// Nothing said yet, under its own size.
    fn default() -> (r: Self)
        ensures
            r.struct_size == operator_info_layout().size(),
            r.operator_id == 0,
            r.operator_kind == operator_kind::CUSTOM,
            r.backend_kind == backend_kind::PLUGIN,
            r.capability_bits == 0,
            forall|i: int| 0 <= i < r.name@.len() ==> r.name@[i] == 0,
            forall|i: int| 0 <= i < r.reserved@.len() ==> r.reserved@[i] == 0,
    {
        VrbOperatorInfoV1 {
            struct_size: expected_operator_info_struct_size(),
            operator_id: 0,
            operator_kind: operator_kind::CUSTOM,
            backend_kind: backend_kind::PLUGIN,
            capability_bits: 0,
            name: [0; 128],
            reserved: [0; 4],
        }
    }
}

/// What an operator is asked to run.
#[derive(Debug, Clone, Copy, PartialEq, Eq)]
pub struct VrbOperatorExecutionRequestV1 {
    pub struct_size: u32,
    pub operator_id: u32,
    pub flags: u64,
    pub input_ptr: usize,
    pub input_len: u64,
    pub output_ptr: usize,
    pub output_capacity: u64,
    pub output_len: usize,
    pub opaque: [u64; 4],
}

impl Default for VrbOperatorExecutionRequestV1 {
    /// Nothing asked yet, under its own size.
    fn default() -> (r: Self)
        ensures
            r.struct_size == execution_request_layout().size(),
            r.operator_id == 0,
            r.flags == 0,
            r.input_ptr == 0,
            r.input_len == 0,
            r.output_ptr == 0,
            r.output_capacity == 0,
            r.output_len == 0,
            forall|i: int| 0 <= i < r.opaque@.len() ==> r.opaque@[i] == 0,
    {
        VrbOperatorExecutionRequestV1 {
            struct_size: expected_execution_request_struct_size(),
            operator_id: 0,
            flags: 0,
            input_ptr: 0,
            input_len: 0,
            output_ptr: 0,
            output_capacity: 0,
            output_len: 0,
            opaque: [0; 4],
        }
    }
}

/// How an operator plugin describes itself.
#[derive(Debug, Clone, Copy, PartialEq, Eq)]
pub struct VrbOperatorPluginV1 {
    pub abi_version: u32,
    pub struct_size: u32,
    pub name: [u8; 128],
    pub operator_count: u32,
    pub reserved0: u32,
    pub capability_bits: u64,
    pub user_data: usize,
    pub query_operator: usize,
    pub output_size: usize,
    pub execute: usize,
    pub shutdown: usize,
    pub reserved: [usize; 4],
}

/// The layout of what a plugin says of one of its operators.
pub open spec fn operator_info_layout() -> StructLayout {
    StructLayout::empty().with(abi::half()).with(abi::half()).with(abi::half()).with(abi::half())
        .with(abi::word()).with(abi::characters(128)).with(abi::word().times(4))
}

/// The size of what a plugin says of one of its operators, in bytes.
#[must_use]
pub fn expected_operator_info_struct_size() -> (r: u32)
    ensures
        r == operator_info_layout().size(),
        abi::is_usual_machine() ==> r == 184,
{
    StructLayout::new().with_half().with_half().with_half().with_half().with_word()
        .with_characters(128).with_words(4).size_in_bytes()
}

/// The layout of what an operator is asked to run.
pub open spec fn execution_request_layout() -> StructLayout {
    StructLayout::empty().with(abi::half()).with(abi::half()).with(abi::word())
        .with(abi::address()).with(abi::word()).with(abi::address()).with(abi::word())
        .with(abi::address()).with(abi::word().times(4))
}

/// The size of what an operator is asked to run, in bytes.
#[must_use]
pub fn expected_execution_request_struct_size() -> (r: u32)
    ensures
        r == execution_request_layout().size(),
        abi::is_usual_machine() ==> r == 88,
{
    StructLayout::new().with_half().with_half().with_word().with_address().with_word()
        .with_address().with_word().with_address().with_words(4).size_in_bytes()
}

/// The layout of an operator plugin's description of itself.
pub open spec fn operator_plugin_layout() -> StructLayout {
    StructLayout::empty().with(abi::half()).with(abi::half()).with(abi::characters(128))
        .with(abi::half()).with(abi::half()).with(abi::word()).with(abi::address())
        .with(abi::address()).with(abi::address()).with(abi::address()).with(abi::address())
        .with(abi::address().times(4))
}

/// The size of an operator plugin's description of itself, in bytes.
#[must_use]
pub fn expected_operator_plugin_struct_size() -> (r: u32)
    ensures
        r == operator_plugin_layout().size(),
        abi::is_usual_machine() ==> r == 224,
{
    StructLayout::new().with_half().with_half().with_characters(128).with_half().with_half()
        .with_word().with_address().with_address().with_address().with_address().with_address()
        .with_addresses(4).size_in_bytes()
}

} // verus!
