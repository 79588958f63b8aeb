//! The versioned boundary to plugins of operators on shared resources.
//!
//! Native handles are lent for one callback: a plugin neither closes nor keeps nor duplicates
//! them. Pointers stand here as their addresses: zero is the null pointer, and no callback.

use crate::abi;
use crate::abi::StructLayout;
use vstd::prelude::*;

pub mod backend_kind;
pub mod capability;
pub mod memory_handle_kind;
pub mod operator_kind;
pub mod resource_access;
pub mod status;
pub mod sync_handle_kind;

verus! {

pub const VRB_SHARED_OPERATOR_PLUGIN_ABI_VERSION: u32 = 1;

/// "vrb_shared_operator_plugin_entry_v1", ended by a zero byte.
pub const VRB_SHARED_OPERATOR_PLUGIN_ENTRY_SYMBOL: [u8; 36] = [
    0x76, 0x72, 0x62, 0x5f, 0x73, 0x68, 0x61, 0x72, 0x65, 0x64, 0x5f, 0x6f, 0x70, 0x65, 0x72,
    0x61, 0x74, 0x6f, 0x72, 0x5f, 0x70, 0x6c, 0x75, 0x67, 0x69, 0x6e, 0x5f, 0x65, 0x6e, 0x74,
    0x72, 0x79, 0x5f, 0x76, 0x31, 0x00,
];

pub const VRB_SHARED_OPERATOR_NAME_CAPACITY: usize = 128;

pub const VRB_SHARED_OPERATOR_PLUGIN_NAME_CAPACITY: usize = 128;

/// A region of shared memory.
#[derive(Debug, Clone, Copy, PartialEq, Eq)]
pub struct VrbSharedResourceRegionV1 {
    pub struct_size: u32,
    pub handle_kind: u32,
    pub access: u32,
    pub reserved0: u32,
    pub handle: u64,
    pub allocation_size: u64,
    pub offset: u64,
    pub length: u64,
    pub reserved: [u64; 4],
}

impl Default for VrbSharedResourceRegionV1 {
    /// No region yet, under its own size.
    fn default() -> (r: Self)
        ensures
            r.struct_size == resource_region_layout().size(),
            r.handle_kind == 0,
            r.access == 0,
            r.reserved0 == 0,
            r.handle == 0,
            r.allocation_size == 0,
            r.offset == 0,
            r.length == 0,
            forall|i: int| 0 <= i < r.reserved@.len() ==> r.reserved@[i] == 0,
    {
        VrbSharedResourceRegionV1 {
            struct_size: expected_resource_region_struct_size(),
            handle_kind: 0,
            access: 0,
            reserved0: 0,
            handle: 0,
            allocation_size: 0,
            offset: 0,
            length: 0,
            reserved: [0; 4],
        }
    }
}

/// A point to wait for or to signal.
#[derive(Debug, Clone, Copy, PartialEq, Eq)]
pub struct VrbSharedSyncPointV1 {
    pub struct_size: u32,
    pub handle_kind: u32,
    pub handle: u64,
    pub value: u64,
    pub flags: u64,
    pub reserved: [u64; 4],
}

impl Default for VrbSharedSyncPointV1 {
    /// No point yet, under its own size.
    fn default() -> (r: Self)
        ensures
            r.struct_size == sync_point_layout().size(),
            r.handle_kind == 0,
            r.handle == 0,
            r.value == 0,
            r.flags == 0,
            forall|i: int| 0 <= i < r.reserved@.len() ==> r.reserved@[i] == 0,
    {
        VrbSharedSyncPointV1 {
            struct_size: expected_sync_point_struct_size(),
            handle_kind: 0,
            handle: 0,
            value: 0,
            flags: 0,
            reserved: [0; 4],
        }
    }
}

/// What a plugin says of one of its shared operators.
#[derive(Debug, Clone, Copy, PartialEq, Eq)]
pub struct VrbSharedOperatorInfoV1 {
    pub struct_size: u32,
    pub operator_id: u32,
    pub operator_kind: u32,
    pub backend_kind: u32,
    pub capability_bits: u64,
    /// Bit N stands for the memory-handle kind N, below 64.
    pub memory_kind_bits: u64,
    /// Bit N stands for the synchronization-handle kind N, below 64.
    pub sync_kind_bits: u64,
    pub name: [u8; 128],
    pub reserved: [u64; 4],
}

impl Default for VrbSharedOperatorInfoV1 {
    /// Nothing said yet, under its own size.
    fn default() -> (r: Self)
        ensures
            r.struct_size == operator_info_layout().size(),
            r.operator_id == 0,
            r.operator_kind == operator_kind::CUSTOM,
            r.backend_kind == backend_kind::PLUGIN,
            r.capability_bits == 0,
            r.memory_kind_bits == 0,
            r.sync_kind_bits == 0,
            forall|i: int| 0 <= i < r.name@.len() ==> r.name@[i] == 0,
            forall|i: int| 0 <= i < r.reserved@.len() ==> r.reserved@[i] == 0,
    {
        VrbSharedOperatorInfoV1 {
            struct_size: expected_operator_info_struct_size(),
            operator_id: 0,
            operator_kind: operator_kind::CUSTOM,
            backend_kind: backend_kind::PLUGIN,
            capability_bits: 0,
            memory_kind_bits: 0,
            sync_kind_bits: 0,
            name: [0; 128],
            reserved: [0; 4],
        }
    }
}

/// What a shared operator is asked to run.
#[derive(Debug, Clone, Copy, PartialEq, Eq)]
pub struct VrbSharedOperatorExecutionRequestV1 {
    pub struct_size: u32,
    pub operator_id: u32,
    pub flags: u64,
    pub metadata_ptr: usize,
    pub metadata_len: u64,
    pub resources_ptr: usize,
    pub resource_count: u32,
    pub reserved0: u32,
    pub waits_ptr: usize,
    pub wait_count: u32,
    pub reserved1: u32,
    pub signals_ptr: usize,
    pub signal_count: u32,
    pub reserved2: u32,
    pub receipt_ptr: usize,
    pub receipt_capacity: u64,
    pub receipt_len: usize,
    pub reserved: [u64; 4],
}

impl Default for VrbSharedOperatorExecutionRequestV1 {
    /// Nothing asked yet, under its own size.
    fn default() -> (r: Self)
        ensures
            r.struct_size == execution_request_layout().size(),
            r.operator_id == 0,
            r.flags == 0,
            r.metadata_ptr == 0,
            r.metadata_len == 0,
            r.resources_ptr == 0,
            r.resource_count == 0,
            r.reserved0 == 0,
            r.waits_ptr == 0,
            r.wait_count == 0,
            r.reserved1 == 0,
            r.signals_ptr == 0,
            r.signal_count == 0,
            r.reserved2 == 0,
            r.receipt_ptr == 0,
            r.receipt_capacity == 0,
            r.receipt_len == 0,
            forall|i: int| 0 <= i < r.reserved@.len() ==> r.reserved@[i] == 0,
    {
        VrbSharedOperatorExecutionRequestV1 {
            struct_size: expected_execution_request_struct_size(),
            operator_id: 0,
            flags: 0,
            metadata_ptr: 0,
            metadata_len: 0,
            resources_ptr: 0,
            resource_count: 0,
            reserved0: 0,
            waits_ptr: 0,
            wait_count: 0,
            reserved1: 0,
            signals_ptr: 0,
            signal_count: 0,
            reserved2: 0,
            receipt_ptr: 0,
            receipt_capacity: 0,
            receipt_len: 0,
            reserved: [0; 4],
        }
    }
}

/// How a plugin of shared operators describes itself.
#[derive(Debug, Clone, Copy, PartialEq, Eq)]
pub struct VrbSharedOperatorPluginV1 {
    pub abi_version: u32,
    pub struct_size: u32,
    pub name: [u8; 128],
    pub operator_count: u32,
    pub reserved0: u32,
    pub capability_bits: u64,
    pub user_data: usize,
    pub query_operator: usize,
    pub execute: usize,
    pub shutdown: usize,
    pub reserved: [usize; 5],
}

/// The layout of a region.
pub open spec fn resource_region_layout() -> StructLayout {
    StructLayout::empty().with(abi::half()).with(abi::half()).with(abi::half()).with(abi::half())
        .with(abi::word()).with(abi::word()).with(abi::word()).with(abi::word())
        .with(abi::word().times(4))
}

/// The size of a region, in bytes.
#[must_use]
pub fn expected_resource_region_struct_size() -> (r: u32)
    ensures
        r == resource_region_layout().size(),
        abi::is_usual_machine() ==> r == 80,
{
    StructLayout::new().with_half().with_half().with_half().with_half().with_word().with_word()
        .with_word().with_word().with_words(4).size_in_bytes()
}

/// The layout of a point.
pub open spec fn sync_point_layout() -> StructLayout {
    StructLayout::empty().with(abi::half()).with(abi::half()).with(abi::word()).with(abi::word())
        .with(abi::word()).with(abi::word().times(4))
}

/// The size of a point, in bytes.
#[must_use]
pub fn expected_sync_point_struct_size() -> (r: u32)
    ensures
        r == sync_point_layout().size(),
        abi::is_usual_machine() ==> r == 64,
{
    StructLayout::new().with_half().with_half().with_word().with_word().with_word().with_words(4)
        .size_in_bytes()
}

/// The layout of what a plugin says of one of its shared operators.
pub open spec fn operator_info_layout() -> StructLayout {
    StructLayout::empty().with(abi::half()).with(abi::half()).with(abi::half()).with(abi::half())
        .with(abi::word()).with(abi::word()).with(abi::word()).with(abi::characters(128))
        .with(abi::word().times(4))
}

/// The size of what a plugin says of one of its shared operators, in bytes.
#[must_use]
pub fn expected_operator_info_struct_size() -> (r: u32)
    ensures
        r == operator_info_layout().size(),
        abi::is_usual_machine() ==> r == 200,
{
    StructLayout::new().with_half().with_half().with_half().with_half().with_word().with_word()
        .with_word().with_characters(128).with_words(4).size_in_bytes()
}

/// The layout of what a shared operator is asked to run.
pub open spec fn execution_request_layout() -> StructLayout {
    StructLayout::empty().with(abi::half()).with(abi::half()).with(abi::word())
        .with(abi::address()).with(abi::word()).with(abi::address()).with(abi::half())
        .with(abi::half()).with(abi::address()).with(abi::half()).with(abi::half())
        .with(abi::address()).with(abi::half()).with(abi::half()).with(abi::address())
        .with(abi::word()).with(abi::address()).with(abi::word().times(4))
}

/// The size of what a shared operator is asked to run, in bytes.
#[must_use]
pub fn expected_execution_request_struct_size() -> (r: u32)
    ensures
        r == execution_request_layout().size(),
        abi::is_usual_machine() ==> r == 136,
{
    StructLayout::new().with_half().with_half().with_word().with_address().with_word()
        .with_address().with_half().with_half().with_address().with_half().with_half()
        .with_address().with_half().with_half().with_address().with_word().with_address()
        .with_words(4).size_in_bytes()
}

/// The layout of a plugin's description of itself.
pub open spec fn plugin_layout() -> StructLayout {
    StructLayout::empty().with(abi::half()).with(abi::half()).with(abi::characters(128))
        .with(abi::half()).with(abi::half()).with(abi::word()).with(abi::address())
        .with(abi::address()).with(abi::address()).with(abi::address())
        .with(abi::address().times(5))
}

/// The size of a plugin's description of itself, in bytes.
#[must_use]
pub fn expected_plugin_struct_size() -> (r: u32)
    ensures
        r == plugin_layout().size(),
        abi::is_usual_machine() ==> r == 224,
{
    StructLayout::new().with_half().with_half().with_characters(128).with_half().with_half()
        .with_word().with_address().with_address().with_address().with_address().with_addresses(5)
        .size_in_bytes()
}

} // verus!
