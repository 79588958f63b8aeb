//! The versioned boundary to backend plugins.
//!
//! Pointers stand here as their addresses: zero is the null pointer, and no callback.

use crate::abi;
use crate::abi::StructLayout;
use vstd::prelude::*;

pub mod capability;

verus! {

pub const VRB_PLUGIN_ABI_VERSION: u32 = 1;

/// "vrb_plugin_entry_v1", ended by a zero byte.
pub const VRB_PLUGIN_ENTRY_SYMBOL: [u8; 20] = [
    0x76, 0x72, 0x62, 0x5f, 0x70, 0x6c, 0x75, 0x67, 0x69, 0x6e, 0x5f, 0x65, 0x6e, 0x74, 0x72,
    0x79, 0x5f, 0x76, 0x31, 0x00,
];

/// What a callback answers.
#[derive(Debug, Clone, Copy, PartialEq, Eq, Structural)]
pub enum VrbStatus {
    Success,
    InvalidArgument,
    Unsupported,
    Unavailable,
    InternalError,
}

impl VrbStatus {
    /// The number that stands for the status.
    pub open spec fn number(self) -> i32 {
        match self {
            VrbStatus::Success => 0,
            VrbStatus::InvalidArgument => 1,
            VrbStatus::Unsupported => 2,
            VrbStatus::Unavailable => 3,
            VrbStatus::InternalError => 4,
        }
    }

    pub fn raw(self) -> (r: i32)
        ensures
            r == self.number(),
    {
        match self {
            VrbStatus::Success => 0,
            VrbStatus::InvalidArgument => 1,
            VrbStatus::Unsupported => 2,
            VrbStatus::Unavailable => 3,
            VrbStatus::InternalError => 4,
        }
    }

    /// The name of the status.
    pub open spec fn label(self) -> Seq<char> {
        match self {
            VrbStatus::Success => "Ok"@,
            VrbStatus::InvalidArgument => "InvalidArgument"@,
            VrbStatus::Unsupported => "Unsupported"@,
            VrbStatus::Unavailable => "Unavailable"@,
            VrbStatus::InternalError => "InternalError"@,
        }
    }

    pub fn name(self) -> (r: &'static str)
        ensures
            r@ == self.label(),
    {
        match self {
            VrbStatus::Success => "Ok",
            VrbStatus::InvalidArgument => "InvalidArgument",
            VrbStatus::Unsupported => "Unsupported",
            VrbStatus::Unavailable => "Unavailable",
            VrbStatus::InternalError => "InternalError",
        }
    }
}

#[derive(Debug, Clone, Copy, PartialEq, Eq, Structural)]
pub enum VrbBackendKind {
    Cpu,
    Vulkan,
    Hip,
    Hybrid,
    Other,
}

impl VrbBackendKind {
    /// The number that stands for the kind.
    pub open spec fn number(self) -> u32 {
        match self {
            VrbBackendKind::Cpu => 1,
            VrbBackendKind::Vulkan => 2,
            VrbBackendKind::Hip => 3,
            VrbBackendKind::Hybrid => 4,
            VrbBackendKind::Other => 255,
        }
    }

    pub fn raw(self) -> (r: u32)
        ensures
            r == self.number(),
    {
        match self {
            VrbBackendKind::Cpu => 1,
            VrbBackendKind::Vulkan => 2,
            VrbBackendKind::Hip => 3,
            VrbBackendKind::Hybrid => 4,
            VrbBackendKind::Other => 255,
        }
    }
}

/// What a plugin says of its backend.
#[derive(Debug, Clone, Copy, PartialEq, Eq)]
pub struct VrbBackendInfoV1 {
    pub struct_size: u32,
    pub backend_kind: VrbBackendKind,
    pub capability_bits: u64,
    pub device_count: u32,
    pub reserved: u32,
    pub name: [u8; 128],
    pub vendor: [u8; 64],
}

impl Default for VrbBackendInfoV1 {
    /// Nothing said yet, under its own size.
    fn default() -> (r: Self)
        ensures
            r.struct_size == backend_info_layout().size(),
            r.backend_kind == VrbBackendKind::Other,
            r.capability_bits == 0,
            r.device_count == 0,
            r.reserved == 0,
            forall|i: int| 0 <= i < r.name@.len() ==> r.name@[i] == 0,
            forall|i: int| 0 <= i < r.vendor@.len() ==> r.vendor@[i] == 0,
    {
        VrbBackendInfoV1 {
            struct_size: expected_backend_info_struct_size(),
            backend_kind: VrbBackendKind::Other,
            capability_bits: 0,
            device_count: 0,
            reserved: 0,
            name: [0; 128],
            vendor: [0; 64],
        }
    }
}

/// What a plugin is asked to run.
#[derive(Debug, Clone, Copy, PartialEq, Eq, Structural)]
pub struct VrbExecutionRequestV1 {
    pub struct_size: u32,
    pub operation: u32,
    pub data_type: u32,
    pub flags: u64,
    pub element_count: u64,
    pub input_handle: u64,
    pub output_handle: u64,
    pub opaque: u64,
}

impl Default for VrbExecutionRequestV1 {
    /// All zero.
    fn default() -> (r: Self)
        ensures
            r.struct_size == 0,
            r.operation == 0,
            r.data_type == 0,
            r.flags == 0,
            r.element_count == 0,
            r.input_handle == 0,
            r.output_handle == 0,
            r.opaque == 0,
    {
        VrbExecutionRequestV1 {
            struct_size: 0,
            operation: 0,
            data_type: 0,
            flags: 0,
            element_count: 0,
            input_handle: 0,
            output_handle: 0,
            opaque: 0,
        }
    }
}

/// How a plugin describes itself.
#[derive(Debug, Clone, Copy, PartialEq, Eq, Structural)]
pub struct VrbPluginV1 {
    pub abi_version: u32,
    pub struct_size: u32,
    /// The address of a name that a zero byte ends.
    pub name: usize,
    pub backend_kind: VrbBackendKind,
    pub capability_bits: u64,
    pub user_data: usize,
    pub probe: usize,
    pub execute: usize,
    pub shutdown: usize,
}

/// The layout of a plugin's description of itself.
pub open spec fn plugin_layout() -> StructLayout {
    StructLayout::empty().with(abi::half()).with(abi::half()).with(abi::address())
        .with(abi::half()).with(abi::word()).with(abi::address()).with(abi::address())
        .with(abi::address()).with(abi::address())
}

/// The size of a plugin's description of itself, in bytes.
#[must_use]
pub fn expected_plugin_struct_size() -> (r: u32)
    ensures
        r == plugin_layout().size(),
        abi::is_usual_machine() ==> r == 64,
{
    StructLayout::new().with_half().with_half().with_address().with_half().with_word()
        .with_address().with_address().with_address().with_address().size_in_bytes()
}

/// The layout of what a plugin says of its backend.
pub open spec fn backend_info_layout() -> StructLayout {
    StructLayout::empty().with(abi::half()).with(abi::half()).with(abi::word()).with(abi::half())
        .with(abi::half()).with(abi::characters(128)).with(abi::characters(64))
}

/// The size of what a plugin says of its backend, in bytes.
#[must_use]
pub fn expected_backend_info_struct_size() -> (r: u32)
    ensures
        r == backend_info_layout().size(),
        abi::is_usual_machine() ==> r == 216,
{
    StructLayout::new().with_half().with_half().with_word().with_half().with_half()
        .with_characters(128).with_characters(64).size_in_bytes()
}

/// The layout of what a plugin is asked to run.
pub open spec fn execution_request_layout() -> StructLayout {
    StructLayout::empty().with(abi::half()).with(abi::half()).with(abi::half()).with(abi::word())
        .with(abi::word()).with(abi::word()).with(abi::word()).with(abi::word())
}

/// The size of what a plugin is asked to run, in bytes.
#[must_use]
pub fn expected_execution_request_struct_size() -> (r: u32)
    ensures
        r == execution_request_layout().size(),
        abi::is_usual_machine() ==> r == 56,
{
    StructLayout::new().with_half().with_half().with_half().with_word().with_word().with_word()
        .with_word().with_word().size_in_bytes()
}

} // verus!
