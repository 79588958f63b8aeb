//! A GPU runtime bridge: backend discovery and routing, shared-resource operators,
//! residency and cache policy, wire protocols and plugin contracts.
//!
//! Every rule of the bridge is stated over plain values and verified. Loading libraries, talking
//! to devices and files, and hardware floating point stay with the programs that use this crate.

pub mod abi;
pub mod attention_protocol;
pub mod attention_reference;
pub mod autotune;
pub mod backend;
pub mod bytes;
pub mod cli;
pub mod cpu;
pub mod exact;
pub mod execution_plan;
pub mod float;
pub mod gemm_protocol;
pub mod gemm_reference;
pub mod gemm_reference_plugin;
pub mod hip;
pub mod hip_shared_gemm_plugin;
pub mod interop;
pub mod kv_cache;
pub mod lru;
pub mod operator_loader;
pub mod operator_plugin_api;
pub mod operators;
pub mod ordered_map;
pub mod performance;
pub mod platform;
pub mod plugin_api;
pub mod plugin_backend;
pub mod residency;
pub mod routing;
pub mod runtime;
pub mod shared_buffer;
pub mod shared_gemm_protocol;
pub mod shared_operator_loader;
pub mod shared_operator_plugin_api;
pub mod shared_operators;
pub mod test_operator_plugin;
pub mod test_plugin;
pub mod test_shared_operator_plugin;
pub mod text;
pub mod vulkan;
