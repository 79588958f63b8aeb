//! Loading operator plugins: what a host accepts of a plugin, and what it makes of the answers to
//! its calls.
//!
//! The calls themselves are made elsewhere. Each answer comes back here as a plain value.

use crate::abi;
use crate::backend::BackendKind;
use crate::operator_plugin_api;
use crate::operator_plugin_api::{
    backend_kind, expected_execution_request_struct_size, expected_operator_info_struct_size,
    expected_operator_plugin_struct_size, operator_kind, status, VrbOperatorExecutionRequestV1,
    VrbOperatorInfoV1, VrbOperatorPluginV1, VRB_OPERATOR_PLUGIN_ABI_VERSION,
};
use crate::operators;
use crate::operators::{
    Operator, OperatorCapabilities, OperatorError, OperatorKind, OperatorOutput, OperatorRegistry,
    OperatorSelectionPolicy,
};
use crate::ordered_map;
use crate::text;
use std::sync::Arc;
use vstd::prelude::*;
use vstd::string::*;

verus! {

const DEFAULT_MAX_OPERATORS: u32 = 4096;

const DEFAULT_MAX_OUTPUT_BYTES: u64 = 1073741824;

/// What a host is ready to take from a plugin.
#[derive(Debug, Clone, Copy, PartialEq, Eq, Structural)]
pub struct OperatorPluginLoadPolicy {
    pub max_operators: u32,
    pub max_output_bytes: u64,
}

impl Default for OperatorPluginLoadPolicy {
    /// 4096 operators, and outputs of 1 GiB.
    fn default() -> (r: Self)
        ensures
            r.max_operators == 4096,
            r.max_output_bytes == 1073741824,
    {
        OperatorPluginLoadPolicy {
            max_operators: DEFAULT_MAX_OPERATORS,
            max_output_bytes: DEFAULT_MAX_OUTPUT_BYTES,
        }
    }
}

/// Why a plugin is not loaded.
#[derive(Debug, PartialEq, Eq)]
pub enum OperatorPluginLoadError {
    Load { path: String, source: String },
    MissingEntry(String),
    NullDescriptor,
    AbiVersion { actual: u32, expected: u32 },
    DescriptorTooSmall { actual: u32, expected: u32 },
    EmptyPluginName,
    NoOperators,
    TooManyOperators { actual: u32, maximum: u32 },
    MissingQueryOperator,
    MissingOutputSize,
    MissingExecute,
    QueryStatus { index: u32, status: i32 },
    OperatorDescriptorTooSmall { index: u32, actual: u32, expected: u32 },
    EmptyOperatorName { index: u32 },
    DuplicateOperatorId(u32),
    Poisoned,
}

impl OperatorPluginLoadError {
    /// The text of the error.
    pub open spec fn text(&self) -> Seq<char> {
        match self {
            OperatorPluginLoadError::Load { path, source } => {
                "unable to load operator plugin '"@ + path@ + "': "@ + source@
            },
            OperatorPluginLoadError::MissingEntry(value) => {
                "operator plugin entry symbol is missing: "@ + value@
            },
            OperatorPluginLoadError::NullDescriptor => {
                "operator plugin entry returned a null descriptor"@
            },
            OperatorPluginLoadError::AbiVersion { actual, expected } => {
                "operator plugin ABI version "@ + text::decimal(*actual as nat)
                    + " is incompatible with host ABI "@ + text::decimal(*expected as nat)
            },
            OperatorPluginLoadError::DescriptorTooSmall { actual, expected } => {
                "operator plugin descriptor is too small: "@ + text::decimal(*actual as nat)
                    + " bytes, expected at least "@ + text::decimal(*expected as nat)
            },
            OperatorPluginLoadError::EmptyPluginName => "operator plugin name is empty"@,
            OperatorPluginLoadError::NoOperators => "operator plugin declares no operators"@,
            OperatorPluginLoadError::TooManyOperators { actual, maximum } => {
                "operator plugin declares "@ + text::decimal(*actual as nat)
                    + " operators, exceeding host limit "@ + text::decimal(*maximum as nat)
            },
            OperatorPluginLoadError::MissingQueryOperator => {
                "operator plugin query callback is missing"@
            },
            OperatorPluginLoadError::MissingOutputSize => {
                "operator plugin output-size callback is missing"@
            },
            OperatorPluginLoadError::MissingExecute => {
                "operator plugin execute callback is missing"@
            },
            OperatorPluginLoadError::QueryStatus { index, status } => {
                "operator query "@ + text::decimal(*index as nat) + " returned status "@
                    + text::signed_decimal(*status as int)
            },
            OperatorPluginLoadError::OperatorDescriptorTooSmall { index, actual, expected } => {
                "operator descriptor "@ + text::decimal(*index as nat) + " is too small: "@
                    + text::decimal(*actual as nat) + " bytes, expected at least "@
                    + text::decimal(*expected as nat)
            },
            OperatorPluginLoadError::EmptyOperatorName { index } => {
                "operator "@ + text::decimal(*index as nat) + " has an empty name"@
            },
            OperatorPluginLoadError::DuplicateOperatorId(value) => {
                "operator id "@ + text::decimal(*value as nat) + " is duplicated within the plugin"@
            },
            OperatorPluginLoadError::Poisoned => "operator plugin state lock is poisoned"@,
        }
    }

    pub fn message(&self) -> (r: String)
        ensures
            r@ == self.text(),
    {
        match self {
            OperatorPluginLoadError::Load { path, source } => {
                let mut r = "unable to load operator plugin '".to_owned();
                r.append(path.as_str());
                r.append("': ");
                r.append(source.as_str());
                r
            },
            OperatorPluginLoadError::MissingEntry(value) => {
                let mut r = "operator plugin entry symbol is missing: ".to_owned();
                r.append(value.as_str());
                r
            },
            OperatorPluginLoadError::NullDescriptor => {
                "operator plugin entry returned a null descriptor".to_owned()
            },
            OperatorPluginLoadError::AbiVersion { actual, expected } => {
                let mut r = "operator plugin ABI version ".to_owned();
                text::append_decimal(&mut r, *actual as u64);
                r.append(" is incompatible with host ABI ");
                text::append_decimal(&mut r, *expected as u64);
                r
            },
            OperatorPluginLoadError::DescriptorTooSmall { actual, expected } => {
                let mut r = "operator plugin descriptor is too small: ".to_owned();
                text::append_decimal(&mut r, *actual as u64);
                r.append(" bytes, expected at least ");
                text::append_decimal(&mut r, *expected as u64);
                r
            },
            OperatorPluginLoadError::EmptyPluginName => "operator plugin name is empty".to_owned(),
            OperatorPluginLoadError::NoOperators => {
                "operator plugin declares no operators".to_owned()
            },
            OperatorPluginLoadError::TooManyOperators { actual, maximum } => {
                let mut r = "operator plugin declares ".to_owned();
                text::append_decimal(&mut r, *actual as u64);
                r.append(" operators, exceeding host limit ");
                text::append_decimal(&mut r, *maximum as u64);
                r
            },
            OperatorPluginLoadError::MissingQueryOperator => {
                "operator plugin query callback is missing".to_owned()
            },
            OperatorPluginLoadError::MissingOutputSize => {
                "operator plugin output-size callback is missing".to_owned()
            },
            OperatorPluginLoadError::MissingExecute => {
                "operator plugin execute callback is missing".to_owned()
            },
            OperatorPluginLoadError::QueryStatus { index, status } => {
                let mut r = "operator query ".to_owned();
                text::append_decimal(&mut r, *index as u64);
                r.append(" returned status ");
                text::append_signed_decimal(&mut r, *status);
                r
            },
            OperatorPluginLoadError::OperatorDescriptorTooSmall { index, actual, expected } => {
                let mut r = "operator descriptor ".to_owned();
                text::append_decimal(&mut r, *index as u64);
                r.append(" is too small: ");
                text::append_decimal(&mut r, *actual as u64);
                r.append(" bytes, expected at least ");
                text::append_decimal(&mut r, *expected as u64);
                r
            },
            OperatorPluginLoadError::EmptyOperatorName { index } => {
                let mut r = "operator ".to_owned();
                text::append_decimal(&mut r, *index as u64);
                r.append(" has an empty name");
                r
            },
            OperatorPluginLoadError::DuplicateOperatorId(value) => {
                let mut r = "operator id ".to_owned();
                text::append_decimal(&mut r, *value as u64);
                r.append(" is duplicated within the plugin");
                r
            },
            OperatorPluginLoadError::Poisoned => {
                "operator plugin state lock is poisoned".to_owned()
            },
        }
    }
}

/// Why a call of an operator gives no output.
#[derive(Debug, PartialEq, Eq)]
pub enum OperatorPluginExecutionError {
    Poisoned,
    InputTooLarge(usize),
    PluginStatus(i32),
    OutputTooLarge { requested: u64, maximum: u64 },
    OutputLengthUnsupported(u64),
    OutputLengthExceeded { actual: u64, capacity: u64 },
}

impl OperatorPluginExecutionError {
    /// The text of the error.
    pub open spec fn text(&self) -> Seq<char> {
        match self {
            OperatorPluginExecutionError::Poisoned => "operator plugin state lock is poisoned"@,
            OperatorPluginExecutionError::InputTooLarge(value) => {
                "input length "@ + text::decimal(*value as nat)
                    + " cannot be represented by the plugin ABI"@
            },
            OperatorPluginExecutionError::PluginStatus(value) => {
                "plugin returned status "@ + text::signed_decimal(*value as int)
            },
            OperatorPluginExecutionError::OutputTooLarge { requested, maximum } => {
                "plugin requested "@ + text::decimal(*requested as nat)
                    + " output bytes, exceeding host limit "@ + text::decimal(*maximum as nat)
            },
            OperatorPluginExecutionError::OutputLengthUnsupported(value) => {
                "output length "@ + text::decimal(*value as nat)
                    + " cannot be represented on this host"@
            },
            OperatorPluginExecutionError::OutputLengthExceeded { actual, capacity } => {
                "plugin reported "@ + text::decimal(*actual as nat)
                    + " output bytes after receiving capacity "@ + text::decimal(*capacity as nat)
            },
        }
    }

    pub fn message(&self) -> (r: String)
        ensures
            r@ == self.text(),
    {
        match self {
            OperatorPluginExecutionError::Poisoned => {
                "operator plugin state lock is poisoned".to_owned()
            },
            OperatorPluginExecutionError::InputTooLarge(value) => {
                let mut r = "input length ".to_owned();
                text::append_decimal(&mut r, *value as u64);
                r.append(" cannot be represented by the plugin ABI");
                r
            },
            OperatorPluginExecutionError::PluginStatus(value) => {
                let mut r = "plugin returned status ".to_owned();
                text::append_signed_decimal(&mut r, *value);
                r
            },
            OperatorPluginExecutionError::OutputTooLarge { requested, maximum } => {
                let mut r = "plugin requested ".to_owned();
                text::append_decimal(&mut r, *requested);
                r.append(" output bytes, exceeding host limit ");
                text::append_decimal(&mut r, *maximum);
                r
            },
            OperatorPluginExecutionError::OutputLengthUnsupported(value) => {
                let mut r = "output length ".to_owned();
                text::append_decimal(&mut r, *value);
                r.append(" cannot be represented on this host");
                r
            },
            OperatorPluginExecutionError::OutputLengthExceeded { actual, capacity } => {
                let mut r = "plugin reported ".to_owned();
                text::append_decimal(&mut r, *actual);
                r.append(" output bytes after receiving capacity ");
                text::append_decimal(&mut r, *capacity);
                r
            },
        }
    }
}

/// The kind that a tag stands for. Tags without a meaning stand for custom operators.
pub open spec fn operator_kind_of(kind: u32) -> OperatorKind {
    if kind == operator_kind::GEMM {
        OperatorKind::Gemm
    } else if kind == operator_kind::ATTENTION {
        OperatorKind::Attention
    } else if kind == operator_kind::QUANTIZE {
        OperatorKind::Quantize
    } else if kind == operator_kind::DEQUANTIZE {
        OperatorKind::Dequantize
    } else if kind == operator_kind::TRANSFORM {
        OperatorKind::Transform
    } else {
        OperatorKind::Custom
    }
}

pub fn map_operator_kind(kind: u32) -> (r: OperatorKind)
    ensures
        r == operator_kind_of(kind),
{
    if kind == operator_kind::GEMM {
        OperatorKind::Gemm
    } else if kind == operator_kind::ATTENTION {
        OperatorKind::Attention
    } else if kind == operator_kind::QUANTIZE {
        OperatorKind::Quantize
    } else if kind == operator_kind::DEQUANTIZE {
        OperatorKind::Dequantize
    } else if kind == operator_kind::TRANSFORM {
        OperatorKind::Transform
    } else {
        OperatorKind::Custom
    }
}

/// The backend that a tag stands for. Tags without a meaning stand for plugins.
pub open spec fn backend_kind_of(kind: u32) -> BackendKind {
    if kind == backend_kind::CPU {
        BackendKind::Cpu
    } else if kind == backend_kind::VULKAN {
        BackendKind::Vulkan
    } else if kind == backend_kind::HIP {
        BackendKind::Hip
    } else if kind == backend_kind::HYBRID {
        BackendKind::Hybrid
    } else {
        BackendKind::Plugin
    }
}

pub fn map_backend_kind(kind: u32) -> (r: BackendKind)
    ensures
        r == backend_kind_of(kind),
{
    if kind == backend_kind::CPU {
        BackendKind::Cpu
    } else if kind == backend_kind::VULKAN {
        BackendKind::Vulkan
    } else if kind == backend_kind::HIP {
        BackendKind::Hip
    } else if kind == backend_kind::HYBRID {
        BackendKind::Hybrid
    } else {
        BackendKind::Plugin
    }
}

/// The first thing that is wrong with a plugin's description of itself, under the name that it
/// gives itself.
pub open spec fn descriptor_fault(
    descriptor: VrbOperatorPluginV1,
    name: Seq<char>,
    policy: OperatorPluginLoadPolicy,
) -> Option<OperatorPluginLoadError> {
    let expected = operator_plugin_api::operator_plugin_layout().size();
    if descriptor.abi_version != VRB_OPERATOR_PLUGIN_ABI_VERSION {
        Some(
            OperatorPluginLoadError::AbiVersion {
                actual: descriptor.abi_version,
                expected: VRB_OPERATOR_PLUGIN_ABI_VERSION,
            },
        )
    } else if descriptor.struct_size < expected {
        Some(
            OperatorPluginLoadError::DescriptorTooSmall {
                actual: descriptor.struct_size,
                expected,
            },
        )
    } else if name.len() == 0 {
        Some(OperatorPluginLoadError::EmptyPluginName)
    } else if descriptor.operator_count == 0 {
        Some(OperatorPluginLoadError::NoOperators)
    } else if descriptor.operator_count > policy.max_operators {
        Some(
            OperatorPluginLoadError::TooManyOperators {
                actual: descriptor.operator_count,
                maximum: policy.max_operators,
            },
        )
    } else if descriptor.query_operator == 0 {
        Some(OperatorPluginLoadError::MissingQueryOperator)
    } else if descriptor.output_size == 0 {
        Some(OperatorPluginLoadError::MissingOutputSize)
    } else if descriptor.execute == 0 {
        Some(OperatorPluginLoadError::MissingExecute)
    } else {
        None
    }
}

/// Checks a plugin's description of itself under the name that it gives itself.
pub fn check_descriptor(
    descriptor: &VrbOperatorPluginV1,
    name: &str,
    policy: OperatorPluginLoadPolicy,
) -> (r: Result<(), OperatorPluginLoadError>)
    ensures
        match r {
            Ok(_) => descriptor_fault(*descriptor, name@, policy) is None,
            Err(error) => descriptor_fault(*descriptor, name@, policy) == Some(error),
        },
{
    if descriptor.abi_version != VRB_OPERATOR_PLUGIN_ABI_VERSION {
        return Err(
            OperatorPluginLoadError::AbiVersion {
                actual: descriptor.abi_version,
                expected: VRB_OPERATOR_PLUGIN_ABI_VERSION,
            },
        );
    }
    let expected: u32 = expected_operator_plugin_struct_size();
    if descriptor.struct_size < expected {
        return Err(
            OperatorPluginLoadError::DescriptorTooSmall {
                actual: descriptor.struct_size,
                expected,
            },
        );
    }
    if name.is_empty() {
        return Err(OperatorPluginLoadError::EmptyPluginName);
    }
    if descriptor.operator_count == 0 {
        return Err(OperatorPluginLoadError::NoOperators);
    }
    if descriptor.operator_count > policy.max_operators {
        return Err(
            OperatorPluginLoadError::TooManyOperators {
                actual: descriptor.operator_count,
                maximum: policy.max_operators,
            },
        );
    }
    if descriptor.query_operator == 0 {
        return Err(OperatorPluginLoadError::MissingQueryOperator);
    }
    if descriptor.output_size == 0 {
        return Err(OperatorPluginLoadError::MissingOutputSize);
    }
    if descriptor.execute == 0 {
        return Err(OperatorPluginLoadError::MissingExecute);
    }
    Ok(())
}

/// An operator of a loaded plugin.
#[derive(Debug, PartialEq, Eq)]
pub struct DynamicOperator {
    pub plugin_name: String,
    pub max_output_bytes: u64,
    pub operator_id: u32,
    pub name: String,
    pub kind: OperatorKind,
    pub backend: BackendKind,
    pub raw_capability_bits: u64,
}

/// Whether one of the operators has the id.
pub open spec fn has_id(operators: Seq<DynamicOperator>, operator_id: u32) -> bool {
    exists|i: int|
        #![trigger operators[i]]
        0 <= i < operators.len() && operators[i].operator_id == operator_id
}

/// Whether no two operators have the same id.
pub open spec fn ids_are_distinct(operators: Seq<DynamicOperator>) -> bool {
    forall|i: int, j: int|
        #![trigger operators[i], operators[j]]
        0 <= i < j < operators.len() ==> operators[i].operator_id != operators[j].operator_id
}

/// The first thing that is wrong with what a plugin answers about its operator `index`.
pub open spec fn operator_fault(
    found: Seq<DynamicOperator>,
    index: u32,
    query_status: i32,
    info: VrbOperatorInfoV1,
    name: Seq<char>,
) -> Option<OperatorPluginLoadError> {
    let expected = operator_plugin_api::operator_info_layout().size();
    if query_status != status::OK {
        Some(OperatorPluginLoadError::QueryStatus { index, status: query_status })
    } else if info.struct_size < expected {
        Some(
            OperatorPluginLoadError::OperatorDescriptorTooSmall {
                index,
                actual: info.struct_size,
                expected,
            },
        )
    } else if name.len() == 0 {
        Some(OperatorPluginLoadError::EmptyOperatorName { index })
    } else if has_id(found, info.operator_id) {
        Some(OperatorPluginLoadError::DuplicateOperatorId(info.operator_id))
    } else {
        None
    }
}

fn lists_id(operators: &Vec<DynamicOperator>, operator_id: u32) -> (r: bool)
    ensures
        r == has_id(operators@, operator_id),
{
    let mut i: usize = 0;
    while i < operators.len()
        invariant
            i <= operators@.len(),
            forall|j: int|
                #![trigger operators@[j]]
                0 <= j < i ==> operators@[j].operator_id != operator_id,
        decreases operators@.len() - i,
    {
        if operators[i].operator_id == operator_id {
            assert(operators@[i as int].operator_id == operator_id);
            return true;
        }
        i = i + 1;
    }
    false
}

/// The operators of a plugin while the host asks for them one by one.
pub struct OperatorDiscovery {
    plugin_name: String,
    operator_count: u32,
    capability_bits: u64,
    max_output_bytes: u64,
    found: Vec<DynamicOperator>,
}

impl OperatorDiscovery {
    pub closed spec fn plugin(&self) -> Seq<char> {
        self.plugin_name@
    }

    pub closed spec fn count(&self) -> u32 {
        self.operator_count
    }

    pub closed spec fn shared_bits(&self) -> u64 {
        self.capability_bits
    }

    pub closed spec fn output_limit(&self) -> u64 {
        self.max_output_bytes
    }

    pub closed spec fn found(&self) -> Seq<DynamicOperator> {
        self.found@
    }

    /// What stays the same while operators are found.
    pub open spec fn same_plugin(&self, other: &OperatorDiscovery) -> bool {
        &&& self.plugin() == other.plugin()
        &&& self.count() == other.count()
        &&& self.shared_bits() == other.shared_bits()
        &&& self.output_limit() == other.output_limit()
    }

    /// No more operators than announced, each id once, and each operator with a name, the
    /// plugin's name, the host's limit and all capabilities that the plugin declares for all.
    pub open spec fn wf(&self) -> bool {
        &&& self.found().len() <= self.count()
        &&& ids_are_distinct(self.found())
        &&& forall|i: int|
            #![trigger self.found()[i]]
            0 <= i < self.found().len() ==> self.fits(self.found()[i])
    }

    /// Whether an operator is one of this plugin's.
    pub open spec fn fits(&self, operator: DynamicOperator) -> bool {
        &&& operator.plugin_name@ == self.plugin()
        &&& operator.max_output_bytes == self.output_limit()
        &&& operator.name@.len() > 0
        &&& operator.raw_capability_bits & self.shared_bits() == self.shared_bits()
    }

    /// Whether an operator is what the plugin answered.
    pub open spec fn is_answered(
        &self,
        info: VrbOperatorInfoV1,
        name: Seq<char>,
        operator: DynamicOperator,
    ) -> bool {
        &&& operator.plugin_name@ == self.plugin()
        &&& operator.max_output_bytes == self.output_limit()
        &&& operator.operator_id == info.operator_id
        &&& operator.name@ == name
        &&& operator.kind == operator_kind_of(info.operator_kind)
        &&& operator.backend == backend_kind_of(info.backend_kind)
        &&& operator.raw_capability_bits == info.capability_bits | self.shared_bits()
    }

    /// Starts with a plugin whose description of itself is in order.
    pub fn begin(descriptor: &VrbOperatorPluginV1, policy: OperatorPluginLoadPolicy) -> (r: Result<
        Self,
        OperatorPluginLoadError,
    >)
        ensures
            match r {
                Ok(discovery) => {
                    &&& descriptor_fault(*descriptor, abi::name_in(descriptor.name@), policy) is None
                    &&& discovery.wf()
                    &&& discovery.found().len() == 0
                    &&& discovery.plugin() == abi::name_in(descriptor.name@)
                    &&& discovery.count() == descriptor.operator_count
                    &&& discovery.shared_bits() == descriptor.capability_bits
                    &&& discovery.output_limit() == policy.max_output_bytes
                },
                Err(error) => descriptor_fault(*descriptor, abi::name_in(descriptor.name@), policy)
                    == Some(error),
            },
    {
        let plugin_name = abi::abi_chars_to_string(&descriptor.name);
        match check_descriptor(descriptor, plugin_name.as_str(), policy) {
            Ok(_) => Ok(
                OperatorDiscovery {
                    plugin_name,
                    operator_count: descriptor.operator_count,
                    capability_bits: descriptor.capability_bits,
                    max_output_bytes: policy.max_output_bytes,
                    found: Vec::new(),
                },
            ),
            Err(error) => Err(error),
        }
    }

    /// The operator to ask for next, until all that were announced are found.
    pub fn next_index(&self) -> (r: Option<u32>)
        requires
            self.wf(),
        ensures
            match r {
                Some(index) => index == self.found().len() && index < self.count(),
                None => self.found().len() == self.count(),
            },
    {
        let index: u32 = self.found.len() as u32;
        if index < self.operator_count {
            Some(index)
        } else {
            None
        }
    }

    /// Takes the answer about the next operator, under the name that it gives.
    pub fn accept_named(
        &mut self,
        query_status: i32,
        info: &VrbOperatorInfoV1,
        name: String,
    ) -> (r: Result<(), OperatorPluginLoadError>)
        requires
            old(self).wf(),
            old(self).found().len() < old(self).count(),
        ensures
            final(self).wf(),
            final(self).same_plugin(old(self)),
            match r {
                Ok(_) => {
                    &&& operator_fault(
                        old(self).found(),
                        old(self).found().len() as u32,
                        query_status,
                        *info,
                        name@,
                    ) is None
                    &&& final(self).found().len() == old(self).found().len() + 1
                    &&& final(self).found().drop_last() == old(self).found()
                    &&& old(self).is_answered(*info, name@, final(self).found().last())
                },
                Err(error) => {
                    &&& operator_fault(
                        old(self).found(),
                        old(self).found().len() as u32,
                        query_status,
                        *info,
                        name@,
                    ) == Some(error)
                    &&& final(self).found() == old(self).found()
                },
            },
    {
        let index: u32 = self.found.len() as u32;
        if query_status != status::OK {
            return Err(OperatorPluginLoadError::QueryStatus { index, status: query_status });
        }
        let expected: u32 = expected_operator_info_struct_size();
        if info.struct_size < expected {
            return Err(
                OperatorPluginLoadError::OperatorDescriptorTooSmall {
                    index,
                    actual: info.struct_size,
                    expected,
                },
            );
        }
        if name.as_str().is_empty() {
            return Err(OperatorPluginLoadError::EmptyOperatorName { index });
        }
        if lists_id(&self.found, info.operator_id) {
            return Err(OperatorPluginLoadError::DuplicateOperatorId(info.operator_id));
        }
        let ghost own = info.capability_bits;
        let ghost all = self.capability_bits;
        assert((own | all) & all == all) by (bit_vector);
        let operator = DynamicOperator {
            plugin_name: self.plugin_name.clone(),
            max_output_bytes: self.max_output_bytes,
            operator_id: info.operator_id,
            name,
            kind: map_operator_kind(info.operator_kind),
            backend: map_backend_kind(info.backend_kind),
            raw_capability_bits: info.capability_bits | self.capability_bits,
        };
        self.found.push(operator);
        proof {
            assert(self.found().drop_last() =~= old(self).found());
            assert forall|i: int|
                #![trigger self.found()[i]]
                0 <= i < self.found().len() implies self.fits(self.found()[i]) by {
                if i < old(self).found().len() {
                    assert(old(self).fits(old(self).found()[i]));
                }
            }
        }
        Ok(())
    }

    /// Takes the answer about the next operator.
    pub fn accept(&mut self, query_status: i32, info: &VrbOperatorInfoV1) -> (r: Result<
        (),
        OperatorPluginLoadError,
    >)
        requires
            old(self).wf(),
            old(self).found().len() < old(self).count(),
        ensures
            final(self).wf(),
            final(self).same_plugin(old(self)),
            match r {
                Ok(_) => {
                    &&& operator_fault(
                        old(self).found(),
                        old(self).found().len() as u32,
                        query_status,
                        *info,
                        abi::name_in(info.name@),
                    ) is None
                    &&& final(self).found().len() == old(self).found().len() + 1
                    &&& final(self).found().drop_last() == old(self).found()
                    &&& old(self).is_answered(
                        *info,
                        abi::name_in(info.name@),
                        final(self).found().last(),
                    )
                },
                Err(error) => {
                    &&& operator_fault(
                        old(self).found(),
                        old(self).found().len() as u32,
                        query_status,
                        *info,
                        abi::name_in(info.name@),
                    ) == Some(error)
                    &&& final(self).found() == old(self).found()
                },
            },
    {
        let name = abi::abi_chars_to_string(&info.name);
        self.accept_named(query_status, info, name)
    }

    /// The plugin's name and all its operators, in the order in which they were asked for.
    pub fn finish(self) -> (r: (String, Vec<DynamicOperator>))
        requires
            self.wf(),
            self.found().len() == self.count(),
        ensures
            r.0@ == self.plugin(),
            r.1@ == self.found(),
            r.1@.len() == self.count(),
            ids_are_distinct(r.1@),
            forall|i: int| #![trigger r.1@[i]] 0 <= i < r.1@.len() ==> self.fits(r.1@[i]),
    {
        (self.plugin_name, self.found)
    }
}

impl DynamicOperator {
    #[must_use]
    pub fn operator_id(&self) -> (r: u32)
        ensures
            r == self.operator_id,
    {
        self.operator_id
    }

    #[must_use]
    pub fn raw_capability_bits(&self) -> (r: u64)
        ensures
            r == self.raw_capability_bits,
    {
        self.raw_capability_bits
    }

    #[must_use]
    pub fn plugin_name(&self) -> (r: &str)
        ensures
            r@ == self.plugin_name@,
    {
        self.plugin_name.as_str()
    }

    pub fn name(&self) -> (r: &str)
        ensures
            r@ == self.name@,
    {
        self.name.as_str()
    }

    /// What the operator can do. Bytes that cross the boundary are copied, so zero-copy is never
    /// claimed, whatever the plugin says.
    pub fn capabilities(&self) -> (r: OperatorCapabilities)
        ensures
            r == (OperatorCapabilities {
                kind: self.kind,
                backend: self.backend,
                supports_zero_copy: false,
            }),
    {
        OperatorCapabilities { kind: self.kind, backend: self.backend, supports_zero_copy: false }
    }

    /// What is wrong with the answer to the question how long the output will be.
    pub open spec fn size_fault(&self, size_status: i32, output_len: u64) -> Option<
        OperatorPluginExecutionError,
    > {
        if size_status != status::OK {
            Some(OperatorPluginExecutionError::PluginStatus(size_status))
        } else if output_len > self.max_output_bytes {
            Some(
                OperatorPluginExecutionError::OutputTooLarge {
                    requested: output_len,
                    maximum: self.max_output_bytes,
                },
            )
        } else if output_len > usize::MAX {
            Some(OperatorPluginExecutionError::OutputLengthUnsupported(output_len))
        } else {
            None
        }
    }

    /// How much room to make for the output, by the answer to the question how long it will be.
    pub fn output_capacity(&self, size_status: i32, output_len: u64) -> (r: Result<
        usize,
        OperatorPluginExecutionError,
    >)
        ensures
            match r {
                Ok(capacity) => self.size_fault(size_status, output_len) is None && capacity
                    == output_len,
                Err(error) => self.size_fault(size_status, output_len) == Some(error),
            },
    {
        if size_status != status::OK {
            return Err(OperatorPluginExecutionError::PluginStatus(size_status));
        }
        if output_len > self.max_output_bytes {
            return Err(
                OperatorPluginExecutionError::OutputTooLarge {
                    requested: output_len,
                    maximum: self.max_output_bytes,
                },
            );
        }
        if output_len > usize::MAX as u64 {
            return Err(OperatorPluginExecutionError::OutputLengthUnsupported(output_len));
        }
        Ok(output_len as usize)
    }

    /// What the operator is asked to run: `input_len` bytes at one address, with room for
    /// `output_capacity` bytes at another and for the length at a third. Without room there is no
    /// address either.
    pub fn execution_request(
        &self,
        input_ptr: usize,
        input_len: u64,
        output_ptr: usize,
        output_capacity: u64,
        output_len: usize,
    ) -> (r: VrbOperatorExecutionRequestV1)
        ensures
            r.struct_size == operator_plugin_api::execution_request_layout().size(),
            r.operator_id == self.operator_id,
            r.flags == 0,
            r.input_ptr == input_ptr,
            r.input_len == input_len,
            r.output_ptr == if output_capacity == 0 {
                0
            } else {
                output_ptr
            },
            r.output_capacity == output_capacity,
            r.output_len == output_len,
            forall|i: int| 0 <= i < 4 ==> r.opaque@[i] == 0,
    {
        VrbOperatorExecutionRequestV1 {
            struct_size: expected_execution_request_struct_size(),
            operator_id: self.operator_id,
            flags: 0,
            input_ptr,
            input_len,
            output_ptr: if output_capacity == 0 {
                0
            } else {
                output_ptr
            },
            output_capacity,
            output_len,
            opaque: [0; 4],
        }
    }

    /// What a finished run comes to: the bytes that the operator says it wrote, out of those that
    /// there was room for.
    pub fn settle(&self, execute_status: i32, output: Vec<u8>, actual_output_len: u64) -> (r: Result<
        Vec<u8>,
        OperatorPluginExecutionError,
    >)
        ensures
            match r {
                Ok(bytes) => {
                    &&& execute_status == status::OK
                    &&& actual_output_len <= output@.len()
                    &&& bytes@ == output@.take(actual_output_len as int)
                },
                Err(error) => if execute_status != status::OK {
                    error == OperatorPluginExecutionError::PluginStatus(execute_status)
                } else {
                    &&& actual_output_len > output@.len()
                    &&& error == OperatorPluginExecutionError::OutputLengthExceeded {
                        actual: actual_output_len,
                        capacity: output@.len() as u64,
                    }
                },
            },
    {
        if execute_status != status::OK {
            return Err(OperatorPluginExecutionError::PluginStatus(execute_status));
        }
        let length: usize = output.len();
        let capacity: u64 = length as u64;
        if actual_output_len > capacity {
            return Err(
                OperatorPluginExecutionError::OutputLengthExceeded {
                    actual: actual_output_len,
                    capacity,
                },
            );
        }
        let mut bytes = output;
        bytes.truncate(actual_output_len as usize);
        Ok(bytes)
    }
}

/// What the caller of an operator gets for the outcome of a run.
pub fn operator_result(outcome: Result<Vec<u8>, OperatorPluginExecutionError>) -> (r: Result<
    OperatorOutput,
    OperatorError,
>)
    ensures
        match (outcome, r) {
            (Ok(bytes), Ok(output)) => output.bytes == bytes,
            (Err(error), Err(OperatorError::Execution(reason))) => reason@ == error.text(),
            _ => false,
        },
{
    match outcome {
        Ok(bytes) => Ok(OperatorOutput { bytes }),
        Err(error) => Err(OperatorError::Execution(error.message())),
    }
}

/// A loaded plugin: its name and its operators.
pub struct LoadedOperatorLibrary<O: Operator + ?Sized> {
    plugin_name: String,
    operators: Vec<Arc<O>>,
}

/// Those of the operators that are of a kind, in their order.
pub open spec fn of_kind<O: Operator + ?Sized>(
    operators: Seq<Arc<O>>,
    capabilities: Seq<OperatorCapabilities>,
    kind: OperatorKind,
) -> Seq<Arc<O>>
    decreases operators.len(),
{
    if operators.len() == 0 || capabilities.len() != operators.len() {
        Seq::empty()
    } else {
        let before = of_kind(operators.drop_last(), capabilities.drop_last(), kind);
        if capabilities.last().kind == kind {
            before.push(operators.last())
        } else {
            before
        }
    }
}

impl<O: Operator + ?Sized> LoadedOperatorLibrary<O> {
    pub closed spec fn title(&self) -> Seq<char> {
        self.plugin_name@
    }

    pub closed spec fn all(&self) -> Seq<Arc<O>> {
        self.operators@
    }

    pub fn new(plugin_name: String, operators: Vec<Arc<O>>) -> (r: Self)
        ensures
            r.title() == plugin_name@,
            r.all() == operators@,
    {
        LoadedOperatorLibrary { plugin_name, operators }
    }

    #[must_use]
    pub fn plugin_name(&self) -> (r: &str)
        ensures
            r@ == self.title(),
    {
        self.plugin_name.as_str()
    }

    #[must_use]
    pub fn operators(&self) -> (r: &[Arc<O>])
        ensures
            r@ == self.all(),
    {
        self.operators.as_slice()
    }

    /// Registers every operator under the kind that it declares, behind those that are registered
    /// already.
    pub fn register_into<P: OperatorSelectionPolicy<O> + ?Sized>(
        &self,
        registry: &mut OperatorRegistry<O, P>,
    )
        requires
            old(registry).wf(),
        ensures
            final(registry).wf(),
            final(registry).policy() == old(registry).policy(),
            ordered_map::item_count(final(registry).entries()) == ordered_map::item_count(
                old(registry).entries(),
            ) + self.all().len(),
            exists|capabilities: Seq<OperatorCapabilities>|
                {
                    &&& #[trigger] operators::can_declare(self.all(), capabilities)
                    &&& forall|kind: OperatorKind|
                        #![trigger final(registry).registered(kind)]
                        final(registry).registered(kind) == old(registry).registered(kind)
                            + of_kind(self.all(), capabilities, kind)
                },
    {
        let ghost mut capabilities = Seq::<OperatorCapabilities>::empty();
        let ghost start = *registry;
        let mut i: usize = 0;
        proof {
            assert forall|kind: OperatorKind|
                #![trigger registry.registered(kind)]
                registry.registered(kind) == start.registered(kind) + of_kind(
                    self.all().take(0),
                    capabilities,
                    kind,
                ) by {
                assert(of_kind(self.all().take(0), capabilities, kind) =~= Seq::empty());
            }
        }
        while i < self.operators.len()
            invariant
                i <= self.operators@.len(),
                self.all() == self.operators@,
                registry.wf(),
                registry.policy() == start.policy(),
                ordered_map::item_count(registry.entries()) == ordered_map::item_count(
                    start.entries(),
                ) + i,
                operators::can_declare(self.all().take(i as int), capabilities),
                forall|kind: OperatorKind|
                    #![trigger registry.registered(kind)]
                    registry.registered(kind) == start.registered(kind) + of_kind(
                        self.all().take(i as int),
                        capabilities,
                        kind,
                    ),
            decreases self.operators@.len() - i,
        {
            let ghost before = *registry;
            let operator = self.operators[i].clone();
            registry.register(operator);
            proof {
                let declared = choose|declared: OperatorCapabilities|
                    {
                        let kind = declared.kind;
                        &&& #[trigger] call_ensures(O::capabilities, (&*operator,), declared)
                        &&& registry.registered(kind) == before.registered(kind).push(operator)
                        &&& forall|other: OperatorKind|
                            #![trigger registry.registered(other)]
                            other != kind ==> registry.registered(other) == before.registered(
                                other,
                            )
                    };
                let ghost earlier = capabilities;
                capabilities = capabilities.push(declared);
                let now = self.all().take(i + 1);
                assert(now.drop_last() =~= self.all().take(i as int));
                assert(capabilities.drop_last() =~= earlier);
                assert forall|j: int|
                    #![trigger capabilities[j]]
                    0 <= j < capabilities.len() implies call_ensures(
                    O::capabilities,
                    (&*now[j],),
                    capabilities[j],
                ) by {
                    if j < i {
                        assert(capabilities[j] == earlier[j]);
                        assert(now[j] == self.all().take(i as int)[j]);
                    }
                }
                assert forall|kind: OperatorKind|
                    #![trigger registry.registered(kind)]
                    registry.registered(kind) == start.registered(kind) + of_kind(
                        now,
                        capabilities,
                        kind,
                    ) by {
                    assert(before.registered(kind) == start.registered(kind) + of_kind(
                        now.drop_last(),
                        earlier,
                        kind,
                    ));
                    if kind == declared.kind {
                        assert(registry.registered(kind) =~= start.registered(kind) + of_kind(
                            now,
                            capabilities,
                            kind,
                        ));
                    }
                }
            }
            i = i + 1;
        }
        assert(self.all().take(i as int) =~= self.all());
    }
}

/// A plugin is accepted only where it is of this version, describes itself in full, has operators
/// within the host's limit, and can be called.
pub proof fn accepted_plugins_keep_to_the_boundary(
    descriptor: VrbOperatorPluginV1,
    name: Seq<char>,
    policy: OperatorPluginLoadPolicy,
)
    requires
        descriptor_fault(descriptor, name, policy) is None,
    ensures
        descriptor.abi_version == VRB_OPERATOR_PLUGIN_ABI_VERSION,
        descriptor.struct_size >= operator_plugin_api::operator_plugin_layout().size(),
        name.len() > 0,
        0 < descriptor.operator_count <= policy.max_operators,
        descriptor.query_operator != 0,
        descriptor.output_size != 0,
        descriptor.execute != 0,
{
}

/// An operator plugin can be loaded if and only if it is of version one, its description is as long
/// as it has to be, it has a name, it has operators and no more than the host allows, and all three
/// callbacks are there.
pub proof fn an_operator_plugin_that_can_be_loaded(
    descriptor: VrbOperatorPluginV1,
    name: Seq<char>,
    policy: OperatorPluginLoadPolicy,
)
    ensures
        descriptor_fault(descriptor, name, policy) is None <==> {
            &&& descriptor.abi_version == 1
            &&& descriptor.struct_size >= operator_plugin_api::operator_plugin_layout().size()
            &&& name.len() > 0
            &&& descriptor.operator_count > 0
            &&& descriptor.operator_count <= policy.max_operators
            &&& descriptor.query_operator != 0
            &&& descriptor.output_size != 0
            &&& descriptor.execute != 0
        },
{
}

/// An operator of a plugin is taken in if and only if the question for it succeeded, the answer is
/// as long as it has to be, it has a name, and no operator before it has its id.
pub proof fn an_operator_that_is_taken_in(
    found: Seq<DynamicOperator>,
    index: u32,
    query_status: i32,
    info: VrbOperatorInfoV1,
    name: Seq<char>,
)
    ensures
        operator_fault(found, index, query_status, info, name) is None <==> {
            &&& query_status == 0
            &&& info.struct_size >= operator_plugin_api::operator_info_layout().size()
            &&& name.len() > 0
            &&& forall|i: int|
                #![trigger found[i]]
                0 <= i < found.len() ==> found[i].operator_id != info.operator_id
        },
{
}

/// What the tags of kinds stand for. Numbers without a meaning stand for custom operators and for
/// plugins.
pub proof fn tags_of_kinds(kind: u32)
    ensures
        operator_kind_of(kind) == match kind {
            1 => OperatorKind::Gemm,
            2 => OperatorKind::Attention,
            3 => OperatorKind::Quantize,
            4 => OperatorKind::Dequantize,
            5 => OperatorKind::Transform,
            _ => OperatorKind::Custom,
        },
        backend_kind_of(kind) == match kind {
            1 => BackendKind::Cpu,
            2 => BackendKind::Vulkan,
            3 => BackendKind::Hip,
            4 => BackendKind::Hybrid,
            _ => BackendKind::Plugin,
        },
{
}

/// An operator that was found is what the plugin answered of it, with the capabilities that the
/// plugin declares for all its operators added to its own.
pub proof fn a_found_operator_is_what_was_answered(
    discovery: OperatorDiscovery,
    info: VrbOperatorInfoV1,
    name: Seq<char>,
    operator: DynamicOperator,
)
    requires
        discovery.is_answered(info, name, operator),
    ensures
        operator.plugin_name@ == discovery.plugin(),
        operator.max_output_bytes == discovery.output_limit(),
        operator.operator_id == info.operator_id,
        operator.name@ == name,
        operator.kind == operator_kind_of(info.operator_kind),
        operator.backend == backend_kind_of(info.backend_kind),
        operator.raw_capability_bits == info.capability_bits | discovery.shared_bits(),
{
}

/// Room for an output is made if and only if the question for its length succeeded and the length
/// is within the limit and fits in memory.
pub proof fn an_output_that_room_is_made_for(
    operator: DynamicOperator,
    size_status: i32,
    output_len: u64,
)
    ensures
        operator.size_fault(size_status, output_len) is None <==> {
            &&& size_status == 0
            &&& output_len <= operator.max_output_bytes
            &&& output_len <= usize::MAX
        },
{
}

/// Operators are sorted by their kind without changing their order: those of one kind among two
/// lists are those among the first and then those among the second.
pub proof fn operators_of_a_kind_keep_their_order<O: Operator + ?Sized>(
    some: Seq<Arc<O>>,
    more: Seq<Arc<O>>,
    declared: Seq<OperatorCapabilities>,
    further: Seq<OperatorCapabilities>,
    kind: OperatorKind,
)
    requires
        declared.len() == some.len(),
        further.len() == more.len(),
    ensures
        of_kind(some + more, declared + further, kind) == of_kind(some, declared, kind) + of_kind(
            more,
            further,
            kind,
        ),
        more.len() == 1 ==> of_kind(more, further, kind) == if further[0].kind == kind {
            more
        } else {
            Seq::empty()
        },
    decreases more.len(),
{
    if more.len() == 0 {
        assert(some + more =~= some);
        assert(declared + further =~= declared);
        assert(of_kind(some, declared, kind) + of_kind(more, further, kind) =~= of_kind(
            some,
            declared,
            kind,
        ));
    } else {
        let fewer = more.drop_last();
        let said = further.drop_last();
        operators_of_a_kind_keep_their_order(some, fewer, declared, said, kind);
        assert((some + more).drop_last() =~= some + fewer);
        assert((declared + further).drop_last() =~= declared + said);
        assert(of_kind(some, declared, kind) + of_kind(fewer, said, kind).push(more.last()) =~= (
        of_kind(some, declared, kind) + of_kind(fewer, said, kind)).push(more.last()));
        if more.len() == 1 {
            assert(of_kind(fewer, said, kind) =~= Seq::<Arc<O>>::empty());
            assert(Seq::<Arc<O>>::empty().push(more[0]) =~= more);
        }
    }
}

} // verus!
