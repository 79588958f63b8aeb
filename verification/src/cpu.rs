//! The processor as a backend: portable, always there, and what others are checked against.

use crate::backend::{
    BackendError, BackendId, BackendKind, BackendProbe, CapabilitySet, DataType, OperationKind,
};
use crate::float::Float32;
use vstd::prelude::*;
use vstd::string::*;

verus! {

#[derive(Debug)]
pub struct CpuBackend {
    id: BackendId,
}

/// Whether `output` is the sum of two vectors, element by element.
pub open spec fn is_vector_sum(
    left: Seq<Float32>,
    right: Seq<Float32>,
    output: Seq<Float32>,
) -> bool {
    &&& output.len() == left.len()
    &&& forall|i: int|
        #![trigger output[i]]
        0 <= i < output.len() ==> output[i] == left[i].add_spec(right[i])
}

impl CpuBackend {
    pub closed spec fn named(&self) -> BackendId {
        self.id
    }

    pub fn new() -> (r: Self)
        ensures
            r.named()@ == "cpu"@,
    {
        proof {
            reveal_strlit("cpu");
        }
        CpuBackend { id: BackendId::of_identifier("cpu") }
    }

    pub fn id(&self) -> (r: &BackendId)
        ensures
            *r == self.named(),
    {
        &self.id
    }

    pub fn kind(&self) -> (r: BackendKind)
        ensures
            r == BackendKind::Cpu,
    {
        BackendKind::Cpu
    }

    /// Puts `left + right` into `output`. Fails where the lengths differ, and leaves `output` as
    /// it was.
    pub fn vector_add_f32(
        &self,
        left: &[Float32],
        right: &[Float32],
        output: &mut [Float32],
    ) -> (r: Result<(), BackendError>)
        ensures
            final(output)@.len() == old(output)@.len(),
            match r {
                Ok(_) => {
                    &&& left@.len() == right@.len() == old(output)@.len()
                    &&& is_vector_sum(left@, right@, final(output)@)
                },
                Err(error) => {
                    &&& left@.len() != right@.len() || left@.len() != old(output)@.len()
                    &&& final(output)@ == old(output)@
                    &&& error matches BackendError::Internal(reason)
                    &&& reason@ == "vector_add_f32 requires equal input and output lengths"@
                },
            },
    {
        if left.len() != right.len() || left.len() != output.len() {
            return Err(
                BackendError::Internal(
                    "vector_add_f32 requires equal input and output lengths".to_owned(),
                ),
            );
        }
        let mut i: usize = 0;
        while i < left.len()
            invariant
                i <= left@.len(),
                left@.len() == right@.len() == output@.len(),
                output@.len() == old(output)@.len(),
                forall|j: int|
                    #![trigger output@[j]]
                    0 <= j < i ==> output@[j] == left@[j].add_spec(right@[j]),
            decreases left@.len() - i,
        {
            output[i] = left[i].plus(right[i]);
            i = i + 1;
        }
        Ok(())
    }

    /// What the processor is as a backend, on a machine of this architecture.
    pub open spec fn is_probe(&self, architecture: Seq<char>, probe: BackendProbe) -> bool {
        &&& probe.id == self.named()
        &&& probe.kind == BackendKind::Cpu
        &&& probe.name@ == "CPU reference backend"@
        &&& probe.vendor@ == architecture
        &&& probe.available
        &&& probe.device_count == 1
        &&& probe.detail@ == "Portable correctness/reference backend"@
        &&& probe.capabilities.operations@ == seq![OperationKind::Copy, OperationKind::VectorAdd]
        &&& probe.capabilities.data_types@ == seq![DataType::F32, DataType::I8]
        &&& !probe.capabilities.external_memory
        &&& !probe.capabilities.external_semaphore
        &&& !probe.capabilities.zero_copy
    }

    pub fn probe_on(&self, architecture: &str) -> (r: BackendProbe)
        ensures
            self.is_probe(architecture@, r),
    {
        let mut operations: Vec<OperationKind> = Vec::new();
        operations.push(OperationKind::Copy);
        operations.push(OperationKind::VectorAdd);
        assert(operations@ =~= seq![OperationKind::Copy, OperationKind::VectorAdd]);
        let mut data_types: Vec<DataType> = Vec::new();
        data_types.push(DataType::F32);
        data_types.push(DataType::I8);
        assert(data_types@ =~= seq![DataType::F32, DataType::I8]);
        BackendProbe {
            id: self.id.clone(),
            kind: BackendKind::Cpu,
            name: "CPU reference backend".to_owned(),
            vendor: architecture.to_owned(),
            available: true,
            device_count: 1,
            detail: "Portable correctness/reference backend".to_owned(),
            capabilities: CapabilitySet {
                operations,
                data_types,
                external_memory: false,
                external_semaphore: false,
                zero_copy: false,
            },
        }
    }
}

impl Default for CpuBackend {
    fn default() -> (r: Self)
        ensures
            r.named()@ == "cpu"@,
    {
        CpuBackend::new()
    }
}

/// The sum of two vectors of integers that are small enough not to be rounded is their sum, element
/// by element.
pub proof fn integer_vectors_are_added_exactly(
    left: Seq<Float32>,
    right: Seq<Float32>,
    output: Seq<Float32>,
    i: int,
    a: int,
    b: int,
)
    requires
        is_vector_sum(left, right, output),
        0 <= i < left.len(),
        left[i].is_integer(a),
        right[i].is_integer(b),
        -0x100_0000 <= a + b <= 0x100_0000,
    ensures
        output.len() == left.len(),
        output[i].is_integer(a + b),
{
    Float32::integers_are_exact(left[i], right[i], a, b);
    assert(output[i] == output[i]);
}

/// The processor offers copies and vector sums, of single precision and of bytes, and shares
/// nothing. It is always available, as one device.
pub proof fn what_the_processor_offers(
    backend: CpuBackend,
    architecture: Seq<char>,
    probe: BackendProbe,
)
    requires
        backend.is_probe(architecture, probe),
    ensures
        probe.id == backend.named(),
        probe.kind == BackendKind::Cpu,
        probe.vendor@ == architecture,
        probe.available,
        probe.device_count == 1,
        probe.capabilities.operations@.len() == 2,
        probe.capabilities.operations@[0] == OperationKind::Copy,
        probe.capabilities.operations@[1] == OperationKind::VectorAdd,
        probe.capabilities.data_types@.len() == 2,
        probe.capabilities.data_types@[0] == DataType::F32,
        probe.capabilities.data_types@[1] == DataType::I8,
        !probe.capabilities.external_memory,
        !probe.capabilities.external_semaphore,
        !probe.capabilities.zero_copy,
{
}

} // verus!
