//! Measured latencies of operations on backends.

use crate::backend::{BackendId, DataType, OperationKind};
use crate::float::Float64;
use vstd::prelude::*;

verus! {

#[derive(Debug, PartialEq)]
pub struct PerformanceRecord {
    pub backend: BackendId,
    pub operation: OperationKind,
    pub data_type: DataType,
    pub median_microseconds: Float64,
    pub samples: u32,
}

impl Clone for PerformanceRecord {
    fn clone(&self) -> (r: Self)
        ensures
            r == *self,
    {
        PerformanceRecord {
            backend: self.backend.clone(),
            operation: self.operation,
            data_type: self.data_type,
            median_microseconds: self.median_microseconds,
            samples: self.samples,
        }
    }
}

/// What a record is about.
pub open spec fn is_about(
    record: PerformanceRecord,
    backend: Seq<char>,
    operation: OperationKind,
    data_type: DataType,
) -> bool {
    &&& record.backend@ == backend
    &&& record.operation == operation
    &&& record.data_type == data_type
}

/// Whether `i` is the first record about this backend, operation and data type.
pub open spec fn is_first(
    records: Seq<PerformanceRecord>,
    backend: Seq<char>,
    operation: OperationKind,
    data_type: DataType,
    i: int,
) -> bool {
    &&& 0 <= i < records.len()
    &&& is_about(records[i], backend, operation, data_type)
    &&& forall|j: int|
        #![trigger records[j]]
        0 <= j < i ==> !is_about(records[j], backend, operation, data_type)
}

/// Whether there is a record about this backend, operation and data type.
pub open spec fn is_recorded(
    records: Seq<PerformanceRecord>,
    backend: Seq<char>,
    operation: OperationKind,
    data_type: DataType,
) -> bool {
    exists|i: int| is_first(records, backend, operation, data_type, i)
}

/// The first record about this backend, operation and data type.
pub open spec fn first_record(
    records: Seq<PerformanceRecord>,
    backend: Seq<char>,
    operation: OperationKind,
    data_type: DataType,
) -> int {
    choose|i: int| is_first(records, backend, operation, data_type, i)
}

/// The recorded latency, if there is one.
pub open spec fn median_of(
    records: Seq<PerformanceRecord>,
    backend: Seq<char>,
    operation: OperationKind,
    data_type: DataType,
) -> Option<Float64> {
    if is_recorded(records, backend, operation, data_type) {
        Some(records[first_record(records, backend, operation, data_type)].median_microseconds)
    } else {
        None
    }
}

/// The recorded latency, if there is one that is finite and not negative.
pub open spec fn usable_median_of(
    records: Seq<PerformanceRecord>,
    backend: Seq<char>,
    operation: OperationKind,
    data_type: DataType,
) -> Option<Float64> {
    match median_of(records, backend, operation, data_type) {
        Some(value) => if value.is_cost() {
            Some(value)
        } else {
            None
        },
        None => None,
    }
}

#[derive(Debug, PartialEq)]
pub struct PerformanceTable {
    pub records: Vec<PerformanceRecord>,
}

impl Clone for PerformanceTable {
    fn clone(&self) -> (r: Self)
        ensures
            r.records@ == self.records@,
    {
        let records = self.records.clone();
        assert(records@ =~= self.records@);
        PerformanceTable { records }
    }
}

impl Default for PerformanceTable {
    fn default() -> (r: Self)
        ensures
            r.records@ == Seq::<PerformanceRecord>::empty(),
    {
        PerformanceTable { records: Vec::new() }
    }
}

impl PerformanceTable {
    fn find(&self, backend: &BackendId, operation: OperationKind, data_type: DataType) -> (r: Option<
        usize,
    >)
        ensures
            match r {
                Some(i) => is_first(self.records@, backend@, operation, data_type, i as int) && i
                    == first_record(self.records@, backend@, operation, data_type),
                None => !is_recorded(self.records@, backend@, operation, data_type),
            },
    {
        let mut i: usize = 0;
        while i < self.records.len()
            invariant
                i <= self.records@.len(),
                forall|j: int|
                    #![trigger self.records@[j]]
                    0 <= j < i ==> !is_about(self.records@[j], backend@, operation, data_type),
            decreases self.records@.len() - i,
        {
            let record = &self.records[i];
            if record.backend.is_same(backend) && record.operation == operation && record.data_type
                == data_type {
                proof {
                    assert(is_first(self.records@, backend@, operation, data_type, i as int));
                    let c = first_record(self.records@, backend@, operation, data_type);
                    assert(is_first(self.records@, backend@, operation, data_type, c));
                    let at_c = self.records@[c];
                }
                return Some(i);
            }
            i = i + 1;
        }
        None
    }

    /// Puts `record` in the place of the first one about the same backend, operation and data
    /// type, or at the end where there is none.
    pub fn record(&mut self, record: PerformanceRecord)
        ensures
            final(self).records@ == recorded(old(self).records@, record),
    {
        match self.find(&record.backend, record.operation, record.data_type) {
            Some(i) => {
                self.records.set(i, record);
            },
            None => {
                self.records.push(record);
            },
        }
    }

    pub fn median_us(
        &self,
        backend: &BackendId,
        operation: OperationKind,
        data_type: DataType,
    ) -> (r: Option<Float64>)
        ensures
            r == median_of(self.records@, backend@, operation, data_type),
    {
        match self.find(backend, operation, data_type) {
            Some(i) => Some(self.records[i].median_microseconds),
            None => None,
        }
    }

    /// The recorded latency where it can be used: finite and not negative.
    pub fn usable_median_us(
        &self,
        backend: &BackendId,
        operation: OperationKind,
        data_type: DataType,
    ) -> (r: Option<Float64>)
        ensures
            r == usable_median_of(self.records@, backend@, operation, data_type),
    {
        match self.median_us(backend, operation, data_type) {
            Some(value) => if value.is_finite_non_negative() {
                Some(value)
            } else {
                None
            },
            None => None,
        }
    }
}

/// What a table holds after a record has been put into it.
pub open spec fn recorded(records: Seq<PerformanceRecord>, record: PerformanceRecord) -> Seq<
    PerformanceRecord,
> {
    if is_recorded(records, record.backend@, record.operation, record.data_type) {
        records.update(
            first_record(records, record.backend@, record.operation, record.data_type),
            record,
        )
    } else {
        records.push(record)
    }
}

/// A latency that was recorded is what is looked up, and what was recorded of anything else stays.
pub proof fn a_recorded_latency_is_found(
    records: Seq<PerformanceRecord>,
    record: PerformanceRecord,
    backend: Seq<char>,
    operation: OperationKind,
    data_type: DataType,
)
    ensures
        median_of(
            recorded(records, record),
            record.backend@,
            record.operation,
            record.data_type,
        ) == Some(record.median_microseconds),
        !is_about(record, backend, operation, data_type) ==> median_of(
            recorded(records, record),
            backend,
            operation,
            data_type,
        ) == median_of(records, backend, operation, data_type),
{
    let after = recorded(records, record);
    let b = record.backend@;
    let o = record.operation;
    let d = record.data_type;
    let p = if is_recorded(records, b, o, d) {
        first_record(records, b, o, d)
    } else {
        records.len() as int
    };
    assert(after[p] == record);
    assert forall|j: int| #![trigger after[j]] 0 <= j < after.len() && j != p implies after[j]
        == records[j] by {}
    if !is_recorded(records, b, o, d) {
        lemma_not_recorded(records, b, o, d);
    }
    assert(is_first(after, b, o, d, p));
    lemma_first_is_unique(after, b, o, d, p, first_record(after, b, o, d));
    if !is_about(record, backend, operation, data_type) {
        if is_recorded(records, backend, operation, data_type) {
            let q = first_record(records, backend, operation, data_type);
            assert(after[q] == records[q]);
            assert(is_first(after, backend, operation, data_type, q));
            lemma_first_is_unique(
                after,
                backend,
                operation,
                data_type,
                q,
                first_record(after, backend, operation, data_type),
            );
        } else {
            lemma_not_recorded(records, backend, operation, data_type);
            if is_recorded(after, backend, operation, data_type) {
                let q = first_record(after, backend, operation, data_type);
                assert(is_first(after, backend, operation, data_type, q));
                assert(after[q] == records[q]);
            }
        }
    }
}

proof fn lemma_first_is_unique(
    records: Seq<PerformanceRecord>,
    backend: Seq<char>,
    operation: OperationKind,
    data_type: DataType,
    i: int,
    j: int,
)
    requires
        is_first(records, backend, operation, data_type, i),
        is_first(records, backend, operation, data_type, j),
    ensures
        i == j,
{
    let a = records[i];
    let b = records[j];
}

/// Where there is no first record about something, there is none at all.
proof fn lemma_not_recorded(
    records: Seq<PerformanceRecord>,
    backend: Seq<char>,
    operation: OperationKind,
    data_type: DataType,
)
    requires
        !is_recorded(records, backend, operation, data_type),
    ensures
        forall|j: int|
            #![trigger records[j]]
            0 <= j < records.len() ==> !is_about(records[j], backend, operation, data_type),
{
    assert forall|j: int| #![trigger records[j]] 0 <= j < records.len() implies !is_about(
        records[j],
        backend,
        operation,
        data_type,
    ) by {
        lemma_none_up_to(records, backend, operation, data_type, j + 1);
    }
}

proof fn lemma_none_up_to(
    records: Seq<PerformanceRecord>,
    backend: Seq<char>,
    operation: OperationKind,
    data_type: DataType,
    n: int,
)
    requires
        0 <= n <= records.len(),
        !is_recorded(records, backend, operation, data_type),
    ensures
        forall|j: int|
            #![trigger records[j]]
            0 <= j < n ==> !is_about(records[j], backend, operation, data_type),
    decreases n,
{
    if n > 0 {
        lemma_none_up_to(records, backend, operation, data_type, n - 1);
        if is_about(records[n - 1], backend, operation, data_type) {
            assert(is_first(records, backend, operation, data_type, n - 1));
        }
    }
}

/// What is looked up is what the first record with this backend, this operation and this data type
/// says. Nothing is found only where no record has all three.
pub proof fn a_lookup_reads_the_first_record_of_its_kind(
    records: Seq<PerformanceRecord>,
    backend: Seq<char>,
    operation: OperationKind,
    data_type: DataType,
    i: int,
)
    requires
        0 <= i < records.len(),
        records[i].backend@ == backend,
        records[i].operation == operation,
        records[i].data_type == data_type,
        forall|j: int|
            #![trigger records[j]]
            0 <= j < i ==> records[j].backend@ != backend || records[j].operation != operation
                || records[j].data_type != data_type,
    ensures
        median_of(records, backend, operation, data_type) == Some(records[i].median_microseconds),
        usable_median_of(records, backend, operation, data_type) == if (
        records[i].median_microseconds.bits < 0x7ff0_0000_0000_0000
            || records[i].median_microseconds.bits == 0x8000_0000_0000_0000) {
            Some(records[i].median_microseconds)
        } else {
            None
        },
{
    assert(is_first(records, backend, operation, data_type, i));
    lemma_first_is_unique(
        records,
        backend,
        operation,
        data_type,
        i,
        first_record(records, backend, operation, data_type),
    );
}

/// Nothing is looked up of what no record is about: a record of another backend, operation or data
/// type is never taken for it.
pub proof fn a_lookup_passes_over_the_rest(
    records: Seq<PerformanceRecord>,
    backend: Seq<char>,
    operation: OperationKind,
    data_type: DataType,
)
    requires
        forall|j: int|
            #![trigger records[j]]
            0 <= j < records.len() ==> records[j].backend@ != backend || records[j].operation
                != operation || records[j].data_type != data_type,
    ensures
        median_of(records, backend, operation, data_type) is None,
        usable_median_of(records, backend, operation, data_type) is None,
{
    if is_recorded(records, backend, operation, data_type) {
        let i = first_record(records, backend, operation, data_type);
        assert(is_first(records, backend, operation, data_type, i));
        assert(records[i] == records[i]);
    }
}

/// Recording leaves every record in its place that differs from the new one in its backend, its
/// operation or its data type, and puts the new one in exactly one place.
pub proof fn recording_keeps_the_rest(
    records: Seq<PerformanceRecord>,
    record: PerformanceRecord,
    i: int,
)
    requires
        0 <= i < records.len(),
    ensures
        records[i].backend@ != record.backend@ || records[i].operation != record.operation
            || records[i].data_type != record.data_type ==> recorded(records, record)[i]
            == records[i],
        recorded(records, record).contains(record),
        ({
            let after = recorded(records, record);
            ||| after == records.push(record)
            ||| exists|p: int|
                #![trigger records.update(p, record)]
                0 <= p < records.len() && after == records.update(p, record)
        }),
        records[i].backend@ == record.backend@ && records[i].operation == record.operation
            && records[i].data_type == record.data_type ==> recorded(records, record).len()
            == records.len(),
{
    let b = record.backend@;
    let o = record.operation;
    let d = record.data_type;
    let after = recorded(records, record);
    if is_recorded(records, b, o, d) {
        let p = first_record(records, b, o, d);
        assert(is_first(records, b, o, d, p));
        assert(after[p] == record);
        assert(after == records.update(p, record));
    } else {
        lemma_not_recorded(records, b, o, d);
        assert(after[records.len() as int] == record);
        assert(is_about(records[i], b, o, d) ==> false);
    }
}

} // verus!
