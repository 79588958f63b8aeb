//! Benchmark results by environment and workload shape.

use crate::backend::{BackendId, DataType, OperationKind};
use crate::float::Float64;
use crate::performance;
use crate::performance::{PerformanceRecord, PerformanceTable};
use crate::text;
use vstd::arithmetic::power2::*;
use vstd::prelude::*;
use vstd::string::*;

verus! {

pub const AUTOTUNE_SCHEMA_VERSION: u32 = 1;

#[derive(Debug, Clone, Copy, PartialEq)]
pub enum AutotuneError {
    InvalidFingerprint(&'static str),
    InvalidShape,
    ShapeOverflow,
    InvalidAlignment(u32),
    InvalidLatency(Float64),
    ZeroSamples,
    UnsupportedSchema(u32),
}

impl AutotuneError {
    /// The number that the error quotes, where it quotes one that is not an integer.
    pub open spec fn quoted(self) -> Option<Float64> {
        match self {
            AutotuneError::InvalidLatency(latency) => Some(latency),
            _ => None,
        }
    }

    pub fn number(self) -> (r: Option<Float64>)
        ensures
            r == self.quoted(),
    {
        match self {
            AutotuneError::InvalidLatency(latency) => Some(latency),
            _ => None,
        }
    }

    /// The text of the error, with `number` for the number that it quotes.
    pub open spec fn text(self, number: Seq<char>) -> Seq<char> {
        match self {
            AutotuneError::InvalidFingerprint(field) => {
                "invalid empty environment fingerprint field '"@ + field@ + "'"@
            },
            AutotuneError::InvalidShape => "workload shape must contain non-zero dimensions"@,
            AutotuneError::ShapeOverflow => {
                "workload shape element-count arithmetic overflow"@
            },
            AutotuneError::InvalidAlignment(alignment) => {
                "workload alignment must be a non-zero power of two, got "@
                    + text::decimal(alignment as nat)
            },
            AutotuneError::InvalidLatency(_) => {
                "benchmark latency must be finite and non-negative, got "@ + number
            },
            AutotuneError::ZeroSamples => "benchmark sample count must be non-zero"@,
            AutotuneError::UnsupportedSchema(version) => {
                "unsupported autotune schema version "@ + text::decimal(version as nat)
            },
        }
    }

    /// The text of the error. `number` is how the number that it quotes is written: giving a
    /// floating-point number its decimal digits is left to the caller.
    pub fn message(self, number: &str) -> (r: String)
        ensures
            r@ == self.text(number@),
    {
        match self {
            AutotuneError::InvalidFingerprint(field) => {
                let mut r = "invalid empty environment fingerprint field '".to_owned();
                r.append(field);
                r.append("'");
                r
            },
            AutotuneError::InvalidShape => {
                "workload shape must contain non-zero dimensions".to_owned()
            },
            AutotuneError::ShapeOverflow => {
                "workload shape element-count arithmetic overflow".to_owned()
            },
            AutotuneError::InvalidAlignment(alignment) => {
                let mut r = "workload alignment must be a non-zero power of two, got ".to_owned();
                text::append_decimal(&mut r, alignment as u64);
                r
            },
            AutotuneError::InvalidLatency(_) => {
                let mut r = "benchmark latency must be finite and non-negative, got ".to_owned();
                r.append(number);
                r
            },
            AutotuneError::ZeroSamples => "benchmark sample count must be non-zero".to_owned(),
            AutotuneError::UnsupportedSchema(version) => {
                let mut r = "unsupported autotune schema version ".to_owned();
                text::append_decimal(&mut r, version as u64);
                r
            },
        }
    }
}

/// What a measurement depends on besides the workload.
#[derive(Debug, PartialEq, Eq)]
pub struct EnvironmentFingerprint {
    pub gpu_arch: String,
    pub driver_version: String,
    pub runtime_version: String,
    pub plugin_version: String,
}

impl Clone for EnvironmentFingerprint {
    fn clone(&self) -> (r: Self)
        ensures
            r == *self,
    {
        EnvironmentFingerprint {
            gpu_arch: self.gpu_arch.clone(),
            driver_version: self.driver_version.clone(),
            runtime_version: self.runtime_version.clone(),
            plugin_version: self.plugin_version.clone(),
        }
    }
}

/// Whether text holds nothing but white space.
pub open spec fn is_blank(s: Seq<char>) -> bool {
    text::trimmed(s).len() == 0
}

impl View for EnvironmentFingerprint {
    type V = (Seq<char>, Seq<char>, Seq<char>, Seq<char>);

    open spec fn view(&self) -> (Seq<char>, Seq<char>, Seq<char>, Seq<char>) {
        (self.gpu_arch@, self.driver_version@, self.runtime_version@, self.plugin_version@)
    }
}

impl EnvironmentFingerprint {
    /// The first field that says nothing.
    pub open spec fn defect(&self) -> Option<AutotuneError> {
        if is_blank(self.gpu_arch@) {
            Some(AutotuneError::InvalidFingerprint("gpu_arch"))
        } else if is_blank(self.driver_version@) {
            Some(AutotuneError::InvalidFingerprint("driver_version"))
        } else if is_blank(self.runtime_version@) {
            Some(AutotuneError::InvalidFingerprint("runtime_version"))
        } else if is_blank(self.plugin_version@) {
            Some(AutotuneError::InvalidFingerprint("plugin_version"))
        } else {
            None
        }
    }

    pub fn validate(&self) -> (r: Result<(), AutotuneError>)
        ensures
            match r {
                Ok(_) => self.defect() is None,
                Err(error) => self.defect() == Some(error),
            },
    {
        if text::trim(self.gpu_arch.as_str()).is_empty() {
            return Err(AutotuneError::InvalidFingerprint("gpu_arch"));
        }
        if text::trim(self.driver_version.as_str()).is_empty() {
            return Err(AutotuneError::InvalidFingerprint("driver_version"));
        }
        if text::trim(self.runtime_version.as_str()).is_empty() {
            return Err(AutotuneError::InvalidFingerprint("runtime_version"));
        }
        if text::trim(self.plugin_version.as_str()).is_empty() {
            return Err(AutotuneError::InvalidFingerprint("plugin_version"));
        }
        Ok(())
    }

    fn is_same(&self, other: &Self) -> (r: bool)
        ensures
            r == (self@ == other@),
    {
        text::is_same_text(self.gpu_arch.as_str(), other.gpu_arch.as_str()) && text::is_same_text(
            self.driver_version.as_str(),
            other.driver_version.as_str(),
        ) && text::is_same_text(self.runtime_version.as_str(), other.runtime_version.as_str())
            && text::is_same_text(self.plugin_version.as_str(), other.plugin_version.as_str())
    }
}

#[derive(Debug, PartialEq, Eq)]
pub struct WorkloadShape {
    pub dims: Vec<u64>,
    pub alignment: u32,
}

impl Clone for WorkloadShape {
    fn clone(&self) -> (r: Self)
        ensures
            r@ == self@,
    {
        let dims = self.dims.clone();
        assert(dims@ =~= self.dims@);
        WorkloadShape { dims, alignment: self.alignment }
    }
}

impl View for WorkloadShape {
    type V = (Seq<u64>, u32);

    open spec fn view(&self) -> (Seq<u64>, u32) {
        (self.dims@, self.alignment)
    }
}

/// The product of all dimensions.
pub open spec fn element_count(dims: Seq<u64>) -> nat
    decreases dims.len(),
{
    if dims.len() == 0 {
        1
    } else {
        element_count(dims.drop_last()) * dims.last() as nat
    }
}

/// A prefix of dimensions that are not zero has no more elements than all of them.
proof fn lemma_prefix_count(dims: Seq<u64>, n: int)
    requires
        0 <= n <= dims.len(),
        !dims.contains(0),
    ensures
        1 <= element_count(dims.take(n)) <= element_count(dims),
    decreases dims.len(),
{
    if n == dims.len() {
        assert(dims.take(n) =~= dims);
        if dims.len() > 0 {
            let rest = dims.drop_last();
            assert(!rest.contains(0)) by {
                if rest.contains(0) {
                    let i = choose|i: int| 0 <= i < rest.len() && rest[i] == 0;
                    assert(dims[i] == 0);
                }
            }
            lemma_prefix_count(rest, rest.len() as int);
            assert(rest.take(rest.len() as int) =~= rest);
            let a = element_count(rest);
            let b = dims.last() as nat;
            assert(b != 0) by {
                assert(dims[dims.len() - 1] == dims.last());
            }
            assert(a * b >= 1) by (nonlinear_arith)
                requires
                    a >= 1,
                    b >= 1,
            ;
        }
    } else {
        let rest = dims.drop_last();
        assert(!rest.contains(0)) by {
            if rest.contains(0) {
                let i = choose|i: int| 0 <= i < rest.len() && rest[i] == 0;
                assert(dims[i] == 0);
            }
        }
        lemma_prefix_count(rest, n);
        assert(rest.take(n) =~= dims.take(n));
        let a = element_count(rest);
        let b = dims.last() as nat;
        assert(b != 0) by {
            assert(dims[dims.len() - 1] == dims.last());
        }
        assert(a * b >= a) by (nonlinear_arith)
            requires
                a >= 1,
                b >= 1,
        ;
    }
}

fn is_power_of_two(value: u32) -> (r: bool)
    ensures
        r == is_pow2(value as int),
{
    if value == 0 {
        proof {
            reveal_with_fuel(is_pow2, 1);
        }
        return false;
    }
    let mut x: u32 = value;
    while x % 2 == 0
        invariant
            x > 0,
            is_pow2(value as int) == is_pow2(x as int),
        decreases x,
    {
        proof {
            reveal_with_fuel(is_pow2, 1);
        }
        x = x / 2;
    }
    proof {
        reveal_with_fuel(is_pow2, 1);
    }
    x == 1
}

impl WorkloadShape {
    /// What is wrong with the shape.
    pub open spec fn defect(&self) -> Option<AutotuneError> {
        if self.dims@.len() == 0 || self.dims@.contains(0) {
            Some(AutotuneError::InvalidShape)
        } else if !is_pow2(self.alignment as int) {
            Some(AutotuneError::InvalidAlignment(self.alignment))
        } else if element_count(self.dims@) > u64::MAX {
            Some(AutotuneError::ShapeOverflow)
        } else {
            None
        }
    }

    pub fn validate(&self) -> (r: Result<(), AutotuneError>)
        ensures
            match r {
                Ok(_) => self.defect() is None,
                Err(error) => self.defect() == Some(error),
            },
    {
        if self.dims.len() == 0 {
            return Err(AutotuneError::InvalidShape);
        }
        let mut i: usize = 0;
        while i < self.dims.len()
            invariant
                i <= self.dims@.len(),
                forall|j: int| 0 <= j < i ==> self.dims@[j] != 0,
            decreases self.dims@.len() - i,
        {
            if self.dims[i] == 0 {
                assert(self.dims@[i as int] == 0);
                return Err(AutotuneError::InvalidShape);
            }
            i = i + 1;
        }
        assert(!self.dims@.contains(0));
        if !is_power_of_two(self.alignment) {
            return Err(AutotuneError::InvalidAlignment(self.alignment));
        }
        let mut count: u64 = 1;
        let mut n: usize = 0;
        proof {
            assert(self.dims@.take(0) =~= Seq::<u64>::empty());
        }
        while n < self.dims.len()
            invariant
                n <= self.dims@.len(),
                self.dims@.len() > 0,
                !self.dims@.contains(0),
                is_pow2(self.alignment as int),
                count == element_count(self.dims@.take(n as int)),
            decreases self.dims@.len() - n,
        {
            proof {
                let t = self.dims@.take(n + 1);
                assert(t.drop_last() =~= self.dims@.take(n as int));
                lemma_prefix_count(self.dims@, n + 1);
            }
            match count.checked_mul(self.dims[n]) {
                Some(value) => {
                    count = value;
                },
                None => {
                    return Err(AutotuneError::ShapeOverflow);
                },
            }
            n = n + 1;
        }
        assert(self.dims@.take(n as int) =~= self.dims@);
        Ok(())
    }

    fn is_same(&self, other: &Self) -> (r: bool)
        ensures
            r == (self@ == other@),
    {
        if self.alignment != other.alignment || self.dims.len() != other.dims.len() {
            return false;
        }
        let mut i: usize = 0;
        while i < self.dims.len()
            invariant
                i <= self.dims@.len() == other.dims@.len(),
                forall|j: int| 0 <= j < i ==> self.dims@[j] == other.dims@[j],
            decreases self.dims@.len() - i,
        {
            if self.dims[i] != other.dims[i] {
                assert(self.dims@[i as int] != other.dims@[i as int]);
                return false;
            }
            i = i + 1;
        }
        assert(self.dims@ =~= other.dims@);
        true
    }
}

/// What a measurement is about.
#[derive(Debug, PartialEq, Eq)]
pub struct TuningKey {
    pub environment: EnvironmentFingerprint,
    pub backend: BackendId,
    pub operation: OperationKind,
    pub data_type: DataType,
    pub shape: WorkloadShape,
}

impl Clone for TuningKey {
    fn clone(&self) -> (r: Self)
        ensures
            same_key(r, *self),
    {
        TuningKey {
            environment: self.environment.clone(),
            backend: self.backend.clone(),
            operation: self.operation,
            data_type: self.data_type,
            shape: self.shape.clone(),
        }
    }
}

/// Whether two keys are about the same.
pub open spec fn same_key(a: TuningKey, b: TuningKey) -> bool {
    &&& a.environment@ == b.environment@
    &&& a.backend@ == b.backend@
    &&& a.operation == b.operation
    &&& a.data_type == b.data_type
    &&& a.shape@ == b.shape@
}

impl TuningKey {
    pub open spec fn defect(&self) -> Option<AutotuneError> {
        if self.environment.defect() is Some {
            self.environment.defect()
        } else {
            self.shape.defect()
        }
    }

    pub fn validate(&self) -> (r: Result<(), AutotuneError>)
        ensures
            match r {
                Ok(_) => self.defect() is None,
                Err(error) => self.defect() == Some(error),
            },
    {
        match self.environment.validate() {
            Ok(_) => self.shape.validate(),
            Err(error) => Err(error),
        }
    }

    fn is_same(&self, other: &Self) -> (r: bool)
        ensures
            r == same_key(*self, *other),
    {
        self.environment.is_same(&other.environment) && self.backend.is_same(&other.backend)
            && self.operation == other.operation && self.data_type == other.data_type
            && self.shape.is_same(&other.shape)
    }
}

#[derive(Debug, Clone, PartialEq)]
pub struct TuningRecord {
    pub key: TuningKey,
    pub median_microseconds: Float64,
    pub samples: u32,
}

impl TuningRecord {
    /// What is wrong with the record.
    pub open spec fn defect(&self) -> Option<AutotuneError> {
        if self.key.defect() is Some {
            self.key.defect()
        } else if !self.median_microseconds.is_cost() {
            Some(AutotuneError::InvalidLatency(self.median_microseconds))
        } else if self.samples == 0 {
            Some(AutotuneError::ZeroSamples)
        } else {
            None
        }
    }

    pub fn validate(&self) -> (r: Result<(), AutotuneError>)
        ensures
            match r {
                Ok(_) => self.defect() is None,
                Err(error) => self.defect() == Some(error),
            },
    {
        match self.key.validate() {
            Ok(_) => {},
            Err(error) => {
                return Err(error);
            },
        }
        if !self.median_microseconds.is_finite_non_negative() {
            return Err(AutotuneError::InvalidLatency(self.median_microseconds));
        }
        if self.samples == 0 {
            return Err(AutotuneError::ZeroSamples);
        }
        Ok(())
    }

    /// The record as the routing table holds it.
    pub open spec fn projected(&self) -> PerformanceRecord {
        PerformanceRecord {
            backend: self.key.backend,
            operation: self.key.operation,
            data_type: self.key.data_type,
            median_microseconds: self.median_microseconds,
            samples: self.samples,
        }
    }
}

/// Whether `i` is the first record about `key`.
pub open spec fn is_first(records: Seq<TuningRecord>, key: TuningKey, i: int) -> bool {
    &&& 0 <= i < records.len()
    &&& same_key(records[i].key, key)
    &&& forall|j: int| #![trigger records[j]] 0 <= j < i ==> !same_key(records[j].key, key)
}

/// Whether no record is about `key`.
pub open spec fn is_absent(records: Seq<TuningRecord>, key: TuningKey) -> bool {
    forall|j: int| #![trigger records[j]] 0 <= j < records.len() ==> !same_key(records[j].key, key)
}

/// `after` is `before` with `record` in the place of the first one about the same, or at the end.
pub open spec fn recorded(
    before: Seq<TuningRecord>,
    record: TuningRecord,
    after: Seq<TuningRecord>,
) -> bool {
    if is_absent(before, record.key) {
        after == before.push(record)
    } else {
        exists|i: int| #[trigger] is_first(before, record.key, i) && after == before.update(
            i,
            record,
        )
    }
}

/// Whether a record was measured in this environment with this shape.
pub open spec fn is_measured_in(
    record: TuningRecord,
    environment: EnvironmentFingerprint,
    shape: WorkloadShape,
) -> bool {
    record.key.environment@ == environment@ && record.key.shape@ == shape@
}

/// The routing table of the first `n` records that were measured in an environment with a shape.
pub open spec fn table_of(
    records: Seq<TuningRecord>,
    environment: EnvironmentFingerprint,
    shape: WorkloadShape,
    n: nat,
) -> Seq<PerformanceRecord>
    decreases n,
{
    if n == 0 {
        Seq::empty()
    } else {
        let before = table_of(records, environment, shape, (n - 1) as nat);
        if is_measured_in(records[n - 1], environment, shape) {
            performance::recorded(before, records[n - 1].projected())
        } else {
            before
        }
    }
}

#[derive(Debug, Clone, PartialEq)]
pub struct AutotuneDatabase {
    pub schema_version: u32,
    pub records: Vec<TuningRecord>,
}

impl Default for AutotuneDatabase {
    fn default() -> (r: Self)
        ensures
            r.schema_version == AUTOTUNE_SCHEMA_VERSION,
            r.records@ == Seq::<TuningRecord>::empty(),
    {
        AutotuneDatabase { schema_version: AUTOTUNE_SCHEMA_VERSION, records: Vec::new() }
    }
}

impl AutotuneDatabase {
    fn find(&self, key: &TuningKey) -> (r: Option<usize>)
        ensures
            match r {
                Some(i) => is_first(self.records@, *key, i as int),
                None => is_absent(self.records@, *key),
            },
    {
        let mut i: usize = 0;
        while i < self.records.len()
            invariant
                i <= self.records@.len(),
                forall|j: int|
                    #![trigger self.records@[j]]
                    0 <= j < i ==> !same_key(self.records@[j].key, *key),
            decreases self.records@.len() - i,
        {
            if self.records[i].key.is_same(key) {
                return Some(i);
            }
            i = i + 1;
        }
        None
    }

    /// Takes in a valid record, in the place of the first one about the same.
    pub fn record(&mut self, record: TuningRecord) -> (r: Result<(), AutotuneError>)
        ensures
            final(self).schema_version == old(self).schema_version,
            match r {
                Ok(_) => record.defect() is None && recorded(
                    old(self).records@,
                    record,
                    final(self).records@,
                ),
                Err(error) => record.defect() == Some(error) && final(self).records@ == old(
                    self,
                ).records@,
            },
    {
        match record.validate() {
            Ok(_) => {},
            Err(error) => {
                return Err(error);
            },
        }
        match self.find(&record.key) {
            Some(i) => {
                assert(!is_absent(self.records@, record.key)) by {
                    let at_i = self.records@[i as int];
                }
                self.records.set(i, record);
            },
            None => {
                self.records.push(record);
            },
        }
        Ok(())
    }

    #[must_use]
    pub fn lookup(&self, key: &TuningKey) -> (r: Option<&TuningRecord>)
        ensures
            match r {
                Some(record) => exists|i: int| #[trigger]
                    is_first(self.records@, *key, i) && *record == self.records@[i],
                None => is_absent(self.records@, *key),
            },
    {
        match self.find(key) {
            Some(i) => Some(&self.records[i]),
            None => None,
        }
    }

    /// Why no table can be made: the environment, the shape, or the first record measured in them.
    pub open spec fn table_defect(
        &self,
        environment: EnvironmentFingerprint,
        shape: WorkloadShape,
        error: AutotuneError,
    ) -> bool {
        if environment.defect() is Some {
            environment.defect() == Some(error)
        } else if shape.defect() is Some {
            shape.defect() == Some(error)
        } else {
            exists|i: int|
                {
                    &&& 0 <= i < self.records@.len()
                    &&& is_measured_in(self.records@[i], environment, shape)
                    &&& #[trigger] self.records@[i].defect() == Some(error)
                    &&& forall|j: int|
                        #![trigger self.records@[j]]
                        0 <= j < i && is_measured_in(self.records@[j], environment, shape)
                            ==> self.records@[j].defect() is None
                }
        }
    }

    /// The routing table of what was measured in exactly this environment with this shape.
    pub fn performance_table_for(
        &self,
        environment: &EnvironmentFingerprint,
        shape: &WorkloadShape,
    ) -> (r: Result<PerformanceTable, AutotuneError>)
        ensures
            match r {
                Ok(table) => {
                    &&& environment.defect() is None
                    &&& shape.defect() is None
                    &&& forall|i: int|
                        #![trigger self.records@[i]]
                        0 <= i < self.records@.len() && is_measured_in(
                            self.records@[i],
                            *environment,
                            *shape,
                        ) ==> self.records@[i].defect() is None
                    &&& table.records@ == table_of(
                        self.records@,
                        *environment,
                        *shape,
                        self.records@.len(),
                    )
                },
                Err(error) => self.table_defect(*environment, *shape, error),
            },
    {
        match environment.validate() {
            Ok(_) => {},
            Err(error) => {
                return Err(error);
            },
        }
        match shape.validate() {
            Ok(_) => {},
            Err(error) => {
                return Err(error);
            },
        }
        let mut table = PerformanceTable::default();
        let mut i: usize = 0;
        while i < self.records.len()
            invariant
                i <= self.records@.len(),
                environment.defect() is None,
                shape.defect() is None,
                table.records@ == table_of(self.records@, *environment, *shape, i as nat),
                forall|j: int|
                    #![trigger self.records@[j]]
                    0 <= j < i && is_measured_in(self.records@[j], *environment, *shape)
                        ==> self.records@[j].defect() is None,
            decreases self.records@.len() - i,
        {
            let record = &self.records[i];
            if record.key.environment.is_same(environment) && record.key.shape.is_same(shape) {
                match record.validate() {
                    Ok(_) => {},
                    Err(error) => {
                        assert(self.records@[i as int].defect() == Some(error));
                        return Err(error);
                    },
                }
                table.record(
                    PerformanceRecord {
                        backend: record.key.backend.clone(),
                        operation: record.key.operation,
                        data_type: record.key.data_type,
                        median_microseconds: record.median_microseconds,
                        samples: record.samples,
                    },
                );
            }
            i = i + 1;
        }
        Ok(table)
    }

    /// What is wrong with a database that is to be stored or was loaded.
    pub open spec fn is_defect(&self, error: AutotuneError) -> bool {
        if self.schema_version != AUTOTUNE_SCHEMA_VERSION {
            error == AutotuneError::UnsupportedSchema(self.schema_version)
        } else {
            exists|i: int|
                {
                    &&& 0 <= i < self.records@.len()
                    &&& #[trigger] self.records@[i].defect() == Some(error)
                    &&& forall|j: int|
                        #![trigger self.records@[j]]
                        0 <= j < i ==> self.records@[j].defect() is None
                }
        }
    }

    /// Holds the database to its schema version and every record to its rules, as before it is
    /// stored and after it was loaded.
    pub fn validate(&self) -> (r: Result<(), AutotuneError>)
        ensures
            match r {
                Ok(_) => {
                    &&& self.schema_version == AUTOTUNE_SCHEMA_VERSION
                    &&& forall|i: int|
                        #![trigger self.records@[i]]
                        0 <= i < self.records@.len() ==> self.records@[i].defect() is None
                },
                Err(error) => self.is_defect(error),
            },
    {
        if self.schema_version != AUTOTUNE_SCHEMA_VERSION {
            return Err(AutotuneError::UnsupportedSchema(self.schema_version));
        }
        let mut i: usize = 0;
        while i < self.records.len()
            invariant
                i <= self.records@.len(),
                self.schema_version == AUTOTUNE_SCHEMA_VERSION,
                forall|j: int|
                    #![trigger self.records@[j]]
                    0 <= j < i ==> self.records@[j].defect() is None,
            decreases self.records@.len() - i,
        {
            match self.records[i].validate() {
                Ok(_) => {},
                Err(error) => {
                    assert(self.records@[i as int].defect() == Some(error));
                    return Err(error);
                },
            }
            i = i + 1;
        }
        Ok(())
    }
}

/// Whether no two records are about the same.
pub open spec fn keys_are_unique(records: Seq<TuningRecord>) -> bool {
    forall|i: int, j: int|
        #![trigger records[i], records[j]]
        0 <= i < j < records.len() ==> !same_key(records[i].key, records[j].key)
}

/// Recording keeps the keys unique, what was recorded is found, and what is about anything else
/// stays as it was.
pub proof fn a_recorded_measurement_is_found(
    before: Seq<TuningRecord>,
    record: TuningRecord,
    after: Seq<TuningRecord>,
    other: TuningKey,
    i: int,
)
    requires
        recorded(before, record, after),
    ensures
        keys_are_unique(before) ==> keys_are_unique(after),
        exists|p: int| #[trigger] is_first(after, record.key, p) && after[p] == record,
        !same_key(record.key, other) && is_first(before, other, i) ==> is_first(after, other, i)
            && after[i] == before[i],
        !same_key(record.key, other) && is_absent(before, other) ==> is_absent(after, other),
{
    if is_absent(before, record.key) {
        let p = before.len() as int;
        assert forall|j: int| #![trigger after[j]] 0 <= j < p implies after[j] == before[j] by {}
        assert(after[p] == record);
        assert(is_first(after, record.key, p));
        if keys_are_unique(before) {
            assert forall|a: int, b: int|
                #![trigger after[a], after[b]]
                0 <= a < b < after.len() implies !same_key(after[a].key, after[b].key) by {
                assert(after[a] == before[a]);
                if b < p {
                    assert(after[b] == before[b]);
                }
            }
        }
        if !same_key(record.key, other) && is_absent(before, other) {
            assert forall|j: int| #![trigger after[j]] 0 <= j < after.len() implies !same_key(
                after[j].key,
                other,
            ) by {
                if j < p {
                    assert(after[j] == before[j]);
                }
            }
        }
        if is_first(before, other, i) {
            assert(after[i] == before[i]);
        }
    } else {
        let p = choose|p: int| #[trigger]
            is_first(before, record.key, p) && after == before.update(p, record);
        assert(after[p] == record);
        assert forall|j: int| #![trigger after[j]] 0 <= j < after.len() && j != p implies after[j]
            == before[j] by {}
        assert(is_first(after, record.key, p));
        if keys_are_unique(before) {
            assert forall|a: int, b: int|
                #![trigger after[a], after[b]]
                0 <= a < b < after.len() implies !same_key(after[a].key, after[b].key) by {
                let x = before[a];
                let y = before[b];
            }
        }
        if !same_key(record.key, other) && is_absent(before, other) {
            assert forall|j: int| #![trigger after[j]] 0 <= j < after.len() implies !same_key(
                after[j].key,
                other,
            ) by {
                let x = before[j];
            }
        }
        if !same_key(record.key, other) && is_first(before, other, i) {
            assert forall|j: int| #![trigger after[j]] 0 <= j < i implies !same_key(
                after[j].key,
                other,
            ) by {
                let x = before[j];
            }
            let x = before[p];
        }
    }
}

/// A measurement in exactly an environment and shape is what the routing table made for them says
/// of its backend, operation and data type.
pub proof fn a_measurement_is_projected(
    records: Seq<TuningRecord>,
    environment: EnvironmentFingerprint,
    shape: WorkloadShape,
    i: int,
    n: nat,
)
    requires
        keys_are_unique(records),
        0 <= i < n <= records.len(),
        is_measured_in(records[i], environment, shape),
    ensures
        performance::median_of(
            table_of(records, environment, shape, n),
            records[i].key.backend@,
            records[i].key.operation,
            records[i].key.data_type,
        ) == Some(records[i].median_microseconds),
    decreases n,
{
    let before = table_of(records, environment, shape, (n - 1) as nat);
    let last = records[n - 1];
    let key = records[i].key;
    if is_measured_in(last, environment, shape) {
        performance::a_recorded_latency_is_found(
            before,
            last.projected(),
            key.backend@,
            key.operation,
            key.data_type,
        );
    }
    if i < n - 1 {
        a_measurement_is_projected(records, environment, shape, i, (n - 1) as nat);
        assert(!same_key(records[i].key, records[n - 1].key));
    }
}

/// What was measured elsewhere leaves the routing table alone: where nothing was measured in an
/// environment and shape, the table is empty.
pub proof fn other_measurements_are_left_out(
    records: Seq<TuningRecord>,
    environment: EnvironmentFingerprint,
    shape: WorkloadShape,
    n: nat,
)
    requires
        n <= records.len(),
        forall|i: int|
            #![trigger records[i]]
            0 <= i < n ==> !is_measured_in(records[i], environment, shape),
    ensures
        table_of(records, environment, shape, n).len() == 0,
    decreases n,
{
    if n > 0 {
        other_measurements_are_left_out(records, environment, shape, (n - 1) as nat);
        let last = records[n - 1];
    }
}

/// A record that is found for a key agrees with it in every field: the environment, the backend,
/// the operation, the data type and the shape. No earlier record does.
pub proof fn a_found_record_is_about_the_key(records: Seq<TuningRecord>, key: TuningKey, i: int)
    requires
        is_first(records, key, i),
    ensures
        0 <= i < records.len(),
        records[i].key.environment.gpu_arch@ == key.environment.gpu_arch@,
        records[i].key.environment.driver_version@ == key.environment.driver_version@,
        records[i].key.environment.runtime_version@ == key.environment.runtime_version@,
        records[i].key.environment.plugin_version@ == key.environment.plugin_version@,
        records[i].key.backend@ == key.backend@,
        records[i].key.operation == key.operation,
        records[i].key.data_type == key.data_type,
        records[i].key.shape.dims@ == key.shape.dims@,
        records[i].key.shape.alignment == key.shape.alignment,
        forall|j: int|
            #![trigger records[j]]
            0 <= j < i ==> {
                ||| records[j].key.environment.gpu_arch@ != key.environment.gpu_arch@
                ||| records[j].key.environment.driver_version@ != key.environment.driver_version@
                ||| records[j].key.environment.runtime_version@ != key.environment.runtime_version@
                ||| records[j].key.environment.plugin_version@ != key.environment.plugin_version@
                ||| records[j].key.backend@ != key.backend@
                ||| records[j].key.operation != key.operation
                ||| records[j].key.data_type != key.data_type
                ||| records[j].key.shape.dims@ != key.shape.dims@
                ||| records[j].key.shape.alignment != key.shape.alignment
            },
{
    assert forall|j: int| #![trigger records[j]] 0 <= j < i implies {
        ||| records[j].key.environment.gpu_arch@ != key.environment.gpu_arch@
        ||| records[j].key.environment.driver_version@ != key.environment.driver_version@
        ||| records[j].key.environment.runtime_version@ != key.environment.runtime_version@
        ||| records[j].key.environment.plugin_version@ != key.environment.plugin_version@
        ||| records[j].key.backend@ != key.backend@
        ||| records[j].key.operation != key.operation
        ||| records[j].key.data_type != key.data_type
        ||| records[j].key.shape.dims@ != key.shape.dims@
        ||| records[j].key.shape.alignment != key.shape.alignment
    } by {
        assert(!same_key(records[j].key, key));
    }
}

/// A key is not found only where every record differs from it in some field.
pub proof fn a_key_that_is_not_found_is_not_there(
    records: Seq<TuningRecord>,
    key: TuningKey,
    i: int,
)
    requires
        is_absent(records, key),
        0 <= i < records.len(),
    ensures
        ({
            ||| records[i].key.environment.gpu_arch@ != key.environment.gpu_arch@
            ||| records[i].key.environment.driver_version@ != key.environment.driver_version@
            ||| records[i].key.environment.runtime_version@ != key.environment.runtime_version@
            ||| records[i].key.environment.plugin_version@ != key.environment.plugin_version@
            ||| records[i].key.backend@ != key.backend@
            ||| records[i].key.operation != key.operation
            ||| records[i].key.data_type != key.data_type
            ||| records[i].key.shape.dims@ != key.shape.dims@
            ||| records[i].key.shape.alignment != key.shape.alignment
        }),
{
    assert(!same_key(records[i].key, key));
}

/// Recording leaves every record in its place that differs from the new one in some field: in a
/// part of its environment, in its backend, its operation, its data type or its shape.
pub proof fn recording_keeps_what_is_about_something_else(
    before: Seq<TuningRecord>,
    record: TuningRecord,
    after: Seq<TuningRecord>,
    i: int,
)
    requires
        recorded(before, record, after),
        0 <= i < before.len(),
        ({
            ||| before[i].key.environment.gpu_arch@ != record.key.environment.gpu_arch@
            ||| before[i].key.environment.driver_version@ != record.key.environment.driver_version@
            ||| before[i].key.environment.runtime_version@ != record.key.environment.runtime_version@
            ||| before[i].key.environment.plugin_version@ != record.key.environment.plugin_version@
            ||| before[i].key.backend@ != record.key.backend@
            ||| before[i].key.operation != record.key.operation
            ||| before[i].key.data_type != record.key.data_type
            ||| before[i].key.shape.dims@ != record.key.shape.dims@
            ||| before[i].key.shape.alignment != record.key.shape.alignment
        }),
    ensures
        before.len() <= after.len() <= before.len() + 1,
        after[i] == before[i],
{
    if !is_absent(before, record.key) {
        let p = choose|p: int| #[trigger]
            is_first(before, record.key, p) && after == before.update(p, record);
        assert(before[p] == before[p]);
    }
}

/// Recording takes the place of the first record that agrees with the new one in every field, and
/// adds none then. Where no record does, the new one comes last.
pub proof fn recording_takes_the_place_of_the_same(
    before: Seq<TuningRecord>,
    record: TuningRecord,
    after: Seq<TuningRecord>,
    i: int,
)
    requires
        recorded(before, record, after),
    ensures
        0 <= i < before.len() && ({
            &&& before[i].key.environment.gpu_arch@ == record.key.environment.gpu_arch@
            &&& before[i].key.environment.driver_version@ == record.key.environment.driver_version@
            &&& before[i].key.environment.runtime_version@ == record.key.environment.runtime_version@
            &&& before[i].key.environment.plugin_version@ == record.key.environment.plugin_version@
            &&& before[i].key.backend@ == record.key.backend@
            &&& before[i].key.operation == record.key.operation
            &&& before[i].key.data_type == record.key.data_type
            &&& before[i].key.shape.dims@ == record.key.shape.dims@
            &&& before[i].key.shape.alignment == record.key.shape.alignment
        }) && is_first(before, record.key, i) ==> after == before.update(i, record),
        0 <= i < before.len() && ({
            &&& before[i].key.environment.gpu_arch@ == record.key.environment.gpu_arch@
            &&& before[i].key.environment.driver_version@ == record.key.environment.driver_version@
            &&& before[i].key.environment.runtime_version@ == record.key.environment.runtime_version@
            &&& before[i].key.environment.plugin_version@ == record.key.environment.plugin_version@
            &&& before[i].key.backend@ == record.key.backend@
            &&& before[i].key.operation == record.key.operation
            &&& before[i].key.data_type == record.key.data_type
            &&& before[i].key.shape.dims@ == record.key.shape.dims@
            &&& before[i].key.shape.alignment == record.key.shape.alignment
        }) ==> after.len() == before.len(),
        after.len() > before.len() ==> after == before.push(record),
{
    if 0 <= i < before.len() && same_key(before[i].key, record.key) {
        assert(before[i] == before[i]);
    }
    if !is_absent(before, record.key) {
        let p = choose|p: int| #[trigger]
            is_first(before, record.key, p) && after == before.update(p, record);
        if is_first(before, record.key, i) {
            assert(before[p] == before[p]);
            assert(i == p);
        }
    }
}

/// What the routing table for an environment and a shape says was measured in them: for each of
/// its records there is a measurement that agrees with them in every field, and with the record in
/// its backend, operation, data type, latency and number of samples.
pub proof fn a_table_holds_what_was_measured_in_its_environment(
    records: Seq<TuningRecord>,
    environment: EnvironmentFingerprint,
    shape: WorkloadShape,
    n: nat,
    k: int,
) -> (i: int)
    requires
        n <= records.len(),
        0 <= k < table_of(records, environment, shape, n).len(),
    ensures
        0 <= i < n,
        records[i].key.environment.gpu_arch@ == environment.gpu_arch@,
        records[i].key.environment.driver_version@ == environment.driver_version@,
        records[i].key.environment.runtime_version@ == environment.runtime_version@,
        records[i].key.environment.plugin_version@ == environment.plugin_version@,
        records[i].key.shape.dims@ == shape.dims@,
        records[i].key.shape.alignment == shape.alignment,
        ({
            let entry = table_of(records, environment, shape, n)[k];
            &&& entry.backend@ == records[i].key.backend@
            &&& entry.operation == records[i].key.operation
            &&& entry.data_type == records[i].key.data_type
            &&& entry.median_microseconds == records[i].median_microseconds
            &&& entry.samples == records[i].samples
        }),
    decreases n,
{
    let before = table_of(records, environment, shape, (n - 1) as nat);
    let last = records[n - 1];
    let after = table_of(records, environment, shape, n);
    if is_measured_in(last, environment, shape) && after[k] == last.projected() {
        n - 1
    } else {
        a_table_holds_what_was_measured_in_its_environment(
            records,
            environment,
            shape,
            (n - 1) as nat,
            k,
        )
    }
}

/// A measurement in an environment and a shape, all their fields alike, is what the routing table
/// made for them says of its backend, operation and data type.
pub proof fn a_measurement_in_the_same_fields_is_projected(
    records: Seq<TuningRecord>,
    environment: EnvironmentFingerprint,
    shape: WorkloadShape,
    i: int,
)
    requires
        keys_are_unique(records),
        0 <= i < records.len(),
        records[i].key.environment.gpu_arch@ == environment.gpu_arch@,
        records[i].key.environment.driver_version@ == environment.driver_version@,
        records[i].key.environment.runtime_version@ == environment.runtime_version@,
        records[i].key.environment.plugin_version@ == environment.plugin_version@,
        records[i].key.shape.dims@ == shape.dims@,
        records[i].key.shape.alignment == shape.alignment,
    ensures
        performance::median_of(
            table_of(records, environment, shape, records.len()),
            records[i].key.backend@,
            records[i].key.operation,
            records[i].key.data_type,
        ) == Some(records[i].median_microseconds),
{
    a_measurement_is_projected(records, environment, shape, i, records.len());
}

/// A fingerprint is valid if and only if each of its four fields says something.
pub proof fn a_valid_fingerprint_says_everything(fingerprint: EnvironmentFingerprint)
    ensures
        fingerprint.defect() is None <==> {
            &&& text::trimmed(fingerprint.gpu_arch@).len() > 0
            &&& text::trimmed(fingerprint.driver_version@).len() > 0
            &&& text::trimmed(fingerprint.runtime_version@).len() > 0
            &&& text::trimmed(fingerprint.plugin_version@).len() > 0
        },
        fingerprint.defect() is Some ==> fingerprint.defect()->0 is InvalidFingerprint,
{
}

/// A shape is valid if and only if it has dimensions, none of them zero, whose product fits, and
/// an alignment that is a power of two. A product that does not fit is told from the rest.
pub proof fn a_valid_shape_has_elements(shape: WorkloadShape)
    ensures
        shape.defect() is None <==> {
            &&& shape.dims@.len() > 0
            &&& forall|i: int| #![trigger shape.dims@[i]] 0 <= i < shape.dims@.len()
                ==> shape.dims@[i] > 0
            &&& exists|j: nat| #[trigger] pow2(j) == shape.alignment
            &&& element_count(shape.dims@) <= 0xffff_ffff_ffff_ffff
        },
        shape.defect() == Some(AutotuneError::ShapeOverflow) ==> element_count(shape.dims@)
            > 0xffff_ffff_ffff_ffff,
{
    if shape.dims@.contains(0) {
        let i = choose|i: int| 0 <= i < shape.dims@.len() && shape.dims@[i] == 0;
        assert(shape.dims@[i] == 0);
    }
    lemma_powers(shape.alignment as int);
}

proof fn lemma_powers(n: int)
    ensures
        is_pow2(n) == (exists|j: nat| #[trigger] pow2(j) == n),
{
    if is_pow2(n) {
        let j = lemma_exponent(n);
        assert(pow2(j) == n);
    }
    if exists|j: nat| #[trigger] pow2(j) == n {
        let j = choose|j: nat| #[trigger] pow2(j) == n;
        lemma_power(j);
    }
}

proof fn lemma_exponent(n: int) -> (j: nat)
    requires
        is_pow2(n),
    ensures
        pow2(j) == n,
    decreases n,
{
    reveal_with_fuel(is_pow2, 1);
    if n == 1 {
        vstd::arithmetic::power2::lemma2_to64();
        0
    } else {
        let j = lemma_exponent(n / 2);
        vstd::arithmetic::power2::lemma_pow2_unfold(j + 1);
        j + 1
    }
}

proof fn lemma_power(j: nat)
    ensures
        is_pow2(pow2(j) as int),
    decreases j,
{
    reveal_with_fuel(is_pow2, 1);
    vstd::arithmetic::power2::lemma2_to64();
    vstd::arithmetic::power2::lemma_pow2_pos(j);
    if j > 0 {
        vstd::arithmetic::power2::lemma_pow2_unfold(j);
        lemma_power((j - 1) as nat);
    }
}

/// The elements of a shape: one more dimension multiplies them, and the dimensions of two shapes
/// together have the product of their elements.
pub proof fn dimensions_multiply(some: Seq<u64>, more: Seq<u64>)
    ensures
        element_count(Seq::<u64>::empty()) == 1,
        more.len() == 1 ==> element_count(more) == more[0],
        element_count(some + more) == element_count(some) * element_count(more),
    decreases more.len(),
{
    if more.len() == 0 {
        assert(some + more =~= some);
        assert(element_count(some) * 1 == element_count(some)) by (nonlinear_arith);
    } else {
        dimensions_multiply(some, more.drop_last());
        assert((some + more).drop_last() =~= some + more.drop_last());
        assert((some + more).last() == more.last());
        let a = element_count(some);
        let b = element_count(more.drop_last());
        let c = more.last() as nat;
        assert((a * b) * c == a * (b * c)) by (nonlinear_arith);
        if more.len() == 1 {
            assert(more.drop_last() =~= Seq::<u64>::empty());
            assert(1 * c == c) by (nonlinear_arith);
        }
    }
}

/// A record is valid if and only if its fingerprint and its shape are, its latency is finite and
/// not negative, and it has samples.
pub proof fn a_valid_record_is_measured(record: TuningRecord)
    ensures
        record.defect() is None <==> {
            &&& record.key.environment.defect() is None
            &&& record.key.shape.defect() is None
            &&& record.median_microseconds.bits < 0x7ff0_0000_0000_0000
                || record.median_microseconds.bits == 0x8000_0000_0000_0000
            &&& record.samples > 0
        },
{
}

/// What is told of a fingerprint is the first field that says nothing.
pub proof fn the_first_blank_field_is_named(fingerprint: EnvironmentFingerprint)
    ensures
        ({
            let arch = text::trimmed(fingerprint.gpu_arch@).len() > 0;
            let driver = text::trimmed(fingerprint.driver_version@).len() > 0;
            let runtime = text::trimmed(fingerprint.runtime_version@).len() > 0;
            let plugin = text::trimmed(fingerprint.plugin_version@).len() > 0;
            let error = fingerprint.defect();
            &&& !arch ==> error == Some(AutotuneError::InvalidFingerprint("gpu_arch"))
            &&& arch && !driver ==> error == Some(
                AutotuneError::InvalidFingerprint("driver_version"),
            )
            &&& arch && driver && !runtime ==> error == Some(
                AutotuneError::InvalidFingerprint("runtime_version"),
            )
            &&& arch && driver && runtime && !plugin ==> error == Some(
                AutotuneError::InvalidFingerprint("plugin_version"),
            )
        }),
{
}

/// What is told of a shape: first that it has no elements, next that its alignment is no power of
/// two, last that it has too many elements.
pub proof fn what_is_wrong_with_a_shape(shape: WorkloadShape)
    ensures
        ({
            let whole = shape.dims@.len() > 0 && forall|j: int|
                #![trigger shape.dims@[j]]
                0 <= j < shape.dims@.len() ==> shape.dims@[j] > 0;
            let aligned = exists|j: nat| #[trigger] pow2(j) == shape.alignment;
            &&& !whole <==> shape.defect() == Some(AutotuneError::InvalidShape)
            &&& whole && !aligned <==> shape.defect() == Some(
                AutotuneError::InvalidAlignment(shape.alignment),
            )
            &&& whole && aligned && element_count(shape.dims@) > 0xffff_ffff_ffff_ffff
                <==> shape.defect() == Some(AutotuneError::ShapeOverflow)
        }),
{
    a_valid_shape_has_elements(shape);
    lemma_powers(shape.alignment as int);
    if shape.dims@.contains(0) {
        let j = choose|j: int| 0 <= j < shape.dims@.len() && shape.dims@[j] == 0;
        assert(shape.dims@[j] == 0);
    }
}

/// What is told of a record: what is wrong with its fingerprint, else with its shape, else with
/// its latency, else that it has no samples.
pub proof fn what_is_wrong_with_a_record(record: TuningRecord)
    ensures
        ({
            let environment = record.key.environment.defect();
            let shape = record.key.shape.defect();
            let latency = record.median_microseconds;
            let cost = latency.bits < 0x7ff0_0000_0000_0000 || latency.bits
                == 0x8000_0000_0000_0000;
            &&& environment is Some ==> record.defect() == environment
            &&& environment is None && shape is Some ==> record.defect() == shape
            &&& environment is None && shape is None && !cost ==> record.defect() == Some(
                AutotuneError::InvalidLatency(latency),
            )
            &&& environment is None && shape is None && cost && record.samples == 0
                ==> record.defect() == Some(AutotuneError::ZeroSamples)
        }),
{
}

/// What is told of a database: its schema where that is another one, else what is wrong with the
/// first record that something is wrong with.
pub proof fn what_is_wrong_with_a_database(
    database: AutotuneDatabase,
    error: AutotuneError,
    i: int,
)
    requires
        database.is_defect(error),
    ensures
        database.schema_version != 1 ==> error == AutotuneError::UnsupportedSchema(
            database.schema_version,
        ),
        database.schema_version == 1 && 0 <= i < database.records@.len()
            && database.records@[i].defect() is Some && (forall|j: int|
            #![trigger database.records@[j]]
            0 <= j < i ==> database.records@[j].defect() is None) ==> Some(error)
            == database.records@[i].defect(),
        database.schema_version == 1 ==> exists|j: int|
            0 <= j < database.records@.len() && #[trigger] database.records@[j].defect() is Some,
{
    if database.schema_version == 1 {
        let first = choose|k: int|
            {
                &&& 0 <= k < database.records@.len()
                &&& #[trigger] database.records@[k].defect() == Some(error)
                &&& forall|j: int|
                    #![trigger database.records@[j]]
                    0 <= j < k ==> database.records@[j].defect() is None
            };
        assert(database.records@[first].defect() is Some);
    }
}

/// What is told of a table that cannot be made: what is wrong with the environment asked for, else
/// with the shape asked for, else with the first record that has both in every field.
pub proof fn what_is_wrong_with_a_table(
    database: AutotuneDatabase,
    environment: EnvironmentFingerprint,
    shape: WorkloadShape,
    error: AutotuneError,
) -> (i: int)
    requires
        database.table_defect(environment, shape, error),
    ensures
        environment.defect() is Some ==> Some(error) == environment.defect(),
        environment.defect() is None && shape.defect() is Some ==> Some(error) == shape.defect(),
        environment.defect() is None && shape.defect() is None ==> {
            let key = database.records@[i].key;
            &&& 0 <= i < database.records@.len()
            &&& Some(error) == database.records@[i].defect()
            &&& key.environment.gpu_arch@ == environment.gpu_arch@
            &&& key.environment.driver_version@ == environment.driver_version@
            &&& key.environment.runtime_version@ == environment.runtime_version@
            &&& key.environment.plugin_version@ == environment.plugin_version@
            &&& key.shape.dims@ == shape.dims@
            &&& key.shape.alignment == shape.alignment
        },
{
    if environment.defect() is None && shape.defect() is None {
        choose|k: int|
            {
                &&& 0 <= k < database.records@.len()
                &&& is_measured_in(database.records@[k], environment, shape)
                &&& #[trigger] database.records@[k].defect() == Some(error)
                &&& forall|j: int|
                    #![trigger database.records@[j]]
                    0 <= j < k && is_measured_in(database.records@[j], environment, shape)
                        ==> database.records@[j].defect() is None
            }
    } else {
        0
    }
}

} // verus!
