//! Scaled dot-product attention on the processor, as the measure of other implementations.
//!
//! Everything but the exponential function is computed here. A run hands out the exponents of one
//! query position, takes their exponentials back and turns them into one row of the result.

use crate::attention_protocol;
use crate::attention_protocol::{
    AttentionControl, AttentionDataType, AttentionProtocolError, K_RESOURCE_INDEX,
    O_RESOURCE_INDEX, Q_RESOURCE_INDEX, V_RESOURCE_INDEX,
};
use crate::exact;
use crate::float;
use crate::float::Float32;
use crate::text;
use vstd::prelude::*;
use vstd::string::*;

verus! {

/// How much work attention may be.
#[derive(Debug, Clone, Copy, PartialEq, Eq, Structural)]
pub struct AttentionLimits {
    pub max_tensor_elements: u64,
    pub max_score_elements: u64,
}

impl Default for AttentionLimits {
    fn default() -> (r: Self)
        ensures
            r == (AttentionLimits {
                max_tensor_elements: 67_108_864,
                max_score_elements: 33_554_432,
            }),
    {
        AttentionLimits { max_tensor_elements: 67_108_864, max_score_elements: 33_554_432 }
    }
}

#[derive(Debug, Clone, Copy, PartialEq)]
pub enum ReferenceAttentionError {
    Protocol(AttentionProtocolError),
    UnsupportedDataType(AttentionDataType),
    InputLength { name: &'static str, expected: usize, actual: usize },
    ResourceLimit { what: &'static str, requested: u64, limit: u64 },
    AddressSpaceOverflow,
    NumericalFailure,
}

impl ReferenceAttentionError {
    /// The number that the error quotes, where it quotes one that is not an integer.
    pub open spec fn quoted(self) -> Option<Float32> {
        match self {
            ReferenceAttentionError::Protocol(error) => error.quoted(),
            _ => None,
        }
    }

    pub fn number(self) -> (r: Option<Float32>)
        ensures
            r == self.quoted(),
    {
        match self {
            ReferenceAttentionError::Protocol(error) => error.number(),
            _ => None,
        }
    }

    /// The text of the error, with `number` for the number that it quotes.
    pub open spec fn text(self, number: Seq<char>) -> Seq<char> {
        match self {
            ReferenceAttentionError::Protocol(error) => error.text(number),
            ReferenceAttentionError::UnsupportedDataType(data_type) => {
                "CPU reference attention supports FP32 only, got "@ + data_type.label()
            },
            ReferenceAttentionError::InputLength { name, expected, actual } => {
                name@ + " input length mismatch: expected "@
                    + text::decimal(expected as nat) + ", got "@
                    + text::decimal(actual as nat)
            },
            ReferenceAttentionError::ResourceLimit { what, requested, limit } => {
                what@ + " exceeds configured limit: requested "@
                    + text::decimal(requested as nat) + ", limit "@
                    + text::decimal(limit as nat)
            },
            ReferenceAttentionError::AddressSpaceOverflow => {
                "attention tensor does not fit the host address space"@
            },
            ReferenceAttentionError::NumericalFailure => {
                "attention softmax produced a non-finite or zero denominator"@
            },
        }
    }

    /// The text of the error. `number` is how the number that it quotes is written: giving a
    /// floating-point number its decimal digits is left to the caller.
    pub fn message(self, number: &str) -> (r: String)
        ensures
            r@ == self.text(number@),
    {
        match self {
            ReferenceAttentionError::Protocol(error) => error.message(number),
            ReferenceAttentionError::UnsupportedDataType(data_type) => {
                let mut r = "CPU reference attention supports FP32 only, got ".to_owned();
                r.append(data_type.name());
                r
            },
            ReferenceAttentionError::InputLength { name, expected, actual } => {
                let mut r = name.to_owned();
                r.append(" input length mismatch: expected ");
                text::append_decimal(&mut r, expected as u64);
                r.append(", got ");
                text::append_decimal(&mut r, actual as u64);
                r
            },
            ReferenceAttentionError::ResourceLimit { what, requested, limit } => {
                let mut r = what.to_owned();
                r.append(" exceeds configured limit: requested ");
                text::append_decimal(&mut r, requested as u64);
                r.append(", limit ");
                text::append_decimal(&mut r, limit as u64);
                r
            },
            ReferenceAttentionError::AddressSpaceOverflow => {
                "attention tensor does not fit the host address space".to_owned()
            },
            ReferenceAttentionError::NumericalFailure => {
                "attention softmax produced a non-finite or zero denominator".to_owned()
            },
        }
    }
}

/// The dimensions of a run.
#[derive(Debug, Clone, Copy, PartialEq)]
pub struct AttentionShape {
    pub batch: usize,
    pub query_heads: usize,
    pub kv_heads: usize,
    pub query_len: usize,
    pub kv_len: usize,
    pub head_dim: usize,
    pub causal: bool,
    pub scale: Float32,
}

impl AttentionShape {
    /// How many query positions there are in all heads and batches.
    pub open spec fn rows(self) -> int {
        self.batch * self.query_heads * self.query_len
    }

    pub open spec fn kv_rows(self) -> int {
        self.batch * self.kv_heads * self.kv_len
    }

    pub open spec fn query_elements(self) -> int {
        self.rows() * self.head_dim
    }

    pub open spec fn kv_elements(self) -> int {
        self.kv_rows() * self.head_dim
    }

    pub open spec fn wf(self) -> bool {
        &&& self.batch > 0
        &&& self.query_heads > 0
        &&& self.kv_heads > 0
        &&& self.query_len > 0
        &&& self.kv_len > 0
        &&& self.head_dim > 0
        &&& self.query_heads % self.kv_heads == 0
        &&& self.kv_heads <= self.query_heads
        &&& self.causal ==> self.query_len <= self.kv_len
        &&& self.query_elements() <= usize::MAX
        &&& self.kv_elements() <= usize::MAX
    }

    /// The position of a row in its sequence.
    pub open spec fn position(self, row: int) -> int {
        row % self.query_len as int
    }

    /// The query head of a row.
    pub open spec fn query_head(self, row: int) -> int {
        (row / self.query_len as int) % self.query_heads as int
    }

    /// The batch of a row.
    pub open spec fn batch_of(self, row: int) -> int {
        (row / self.query_len as int) / self.query_heads as int
    }

    /// The key head that the query head of a row shares with its group.
    pub open spec fn kv_head(self, row: int) -> int {
        self.query_head(row) / (self.query_heads as int / self.kv_heads as int)
    }

    /// The first key row of a row's batch and key head.
    pub open spec fn kv_base(self, row: int) -> int {
        (self.batch_of(row) * self.kv_heads + self.kv_head(row)) * self.kv_len
    }

    /// How many keys a row attends to. Causal attention ends at the row's own position, counted
    /// from the end of the keys.
    pub open spec fn keys(self, row: int) -> int {
        if self.causal {
            self.kv_len - self.query_len + self.position(row) + 1
        } else {
            self.kv_len as int
        }
    }

    /// The product of a query and a key over the first `n` dimensions.
    pub open spec fn dot(
        self,
        q: Seq<Float32>,
        k: Seq<Float32>,
        row: int,
        key: int,
        n: nat,
    ) -> Float32
        decreases n,
    {
        if n == 0 {
            Float32 { bits: 0 }
        } else {
            self.dot(q, k, row, key, (n - 1) as nat).add_spec(
                q[row * self.head_dim + (n - 1)].mul_spec(
                    k[(self.kv_base(row) + key) * self.head_dim + (n - 1)],
                ),
            )
        }
    }

    /// How well a query and a key agree.
    pub open spec fn score(
        self,
        q: Seq<Float32>,
        k: Seq<Float32>,
        row: int,
        key: int,
    ) -> Float32 {
        self.dot(q, k, row, key, self.head_dim as nat).mul_spec(self.scale)
    }

    /// The best of the first `n` scores. What is not a number is passed over.
    pub open spec fn best(self, q: Seq<Float32>, k: Seq<Float32>, row: int, n: nat) -> Float32
        decreases n,
    {
        if n == 0 {
            minus_infinity()
        } else {
            let before = self.best(q, k, row, (n - 1) as nat);
            let next = self.score(q, k, row, n - 1);
            if before.less_spec(next) {
                next
            } else {
                before
            }
        }
    }

    /// The exponents of a row: its scores, less the best of them.
    pub open spec fn exponents(self, q: Seq<Float32>, k: Seq<Float32>, row: int) -> Seq<Float32> {
        let best = self.best(q, k, row, self.keys(row) as nat);
        Seq::new(
            self.keys(row) as nat,
            |key: int| self.score(q, k, row, key).add_spec(best.neg_spec()),
        )
    }

    /// One element of the result after the first `n` keys.
    pub open spec fn blend(
        self,
        exponentials: Seq<Float32>,
        v: Seq<Float32>,
        row: int,
        dim: int,
        n: nat,
    ) -> Float32
        decreases n,
    {
        if n == 0 {
            Float32 { bits: 0 }
        } else {
            let weight = exponentials[n - 1].div_spec(total(exponentials, exponentials.len()));
            self.blend(exponentials, v, row, dim, (n - 1) as nat).add_spec(
                weight.mul_spec(v[(self.kv_base(row) + (n - 1)) * self.head_dim + dim]),
            )
        }
    }

    /// One row of the result.
    pub open spec fn row_values(
        self,
        exponentials: Seq<Float32>,
        v: Seq<Float32>,
        row: int,
    ) -> Seq<Float32> {
        Seq::new(
            self.head_dim as nat,
            |dim: int| self.blend(exponentials, v, row, dim, exponentials.len()),
        )
    }
}

/// The number below every other.
pub open spec fn minus_infinity() -> Float32 {
    Float32 { bits: 0xff80_0000 }
}

/// The sum of the first `n` numbers, added one after the other.
pub open spec fn total(values: Seq<Float32>, n: nat) -> Float32
    decreases n,
{
    if n == 0 {
        Float32 { bits: 0 }
    } else {
        total(values, (n - 1) as nat).add_spec(values[n - 1])
    }
}

/// The lengths that a control implies, in elements.
pub open spec fn expected_elements(control: AttentionControl) -> (int, int) {
    (control.query_elements(), control.kv_elements())
}

/// Why attention is refused before any work is done.
pub open spec fn refusal(
    control: AttentionControl,
    q: nat,
    k: nat,
    v: nat,
    limits: AttentionLimits,
) -> Option<ReferenceAttentionError> {
    let (queries, keys) = expected_elements(control);
    let scores = control.batch * control.query_heads * control.query_len * control.kv_len;
    if control.defect() is Some {
        Some(ReferenceAttentionError::Protocol(control.defect()->0))
    } else if control.data_type != AttentionDataType::F32 {
        Some(ReferenceAttentionError::UnsupportedDataType(control.data_type))
    } else if queries > usize::MAX || keys > usize::MAX {
        Some(ReferenceAttentionError::AddressSpaceOverflow)
    } else if q != queries {
        Some(
            ReferenceAttentionError::InputLength {
                name: "q",
                expected: queries as usize,
                actual: q as usize,
            },
        )
    } else if k != keys {
        Some(
            ReferenceAttentionError::InputLength {
                name: "k",
                expected: keys as usize,
                actual: k as usize,
            },
        )
    } else if v != keys {
        Some(
            ReferenceAttentionError::InputLength {
                name: "v",
                expected: keys as usize,
                actual: v as usize,
            },
        )
    } else if queries > limits.max_tensor_elements {
        Some(
            ReferenceAttentionError::ResourceLimit {
                what: "output tensor elements",
                requested: queries as u64,
                limit: limits.max_tensor_elements,
            },
        )
    } else if scores > u64::MAX {
        Some(ReferenceAttentionError::AddressSpaceOverflow)
    } else if scores > limits.max_score_elements {
        Some(
            ReferenceAttentionError::ResourceLimit {
                what: "attention score elements",
                requested: scores as u64,
                limit: limits.max_score_elements,
            },
        )
    } else {
        None
    }
}

/// The shape that a control asks for.
pub open spec fn shape_of(control: AttentionControl) -> AttentionShape {
    AttentionShape {
        batch: control.batch as usize,
        query_heads: control.query_heads as usize,
        kv_heads: control.kv_heads as usize,
        query_len: control.query_len as usize,
        kv_len: control.kv_len as usize,
        head_dim: control.head_dim as usize,
        causal: control.causal(),
        scale: control.scale,
    }
}

fn elements_from_f32_bytes(bytes: u64) -> (r: Result<usize, ReferenceAttentionError>)
    ensures
        match r {
            Ok(elements) => elements == bytes / 4,
            Err(error) => bytes / 4 > usize::MAX && error
                == ReferenceAttentionError::AddressSpaceOverflow,
        },
{
    let elements: u64 = bytes / 4;
    if elements > usize::MAX as u64 {
        return Err(ReferenceAttentionError::AddressSpaceOverflow);
    }
    Ok(elements as usize)
}

fn check_input_len(name: &'static str, actual: usize, expected: usize) -> (r: Result<
    (),
    ReferenceAttentionError,
>)
    ensures
        match r {
            Ok(_) => actual == expected,
            Err(error) => actual != expected && error == (ReferenceAttentionError::InputLength {
                name,
                expected,
                actual,
            }),
        },
{
    if actual != expected {
        return Err(ReferenceAttentionError::InputLength { name, expected, actual });
    }
    Ok(())
}

/// How many scores there are, where they can be counted.
fn score_elements(control: &AttentionControl) -> (r: Result<u64, ReferenceAttentionError>)
    requires
        control.batch * control.query_heads * control.query_len <= u64::MAX,
    ensures
        ({
            let scores = control.batch * control.query_heads * control.query_len * control.kv_len;
            match r {
                Ok(count) => count == scores,
                Err(error) => scores > u64::MAX && error
                    == ReferenceAttentionError::AddressSpaceOverflow,
            }
        }),
{
    proof {
        let a = control.batch as int;
        let b = control.query_heads as int;
        let c = control.query_len as int;
        assert(0 <= a * b <= 0xffff_ffff * 0xffff_ffff) by (nonlinear_arith)
            requires
                0 <= a <= 0xffff_ffff,
                0 <= b <= 0xffff_ffff,
        ;
        assert(0 <= a * b * c) by (nonlinear_arith)
            requires
                0 <= a * b,
                0 <= c,
        ;
    }
    let heads: u64 = control.batch as u64 * control.query_heads as u64;
    let rows: u64 = heads * control.query_len as u64;
    match rows.checked_mul(control.kv_len as u64) {
        Some(count) => Ok(count),
        None => Err(ReferenceAttentionError::AddressSpaceOverflow),
    }
}

/// A run of attention: its shape, the next row and the rows of the result so far.
pub struct AttentionRun {
    shape: AttentionShape,
    row: usize,
    rows: usize,
    output: Vec<Float32>,
}

/// Where the elements of a row stand.
proof fn lemma_row_place(shape: AttentionShape, row: int)
    requires
        shape.wf(),
        0 <= row < shape.rows(),
    ensures
        0 <= row * shape.head_dim,
        row * shape.head_dim + shape.head_dim <= shape.query_elements(),
{
    let d = shape.head_dim as int;
    let rows = shape.rows();
    assert(0 <= row * d && row * d + d <= rows * d) by (nonlinear_arith)
        requires
            0 <= row < rows,
            d > 0,
    ;
}

/// The batch, the heads and the position of a row are inside their dimensions.
proof fn lemma_row_parts(shape: AttentionShape, row: int)
    requires
        shape.wf(),
        0 <= row < shape.rows(),
    ensures
        0 <= shape.batch_of(row) < shape.batch,
        0 <= shape.query_head(row) < shape.query_heads,
        0 <= shape.kv_head(row) < shape.kv_heads,
        0 <= shape.position(row) < shape.query_len,
        shape.query_heads as int / shape.kv_heads as int > 0,
        0 <= row / shape.query_len as int,
{
    let l = shape.query_len as int;
    let h = shape.query_heads as int;
    let g = shape.kv_heads as int;
    let b = shape.batch as int;
    let line = row / l;
    vstd::arithmetic::div_mod::lemma_fundamental_div_mod(row, l);
    vstd::arithmetic::div_mod::lemma_mod_bound(row, l);
    let p = row % l;
    assert(0 <= line < b * h) by (nonlinear_arith)
        requires
            row == l * line + p,
            0 <= p < l,
            0 <= row < b * h * l,
            l > 0,
    ;
    vstd::arithmetic::div_mod::lemma_fundamental_div_mod(line, h);
    vstd::arithmetic::div_mod::lemma_mod_bound(line, h);
    let head = line % h;
    let bi = line / h;
    assert(0 <= bi < b) by (nonlinear_arith)
        requires
            line == h * bi + head,
            0 <= head < h,
            0 <= line < b * h,
            h > 0,
    ;
    vstd::arithmetic::div_mod::lemma_fundamental_div_mod(h, g);
    let per = h / g;
    assert(per > 0) by (nonlinear_arith)
        requires
            h == g * per + h % g,
            h % g == 0,
            h > 0,
            g > 0,
    ;
    vstd::arithmetic::div_mod::lemma_fundamental_div_mod(head, per);
    vstd::arithmetic::div_mod::lemma_mod_bound(head, per);
    let kv = head / per;
    assert(0 <= kv < g) by (nonlinear_arith)
        requires
            head == per * kv + head % per,
            0 <= head % per < per,
            0 <= head < h,
            h == g * per,
            per > 0,
    ;
}

/// Where the elements of a key stand.
proof fn lemma_key_place(shape: AttentionShape, row: int, key: int)
    requires
        shape.wf(),
        0 <= row < shape.rows(),
        0 <= key < shape.kv_len,
    ensures
        0 <= shape.kv_base(row),
        shape.kv_base(row) + shape.kv_len <= shape.kv_rows(),
        0 <= (shape.kv_base(row) + key) * shape.head_dim,
        (shape.kv_base(row) + key) * shape.head_dim + shape.head_dim <= shape.kv_elements(),
{
    lemma_row_parts(shape, row);
    let b = shape.batch as int;
    let g = shape.kv_heads as int;
    let t = shape.kv_len as int;
    let d = shape.head_dim as int;
    let bi = shape.batch_of(row);
    let kv = shape.kv_head(row);
    let line = bi * g + kv;
    assert(0 <= line && line + 1 <= b * g) by (nonlinear_arith)
        requires
            0 <= bi < b,
            0 <= kv < g,
            line == bi * g + kv,
    ;
    let base = line * t;
    let all = b * g * t;
    assert(0 <= base && base + t <= all) by (nonlinear_arith)
        requires
            0 <= line,
            line + 1 <= b * g,
            base == line * t,
            all == b * g * t,
            t > 0,
    ;
    let at = base + key;
    assert(0 <= at * d && at * d + d <= all * d) by (nonlinear_arith)
        requires
            0 <= at < all,
            d > 0,
    ;
}

/// A row attends to at least one key and to no more than there are.
proof fn lemma_keys(shape: AttentionShape, row: int)
    requires
        shape.wf(),
        0 <= row < shape.rows(),
    ensures
        1 <= shape.keys(row) <= shape.kv_len,
{
    lemma_row_parts(shape, row);
}

/// The dimensions of a control that nothing is wrong with, as a shape.
proof fn lemma_shape(control: AttentionControl)
    requires
        control.defect() is None,
        control.query_elements() <= usize::MAX,
        control.kv_elements() <= usize::MAX,
    ensures
        shape_of(control).wf(),
        shape_of(control).query_elements() == control.query_elements(),
        shape_of(control).kv_elements() == control.kv_elements(),
        0 <= shape_of(control).rows() <= shape_of(control).query_elements(),
{
    let rows = shape_of(control).rows();
    let d = control.head_dim as int;
    let (a, b, c) = (control.batch as int, control.query_heads as int, control.query_len as int);
    assert(0 <= a * b) by (nonlinear_arith)
        requires
            a >= 0,
            b >= 0,
    ;
    assert(0 <= a * b * c) by (nonlinear_arith)
        requires
            a * b >= 0,
            c >= 0,
    ;
    assert(rows <= rows * d) by (nonlinear_arith)
        requires
            rows >= 0,
            d >= 1,
    ;
}

impl AttentionRun {
    pub closed spec fn shape(&self) -> AttentionShape {
        self.shape
    }

    /// The row that comes next.
    pub closed spec fn row(&self) -> int {
        self.row as int
    }

    /// The rows that are there, one after the other.
    pub closed spec fn output(&self) -> Seq<Float32> {
        self.output@
    }

    pub closed spec fn wf(&self) -> bool {
        &&& self.shape.wf()
        &&& self.rows == self.shape.rows()
        &&& self.row <= self.rows
        &&& self.output@.len() == self.row * self.shape.head_dim
    }

    /// Whether every row is there.
    pub open spec fn done(&self) -> bool {
        self.row() >= self.shape().rows()
    }

    /// Holds the control, the lengths of the inputs and the amount of work to what is allowed, and
    /// starts at the first row.
    pub fn start(
        control: AttentionControl,
        q_len: usize,
        k_len: usize,
        v_len: usize,
        limits: AttentionLimits,
    ) -> (r: Result<Self, ReferenceAttentionError>)
        ensures
            match r {
                Ok(run) => {
                    &&& refusal(control, q_len as nat, k_len as nat, v_len as nat, limits) is None
                    &&& run.wf()
                    &&& run.shape() == shape_of(control)
                    &&& run.row() == 0
                    &&& run.output() == Seq::<Float32>::empty()
                    &&& q_len == run.shape().query_elements()
                    &&& k_len == run.shape().kv_elements()
                    &&& v_len == run.shape().kv_elements()
                },
                Err(error) => refusal(
                    control,
                    q_len as nat,
                    k_len as nat,
                    v_len as nat,
                    limits,
                ) == Some(error),
            },
    {
        match control.validate() {
            Ok(_) => {},
            Err(error) => {
                return Err(ReferenceAttentionError::Protocol(error));
            },
        }
        if control.data_type != AttentionDataType::F32 {
            return Err(ReferenceAttentionError::UnsupportedDataType(control.data_type));
        }
        let lengths = match attention_protocol::expected_resource_lengths(control) {
            Ok(lengths) => lengths,
            Err(error) => {
                return Err(ReferenceAttentionError::Protocol(error));
            },
        };
        let expected_q: usize = match elements_from_f32_bytes(lengths[Q_RESOURCE_INDEX]) {
            Ok(elements) => elements,
            Err(error) => {
                return Err(error);
            },
        };
        let expected_k: usize = match elements_from_f32_bytes(lengths[K_RESOURCE_INDEX]) {
            Ok(elements) => elements,
            Err(error) => {
                return Err(error);
            },
        };
        let expected_v: usize = match elements_from_f32_bytes(lengths[V_RESOURCE_INDEX]) {
            Ok(elements) => elements,
            Err(error) => {
                return Err(error);
            },
        };
        let expected_o: usize = match elements_from_f32_bytes(lengths[O_RESOURCE_INDEX]) {
            Ok(elements) => elements,
            Err(error) => {
                return Err(error);
            },
        };
        match check_input_len("q", q_len, expected_q) {
            Ok(_) => {},
            Err(error) => {
                return Err(error);
            },
        }
        match check_input_len("k", k_len, expected_k) {
            Ok(_) => {},
            Err(error) => {
                return Err(error);
            },
        }
        match check_input_len("v", v_len, expected_v) {
            Ok(_) => {},
            Err(error) => {
                return Err(error);
            },
        }
        let output_elements: u64 = expected_o as u64;
        if output_elements > limits.max_tensor_elements {
            return Err(
                ReferenceAttentionError::ResourceLimit {
                    what: "output tensor elements",
                    requested: output_elements,
                    limit: limits.max_tensor_elements,
                },
            );
        }
        let scores: u64 = match score_elements(&control) {
            Ok(scores) => scores,
            Err(error) => {
                return Err(error);
            },
        };
        if scores > limits.max_score_elements {
            return Err(
                ReferenceAttentionError::ResourceLimit {
                    what: "attention score elements",
                    requested: scores,
                    limit: limits.max_score_elements,
                },
            );
        }
        let shape = AttentionShape {
            batch: control.batch as usize,
            query_heads: control.query_heads as usize,
            kv_heads: control.kv_heads as usize,
            query_len: control.query_len as usize,
            kv_len: control.kv_len as usize,
            head_dim: control.head_dim as usize,
            causal: control.is_causal(),
            scale: control.scale,
        };
        proof {
            lemma_shape(control);
            lemma_rows_divide(control);
        }
        let rows: usize = expected_o / shape.head_dim;
        proof {
            let d = shape.head_dim as int;
            assert(0 * d == 0) by (nonlinear_arith);
        }
        Ok(AttentionRun { shape, row: 0, rows, output: Vec::with_capacity(expected_o) })
    }

    pub fn is_done(&self) -> (r: bool)
        requires
            self.wf(),
        ensures
            r == self.done(),
    {
        self.row >= self.rows
    }

    /// How many keys the next row attends to.
    fn key_count(&self) -> (r: usize)
        requires
            self.wf(),
            !self.done(),
        ensures
            r == self.shape.keys(self.row as int),
            1 <= r <= self.shape.kv_len,
    {
        proof {
            lemma_keys(self.shape, self.row as int);
            lemma_row_parts(self.shape, self.row as int);
        }
        if self.shape.causal {
            self.shape.kv_len - self.shape.query_len + self.row % self.shape.query_len + 1
        } else {
            self.shape.kv_len
        }
    }

    /// The first key row of the next row.
    fn kv_base(&self) -> (r: usize)
        requires
            self.wf(),
            !self.done(),
        ensures
            r == self.shape.kv_base(self.row as int),
            r + self.shape.kv_len <= self.shape.kv_rows(),
            self.shape.kv_rows() <= usize::MAX,
    {
        proof {
            lemma_row_parts(self.shape, self.row as int);
            lemma_key_place(self.shape, self.row as int, 0);
            let kv_rows = self.shape.kv_rows();
            let d = self.shape.head_dim as int;
            assert(kv_rows <= kv_rows * d) by (nonlinear_arith)
                requires
                    kv_rows >= 0,
                    d >= 1,
            ;
            let line = self.shape.batch_of(self.row as int) * self.shape.kv_heads
                + self.shape.kv_head(self.row as int);
            let t = self.shape.kv_len as int;
            assert(line <= line * t) by (nonlinear_arith)
                requires
                    line >= 0,
                    t >= 1,
            ;
            let bi = self.shape.batch_of(self.row as int);
            let g = self.shape.kv_heads as int;
            assert(0 <= bi * g) by (nonlinear_arith)
                requires
                    bi >= 0,
                    g >= 0,
            ;
        }
        let line: usize = self.row / self.shape.query_len;
        let head: usize = line % self.shape.query_heads;
        let batch: usize = line / self.shape.query_heads;
        let kv_head: usize = head / (self.shape.query_heads / self.shape.kv_heads);
        (batch * self.shape.kv_heads + kv_head) * self.shape.kv_len
    }

    /// The product of the next query with one key.
    fn dot(&self, q: &[Float32], k: &[Float32], base: usize, key: usize) -> (r: Float32)
        requires
            self.wf(),
            !self.done(),
            q@.len() == self.shape.query_elements(),
            k@.len() == self.shape.kv_elements(),
            base == self.shape.kv_base(self.row as int),
            key < self.shape.kv_len,
        ensures
            r == self.shape.dot(
                q@,
                k@,
                self.row as int,
                key as int,
                self.shape.head_dim as nat,
            ),
    {
        let d: usize = self.shape.head_dim;
        let q_total: usize = q.len();
        let k_total: usize = k.len();
        proof {
            lemma_row_place(self.shape, self.row as int);
            lemma_key_place(self.shape, self.row as int, key as int);
            let at = base + key;
            let dn = d as int;
            assert(at <= at * dn) by (nonlinear_arith)
                requires
                    at >= 0,
                    dn >= 1,
            ;
        }
        let q_at: usize = self.row * d;
        let k_at: usize = (base + key) * d;
        let mut sum: Float32 = Float32 { bits: 0 };
        let mut dim: usize = 0;
        while dim < d
            invariant
                dim <= d == self.shape.head_dim,
                q_at == self.row * d,
                k_at == (self.shape.kv_base(self.row as int) + key) * d,
                q_at + d <= q_total == q@.len(),
                k_at + d <= k_total == k@.len(),
                sum == self.shape.dot(q@, k@, self.row as int, key as int, dim as nat),
            decreases d - dim,
        {
            sum = sum.plus(q[q_at + dim].times(k[k_at + dim]));
            dim = dim + 1;
        }
        sum
    }

    /// The exponents of the next row.
    pub fn exponents(&self, q: &[Float32], k: &[Float32]) -> (r: Vec<Float32>)
        requires
            self.wf(),
            !self.done(),
            q@.len() == self.shape().query_elements(),
            k@.len() == self.shape().kv_elements(),
        ensures
            r@ == self.shape().exponents(q@, k@, self.row()),
    {
        let count: usize = self.key_count();
        let base: usize = self.kv_base();
        let mut scores: Vec<Float32> = Vec::with_capacity(count);
        let mut best: Float32 = Float32 { bits: 0xff80_0000 };
        let mut key: usize = 0;
        while key < count
            invariant
                self.wf(),
                !self.done(),
                q@.len() == self.shape.query_elements(),
                k@.len() == self.shape.kv_elements(),
                count == self.shape.keys(self.row as int),
                count <= self.shape.kv_len,
                base == self.shape.kv_base(self.row as int),
                key <= count,
                scores@.len() == key,
                best == self.shape.best(q@, k@, self.row as int, key as nat),
                forall|j: int|
                    #![trigger scores@[j]]
                    0 <= j < key ==> scores@[j] == self.shape.score(q@, k@, self.row as int, j),
            decreases count - key,
        {
            let score: Float32 = self.dot(q, k, base, key).times(self.shape.scale);
            if best.is_less(score) {
                best = score;
            }
            scores.push(score);
            key = key + 1;
        }
        let shift: Float32 = best.negated();
        let mut r: Vec<Float32> = Vec::with_capacity(count);
        let mut i: usize = 0;
        while i < count
            invariant
                i <= count == scores@.len(),
                count == self.shape.keys(self.row as int),
                r@.len() == i,
                shift == self.shape.best(q@, k@, self.row as int, count as nat).neg_spec(),
                forall|j: int|
                    #![trigger scores@[j]]
                    0 <= j < count ==> scores@[j] == self.shape.score(q@, k@, self.row as int, j),
                forall|j: int|
                    #![trigger r@[j]]
                    0 <= j < i ==> r@[j] == self.shape.score(
                        q@,
                        k@,
                        self.row as int,
                        j,
                    ).add_spec(shift),
            decreases count - i,
        {
            r.push(scores[i].plus(shift));
            i = i + 1;
        }
        assert(r@ =~= self.shape().exponents(q@, k@, self.row()));
        r
    }

    /// Takes the exponentials of the next row and adds the row to the result. Fails where their
    /// sum is not a positive number.
    pub fn accept(&mut self, exponentials: &[Float32], v: &[Float32]) -> (r: Result<
        (),
        ReferenceAttentionError,
    >)
        requires
            old(self).wf(),
            !old(self).done(),
            exponentials@.len() == old(self).shape().keys(old(self).row()),
            v@.len() == old(self).shape().kv_elements(),
        ensures
            final(self).wf(),
            final(self).shape() == old(self).shape(),
            match r {
                Ok(_) => {
                    &&& total(exponentials@, exponentials@.len()).is_positive()
                    &&& final(self).row() == old(self).row() + 1
                    &&& final(self).output() == old(self).output() + old(
                        self,
                    ).shape().row_values(exponentials@, v@, old(self).row())
                },
                Err(error) => {
                    &&& !total(exponentials@, exponentials@.len()).is_positive()
                    &&& error == ReferenceAttentionError::NumericalFailure
                    &&& final(self).row() == old(self).row()
                    &&& final(self).output() == old(self).output()
                },
            },
    {
        let count: usize = self.key_count();
        let base: usize = self.kv_base();
        let mut denominator: Float32 = Float32 { bits: 0 };
        let mut i: usize = 0;
        while i < count
            invariant
                i <= count == exponentials@.len(),
                denominator == total(exponentials@, i as nat),
            decreases count - i,
        {
            denominator = denominator.plus(exponentials[i]);
            i = i + 1;
        }
        if !denominator.is_finite_positive() {
            return Err(ReferenceAttentionError::NumericalFailure);
        }
        let d: usize = self.shape.head_dim;
        let v_total: usize = v.len();
        let ghost shape = self.shape;
        let ghost row = self.row as int;
        let ghost before = self.output@;
        let ghost values = shape.row_values(exponentials@, v@, row);
        let mut dim: usize = 0;
        while dim < d
            invariant
                dim <= d == shape.head_dim,
                shape.wf(),
                0 <= row < shape.rows(),
                self.shape == shape,
                self.row == row,
                self.rows == shape.rows(),
                count == exponentials@.len() <= shape.kv_len,
                base == shape.kv_base(row),
                base + shape.kv_len <= shape.kv_rows() <= usize::MAX,
                v_total == v@.len() == shape.kv_elements(),
                denominator == total(exponentials@, count as nat),
                values == shape.row_values(exponentials@, v@, row),
                self.output@ == before + values.take(dim as int),
            decreases d - dim,
        {
            let mut sum: Float32 = Float32 { bits: 0 };
            let mut key: usize = 0;
            while key < count
                invariant
                    key <= count == exponentials@.len() <= shape.kv_len,
                    dim < d == shape.head_dim,
                    shape.wf(),
                    0 <= row < shape.rows(),
                    base == shape.kv_base(row),
                    base + shape.kv_len <= shape.kv_rows() <= usize::MAX,
                    v_total == v@.len() == shape.kv_elements(),
                    denominator == total(exponentials@, count as nat),
                    sum == shape.blend(exponentials@, v@, row, dim as int, key as nat),
                decreases count - key,
            {
                proof {
                    lemma_key_place(shape, row, key as int);
                }
                let weight: Float32 = exponentials[key].divided_by(denominator);
                sum = sum.plus(weight.times(v[(base + key) * d + dim]));
                key = key + 1;
            }
            self.output.push(sum);
            proof {
                assert(values[dim as int] == sum);
                assert(values.take(dim + 1) =~= values.take(dim as int).push(sum));
                assert(self.output@ =~= before + values.take(dim + 1));
            }
            dim = dim + 1;
        }
        proof {
            assert(values.take(d as int) =~= values);
            assert((row + 1) * d == row * d + d) by (nonlinear_arith);
        }
        self.row = self.row + 1;
        Ok(())
    }

    /// The result, once every row is there.
    pub fn finish(self) -> (r: Vec<Float32>)
        requires
            self.wf(),
            self.done(),
        ensures
            r@ == self.output(),
            r@.len() == self.shape().query_elements(),
    {
        self.output
    }
}

/// The elements of the result, divided by the length of a row, are the rows.
proof fn lemma_rows_divide(control: AttentionControl)
    requires
        control.defect() is None,
    ensures
        control.query_elements() / (control.head_dim as int) == control.batch * control.query_heads
            * control.query_len,
{
    let rows = control.batch * control.query_heads * control.query_len;
    let d = control.head_dim as int;
    vstd::arithmetic::div_mod::lemma_div_by_multiple(rows, d);
}

/// Two rows of the same batch and head attend to the same keys, the later one of causal attention
/// to those of the earlier one and as many more as it is later.
pub proof fn causal_rows_extend_earlier_ones(shape: AttentionShape, row: int, later: int)
    requires
        shape.wf(),
        shape.causal,
        0 <= row <= later < shape.rows(),
        row / shape.query_len as int == later / shape.query_len as int,
    ensures
        shape.kv_base(later) == shape.kv_base(row),
        shape.keys(later) == shape.keys(row) + (later - row),
{
    vstd::arithmetic::div_mod::lemma_fundamental_div_mod(row, shape.query_len as int);
    vstd::arithmetic::div_mod::lemma_fundamental_div_mod(later, shape.query_len as int);
}

/// The last position of causal attention sees every key.
pub proof fn the_last_position_sees_every_key(shape: AttentionShape, row: int)
    requires
        shape.wf(),
        0 <= row < shape.rows(),
        shape.position(row) == shape.query_len - 1,
    ensures
        shape.keys(row) == shape.kv_len,
{
}

/// The query heads of a group share the keys of one key head: group `h` those of key head `h`.
pub proof fn heads_of_a_group_share_their_keys(shape: AttentionShape, row: int, other: int, h: int)
    requires
        shape.wf(),
        0 <= row < shape.rows(),
        0 <= other < shape.rows(),
        shape.batch_of(row) == shape.batch_of(other),
        ({
            let group = shape.query_heads as int / shape.kv_heads as int;
            &&& h * group <= shape.query_head(row) < (h + 1) * group
            &&& h * group <= shape.query_head(other) < (h + 1) * group
        }),
    ensures
        shape.kv_head(row) == h,
        shape.kv_base(row) == shape.kv_base(other),
{
    let group = shape.query_heads as int / shape.kv_heads as int;
    assert((h + 1) * group == h * group + group) by (nonlinear_arith);
    let a = shape.query_head(row);
    let b = shape.query_head(other);
    vstd::arithmetic::div_mod::lemma_fundamental_div_mod_converse(a, group, h, a - h * group);
    vstd::arithmetic::div_mod::lemma_fundamental_div_mod_converse(b, group, h, b - h * group);
}

/// Whether two tensors hold the same under the keys that a row attends to.
pub open spec fn agree_on_keys(
    shape: AttentionShape,
    a: Seq<Float32>,
    b: Seq<Float32>,
    row: int,
) -> bool {
    forall|key: int, dim: int|
        #![trigger a[(shape.kv_base(row) + key) * shape.head_dim + dim]]
        #![trigger b[(shape.kv_base(row) + key) * shape.head_dim + dim]]
        0 <= key < shape.keys(row) && 0 <= dim < shape.head_dim
            ==> a[(shape.kv_base(row) + key) * shape.head_dim + dim] == b[(shape.kv_base(row) + key)
            * shape.head_dim + dim]
}

/// Keys and values that a row does not attend to, such as those after its position in causal
/// attention, change nothing in it: neither its exponents nor its result.
pub proof fn other_keys_do_not_reach_a_row(
    shape: AttentionShape,
    q: Seq<Float32>,
    k: Seq<Float32>,
    other_k: Seq<Float32>,
    exponentials: Seq<Float32>,
    v: Seq<Float32>,
    other_v: Seq<Float32>,
    row: int,
)
    requires
        shape.wf(),
        0 <= row < shape.rows(),
        exponentials.len() == shape.keys(row),
        agree_on_keys(shape, k, other_k, row),
        agree_on_keys(shape, v, other_v, row),
    ensures
        shape.exponents(q, k, row) == shape.exponents(q, other_k, row),
        shape.row_values(exponentials, v, row) == shape.row_values(exponentials, other_v, row),
{
    let n = shape.keys(row);
    assert forall|key: int| 0 <= key < n implies #[trigger] shape.score(q, k, row, key) == shape.score(
        q,
        other_k,
        row,
        key,
    ) by {
        lemma_same_dot(shape, q, k, other_k, row, key, shape.head_dim as nat);
    }
    lemma_same_best(shape, q, k, other_k, row, n as nat);
    assert(shape.exponents(q, k, row) =~= shape.exponents(q, other_k, row));
    assert forall|dim: int| 0 <= dim < shape.head_dim implies #[trigger] shape.blend(
        exponentials,
        v,
        row,
        dim,
        exponentials.len(),
    ) == shape.blend(exponentials, other_v, row, dim, exponentials.len()) by {
        lemma_same_blend(shape, exponentials, v, other_v, row, dim, n as nat);
    }
    assert(shape.row_values(exponentials, v, row) =~= shape.row_values(
        exponentials,
        other_v,
        row,
    ));
}

proof fn lemma_same_dot(
    shape: AttentionShape,
    q: Seq<Float32>,
    k: Seq<Float32>,
    other: Seq<Float32>,
    row: int,
    key: int,
    n: nat,
)
    requires
        agree_on_keys(shape, k, other, row),
        0 <= key < shape.keys(row),
        n <= shape.head_dim,
    ensures
        shape.dot(q, k, row, key, n) == shape.dot(q, other, row, key, n),
    decreases n,
{
    if n > 0 {
        lemma_same_dot(shape, q, k, other, row, key, (n - 1) as nat);
        assert(k[(shape.kv_base(row) + key) * shape.head_dim + (n - 1)] == other[(shape.kv_base(row)
            + key) * shape.head_dim + (n - 1)]);
    }
}

proof fn lemma_same_best(
    shape: AttentionShape,
    q: Seq<Float32>,
    k: Seq<Float32>,
    other: Seq<Float32>,
    row: int,
    n: nat,
)
    requires
        agree_on_keys(shape, k, other, row),
        n <= shape.keys(row),
    ensures
        shape.best(q, k, row, n) == shape.best(q, other, row, n),
    decreases n,
{
    if n > 0 {
        lemma_same_best(shape, q, k, other, row, (n - 1) as nat);
        lemma_same_dot(shape, q, k, other, row, n - 1, shape.head_dim as nat);
    }
}

proof fn lemma_same_blend(
    shape: AttentionShape,
    exponentials: Seq<Float32>,
    v: Seq<Float32>,
    other: Seq<Float32>,
    row: int,
    dim: int,
    n: nat,
)
    requires
        agree_on_keys(shape, v, other, row),
        0 <= dim < shape.head_dim,
        n <= shape.keys(row),
    ensures
        shape.blend(exponentials, v, row, dim, n) == shape.blend(exponentials, other, row, dim, n),
    decreases n,
{
    if n > 0 {
        lemma_same_blend(shape, exponentials, v, other, row, dim, (n - 1) as nat);
        assert(v[(shape.kv_base(row) + (n - 1)) * shape.head_dim + dim] == other[(shape.kv_base(row)
            + (n - 1)) * shape.head_dim + dim]);
    }
}

/// The row of a position in a query head of a batch.
pub open spec fn row_at(shape: AttentionShape, batch: int, head: int, position: int) -> int {
    (batch * shape.query_heads + head) * shape.query_len + position
}

/// The row of a key in a key head of a batch.
pub open spec fn key_row_at(shape: AttentionShape, batch: int, kv_head: int, key: int) -> int {
    (batch * shape.kv_heads + kv_head) * shape.kv_len + key
}

/// Rows go by batch, by head and by position. Each key head serves a group of as many query heads
/// as there are for each, next to each other. A row attends to all keys or, in causal attention, to
/// those up to its own position, counted from the end.
pub proof fn the_place_of_a_row(
    shape: AttentionShape,
    batch: int,
    kv_head: int,
    group: int,
    within: int,
    position: int,
)
    requires
        shape.wf(),
        0 <= batch < shape.batch,
        0 <= kv_head < shape.kv_heads,
        shape.query_heads == shape.kv_heads * group,
        0 <= within < group,
        0 <= position < shape.query_len,
    ensures
        ({
            let row = row_at(shape, batch, kv_head * group + within, position);
            &&& 0 <= row < shape.batch * shape.query_heads * shape.query_len
            &&& shape.kv_base(row) == key_row_at(shape, batch, kv_head, 0)
            &&& shape.keys(row) == if shape.causal {
                shape.kv_len - shape.query_len + position + 1
            } else {
                shape.kv_len as int
            }
        }),
{
    let heads = shape.query_heads as int;
    let len = shape.query_len as int;
    let head = kv_head * group + within;
    let row = row_at(shape, batch, head, position);
    assert(0 <= head < heads) by (nonlinear_arith)
        requires
            0 <= kv_head < shape.kv_heads,
            heads == shape.kv_heads * group,
            0 <= within < group,
            head == kv_head * group + within,
    ;
    vstd::arithmetic::div_mod::lemma_fundamental_div_mod_converse(
        row,
        len,
        batch * heads + head,
        position,
    );
    vstd::arithmetic::div_mod::lemma_fundamental_div_mod_converse(
        batch * heads + head,
        heads,
        batch,
        head,
    );
    vstd::arithmetic::div_mod::lemma_div_by_multiple(group, shape.kv_heads as int);
    assert(heads == group * shape.kv_heads) by (nonlinear_arith)
        requires
            heads == shape.kv_heads * group,
    ;
    vstd::arithmetic::div_mod::lemma_fundamental_div_mod_converse(head, group, kv_head, within);
    assert(0 <= row < shape.batch * heads * len) by (nonlinear_arith)
        requires
            row == (batch * heads + head) * len + position,
            0 <= batch < shape.batch,
            0 <= head < heads,
            0 <= position < len,
    ;
}

/// The product of `n` numbers from place `i` of one sequence with as many from place `j` of
/// another.
pub open spec fn integer_dot(a: Seq<int>, b: Seq<int>, i: int, j: int, n: nat) -> int
    decreases n,
{
    if n == 0 {
        0
    } else {
        integer_dot(a, b, i, j, (n - 1) as nat) + a[i + (n - 1)] * b[j + (n - 1)]
    }
}

/// Whether the numbers are these integers.
pub open spec fn are_integers(values: Seq<Float32>, integers: Seq<int>) -> bool {
    &&& values.len() == integers.len()
    &&& forall|i: int|
        #![trigger values[i]]
        #![trigger integers[i]]
        0 <= i < values.len() ==> values[i].is_integer(integers[i])
}

/// Queries, keys and a scale that are integers small enough not to be rounded: the exponent of a
/// key is the scale times the product of the query and the key, less the largest such product of
/// the row. The key with the largest is handed back.
pub proof fn integer_exponents_are_scaled_products_less_the_largest(
    shape: AttentionShape,
    q: Seq<Float32>,
    k: Seq<Float32>,
    queries: Seq<int>,
    keys: Seq<int>,
    scale: int,
    step: int,
    batch: int,
    kv_head: int,
    group: int,
    within: int,
    position: int,
) -> (best: int)
    requires
        shape.wf(),
        q.len() == shape.query_elements(),
        k.len() == shape.kv_elements(),
        are_integers(q, queries),
        are_integers(k, keys),
        shape.scale.is_integer(scale),
        0 <= step,
        forall|i: int, j: int|
            #![trigger queries[i], keys[j]]
            0 <= i < queries.len() && 0 <= j < keys.len() ==> -step <= queries[i] * keys[j] <= step,
        shape.head_dim * step <= 0x100_0000,
        exact::size(scale) * (shape.head_dim * step) <= 0x80_0000,
        0 <= batch < shape.batch,
        0 <= kv_head < shape.kv_heads,
        shape.query_heads == shape.kv_heads * group,
        0 <= within < group,
        0 <= position < shape.query_len,
    ensures
        ({
            let row = row_at(shape, batch, kv_head * group + within, position);
            let d = shape.head_dim as int;
            let product = |key: int|
                integer_dot(
                    queries,
                    keys,
                    row * d,
                    key_row_at(shape, batch, kv_head, key) * d,
                    d as nat,
                );
            let n = if shape.causal {
                shape.kv_len - shape.query_len + position + 1
            } else {
                shape.kv_len as int
            };
            let exponents = shape.exponents(q, k, row);
            &&& exponents.len() == n
            &&& 0 <= best < n
            &&& forall|key: int|
                #![trigger exponents[key]]
                0 <= key < n ==> exponents[key].is_integer(
                    scale * product(key) - scale * product(best),
                ) && scale * product(key) <= scale * product(best)
        }),
{
    let row = row_at(shape, batch, kv_head * group + within, position);
    let d = shape.head_dim as int;
    the_place_of_a_row(shape, batch, kv_head, group, within, position);
    let n = shape.keys(row);
    let base = shape.kv_base(row);
    let product = |key: int|
        integer_dot(
            queries,
            keys,
            row * d,
            key_row_at(shape, batch, kv_head, key) * d,
            d as nat,
        );
    lemma_keys(shape, row);
    let bound = d * step;
    assert forall|key: int| 0 <= key < n implies (#[trigger] shape.score(q, k, row, key)).is_integer(
        product(key) * scale,
    ) && -0x80_0000 <= product(key) * scale <= 0x80_0000 by {
        assert(key_row_at(shape, batch, kv_head, key) == base + key);
        lemma_integer_dot(shape, q, k, queries, keys, step, row, key, d as nat);
        let p = product(key);
        assert(-0x80_0000 <= p * scale <= 0x80_0000) by (nonlinear_arith)
            requires
                -bound <= p <= bound,
                exact::size(scale) * bound <= 0x80_0000,
                exact::size(scale) == scale && scale >= 0 || exact::size(scale) == -scale && scale
                    < 0,
        ;
        Float32::integers_are_exact(shape.dot(q, k, row, key, d as nat), shape.scale, p, scale);
    }
    let best = an_exponent_is_a_score_less_the_best(shape, q, k, row);
    let exponents = shape.exponents(q, k, row);
    let b = product(best);
    assert(shape.score(q, k, row, best).is_integer(b * scale));
    assert(scale * b == b * scale) by (nonlinear_arith);
    assert forall|key: int|
        #![trigger exponents[key]]
        0 <= key < n implies exponents[key].is_integer(
        scale * product(key) - scale * product(best),
    ) && scale * product(key) <= scale * product(best) by {
        let p = product(key);
        let mine = shape.score(q, k, row, key);
        let its = shape.score(q, k, row, best);
        assert(mine.is_integer(p * scale));
        assert(scale * p == p * scale) by (nonlinear_arith);
        Float32::integers_are_exact(its, mine, b * scale, p * scale);
        Float32::integers_are_exact(mine, its.neg_spec(), p * scale, -(b * scale));
    }
    best
}

proof fn lemma_integer_dot(
    shape: AttentionShape,
    q: Seq<Float32>,
    k: Seq<Float32>,
    queries: Seq<int>,
    keys: Seq<int>,
    step: int,
    row: int,
    key: int,
    n: nat,
)
    requires
        shape.wf(),
        q.len() == shape.query_elements(),
        k.len() == shape.kv_elements(),
        are_integers(q, queries),
        are_integers(k, keys),
        0 <= step,
        forall|i: int, j: int|
            #![trigger queries[i], keys[j]]
            0 <= i < queries.len() && 0 <= j < keys.len() ==> -step <= queries[i] * keys[j] <= step,
        shape.head_dim * step <= 0x100_0000,
        0 <= row < shape.rows(),
        0 <= key < shape.keys(row),
        n <= shape.head_dim,
    ensures
        ({
            let d = shape.head_dim as int;
            let whole = integer_dot(
                queries,
                keys,
                row * d,
                (shape.kv_base(row) + key) * d,
                n,
            );
            &&& shape.dot(q, k, row, key, n).is_integer(whole)
            &&& -(n * step) <= whole <= n * step
        }),
    decreases n,
{
    let d = shape.head_dim as int;
    Float32::zero_and_one();
    if n == 0 {
        assert(0 * step == 0) by (nonlinear_arith);
    } else {
        let m = (n - 1) as nat;
        lemma_integer_dot(shape, q, k, queries, keys, step, row, key, m);
        lemma_key_place(shape, row, key);
        lemma_row_place(shape, row);
        let i = row * d + m;
        let j = (shape.kv_base(row) + key) * d + m;
        assert(0 <= i < q.len() && 0 <= j < k.len());
        let before = integer_dot(queries, keys, row * d, (shape.kv_base(row) + key) * d, m);
        assert(-step <= queries[i] * keys[j] <= step);
        assert(m * step + step == n * step && n * step <= d * step && step <= d * step)
            by (nonlinear_arith)
            requires
                n == m + 1,
                n <= d,
                0 <= step,
                0 <= m,
        ;
        Float32::integers_are_exact(q[i], k[j], queries[i], keys[j]);
        Float32::integers_are_exact(
            shape.dot(q, k, row, key, m),
            q[i].mul_spec(k[j]),
            before,
            queries[i] * keys[j],
        );
    }
}

/// Whatever the numbers, as long as no score of a row is not a number: every exponent is the score
/// of its key with the score of one and the same key taken away, and no score of the row is above
/// that one. Its key is handed back.
pub proof fn an_exponent_is_a_score_less_the_best(
    shape: AttentionShape,
    q: Seq<Float32>,
    k: Seq<Float32>,
    row: int,
) -> (best: int)
    requires
        shape.keys(row) > 0,
        forall|key: int|
            0 <= key < shape.keys(row) ==> !float::is_nan(
                float::binary32(),
                (#[trigger] shape.score(q, k, row, key)).bits as u64,
            ),
    ensures
        0 <= best < shape.keys(row),
        shape.exponents(q, k, row).len() == shape.keys(row),
        forall|key: int|
            #![trigger shape.exponents(q, k, row)[key]]
            0 <= key < shape.keys(row) ==> shape.exponents(q, k, row)[key] == shape.score(
                q,
                k,
                row,
                key,
            ).add_spec(shape.score(q, k, row, best).neg_spec()) && !shape.score(
                q,
                k,
                row,
                best,
            ).less_spec(shape.score(q, k, row, key)),
{
    lemma_best(shape, q, k, row, shape.keys(row) as nat)
}

proof fn lemma_best(
    shape: AttentionShape,
    q: Seq<Float32>,
    k: Seq<Float32>,
    row: int,
    n: nat,
) -> (best: int)
    requires
        n > 0,
        forall|key: int|
            0 <= key < n ==> !float::is_nan(
                float::binary32(),
                (#[trigger] shape.score(q, k, row, key)).bits as u64,
            ),
    ensures
        0 <= best < n,
        shape.best(q, k, row, n) == shape.score(q, k, row, best),
        forall|key: int|
            0 <= key < n ==> !shape.score(q, k, row, best).less_spec(
                #[trigger] shape.score(q, k, row, key),
            ),
    decreases n,
{
    let f = float::binary32();
    let next = shape.score(q, k, row, n - 1);
    if n == 1 {
        reveal_with_fuel(AttentionShape::best, 2);
        let x = next.bits as u64;
        let least = minus_infinity();
        float::lemma_zero(23);
        if float::unsigned(f, x) < f.infinity {
            float::magnitude_increases(23, float::unsigned(f, x) as nat, f.infinity as nat);
        }
        float::magnitude_increases(23, 0, f.infinity as nat);
        assert(!least.less_spec(next) ==> next == least);
        0
    } else {
        let before = lemma_best(shape, q, k, row, (n - 1) as nat);
        if shape.score(q, k, row, before).less_spec(next) {
            n - 1
        } else {
            before
        }
    }
}

/// A score over all numbers: from zero, the products of the query and the key are added one
/// dimension after the other, and the sum is multiplied by the scale. The sums are handed back.
pub proof fn a_score_is_the_scaled_product(
    shape: AttentionShape,
    q: Seq<Float32>,
    k: Seq<Float32>,
    batch: int,
    kv_head: int,
    group: int,
    within: int,
    position: int,
    key: int,
) -> (sums: Seq<Float32>)
    requires
        shape.wf(),
        0 <= batch < shape.batch,
        0 <= kv_head < shape.kv_heads,
        shape.query_heads == shape.kv_heads * group,
        0 <= within < group,
        0 <= position < shape.query_len,
    ensures
        ({
            let row = row_at(shape, batch, kv_head * group + within, position);
            let place = key_row_at(shape, batch, kv_head, key);
            let d = shape.head_dim as int;
            &&& sums.len() == d + 1
            &&& sums[0].bits == 0
            &&& forall|i: int, j: int|
                #![trigger sums[i], sums[j]]
                0 <= i < d && j == i + 1 ==> sums[j] == sums[i].add_spec(
                    q[row * d + i].mul_spec(k[place * d + i]),
                )
            &&& shape.score(q, k, row, key) == sums[d].mul_spec(shape.scale)
        }),
{
    let row = row_at(shape, batch, kv_head * group + within, position);
    the_place_of_a_row(shape, batch, kv_head, group, within, position);
    Seq::new((shape.head_dim + 1) as nat, |i: int| shape.dot(q, k, row, key, i as nat))
}

/// Of two shapes that differ only in the scale, one of them with the scale one, the other's score
/// is the first one's multiplied by its scale.
pub proof fn the_scale_multiplies_every_score(
    one: AttentionShape,
    scale: Float32,
    q: Seq<Float32>,
    k: Seq<Float32>,
    row: int,
    key: int,
)
    requires
        one.scale == (Float32 { bits: 0x3f80_0000 }),
    ensures
        (AttentionShape { scale, ..one }).score(q, k, row, key) == one.score(
            q,
            k,
            row,
            key,
        ).mul_spec(scale),
{
    let other = AttentionShape { scale, ..one };
    let d = one.head_dim as nat;
    lemma_dot_without_scale(one, other, q, k, row, key, d);
    let x = one.dot(q, k, row, key, d);
    if d > 0 {
        let i = row * one.head_dim + (d - 1);
        let j = (one.kv_base(row) + key) * one.head_dim + (d - 1);
        exact::what_is_not_a_number_is_quiet(
            one.dot(q, k, row, key, (d - 1) as nat),
            q[i].mul_spec(k[j]),
        );
    }
    Float32::one_is_neutral(x);
}

proof fn lemma_dot_without_scale(
    one: AttentionShape,
    other: AttentionShape,
    q: Seq<Float32>,
    k: Seq<Float32>,
    row: int,
    key: int,
    n: nat,
)
    requires
        other == (AttentionShape { scale: other.scale, ..one }),
    ensures
        one.dot(q, k, row, key, n) == other.dot(q, k, row, key, n),
    decreases n,
{
    if n > 0 {
        lemma_dot_without_scale(one, other, q, k, row, key, (n - 1) as nat);
    }
}

/// The sum of the first `n` integers.
pub open spec fn integer_total(integers: Seq<int>, n: nat) -> int
    decreases n,
{
    if n == 0 {
        0
    } else {
        integer_total(integers, (n - 1) as nat) + integers[n - 1]
    }
}

/// The sum of the values at `place`, `place + stride` and so on, each as often as its weight says.
pub open spec fn weighted_total(
    weights: Seq<int>,
    values: Seq<int>,
    place: int,
    stride: int,
    n: nat,
) -> int
    decreases n,
{
    if n == 0 {
        0
    } else {
        weighted_total(weights, values, place, stride, (n - 1) as nat) + weights[n - 1]
            * values[place + (n - 1) * stride]
    }
}

/// A row of the result is the mean of the values of its keys, weighted by their exponentials.
/// Exponentials and values that are integers, where the exponentials sum to a power of two and
/// nothing is rounded: each element of the row, that many times, is the sum of the values at its
/// dimension, each as often as its exponential says.
pub proof fn a_row_is_the_weighted_mean_of_its_values(
    shape: AttentionShape,
    exponentials: Seq<Float32>,
    v: Seq<Float32>,
    weights: Seq<int>,
    values: Seq<int>,
    t: nat,
    most: int,
    batch: int,
    kv_head: int,
    group: int,
    within: int,
    position: int,
    dim: int,
)
    requires
        shape.wf(),
        v.len() == shape.kv_elements(),
        exponentials.len() == if shape.causal {
            shape.kv_len - shape.query_len + position + 1
        } else {
            shape.kv_len as int
        },
        are_integers(exponentials, weights),
        are_integers(v, values),
        forall|i: int| #![trigger weights[i]] 0 <= i < weights.len() ==> 0 <= weights[i],
        integer_total(weights, weights.len()) == vstd::arithmetic::power2::pow2(t),
        forall|i: int|
            #![trigger values[i]]
            0 <= i < values.len() ==> -most <= values[i] <= most,
        1 <= most,
        t <= 24,
        vstd::arithmetic::power2::pow2(t) * most <= 0x100_0000,
        0 <= batch < shape.batch,
        0 <= kv_head < shape.kv_heads,
        shape.query_heads == shape.kv_heads * group,
        0 <= within < group,
        0 <= position < shape.query_len,
        0 <= dim < shape.head_dim,
    ensures
        ({
            let row = row_at(shape, batch, kv_head * group + within, position);
            let d = shape.head_dim as int;
            let sum = weighted_total(
                weights,
                values,
                key_row_at(shape, batch, kv_head, 0) * d + dim,
                d,
                weights.len(),
            );
            let result = shape.row_values(exponentials, v, row);
            &&& result.len() == d
            &&& exact::is_number(
                float::binary32(),
                result[dim].bits as u64,
                sum * vstd::arithmetic::power2::pow2((149 - t) as nat),
            )
            &&& total(exponentials, exponentials.len()).is_integer(
                integer_total(weights, weights.len()),
            )
        }),
{
    let row = row_at(shape, batch, kv_head * group + within, position);
    let n = weights.len();
    let all = vstd::arithmetic::power2::pow2(t) as int;
    the_place_of_a_row(shape, batch, kv_head, group, within, position);
    vstd::arithmetic::power2::lemma_pow2_pos(t);
    assert(all <= all * most) by (nonlinear_arith)
        requires
            0 <= all,
            1 <= most,
    ;
    lemma_totals_grow(weights, n, n);
    lemma_integer_total(exponentials, weights, n);
    lemma_integer_blend(shape, exponentials, v, weights, values, t, most, row, dim, n);
}

/// The sum of the first of some integers that are not negative is at most that of more of them.
proof fn lemma_totals_grow(weights: Seq<int>, m: nat, n: nat)
    requires
        m <= n <= weights.len(),
        forall|i: int| #![trigger weights[i]] 0 <= i < weights.len() ==> 0 <= weights[i],
    ensures
        0 <= integer_total(weights, m) <= integer_total(weights, n),
    decreases n,
{
    if n > 0 {
        if m < n {
            lemma_totals_grow(weights, m, (n - 1) as nat);
        } else {
            lemma_totals_grow(weights, (n - 1) as nat, (n - 1) as nat);
        }
        assert(0 <= weights[n - 1]);
    }
}

proof fn lemma_integer_total(exponentials: Seq<Float32>, weights: Seq<int>, n: nat)
    requires
        are_integers(exponentials, weights),
        forall|i: int| #![trigger weights[i]] 0 <= i < weights.len() ==> 0 <= weights[i],
        integer_total(weights, weights.len()) <= 0x100_0000,
        n <= weights.len(),
    ensures
        total(exponentials, n).is_integer(integer_total(weights, n)),
    decreases n,
{
    Float32::zero_and_one();
    if n > 0 {
        let m = (n - 1) as nat;
        lemma_integer_total(exponentials, weights, m);
        lemma_totals_grow(weights, n, weights.len());
        lemma_totals_grow(weights, m, weights.len());
        Float32::integers_are_exact(
            total(exponentials, m),
            exponentials[m as int],
            integer_total(weights, m),
            weights[m as int],
        );
    }
}

proof fn lemma_integer_blend(
    shape: AttentionShape,
    exponentials: Seq<Float32>,
    v: Seq<Float32>,
    weights: Seq<int>,
    values: Seq<int>,
    t: nat,
    most: int,
    row: int,
    dim: int,
    n: nat,
)
    requires
        shape.wf(),
        v.len() == shape.kv_elements(),
        0 <= row < shape.rows(),
        exponentials.len() == shape.keys(row),
        are_integers(exponentials, weights),
        are_integers(v, values),
        forall|i: int| #![trigger weights[i]] 0 <= i < weights.len() ==> 0 <= weights[i],
        integer_total(weights, weights.len()) == vstd::arithmetic::power2::pow2(t),
        total(exponentials, exponentials.len()).is_integer(
            vstd::arithmetic::power2::pow2(t) as int,
        ),
        forall|i: int|
            #![trigger values[i]]
            0 <= i < values.len() ==> -most <= values[i] <= most,
        1 <= most,
        t <= 24,
        vstd::arithmetic::power2::pow2(t) * most <= 0x100_0000,
        0 <= dim < shape.head_dim,
        n <= weights.len(),
    ensures
        ({
            let d = shape.head_dim as int;
            let sum = weighted_total(weights, values, shape.kv_base(row) * d + dim, d, n);
            &&& exact::is_number(
                float::binary32(),
                shape.blend(exponentials, v, row, dim, n).bits as u64,
                sum * vstd::arithmetic::power2::pow2((149 - t) as nat),
            )
            &&& -(integer_total(weights, n) * most) <= sum <= integer_total(weights, n) * most
        }),
    decreases n,
{
    let f = float::binary32();
    let d = shape.head_dim as int;
    let unit = vstd::arithmetic::power2::pow2(149) as int;
    let part = vstd::arithmetic::power2::pow2((149 - t) as nat) as int;
    let all = vstd::arithmetic::power2::pow2(t) as int;
    exact::the_formats_are_wide();
    Float32::zero_and_one();
    float::lemma_zero(23);
    if n == 0 {
        assert(0 * part == 0 && 0 * most == 0) by (nonlinear_arith);
    } else {
        let m = (n - 1) as nat;
        lemma_integer_blend(shape, exponentials, v, weights, values, t, most, row, dim, m);
        lemma_key_place(shape, row, m as int);
        let place = shape.kv_base(row) * d + dim;
        let i = (shape.kv_base(row) + m) * d + dim;
        assert(i == place + m * d) by (nonlinear_arith)
            requires
                i == (shape.kv_base(row) + m) * d + dim,
                place == shape.kv_base(row) * d + dim,
        ;
        assert(0 <= i < v.len());
        let w = weights[m as int];
        let x = values[i];
        let before = weighted_total(weights, values, place, d, m);
        let so_far = integer_total(weights, m);
        lemma_totals_grow(weights, n, weights.len());
        lemma_totals_grow(weights, m, weights.len());
        vstd::arithmetic::power2::lemma_pow2_adds(t, (149 - t) as nat);
        vstd::arithmetic::power2::lemma_pow2_pos(t);
        vstd::arithmetic::power2::lemma_pow2_pos((149 - t) as nat);
        vstd::arithmetic::power2::lemma2_to64();
        assert(all <= all * most) by (nonlinear_arith)
            requires
                0 <= all,
                1 <= most,
        ;
        let sum = total(exponentials, exponentials.len());
        let weight = exponentials[m as int].div_spec(sum);
        exact::small_multiples_have_patterns(f, w, (149 - t) as nat);
        assert(all * unit > 0) by (nonlinear_arith)
            requires
                all > 0,
                unit == all * part,
                part > 0,
        ;
        assert((w * part) * (all * unit) == (w * unit) * unit) by (nonlinear_arith)
            requires
                unit == all * part,
        ;
        exact::an_exact_quotient_is_not_rounded(
            f,
            exponentials[m as int].bits as u64,
            sum.bits as u64,
            w * unit,
            all * unit,
            w * part,
        );
        assert(-(w * most) <= w * x <= w * most) by (nonlinear_arith)
            requires
                0 <= w,
                -most <= x <= most,
        ;
        assert(so_far * most + w * most == (so_far + w) * most) by (nonlinear_arith);
        assert((so_far + w) * most <= all * most && w * most <= (so_far + w) * most)
            by (nonlinear_arith)
            requires
                0 <= so_far,
                so_far + w <= all,
                1 <= most,
        ;
        exact::small_multiples_have_patterns(f, w * x, (149 - t) as nat);
        assert((w * part) * (x * unit) == ((w * x) * part) * unit) by (nonlinear_arith);
        exact::an_exact_product_is_not_rounded(
            f,
            weight.bits as u64,
            v[i].bits as u64,
            w * part,
            x * unit,
            (w * x) * part,
        );
        exact::small_multiples_have_patterns(f, before + w * x, (149 - t) as nat);
        assert(before * part + (w * x) * part == (before + w * x) * part) by (nonlinear_arith);
        exact::an_exact_sum_is_not_rounded(
            f,
            shape.blend(exponentials, v, row, dim, m).bits as u64,
            weight.mul_spec(v[i]).bits as u64,
            before * part,
            (w * x) * part,
        );
    }
}

/// A run has the dimensions, the scale and the causality that its control asks for.
pub proof fn a_run_has_the_shape_of_its_control(control: AttentionControl)
    requires
        usize::MAX >= 0xffff_ffff,
    ensures
        shape_of(control).batch == control.batch,
        shape_of(control).query_heads == control.query_heads,
        shape_of(control).kv_heads == control.kv_heads,
        shape_of(control).query_len == control.query_len,
        shape_of(control).kv_len == control.kv_len,
        shape_of(control).head_dim == control.head_dim,
        shape_of(control).causal == control.causal(),
        shape_of(control).scale == control.scale,
{
}

/// Attention is accepted if and only if its control is valid and asks for single precision, the
/// queries, the keys and the values have just the elements that it implies, there are no more
/// results than the limits allow, and no more scores: one for each query position and each key.
pub proof fn attention_is_accepted_by_its_sizes(
    control: AttentionControl,
    q: nat,
    k: nat,
    v: nat,
    limits: AttentionLimits,
)
    ensures
        refusal(control, q, k, v, limits) is None <==> {
            let rows = control.batch * control.query_heads * control.query_len;
            &&& control.defect() is None
            &&& control.data_type == AttentionDataType::F32
            &&& q == rows * control.head_dim
            &&& k == control.batch * control.kv_heads * control.kv_len * control.head_dim
            &&& v == control.batch * control.kv_heads * control.kv_len * control.head_dim
            &&& q <= usize::MAX
            &&& k <= usize::MAX
            &&& q <= limits.max_tensor_elements
            &&& rows * control.kv_len <= limits.max_score_elements
        },
{
}

/// Whatever the scores of a row are: every exponent is its score with one and the same number taken
/// away. That number is one of the scores, or below all numbers where no score is above that, and
/// no score is above it. Scores that are not numbers are passed over. It is handed back.
pub proof fn exponents_are_scores_less_one_number(
    shape: AttentionShape,
    q: Seq<Float32>,
    k: Seq<Float32>,
    row: int,
) -> (best: Float32)
    requires
        shape.keys(row) >= 0,
    ensures
        shape.exponents(q, k, row).len() == shape.keys(row),
        forall|key: int|
            #![trigger shape.exponents(q, k, row)[key]]
            0 <= key < shape.keys(row) ==> shape.exponents(q, k, row)[key] == shape.score(
                q,
                k,
                row,
                key,
            ).add_spec(best.neg_spec()),
        forall|key: int|
            0 <= key < shape.keys(row) ==> !best.less_spec(
                #[trigger] shape.score(q, k, row, key),
            ),
        best.bits == 0xff80_0000 || exists|key: int|
            0 <= key < shape.keys(row) && #[trigger] shape.score(q, k, row, key) == best,
{
    lemma_best_of_any(shape, q, k, row, shape.keys(row) as nat);
    shape.best(q, k, row, shape.keys(row) as nat)
}

proof fn lemma_best_of_any(
    shape: AttentionShape,
    q: Seq<Float32>,
    k: Seq<Float32>,
    row: int,
    n: nat,
)
    ensures
        ({
            let best = shape.best(q, k, row, n);
            &&& !float::is_nan(float::binary32(), best.bits as u64)
            &&& forall|key: int|
                0 <= key < n ==> !best.less_spec(#[trigger] shape.score(q, k, row, key))
            &&& best.bits == 0xff80_0000 || exists|key: int|
                0 <= key < n && #[trigger] shape.score(q, k, row, key) == best
        }),
    decreases n,
{
    if n > 0 {
        lemma_best_of_any(shape, q, k, row, (n - 1) as nat);
        let before = shape.best(q, k, row, (n - 1) as nat);
        let next = shape.score(q, k, row, n - 1);
        let best = shape.best(q, k, row, n);
        assert forall|key: int| 0 <= key < n implies !best.less_spec(
            #[trigger] shape.score(q, k, row, key),
        ) by {
            if key < n - 1 {
                assert(!before.less_spec(shape.score(q, k, row, key)));
            }
        }
        if best == next {
            assert(shape.score(q, k, row, n - 1) == best);
        } else if best.bits != 0xff80_0000 {
            let key = choose|key: int|
                0 <= key < n - 1 && #[trigger] shape.score(q, k, row, key) == before;
            assert(shape.score(q, k, row, key) == best);
        }
    }
}

/// A row over all numbers: the exponentials are added up one after the other, each is divided by
/// their sum, multiplied by its value and added, key after key. Both sums are handed back, step by
/// step.
pub proof fn a_row_is_blended_key_by_key(
    shape: AttentionShape,
    exponentials: Seq<Float32>,
    v: Seq<Float32>,
    batch: int,
    kv_head: int,
    group: int,
    within: int,
    position: int,
    dim: int,
) -> (sums: (Seq<Float32>, Seq<Float32>))
    requires
        shape.wf(),
        0 <= batch < shape.batch,
        0 <= kv_head < shape.kv_heads,
        shape.query_heads == shape.kv_heads * group,
        0 <= within < group,
        0 <= position < shape.query_len,
        0 <= dim < shape.head_dim,
    ensures
        ({
            let row = row_at(shape, batch, kv_head * group + within, position);
            let n = exponentials.len() as int;
            let (totals, blends) = sums;
            &&& totals.len() == n + 1
            &&& blends.len() == n + 1
            &&& totals[0].bits == 0
            &&& blends[0].bits == 0
            &&& forall|i: int, j: int|
                #![trigger totals[i], totals[j]]
                0 <= i < n && j == i + 1 ==> totals[j] == totals[i].add_spec(exponentials[i])
            &&& forall|i: int, j: int|
                #![trigger blends[i], blends[j]]
                0 <= i < n && j == i + 1 ==> blends[j] == blends[i].add_spec(
                    exponentials[i].div_spec(totals[n]).mul_spec(
                        v[key_row_at(shape, batch, kv_head, i) * shape.head_dim + dim],
                    ),
                )
            &&& total(exponentials, exponentials.len()) == totals[n]
            &&& shape.row_values(exponentials, v, row).len() == shape.head_dim
            &&& shape.row_values(exponentials, v, row)[dim] == blends[n]
        }),
{
    let row = row_at(shape, batch, kv_head * group + within, position);
    the_place_of_a_row(shape, batch, kv_head, group, within, position);
    let n = exponentials.len();
    (
        Seq::new(n + 1, |i: int| total(exponentials, i as nat)),
        Seq::new(n + 1, |i: int| shape.blend(exponentials, v, row, dim, i as nat)),
    )
}

} // verus!
