//! Matrix multiplication on the processor, as the measure of other implementations.

use crate::backend::BackendKind;
use crate::bytes;
use crate::exact;
use crate::float;
use crate::float::Float32;
use crate::gemm_protocol;
use crate::gemm_protocol::{
    DecodedGemmRequest, GemmProtocolError, GemmRequest, GemmRequestMeta,
};
use crate::operators::{
    Operator, OperatorCapabilities, OperatorError, OperatorInvocation, OperatorKind, OperatorOutput,
};
use crate::text;
use vstd::prelude::*;
use vstd::string::*;

verus! {

pub const REFERENCE_GEMM_NAME: &'static str = "cpu-reference-gemm";

/// How much work a multiplication may be.
#[derive(Debug, Clone, Copy, PartialEq, Eq, Structural)]
pub struct GemmLimits {
    pub max_matrix_elements: u64,
    pub max_multiply_adds: u64,
}

impl Default for GemmLimits {
    fn default() -> (r: Self)
        ensures
            r == (GemmLimits {
                max_matrix_elements: 16_777_216,
                max_multiply_adds: 1_000_000_000,
            }),
    {
        GemmLimits { max_matrix_elements: 16_777_216, max_multiply_adds: 1_000_000_000 }
    }
}

#[derive(Debug, Clone, Copy, PartialEq, Eq)]
pub enum ReferenceGemmError {
    Protocol(GemmProtocolError),
    ResourceLimit { resource: &'static str, actual: u128, maximum: u128 },
    AddressSpaceOverflow,
}

impl ReferenceGemmError {
    /// The text of the error.
    pub open spec fn text(self) -> Seq<char> {
        match self {
            ReferenceGemmError::Protocol(error) => error.text(),
            ReferenceGemmError::ResourceLimit { resource, actual, maximum } => {
                "GEMM "@ + resource@ + " requires "@ + text::decimal(actual as nat)
                    + " units, exceeding configured limit "@ + text::decimal(maximum as nat)
            },
            ReferenceGemmError::AddressSpaceOverflow => {
                "GEMM dimensions cannot be represented in this process address space"@
            },
        }
    }

    pub fn message(self) -> (r: String)
        ensures
            r@ == self.text(),
    {
        match self {
            ReferenceGemmError::Protocol(error) => error.message(),
            ReferenceGemmError::ResourceLimit { resource, actual, maximum } => {
                let mut r = "GEMM ".to_owned();
                r.append(resource);
                r.append(" requires ");
                text::append_wide_decimal(&mut r, actual);
                r.append(" units, exceeding configured limit ");
                text::append_wide_decimal(&mut r, maximum);
                r
            },
            ReferenceGemmError::AddressSpaceOverflow => {
                "GEMM dimensions cannot be represented in this process address space".to_owned()
            },
        }
    }
}

/// The error that a matrix is too large.
pub open spec fn too_many(resource: &'static str, actual: int, maximum: u64) -> ReferenceGemmError {
    ReferenceGemmError::ResourceLimit {
        resource,
        actual: actual as u128,
        maximum: maximum as u128,
    }
}

/// The error that there is too much work in a request.
pub open spec fn limit_defect(meta: GemmRequestMeta, limits: GemmLimits) -> Option<
    ReferenceGemmError,
> {
    if meta.a_elements > limits.max_matrix_elements {
        Some(too_many("matrix A elements", meta.a_elements as int, limits.max_matrix_elements))
    } else if meta.b_elements > limits.max_matrix_elements {
        Some(too_many("matrix B elements", meta.b_elements as int, limits.max_matrix_elements))
    } else if meta.c_elements > limits.max_matrix_elements {
        Some(
            too_many(
                "matrix C/output elements",
                meta.c_elements as int,
                limits.max_matrix_elements,
            ),
        )
    } else if meta.m * meta.n * meta.k > limits.max_multiply_adds {
        Some(
            too_many(
                "multiply-add count",
                meta.m * meta.n * meta.k,
                limits.max_multiply_adds,
            ),
        )
    } else {
        None
    }
}

/// Why a request is refused before any work is done.
pub open spec fn request_defect(input: Seq<u8>, limits: GemmLimits) -> Option<
    ReferenceGemmError,
> {
    match gemm_protocol::request_defect(input) {
        Some(error) => Some(ReferenceGemmError::Protocol(error)),
        None => limit_defect(gemm_protocol::request_meta(input), limits),
    }
}

/// Why the result of a request has no message.
pub open spec fn response_defect(m: u64, n: u64) -> Option<ReferenceGemmError> {
    if m * n > u64::MAX {
        Some(
            ReferenceGemmError::Protocol(GemmProtocolError::DimensionOverflow("response matrix")),
        )
    } else if gemm_protocol::response_length(m, n) > u64::MAX {
        Some(ReferenceGemmError::Protocol(GemmProtocolError::LengthOverflow))
    } else {
        None
    }
}

fn check_elements(resource: &'static str, elements: u64, maximum: u64) -> (r: Result<
    (),
    ReferenceGemmError,
>)
    ensures
        match r {
            Ok(_) => elements <= maximum,
            Err(error) => elements > maximum && error == too_many(
                resource,
                elements as int,
                maximum,
            ),
        },
{
    if elements > maximum {
        return Err(
            ReferenceGemmError::ResourceLimit {
                resource,
                actual: elements as u128,
                maximum: maximum as u128,
            },
        );
    }
    Ok(())
}

fn validate_limits(meta: &GemmRequestMeta, limits: GemmLimits) -> (r: Result<
    (),
    ReferenceGemmError,
>)
    requires
        meta.m * meta.n == meta.c_elements,
        meta.m * meta.k == meta.a_elements,
    ensures
        match r {
            Ok(_) => limit_defect(*meta, limits) is None,
            Err(error) => limit_defect(*meta, limits) == Some(error),
        },
{
    match check_elements("matrix A elements", meta.a_elements, limits.max_matrix_elements) {
        Ok(_) => {},
        Err(error) => {
            return Err(error);
        },
    }
    match check_elements("matrix B elements", meta.b_elements, limits.max_matrix_elements) {
        Ok(_) => {},
        Err(error) => {
            return Err(error);
        },
    }
    match check_elements("matrix C/output elements", meta.c_elements, limits.max_matrix_elements) {
        Ok(_) => {},
        Err(error) => {
            return Err(error);
        },
    }
    proof {
        let area = meta.c_elements as int;
        let k = meta.k as int;
        assert(0 <= area * k <= 0xffff_ffff_ffff_ffff * 0xffff_ffff_ffff_ffff) by (nonlinear_arith)
            requires
                0 <= area <= 0xffff_ffff_ffff_ffff,
                0 <= k <= 0xffff_ffff_ffff_ffff,
        ;
    }
    let operations: u128 = meta.c_elements as u128 * meta.k as u128;
    if operations > limits.max_multiply_adds as u128 {
        return Err(
            ReferenceGemmError::ResourceLimit {
                resource: "multiply-add count",
                actual: operations,
                maximum: limits.max_multiply_adds as u128,
            },
        );
    }
    Ok(())
}

/// How long the answer to a request message will be.
pub fn required_output_len(input: &[u8], limits: GemmLimits) -> (r: Result<
    u64,
    ReferenceGemmError,
>)
    ensures
        ({
            let meta = gemm_protocol::request_meta(input@);
            match r {
                Ok(length) => {
                    &&& request_defect(input@, limits) is None
                    &&& response_defect(meta.m, meta.n) is None
                    &&& length == gemm_protocol::response_length(meta.m, meta.n)
                },
                Err(error) => if request_defect(input@, limits) is Some {
                    request_defect(input@, limits) == Some(error)
                } else {
                    response_defect(meta.m, meta.n) == Some(error)
                },
            }
        }),
{
    let meta = match gemm_protocol::inspect_request(input) {
        Ok(meta) => meta,
        Err(error) => {
            return Err(ReferenceGemmError::Protocol(error));
        },
    };
    match validate_limits(&meta, limits) {
        Ok(_) => {},
        Err(error) => {
            return Err(error);
        },
    }
    match gemm_protocol::encoded_response_len(meta.m, meta.n) {
        Ok(length) => Ok(length),
        Err(error) => Err(ReferenceGemmError::Protocol(error)),
    }
}

/// A request with its matrices.
pub struct Gemm {
    pub meta: GemmRequestMeta,
    pub a: Seq<Float32>,
    pub b: Seq<Float32>,
    pub c: Option<Seq<Float32>>,
}

impl Gemm {
    /// Every matrix has the elements that its dimensions imply.
    pub open spec fn wf(self) -> bool {
        &&& self.meta.m * self.meta.k == self.a.len()
        &&& self.meta.k * self.meta.n == self.b.len()
        &&& self.c is Some ==> self.meta.m * self.meta.n == self.c->0.len()
    }

    /// What an element starts from: `beta * C`, or zero where there is no `C` or `beta` is zero.
    pub open spec fn start(self, i: int) -> Float32 {
        if self.c is Some && !self.meta.beta.is_zero_spec() {
            self.meta.beta.mul_spec(self.c->0[i])
        } else {
            Float32 { bits: 0 }
        }
    }

    /// What is added to an element at one depth: `alpha * A`, multiplied by `B`.
    pub open spec fn term(self, row: int, column: int, depth: int) -> Float32 {
        self.meta.alpha.mul_spec(self.a[row * self.meta.k + depth]).mul_spec(
            self.b[depth * self.meta.n + column],
        )
    }

    /// An element after the first `depth` terms, added one after the other.
    pub open spec fn partial(self, row: int, column: int, depth: nat) -> Float32
        decreases depth,
    {
        if depth == 0 {
            self.start(row * self.meta.n + column)
        } else {
            self.partial(row, column, (depth - 1) as nat).add_spec(
                self.term(row, column, depth - 1),
            )
        }
    }

    /// An element of the result.
    pub open spec fn element(self, row: int, column: int) -> Float32 {
        if self.meta.alpha.is_zero_spec() {
            self.start(row * self.meta.n + column)
        } else {
            self.partial(row, column, self.meta.k as nat)
        }
    }

    /// Whether `values` are the elements of the result, row by row.
    pub open spec fn is_result(self, values: Seq<Float32>) -> bool {
        &&& values.len() == self.meta.m * self.meta.n
        &&& forall|row: int, column: int|
            0 <= row < self.meta.m && 0 <= column < self.meta.n ==> #[trigger] values[row
                * self.meta.n + column] == self.element(row, column)
    }
}

/// The request that a message holds.
pub open spec fn gemm_of(input: Seq<u8>) -> Gemm {
    let matrices = gemm_protocol::request_matrices(input);
    Gemm {
        meta: gemm_protocol::request_meta(input),
        a: matrices.0,
        b: matrices.1,
        c: matrices.2,
    }
}

/// A place in a matrix is inside it.
proof fn lemma_place(row: int, column: int, rows: int, columns: int)
    requires
        0 <= row < rows,
        0 <= column < columns,
    ensures
        0 <= row * columns + column < rows * columns,
        row * columns + columns <= rows * columns,
        0 <= row * columns,
{
    assert(0 <= row * columns && row * columns + columns <= rows * columns) by (nonlinear_arith)
        requires
            0 <= row < rows,
            0 <= column < columns,
    ;
}

/// The elements before any term is added.
fn starting_values(request: &DecodedGemmRequest, count: usize, Ghost(gemm): Ghost<Gemm>) -> (r: Vec<
    Float32,
>)
    requires
        gemm.wf(),
        gemm.meta == request.meta,
        gemm.c == gemm_protocol::optional_view(request.c),
        count == request.meta.m * request.meta.n,
    ensures
        r@.len() == count,
        forall|i: int| #![trigger r@[i]] 0 <= i < count ==> r@[i] == gemm.start(i),
{
    let mut r: Vec<Float32> = Vec::with_capacity(count);
    let scaled: bool = !request.meta.beta.is_zero();
    let mut i: usize = 0;
    while i < count
        invariant
            i <= count,
            gemm.wf(),
            gemm.meta == request.meta,
            gemm.c == gemm_protocol::optional_view(request.c),
            count == request.meta.m * request.meta.n,
            scaled == !request.meta.beta.is_zero_spec(),
            r@.len() == i,
            forall|j: int| #![trigger r@[j]] 0 <= j < i ==> r@[j] == gemm.start(j),
        decreases count - i,
    {
        let value: Float32 = match &request.c {
            Some(c) => if scaled {
                request.meta.beta.times(c[i])
            } else {
                Float32 { bits: 0 }
            },
            None => Float32 { bits: 0 },
        };
        r.push(value);
        i = i + 1;
    }
    r
}

/// Adds one scaled row of `B` to a row of the result.
fn add_row(
    output: &mut Vec<Float32>,
    scaled_a: Float32,
    b: &Vec<Float32>,
    output_row: usize,
    b_row: usize,
    n: usize,
)
    requires
        output_row + n <= old(output)@.len(),
        b_row + n <= b@.len(),
    ensures
        final(output)@.len() == old(output)@.len(),
        forall|i: int|
            #![trigger final(output)@[i]]
            0 <= i < final(output)@.len() ==> final(output)@[i] == if output_row <= i < output_row
                + n {
                old(output)@[i].add_spec(scaled_a.mul_spec(b@[b_row + (i - output_row)]))
            } else {
                old(output)@[i]
            },
{
    let ghost before = output@;
    let length: usize = output.len();
    let b_length: usize = b.len();
    let mut column: usize = 0;
    while column < n
        invariant
            column <= n,
            output@.len() == before.len() == length,
            output_row + n <= length,
            b_row + n <= b_length == b@.len(),
            forall|i: int|
                #![trigger output@[i]]
                0 <= i < output@.len() ==> output@[i] == if output_row <= i < output_row + column {
                    before[i].add_spec(scaled_a.mul_spec(b@[b_row + (i - output_row)]))
                } else {
                    before[i]
                },
        decreases n - column,
    {
        let at: usize = output_row + column;
        let value: Float32 = output[at].plus(scaled_a.times(b[b_row + column]));
        output.set(at, value);
        column = column + 1;
    }
}

/// Adds every term of one row of the result.
fn accumulate_row(
    request: &DecodedGemmRequest,
    output: &mut Vec<Float32>,
    row: usize,
    n: usize,
    k: usize,
    Ghost(gemm): Ghost<Gemm>,
)
    requires
        gemm.wf(),
        gemm.meta == request.meta,
        gemm.a == request.a@,
        gemm.b == request.b@,
        n == request.meta.n,
        k == request.meta.k,
        row < request.meta.m,
        old(output)@.len() == request.meta.m * request.meta.n,
        forall|column: int|
            0 <= column < n ==> #[trigger] old(output)@[row * n + column] == gemm.start(
                row * n + column,
            ),
    ensures
        final(output)@.len() == old(output)@.len(),
        forall|column: int|
            0 <= column < n ==> #[trigger] final(output)@[row * n + column] == gemm.partial(
                row as int,
                column,
                k as nat,
            ),
        forall|i: int|
            #![trigger final(output)@[i]]
            0 <= i < final(output)@.len() && !(row * n <= i < row * n + n) ==> final(output)@[i]
                == old(output)@[i],
{
    if n == 0 {
        return;
    }
    let ghost before = output@;
    let total: usize = output.len();
    proof {
        lemma_place(row as int, 0, request.meta.m as int, n as int);
    }
    let output_row: usize = row * n;
    let mut depth: usize = 0;
    let a_total: usize = request.a.len();
    let b_total: usize = request.b.len();
    while depth < k
        invariant
            gemm.wf(),
            gemm.meta == request.meta,
            gemm.a == request.a@,
            gemm.b == request.b@,
            n == request.meta.n,
            k == request.meta.k,
            n > 0,
            row < request.meta.m,
            depth <= k,
            a_total == request.a@.len(),
            b_total == request.b@.len(),
            output_row == row * n,
            output_row + n <= output@.len(),
            output@.len() == before.len(),
            forall|column: int|
                0 <= column < n ==> #[trigger] output@[output_row + column] == gemm.partial(
                    row as int,
                    column,
                    depth as nat,
                ),
            forall|i: int|
                #![trigger output@[i]]
                0 <= i < output@.len() && !(output_row <= i < output_row + n) ==> output@[i]
                    == before[i],
        decreases k - depth,
    {
        let ghost earlier = output@;
        proof {
            lemma_place(row as int, depth as int, request.meta.m as int, k as int);
            lemma_place(depth as int, 0, k as int, n as int);
        }
        let scaled_a: Float32 = request.meta.alpha.times(request.a[row * k + depth]);
        let b_row: usize = depth * n;
        add_row(output, scaled_a, &request.b, output_row, b_row, n);
        proof {
            assert forall|column: int| 0 <= column < n implies #[trigger] output@[output_row
                + column] == gemm.partial(row as int, column, (depth + 1) as nat) by {
                assert(earlier[output_row + column] == gemm.partial(
                    row as int,
                    column,
                    depth as nat,
                ));
                let i = output_row + column;
                assert(output@[i] == earlier[i].add_spec(
                    scaled_a.mul_spec(request.b@[b_row + column]),
                ));
            }
        }
        depth = depth + 1;
    }
}

/// The result of a decoded request, row by row.
pub fn multiply(request: &DecodedGemmRequest) -> (r: Vec<Float32>)
    requires
        request.meta.m <= usize::MAX,
        request.meta.n <= usize::MAX,
        request.meta.k <= usize::MAX,
        request.meta.m * request.meta.n <= usize::MAX,
        gemm_of_request(*request).wf(),
    ensures
        gemm_of_request(*request).is_result(r@),
{
    let ghost gemm = gemm_of_request(*request);
    let m: usize = request.meta.m as usize;
    let n: usize = request.meta.n as usize;
    let k: usize = request.meta.k as usize;
    let count: usize = m * n;
    let mut output = starting_values(request, count, Ghost(gemm));
    if request.meta.alpha.is_zero() {
        proof {
            assert forall|row: int, column: int|
                0 <= row < m && 0 <= column < n implies #[trigger] output@[row * n + column]
                == gemm.element(row, column) by {
                lemma_place(row, column, m as int, n as int);
            }
        }
        return output;
    }
    let mut row: usize = 0;
    while row < m
        invariant
            gemm == gemm_of_request(*request),
            gemm.wf(),
            m == request.meta.m,
            n == request.meta.n,
            k == request.meta.k,
            !request.meta.alpha.is_zero_spec(),
            row <= m,
            output@.len() == request.meta.m * request.meta.n,
            forall|done: int, column: int|
                0 <= done < row && 0 <= column < n ==> #[trigger] output@[done * n + column]
                    == gemm.partial(done, column, k as nat),
            forall|i: int|
                #![trigger output@[i]]
                row * n <= i < output@.len() ==> output@[i] == gemm.start(i),
        decreases m - row,
    {
        let ghost before = output@;
        proof {
            assert forall|column: int| 0 <= column < n implies #[trigger] output@[row * n + column]
                == gemm.start(row * n + column) by {
                lemma_place(row as int, column, m as int, n as int);
            }
        }
        accumulate_row(request, &mut output, row, n, k, Ghost(gemm));
        proof {
            assert forall|done: int, column: int|
                0 <= done < row + 1 && 0 <= column < n implies #[trigger] output@[done * n
                + column] == gemm.partial(done, column, k as nat) by {
                lemma_place(done, column, m as int, n as int);
                if done < row {
                    assert(before[done * n + column] == gemm.partial(done, column, k as nat));
                    assert(done * n + n <= row * n) by (nonlinear_arith)
                        requires
                            done + 1 <= row,
                            n >= 0,
                    ;
                }
            }
            assert((row + 1) * n == row * n + n) by (nonlinear_arith);
        }
        row = row + 1;
    }
    output
}

/// The request that was decoded.
pub open spec fn gemm_of_request(request: DecodedGemmRequest) -> Gemm {
    Gemm {
        meta: request.meta,
        a: request.a@,
        b: request.b@,
        c: gemm_protocol::optional_view(request.c),
    }
}

/// Why a request whose message and limits are in order cannot be computed in this address space.
pub open spec fn space_defect(meta: GemmRequestMeta) -> Option<ReferenceGemmError> {
    if meta.m > usize::MAX || meta.n > usize::MAX || meta.k > usize::MAX || meta.c_elements
        > usize::MAX {
        Some(ReferenceGemmError::AddressSpaceOverflow)
    } else {
        match gemm_protocol::response_refusal(meta.m, meta.n, (meta.m * meta.n) as nat) {
            Some(error) => Some(ReferenceGemmError::Protocol(error)),
            None => None,
        }
    }
}

/// Answers a request message.
pub fn execute_gemm_bytes(input: &[u8], limits: GemmLimits) -> (r: Result<
    Vec<u8>,
    ReferenceGemmError,
>)
    ensures
        ({
            let meta = gemm_protocol::request_meta(input@);
            match r {
                Ok(output) => {
                    &&& request_defect(input@, limits) is None
                    &&& space_defect(meta) is None
                    &&& exists|values: Seq<Float32>|
                        gemm_of(input@).is_result(values) && output@
                            == #[trigger] gemm_protocol::response_message(meta.m, meta.n, values)
                },
                Err(error) => if request_defect(input@, limits) is Some {
                    request_defect(input@, limits) == Some(error)
                } else {
                    space_defect(meta) == Some(error)
                },
            }
        }),
{
    let meta = match gemm_protocol::inspect_request(input) {
        Ok(meta) => meta,
        Err(error) => {
            return Err(ReferenceGemmError::Protocol(error));
        },
    };
    match validate_limits(&meta, limits) {
        Ok(_) => {},
        Err(error) => {
            return Err(error);
        },
    }
    let request = match gemm_protocol::decode_request(input) {
        Ok(request) => request,
        Err(error) => {
            return Err(ReferenceGemmError::Protocol(error));
        },
    };
    if meta.m > usize::MAX as u64 || meta.n > usize::MAX as u64 || meta.k > usize::MAX as u64
        || meta.c_elements > usize::MAX as u64 {
        return Err(ReferenceGemmError::AddressSpaceOverflow);
    }
    match gemm_protocol::encoded_response_len(meta.m, meta.n) {
        Ok(_) => {},
        Err(error) => {
            return Err(ReferenceGemmError::Protocol(error));
        },
    }
    let output = multiply(&request);
    assert(gemm_of_request(request) == gemm_of(input@));
    match gemm_protocol::encode_response(meta.m, meta.n, output.as_slice()) {
        Ok(message) => Ok(message),
        Err(error) => Err(ReferenceGemmError::Protocol(error)),
    }
}

/// The operator that multiplies matrices on the processor.
#[derive(Debug, Clone, Copy, PartialEq, Eq, Structural)]
pub struct CpuReferenceGemm {
    limits: GemmLimits,
}

impl Default for CpuReferenceGemm {
    fn default() -> (r: Self)
        ensures
            r.limit() == (GemmLimits {
                max_matrix_elements: 16_777_216,
                max_multiply_adds: 1_000_000_000,
            }),
    {
        Self::new(GemmLimits::default())
    }
}

impl CpuReferenceGemm {
    pub closed spec fn limit(&self) -> GemmLimits {
        self.limits
    }

    #[must_use]
    pub fn new(limits: GemmLimits) -> (r: Self)
        ensures
            r.limit() == limits,
    {
        CpuReferenceGemm { limits }
    }

    #[must_use]
    pub fn limits(&self) -> (r: GemmLimits)
        ensures
            r == self.limit(),
    {
        self.limits
    }

    pub fn required_output_len(&self, input: &[u8]) -> (r: Result<u64, ReferenceGemmError>)
        ensures
            ({
                let meta = gemm_protocol::request_meta(input@);
                match r {
                    Ok(length) => {
                        &&& request_defect(input@, self.limit()) is None
                        &&& response_defect(meta.m, meta.n) is None
                        &&& length == gemm_protocol::response_length(meta.m, meta.n)
                    },
                    Err(error) => if request_defect(input@, self.limit()) is Some {
                        request_defect(input@, self.limit()) == Some(error)
                    } else {
                        response_defect(meta.m, meta.n) == Some(error)
                    },
                }
            }),
    {
        required_output_len(input, self.limits)
    }

    pub fn execute_bytes(&self, input: &[u8]) -> (r: Result<Vec<u8>, ReferenceGemmError>)
        ensures
            ({
                let meta = gemm_protocol::request_meta(input@);
                match r {
                    Ok(output) => {
                        &&& request_defect(input@, self.limit()) is None
                        &&& space_defect(meta) is None
                        &&& exists|values: Seq<Float32>|
                            gemm_of(input@).is_result(values) && output@
                                == #[trigger] gemm_protocol::response_message(
                                meta.m,
                                meta.n,
                                values,
                            )
                    },
                    Err(error) => if request_defect(input@, self.limit()) is Some {
                        request_defect(input@, self.limit()) == Some(error)
                    } else {
                        space_defect(meta) == Some(error)
                    },
                }
            }),
    {
        execute_gemm_bytes(input, self.limits)
    }
}

impl Operator for CpuReferenceGemm {
    fn name(&self) -> (r: &str)
        ensures
            r@ == REFERENCE_GEMM_NAME@,
    {
        REFERENCE_GEMM_NAME
    }

    fn capabilities(&self) -> (r: OperatorCapabilities)
        ensures
            r == (OperatorCapabilities {
                kind: OperatorKind::Gemm,
                backend: BackendKind::Cpu,
                supports_zero_copy: false,
            }),
    {
        OperatorCapabilities {
            kind: OperatorKind::Gemm,
            backend: BackendKind::Cpu,
            supports_zero_copy: false,
        }
    }

    fn execute(&self, invocation: OperatorInvocation<'_>) -> (r: Result<
        OperatorOutput,
        OperatorError,
    >)
        ensures
            ({
                let input = invocation.input@;
                let meta = gemm_protocol::request_meta(input);
                match r {
                    Ok(output) => {
                        &&& request_defect(input, self.limit()) is None
                        &&& space_defect(meta) is None
                        &&& exists|values: Seq<Float32>|
                            gemm_of(input).is_result(values) && output.bytes@
                                == #[trigger] gemm_protocol::response_message(
                                meta.m,
                                meta.n,
                                values,
                            )
                    },
                    Err(error) => {
                        &&& error matches OperatorError::Execution(reason)
                        &&& if request_defect(input, self.limit()) is Some {
                            reason@ == request_defect(input, self.limit())->0.text()
                        } else {
                            &&& space_defect(meta) is Some
                            &&& reason@ == space_defect(meta)->0.text()
                        }
                    },
                }
            }),
    {
        match self.execute_bytes(invocation.input) {
            Ok(bytes) => Ok(OperatorOutput { bytes }),
            Err(error) => Err(OperatorError::Execution(error.message())),
        }
    }
}

/// The result of a request is determined: there is one value for each element.
pub proof fn the_result_is_unique(gemm: Gemm, a: Seq<Float32>, b: Seq<Float32>)
    requires
        gemm.is_result(a),
        gemm.is_result(b),
    ensures
        a == b,
{
    let n = gemm.meta.n as int;
    let m = gemm.meta.m as int;
    assert forall|i: int| 0 <= i < a.len() implies a[i] == b[i] by {
        if n == 0 {
            assert(m * n == 0) by (nonlinear_arith)
                requires
                    n == 0,
            ;
        }
        let row = i / n;
        let column = i % n;
        vstd::arithmetic::div_mod::lemma_fundamental_div_mod(i, n);
        vstd::arithmetic::div_mod::lemma_mod_bound(i, n);
        assert(0 <= row < m) by (nonlinear_arith)
            requires
                i == n * row + column,
                0 <= i < m * n,
                0 <= column < n,
        ;
        assert(n * row == row * n) by (nonlinear_arith);
        assert(a[row * n + column] == gemm.element(row, column));
        assert(b[row * n + column] == gemm.element(row, column));
    }
    assert(a =~= b);
}

/// The length that is announced for the answer to a request is the length of the answer.
pub proof fn the_announced_length_is_the_length(input: Seq<u8>, values: Seq<Float32>)
    requires
        gemm_of(input).is_result(values),
    ensures
        ({
            let meta = gemm_protocol::request_meta(input);
            gemm_protocol::response_message(meta.m, meta.n, values).len()
                == gemm_protocol::response_length(meta.m, meta.n)
        }),
{
    let meta = gemm_protocol::request_meta(input);
    bytes::lemma_le_bytes_len(gemm_protocol::GEMM_PROTOCOL_VERSION as nat, 4);
    bytes::lemma_le_bytes_len(gemm_protocol::GEMM_RESPONSE_HEADER_LEN as nat, 4);
    bytes::lemma_le_bytes_len(meta.m as nat, 8);
    bytes::lemma_le_bytes_len(meta.n as nat, 8);
    bytes::lemma_float_bytes_len(values);
}

/// What is written into a request, multiplied, and read from the answer is the product of the
/// matrices that were written.
pub proof fn the_product_is_read_back(request: GemmRequest<'_>, values: Seq<Float32>)
    requires
        gemm_protocol::request_refusal(request) is None,
        space_defect(gemm_protocol::request_meta(gemm_protocol::request_message(request))) is None,
        gemm_of(gemm_protocol::request_message(request)).is_result(values),
    ensures
        ({
            let gemm = gemm_of(gemm_protocol::request_message(request));
            let answer = gemm_protocol::response_message(request.m, request.n, values);
            &&& gemm.wf()
            &&& gemm.a == request.a@
            &&& gemm.b == request.b@
            &&& gemm.c is Some == request.c is Some
            &&& request.c is Some ==> gemm.c->0 == request.c->0@
            &&& gemm.meta.alpha == request.alpha
            &&& gemm.meta.beta == request.beta
            &&& gemm_protocol::response_defect(answer) is None
            &&& bytes::field(answer, 16, 8) == request.m
            &&& bytes::field(answer, 24, 8) == request.n
            &&& bytes::floats_at(
                answer,
                gemm_protocol::GEMM_RESPONSE_HEADER_LEN as int,
                (request.m * request.n) as nat,
            ) == values
        }),
{
    gemm_protocol::a_request_is_read_as_written(request);
    gemm_protocol::a_response_is_read_as_written(request.m, request.n, values);
}

/// The product of a row of one integer matrix and a column of another, over the first `depth`
/// places, where the first has `k` columns and the second has `n`.
pub open spec fn integer_product(
    a: Seq<int>,
    b: Seq<int>,
    k: int,
    n: int,
    row: int,
    column: int,
    depth: nat,
) -> int
    decreases depth,
{
    if depth == 0 {
        0
    } else {
        integer_product(a, b, k, n, row, column, (depth - 1) as nat) + a[row * k + (depth - 1)]
            * b[(depth - 1) * n + column]
    }
}

/// Whether the numbers are these integers.
pub open spec fn are_integers(values: Seq<Float32>, integers: Seq<int>) -> bool {
    &&& values.len() == integers.len()
    &&& forall|i: int|
        #![trigger values[i]]
        #![trigger integers[i]]
        0 <= i < values.len() ==> values[i].is_integer(integers[i])
}

/// Matrices of integers that are small enough not to be rounded are multiplied as integers: an
/// element is `alpha` times the product of its row of `A` and its column of `B`, over every depth,
/// and `beta` times the element of `C`.
pub proof fn integer_matrices_are_multiplied_exactly(
    gemm: Gemm,
    values: Seq<Float32>,
    alpha: int,
    beta: int,
    a: Seq<int>,
    b: Seq<int>,
    c: Seq<int>,
    start: int,
    step: int,
    row: int,
    column: int,
)
    requires
        gemm.wf(),
        gemm.is_result(values),
        0 <= row < gemm.meta.m,
        0 <= column < gemm.meta.n,
        gemm.meta.alpha.is_integer(alpha),
        gemm.meta.beta.is_integer(beta),
        are_integers(gemm.a, a),
        are_integers(gemm.b, b),
        gemm.c is Some ==> are_integers(gemm.c->0, c),
        0 <= step,
        0 <= start,
        forall|i: int|
            #![trigger a[i]]
            0 <= i < a.len() ==> -0x100_0000 <= alpha * a[i] <= 0x100_0000,
        forall|i: int, j: int|
            #![trigger a[i], b[j]]
            0 <= i < a.len() && 0 <= j < b.len() ==> -step <= (alpha * a[i]) * b[j] <= step,
        gemm.c is Some ==> forall|i: int|
            #![trigger c[i]]
            0 <= i < c.len() ==> -start <= beta * c[i] <= start,
        start + gemm.meta.k * step <= 0x100_0000,
    ensures
        ({
            let k = gemm.meta.k as int;
            let n = gemm.meta.n as int;
            let product = integer_product(a, b, k, n, row, column, k as nat);
            values[row * n + column].is_integer(
                alpha * product + if gemm.c is Some {
                    beta * c[row * n + column]
                } else {
                    0
                },
            )
        }),
{
    let k = gemm.meta.k as int;
    let n = gemm.meta.n as int;
    let base = if gemm.c is Some {
        beta * c[row * n + column]
    } else {
        0
    };
    lemma_place(row, column, gemm.meta.m as int, n);
    Float32::integers_are_exact(gemm.meta.alpha, gemm.meta.alpha, alpha, alpha);
    let product = integer_product(a, b, k, n, row, column, k as nat);
    lemma_integer_partial(gemm, alpha, beta, a, b, c, start, step, row, column, k as nat);
    assert(values[row * n + column] == gemm.element(row, column));
    if alpha == 0 {
        lemma_integer_partial(gemm, alpha, beta, a, b, c, start, step, row, column, 0);
        assert(alpha * integer_product(a, b, k, n, row, column, 0) == 0) by (nonlinear_arith)
            requires
                alpha == 0,
        ;
        assert(alpha * product == 0) by (nonlinear_arith)
            requires
                alpha == 0,
        ;
    }
}

proof fn lemma_integer_partial(
    gemm: Gemm,
    alpha: int,
    beta: int,
    a: Seq<int>,
    b: Seq<int>,
    c: Seq<int>,
    start: int,
    step: int,
    row: int,
    column: int,
    depth: nat,
)
    requires
        gemm.wf(),
        0 <= row < gemm.meta.m,
        0 <= column < gemm.meta.n,
        depth <= gemm.meta.k,
        gemm.meta.alpha.is_integer(alpha),
        gemm.meta.beta.is_integer(beta),
        are_integers(gemm.a, a),
        are_integers(gemm.b, b),
        gemm.c is Some ==> are_integers(gemm.c->0, c),
        0 <= step,
        0 <= start,
        forall|i: int|
            #![trigger a[i]]
            0 <= i < a.len() ==> -0x100_0000 <= alpha * a[i] <= 0x100_0000,
        forall|i: int, j: int|
            #![trigger a[i], b[j]]
            0 <= i < a.len() && 0 <= j < b.len() ==> -step <= (alpha * a[i]) * b[j] <= step,
        gemm.c is Some ==> forall|i: int|
            #![trigger c[i]]
            0 <= i < c.len() ==> -start <= beta * c[i] <= start,
        start + gemm.meta.k * step <= 0x100_0000,
    ensures
        ({
            let n = gemm.meta.n as int;
            let whole = alpha * integer_product(a, b, gemm.meta.k as int, n, row, column, depth)
                + if gemm.c is Some {
                beta * c[row * n + column]
            } else {
                0
            };
            &&& gemm.partial(row, column, depth).is_integer(whole)
            &&& -(start + depth * step) <= whole <= start + depth * step
        }),
    decreases depth,
{
    let k = gemm.meta.k as int;
    let n = gemm.meta.n as int;
    let base = if gemm.c is Some {
        beta * c[row * n + column]
    } else {
        0
    };
    lemma_place(row, column, gemm.meta.m as int, n);
    Float32::zero_and_one();
    Float32::integers_are_exact(gemm.meta.beta, gemm.meta.beta, beta, beta);
    assert(0 <= k * step) by (nonlinear_arith)
        requires
            0 <= k,
            0 <= step,
    ;
    if depth == 0 {
        assert(alpha * 0 == 0 && 0 * step == 0) by (nonlinear_arith);
        if gemm.c is Some {
            let i = row * n + column;
            assert(-start <= beta * c[i] <= start);
            Float32::integers_are_exact(gemm.meta.beta, gemm.c->0[i], beta, c[i]);
            if beta == 0 {
                assert(beta * c[i] == 0) by (nonlinear_arith)
                    requires
                        beta == 0,
                ;
            }
        }
    } else {
        let d = (depth - 1) as nat;
        lemma_integer_partial(gemm, alpha, beta, a, b, c, start, step, row, column, d);
        lemma_place(row, d as int, gemm.meta.m as int, k);
        lemma_place(d as int, column, k, n);
        let i = row * k + d;
        let j = d * n + column;
        let before = integer_product(a, b, k, n, row, column, d);
        Float32::integers_are_exact(gemm.meta.alpha, gemm.a[i], alpha, a[i]);
        assert(-0x100_0000 <= alpha * a[i] <= 0x100_0000);
        assert(-step <= (alpha * a[i]) * b[j] <= step);
        assert(d * step + step == depth * step && depth * step <= k * step && step <= k * step)
            by (nonlinear_arith)
            requires
                depth == d + 1,
                depth <= k,
                0 <= step,
                0 <= d,
        ;
        Float32::integers_are_exact(
            gemm.meta.alpha.mul_spec(gemm.a[i]),
            gemm.b[j],
            alpha * a[i],
            b[j],
        );
        assert(alpha * (before + a[i] * b[j]) == alpha * before + (alpha * a[i]) * b[j])
            by (nonlinear_arith);
        Float32::integers_are_exact(
            gemm.partial(row, column, d),
            gemm.term(row, column, d as int),
            alpha * before + base,
            (alpha * a[i]) * b[j],
        );
    }
}

/// A matrix of finite numbers times the identity matrix of any size is the matrix itself.
pub proof fn the_identity_gives_the_matrix_back(
    gemm: Gemm,
    values: Seq<Float32>,
    row: int,
    column: int,
)
    requires
        gemm.wf(),
        gemm.is_result(values),
        gemm.meta.n == gemm.meta.k,
        gemm.c is None || gemm.meta.beta.is_integer(0),
        gemm.meta.alpha == (Float32 { bits: 0x3f80_0000 }),
        0 <= row < gemm.meta.m,
        0 <= column < gemm.meta.n,
        forall|i: int|
            #![trigger gemm.a[i]]
            0 <= i < gemm.a.len() ==> float::unsigned(float::binary32(), gemm.a[i].bits as u64)
                < 0x7f80_0000,
        forall|r: int, s: int|
            #![trigger gemm.b[r * gemm.meta.n + s]]
            0 <= r < gemm.meta.n && 0 <= s < gemm.meta.n ==> gemm.b[r * gemm.meta.n + s] == (
            Float32 {
                bits: if r == s {
                    0x3f80_0000
                } else {
                    0
                },
            }),
    ensures
        float::is_equal(
            float::binary32(),
            values[row * gemm.meta.n + column].bits as u64,
            gemm.a[row * gemm.meta.n + column].bits as u64,
        ),
{
    let k = gemm.meta.k as int;
    lemma_place(row, column, gemm.meta.m as int, k);
    lemma_identity_partial(gemm, row, column, k as nat);
    Float32::zero_and_one();
    Float32::integers_are_exact(gemm.meta.alpha, gemm.meta.alpha, 1, 1);
    assert(values[row * k + column] == gemm.element(row, column));
}

proof fn lemma_identity_partial(gemm: Gemm, row: int, column: int, depth: nat)
    requires
        gemm.wf(),
        gemm.meta.n == gemm.meta.k,
        gemm.c is None || gemm.meta.beta.is_integer(0),
        gemm.meta.alpha == (Float32 { bits: 0x3f80_0000 }),
        0 <= row < gemm.meta.m,
        0 <= column < gemm.meta.n,
        depth <= gemm.meta.k,
        forall|i: int|
            #![trigger gemm.a[i]]
            0 <= i < gemm.a.len() ==> float::unsigned(float::binary32(), gemm.a[i].bits as u64)
                < 0x7f80_0000,
        forall|r: int, s: int|
            #![trigger gemm.b[r * gemm.meta.n + s]]
            0 <= r < gemm.meta.n && 0 <= s < gemm.meta.n ==> gemm.b[r * gemm.meta.n + s] == (
            Float32 {
                bits: if r == s {
                    0x3f80_0000
                } else {
                    0
                },
            }),
    ensures
        exact::is_number(
            float::binary32(),
            gemm.partial(row, column, depth).bits as u64,
            if column < depth {
                float::value_of(
                    float::binary32(),
                    gemm.a[row * gemm.meta.k + column].bits as u64,
                )
            } else {
                0
            },
        ),
    decreases depth,
{
    let f = float::binary32();
    let k = gemm.meta.k as int;
    exact::the_formats_are_wide();
    Float32::zero_and_one();
    float::lemma_zero(23);
    if depth == 0 {
        if gemm.c is Some {
            Float32::integers_are_exact(gemm.meta.beta, gemm.meta.beta, 0, 0);
        }
    } else {
        let d = (depth - 1) as nat;
        lemma_identity_partial(gemm, row, column, d);
        lemma_place(row, d as int, gemm.meta.m as int, k);
        lemma_place(row, column, gemm.meta.m as int, k);
        let x = gemm.a[row * k + d];
        let y = gemm.b[d * k + column];
        assert(y == gemm.b[d * gemm.meta.n + column]);
        let v = float::value_of(f, x.bits as u64);
        exact::the_unit_is_neutral_on_either_side(x);
        let before = gemm.partial(row, column, d);
        let term = gemm.term(row, column, d as int);
        if d == column {
            assert(term == x);
            assert(float::magnitude(23, float::unsigned(f, x.bits as u64) as nat)
                == exact::size(0 + v));
            exact::an_exact_sum_is_not_rounded(f, before.bits as u64, term.bits as u64, 0, v);
        } else {
            assert(term == x.mul_spec(Float32 { bits: 0 }));
            assert(float::magnitude(23, 0) == exact::size(0));
            assert(v * 0 == 0 * vstd::arithmetic::power2::pow2(149)) by (nonlinear_arith);
            exact::an_exact_product_is_not_rounded(f, x.bits as u64, 0, v, 0, 0);
            let w = float::value_of(f, before.bits as u64);
            assert(float::magnitude(23, float::unsigned(f, before.bits as u64) as nat)
                == exact::size(w + 0));
            exact::an_exact_sum_is_not_rounded(f, before.bits as u64, term.bits as u64, w, 0);
        }
    }
}

/// A product of depth one, over all numbers: one term is added to what the element starts from,
/// and `alpha` is multiplied into `A` before `B` is.
pub proof fn a_product_of_depth_one(gemm: Gemm, values: Seq<Float32>, row: int, column: int)
    requires
        gemm.wf(),
        gemm.is_result(values),
        gemm.meta.k == 1,
        0 <= row < gemm.meta.m,
        0 <= column < gemm.meta.n,
    ensures
        ({
            let meta = gemm.meta;
            let i = row * meta.n + column;
            let start = if gemm.c is None || meta.beta.is_integer(0) {
                Float32 { bits: 0 }
            } else {
                meta.beta.mul_spec(gemm.c->0[i])
            };
            values[i] == if meta.alpha.is_integer(0) {
                start
            } else {
                start.add_spec(meta.alpha.mul_spec(gemm.a[row]).mul_spec(gemm.b[column]))
            }
        }),
{
    reveal_with_fuel(Gemm::partial, 2);
    lemma_zero_test(gemm.meta.alpha);
    lemma_zero_test(gemm.meta.beta);
    assert(values[row * gemm.meta.n + column] == gemm.element(row, column));
    assert(row * 1 + 0 == row);
    assert(0 * gemm.meta.n + column == column);
}

proof fn lemma_zero_test(x: Float32)
    ensures
        x.is_zero_spec() == x.is_integer(0),
{
    float::lemma_zero(23);
    let unit = vstd::arithmetic::power2::pow2(149);
    assert(0 * unit == 0) by (nonlinear_arith);
    if x.is_integer(0) {
        Float32::integers_are_exact(x, x, 0, 0);
    }
}

/// A product can be computed in two parts along the depth: the second part, with `beta` one, on
/// the result of the first gives what the whole gives, element for element.
pub proof fn a_product_in_two_parts(
    whole: Gemm,
    first: Gemm,
    second: Gemm,
    values: Seq<Float32>,
    half: Seq<Float32>,
    end: Seq<Float32>,
)
    requires
        whole.wf(),
        first.wf(),
        second.wf(),
        whole.is_result(values),
        first.is_result(half),
        second.is_result(end),
        first.meta.m == whole.meta.m,
        second.meta.m == whole.meta.m,
        first.meta.n == whole.meta.n,
        second.meta.n == whole.meta.n,
        first.meta.k + second.meta.k == whole.meta.k,
        first.meta.alpha == whole.meta.alpha,
        second.meta.alpha == whole.meta.alpha,
        first.meta.beta == whole.meta.beta,
        second.meta.beta == (Float32 { bits: 0x3f80_0000 }),
        first.c == whole.c,
        second.c == Some(half),
        forall|row: int, d: int|
            #![trigger whole.a[row * whole.meta.k + d]]
            0 <= row < whole.meta.m && 0 <= d < whole.meta.k ==> whole.a[row * whole.meta.k + d]
                == if d < first.meta.k {
                first.a[row * first.meta.k + d]
            } else {
                second.a[row * second.meta.k + (d - first.meta.k)]
            },
        whole.b == first.b + second.b,
    ensures
        end == values,
{
    let m = whole.meta.m as int;
    let n = whole.meta.n as int;
    let k = first.meta.k as int;
    assert forall|row: int, column: int|
        0 <= row < m && 0 <= column < n implies #[trigger] end[row * n + column] == whole.element(
        row,
        column,
    ) by {
        let i = row * n + column;
        lemma_place(row, column, m, n);
        assert(end[row * second.meta.n + column] == second.element(row, column));
        assert(half[row * first.meta.n + column] == first.element(row, column));
        lemma_first_part(whole, first, second, row, column, first.meta.k as nat);
        lemma_partial_is_quiet(first, row, column, first.meta.k as nat);
        lemma_partial_is_quiet(first, row, column, 0);
        Float32::one_is_neutral(half[i]);
        exact::the_unit_is_neutral_on_either_side(half[i]);
        Float32::zero_and_one();
        Float32::integers_are_exact(second.meta.beta, second.meta.beta, 1, 1);
        assert(second.start(i) == half[i]);
        if !whole.meta.alpha.is_zero_spec() {
            lemma_second_part(whole, first, second, row, column, second.meta.k as nat);
        }
    }
    assert(whole.is_result(end));
    the_result_is_unique(whole, end, values);
}

/// A sum or a product that is not a number is the quiet NaN.
proof fn lemma_partial_is_quiet(gemm: Gemm, row: int, column: int, depth: nat)
    ensures
        ({
            let x = gemm.partial(row, column, depth);
            !float::is_nan(float::binary32(), x.bits as u64) || x.bits == 0x7fc0_0000
        }),
{
    if depth == 0 {
        exact::what_is_not_a_number_is_quiet(
            gemm.meta.beta,
            gemm.c->0[row * gemm.meta.n + column],
        );
    } else {
        exact::what_is_not_a_number_is_quiet(
            gemm.partial(row, column, (depth - 1) as nat),
            gemm.term(row, column, depth - 1),
        );
    }
}

proof fn lemma_first_part(
    whole: Gemm,
    first: Gemm,
    second: Gemm,
    row: int,
    column: int,
    depth: nat,
)
    requires
        whole.wf(),
        first.wf(),
        second.wf(),
        first.meta.m == whole.meta.m,
        first.meta.n == whole.meta.n,
        second.meta.n == whole.meta.n,
        first.meta.k + second.meta.k == whole.meta.k,
        first.meta.alpha == whole.meta.alpha,
        first.meta.beta == whole.meta.beta,
        first.c == whole.c,
        0 <= row < whole.meta.m,
        0 <= column < whole.meta.n,
        depth <= first.meta.k,
        forall|row: int, d: int|
            #![trigger whole.a[row * whole.meta.k + d]]
            0 <= row < whole.meta.m && 0 <= d < whole.meta.k ==> whole.a[row * whole.meta.k + d]
                == if d < first.meta.k {
                first.a[row * first.meta.k + d]
            } else {
                second.a[row * second.meta.k + (d - first.meta.k)]
            },
        whole.b == first.b + second.b,
    ensures
        first.partial(row, column, depth) == whole.partial(row, column, depth),
    decreases depth,
{
    if depth > 0 {
        let d = depth - 1;
        lemma_first_part(whole, first, second, row, column, d as nat);
        lemma_place(d, column, first.meta.k as int, first.meta.n as int);
        assert(whole.a[row * whole.meta.k + d] == first.a[row * first.meta.k + d]);
        assert(whole.b[d * whole.meta.n + column] == first.b[d * first.meta.n + column]);
    }
}

proof fn lemma_second_part(
    whole: Gemm,
    first: Gemm,
    second: Gemm,
    row: int,
    column: int,
    depth: nat,
)
    requires
        whole.wf(),
        first.wf(),
        second.wf(),
        first.meta.n == whole.meta.n,
        second.meta.n == whole.meta.n,
        first.meta.k + second.meta.k == whole.meta.k,
        second.meta.alpha == whole.meta.alpha,
        0 <= row < whole.meta.m,
        0 <= column < whole.meta.n,
        depth <= second.meta.k,
        second.start(row * whole.meta.n + column) == whole.partial(
            row,
            column,
            first.meta.k as nat,
        ),
        forall|row: int, d: int|
            #![trigger whole.a[row * whole.meta.k + d]]
            0 <= row < whole.meta.m && 0 <= d < whole.meta.k ==> whole.a[row * whole.meta.k + d]
                == if d < first.meta.k {
                first.a[row * first.meta.k + d]
            } else {
                second.a[row * second.meta.k + (d - first.meta.k)]
            },
        whole.b == first.b + second.b,
    ensures
        second.partial(row, column, depth) == whole.partial(
            row,
            column,
            (first.meta.k + depth) as nat,
        ),
    decreases depth,
{
    if depth > 0 {
        let d = depth - 1;
        let k = first.meta.k as int;
        let n = whole.meta.n as int;
        lemma_second_part(whole, first, second, row, column, d as nat);
        lemma_place(d, column, second.meta.k as int, n);
        assert(whole.a[row * whole.meta.k + (k + d)] == second.a[row * second.meta.k + d]);
        assert((k + d) * n + column == k * n + (d * n + column)) by (nonlinear_arith);
        assert(first.b.len() == k * n);
        assert(0 <= k * n) by (nonlinear_arith)
            requires
                0 <= k,
                0 <= n,
        ;
        assert(whole.b[(k + d) * n + column] == second.b[d * n + column]);
    }
}

/// Where `beta` is zero, `C` is not read, and where `alpha` is zero, neither `A` nor `B` is: not
/// even a number that is not finite comes through.
pub proof fn a_zero_factor_hides_its_matrix(
    one: Gemm,
    other: Gemm,
    values: Seq<Float32>,
    others: Seq<Float32>,
)
    requires
        one.is_result(values),
        other.is_result(others),
        one.meta == other.meta,
        one.meta.alpha.is_integer(0) || one.a == other.a && one.b == other.b,
        one.meta.beta.is_integer(0) || one.c == other.c,
    ensures
        values == others,
        one.meta.alpha.is_integer(0) && (one.c is None || one.meta.beta.is_integer(0))
            ==> forall|i: int|
            #![trigger values[i]]
            0 <= i < values.len() ==> values[i] == (Float32 { bits: 0 }),
{
    lemma_zero_test(one.meta.alpha);
    lemma_zero_test(one.meta.beta);
    let m = one.meta.m as int;
    let n = one.meta.n as int;
    assert forall|row: int, column: int|
        0 <= row < m && 0 <= column < n implies #[trigger] others[row * n + column] == one.element(
        row,
        column,
    ) by {
        assert(others[row * other.meta.n + column] == other.element(row, column));
        if !one.meta.alpha.is_zero_spec() {
            lemma_same_partial(one, other, row, column, one.meta.k as nat);
        }
    }
    assert(one.is_result(others));
    the_result_is_unique(one, values, others);
    if one.meta.alpha.is_integer(0) && (one.c is None || one.meta.beta.is_integer(0)) {
        let zeros = Seq::new(values.len(), |i: int| Float32 { bits: 0 });
        assert forall|row: int, column: int|
            0 <= row < m && 0 <= column < n implies #[trigger] zeros[row * n + column]
            == one.element(row, column) by {
            lemma_place(row, column, m, n);
        }
        assert(one.is_result(zeros));
        the_result_is_unique(one, values, zeros);
    }
}

proof fn lemma_same_partial(one: Gemm, other: Gemm, row: int, column: int, depth: nat)
    requires
        one.meta == other.meta,
        one.a == other.a,
        one.b == other.b,
        one.meta.beta.is_zero_spec() || one.c == other.c,
    ensures
        one.partial(row, column, depth) == other.partial(row, column, depth),
    decreases depth,
{
    if depth > 0 {
        lemma_same_partial(one, other, row, column, (depth - 1) as nat);
    }
}

/// A request is within the limits if and only if no matrix has more elements than is allowed and
/// the dimensions multiply to no more than the allowed work.
pub proof fn a_request_within_its_limits(meta: GemmRequestMeta, limits: GemmLimits)
    ensures
        limit_defect(meta, limits) is None <==> {
            &&& meta.a_elements <= limits.max_matrix_elements
            &&& meta.b_elements <= limits.max_matrix_elements
            &&& meta.c_elements <= limits.max_matrix_elements
            &&& meta.m * meta.n * meta.k <= limits.max_multiply_adds
        },
        limit_defect(meta, limits) matches Some(error) ==> error is ResourceLimit,
{
}

/// The answer of `m` rows and `n` columns can be announced if and only if its 32 bytes of header
/// and four bytes for each element can be counted.
pub proof fn an_answer_that_can_be_announced(m: u64, n: u64)
    ensures
        response_defect(m, n) is None <==> 32 + 4 * (m * n) <= u64::MAX,
        gemm_protocol::response_length(m, n) == 32 + 4 * (m * n),
{
    assert(0 <= m * n) by (nonlinear_arith);
}

/// From message to message: the answer to a request whose matrices hold integers, small enough not
/// to be rounded, has `alpha` times the product and `beta` times `C` where its element stands, four
/// bytes each from byte 32 on, row by row.
pub proof fn an_answer_holds_the_integer_product(
    input: Seq<u8>,
    values: Seq<Float32>,
    alpha: int,
    beta: int,
    a: Seq<int>,
    b: Seq<int>,
    c: Seq<int>,
    start: int,
    step: int,
    row: int,
    column: int,
)
    requires
        gemm_protocol::request_defect(input) is None,
        space_defect(gemm_protocol::request_meta(input)) is None,
        gemm_of(input).is_result(values),
        ({
            let m = bytes::field(input, 24, 8);
            let n = bytes::field(input, 32, 8);
            let k = bytes::field(input, 40, 8);
            let b_at = 56 + 4 * (m * k);
            let c_at = b_at + 4 * (k * n);
            &&& 0 <= row < m
            &&& 0 <= column < n
            &&& a.len() == m * k
            &&& b.len() == k * n
            &&& c.len() == m * n
            &&& forall|i: int|
                #![trigger a[i]]
                0 <= i < a.len() ==> gemm_protocol::float_field(input, 56 + 4 * i).is_integer(a[i])
            &&& forall|i: int|
                #![trigger b[i]]
                0 <= i < b.len() ==> gemm_protocol::float_field(input, b_at + 4 * i).is_integer(
                    b[i],
                )
            &&& bytes::field(input, 16, 4) == 1 ==> forall|i: int|
                #![trigger c[i]]
                0 <= i < c.len() ==> gemm_protocol::float_field(input, c_at + 4 * i).is_integer(
                    c[i],
                )
            &&& start + k * step <= 0x100_0000
        }),
        gemm_protocol::float_field(input, 48).is_integer(alpha),
        gemm_protocol::float_field(input, 52).is_integer(beta),
        0 <= step,
        0 <= start,
        forall|i: int|
            #![trigger a[i]]
            0 <= i < a.len() ==> -0x100_0000 <= alpha * a[i] <= 0x100_0000,
        forall|i: int, j: int|
            #![trigger a[i], b[j]]
            0 <= i < a.len() && 0 <= j < b.len() ==> -step <= (alpha * a[i]) * b[j] <= step,
        forall|i: int| #![trigger c[i]] 0 <= i < c.len() ==> -start <= beta * c[i] <= start,
    ensures
        ({
            let meta = gemm_protocol::request_meta(input);
            let n = bytes::field(input, 32, 8) as int;
            let k = bytes::field(input, 40, 8) as int;
            let answer = gemm_protocol::response_message(meta.m, meta.n, values);
            let product = integer_product(a, b, k, n, row, column, k as nat);
            gemm_protocol::float_field(answer, 32 + 4 * (row * n + column)).is_integer(
                alpha * product + if bytes::field(input, 16, 4) == 1 {
                    beta * c[row * n + column]
                } else {
                    0
                },
            )
        }),
{
    let gemm = gemm_of(input);
    let meta = gemm.meta;
    let n = meta.n as int;
    gemm_protocol::the_layout_of_a_request(input);
    assert(are_integers(gemm.a, a)) by {
        assert forall|i: int| 0 <= i < gemm.a.len() implies (#[trigger] gemm.a[i]).is_integer(
            a[i],
        ) by {
            bytes::fields_are_bounded(input, 56 + 4 * i);
        }
    }
    let b_at = 56 + 4 * (meta.m * meta.k);
    let c_at = b_at + 4 * (meta.k * meta.n);
    assert(are_integers(gemm.b, b)) by {
        assert forall|i: int| 0 <= i < gemm.b.len() implies (#[trigger] gemm.b[i]).is_integer(
            b[i],
        ) by {
            let x = b[i];
            assert(gemm.b[i] == gemm_protocol::float_field(input, b_at + 4 * i));
        }
    }
    if gemm.c is Some {
        assert(are_integers(gemm.c->0, c)) by {
            assert forall|i: int| 0 <= i < gemm.c->0.len() implies (#[trigger]
            gemm.c->0[i]).is_integer(c[i]) by {
                let x = c[i];
                assert(gemm.c->0[i] == gemm_protocol::float_field(input, c_at + 4 * i));
            }
        }
    }
    integer_matrices_are_multiplied_exactly(
        gemm,
        values,
        alpha,
        beta,
        a,
        b,
        c,
        start,
        step,
        row,
        column,
    );
    lemma_place(row, column, meta.m as int, n);
    let answer = gemm_protocol::response_message(meta.m, meta.n, values);
    gemm_protocol::the_layout_of_a_result(meta.m, meta.n, values, row * n + column);
}

/// A product of no depth is what its elements start from: `beta` times `C`, or zero where there is
/// no `C` or `beta` is zero.
pub proof fn a_product_of_no_depth(gemm: Gemm, values: Seq<Float32>, row: int, column: int)
    requires
        gemm.is_result(values),
        gemm.meta.k == 0,
        0 <= row < gemm.meta.m,
        0 <= column < gemm.meta.n,
    ensures
        ({
            let meta = gemm.meta;
            let i = row * meta.n + column;
            values[i] == if gemm.c is None || meta.beta.is_integer(0) {
                Float32 { bits: 0 }
            } else {
                meta.beta.mul_spec(gemm.c->0[i])
            }
        }),
{
    lemma_zero_test(gemm.meta.beta);
    assert(values[row * gemm.meta.n + column] == gemm.element(row, column));
}

/// What a request that is beyond the limits is told: which matrix, how many elements it has and how
/// many are allowed, or how much work there is.
pub proof fn what_is_beyond_the_limits(meta: GemmRequestMeta, limits: GemmLimits)
    ensures
        ({
            let most = limits.max_matrix_elements;
            let a = meta.a_elements;
            let b = meta.b_elements;
            let c = meta.c_elements;
            let error = limit_defect(meta, limits);
            let told = |resource: &'static str, actual: int, maximum: u64|
                error == Some(
                    ReferenceGemmError::ResourceLimit {
                        resource,
                        actual: actual as u128,
                        maximum: maximum as u128,
                    },
                );
            &&& a > most ==> told("matrix A elements", a as int, most)
            &&& a <= most && b > most ==> told("matrix B elements", b as int, most)
            &&& a <= most && b <= most && c > most ==> told(
                "matrix C/output elements",
                c as int,
                most,
            )
            &&& a <= most && b <= most && c <= most && meta.m * meta.n * meta.k
                > limits.max_multiply_adds ==> told(
                "multiply-add count",
                meta.m * meta.n * meta.k,
                limits.max_multiply_adds,
            )
        }),
{
}

} // verus!
