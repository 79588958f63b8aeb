//! Operators: compute that is registered, selected and run without regard to transport.

use crate::backend::BackendKind;
use crate::ordered_map;
use crate::ordered_map::{OrderedKey, OrderedMap};
use std::sync::Arc;
use vstd::prelude::*;
use vstd::string::*;

verus! {

/// Classes of compute that operators provide.
#[derive(Debug, Clone, Copy, PartialEq, Eq, PartialOrd, Ord, Hash, Structural)]
pub enum OperatorKind {
    Gemm,
    Attention,
    Quantize,
    Dequantize,
    Transform,
    Custom,
}

impl View for OperatorKind {
    type V = OperatorKind;

    open spec fn view(&self) -> OperatorKind {
        *self
    }
}

impl OperatorKind {
    /// The place of the kind among all kinds.
    pub open spec fn place(self) -> int {
        match self {
            OperatorKind::Gemm => 0,
            OperatorKind::Attention => 1,
            OperatorKind::Quantize => 2,
            OperatorKind::Dequantize => 3,
            OperatorKind::Transform => 4,
            OperatorKind::Custom => 5,
        }
    }

    fn place_of(self) -> (r: u8)
        ensures
            r == self.place(),
    {
        match self {
            OperatorKind::Gemm => 0,
            OperatorKind::Attention => 1,
            OperatorKind::Quantize => 2,
            OperatorKind::Dequantize => 3,
            OperatorKind::Transform => 4,
            OperatorKind::Custom => 5,
        }
    }

    /// The name of the kind.
    pub open spec fn label(self) -> Seq<char> {
        match self {
            OperatorKind::Gemm => "Gemm"@,
            OperatorKind::Attention => "Attention"@,
            OperatorKind::Quantize => "Quantize"@,
            OperatorKind::Dequantize => "Dequantize"@,
            OperatorKind::Transform => "Transform"@,
            OperatorKind::Custom => "Custom"@,
        }
    }

    pub fn name(self) -> (r: &'static str)
        ensures
            r@ == self.label(),
    {
        match self {
            OperatorKind::Gemm => "Gemm",
            OperatorKind::Attention => "Attention",
            OperatorKind::Quantize => "Quantize",
            OperatorKind::Dequantize => "Dequantize",
            OperatorKind::Transform => "Transform",
            OperatorKind::Custom => "Custom",
        }
    }
}

impl OrderedKey for OperatorKind {
    open spec fn before(a: OperatorKind, b: OperatorKind) -> bool {
        a.place() < b.place()
    }

    proof fn before_is_asymmetric(a: OperatorKind, b: OperatorKind) {
    }

    proof fn before_is_transitive(a: OperatorKind, b: OperatorKind, c: OperatorKind) {
    }

    proof fn before_is_total(a: OperatorKind, b: OperatorKind) {
    }

    fn is_before(&self, other: &Self) -> (r: bool) {
        self.place_of() < other.place_of()
    }
}

/// What an operator is asked to be.
#[derive(Debug, Clone, Copy, PartialEq, Eq, Structural)]
pub struct OperatorRequest {
    pub kind: OperatorKind,
    pub preferred_backend: Option<BackendKind>,
    pub requires_zero_copy: bool,
}

impl OperatorRequest {
    #[must_use]
    pub fn new(kind: OperatorKind) -> (r: Self)
        ensures
            r == (OperatorRequest { kind, preferred_backend: None, requires_zero_copy: false }),
    {
        OperatorRequest { kind, preferred_backend: None, requires_zero_copy: false }
    }
}

/// What one operator says it can do.
#[derive(Debug, Clone, Copy, PartialEq, Eq, Structural)]
pub struct OperatorCapabilities {
    pub kind: OperatorKind,
    pub backend: BackendKind,
    pub supports_zero_copy: bool,
}

/// What an operator is run on: bytes whose meaning is between caller and operator.
#[derive(Debug, Clone, Copy, PartialEq, Eq)]
pub struct OperatorInvocation<'a> {
    pub input: &'a [u8],
}

#[derive(Debug, Clone, PartialEq, Eq)]
pub struct OperatorOutput {
    pub bytes: Vec<u8>,
}

#[derive(Debug, PartialEq, Eq)]
pub enum OperatorError {
    Unavailable(String),
    Execution(String),
    NoCompatibleOperator(OperatorKind),
}

impl OperatorError {
    /// The text of the error.
    pub open spec fn text(&self) -> Seq<char> {
        match self {
            OperatorError::Unavailable(value) => "operator is unavailable: "@ + value@,
            OperatorError::Execution(value) => "operator execution failed: "@ + value@,
            OperatorError::NoCompatibleOperator(value) => {
                "no compatible operator registered for "@ + value.label()
            },
        }
    }

    pub fn message(&self) -> (r: String)
        ensures
            r@ == self.text(),
    {
        match self {
            OperatorError::Unavailable(value) => {
                let mut r = "operator is unavailable: ".to_owned();
                r.append(value.as_str());
                r
            },
            OperatorError::Execution(value) => {
                let mut r = "operator execution failed: ".to_owned();
                r.append(value.as_str());
                r
            },
            OperatorError::NoCompatibleOperator(value) => {
                let mut r = "no compatible operator registered for ".to_owned();
                r.append(value.name());
                r
            },
        }
    }
}

/// A compute operator.
pub trait Operator: Send + Sync {
    fn name(&self) -> &str;

    fn capabilities(&self) -> OperatorCapabilities;

    fn execute(&self, invocation: OperatorInvocation<'_>) -> Result<OperatorOutput, OperatorError>;
}

/// A rule by which one of several operators is selected.
pub trait OperatorSelectionPolicy<O: Operator + ?Sized>: Send + Sync {
    fn select(&self, request: &OperatorRequest, candidates: &[Arc<O>]) -> Option<Arc<O>>;
}

/// Whether capabilities are of the kind asked for and zero-copy where that is required.
pub open spec fn is_compatible(
    request: OperatorRequest,
    capabilities: OperatorCapabilities,
) -> bool {
    &&& capabilities.kind == request.kind
    &&& request.requires_zero_copy ==> capabilities.supports_zero_copy
}

/// Whether an operator that answers `capabilities` can serve the request.
pub fn can_serve(request: &OperatorRequest, capabilities: &OperatorCapabilities) -> (r: bool)
    ensures
        r == is_compatible(*request, *capabilities),
{
    capabilities.kind == request.kind && (!request.requires_zero_copy
        || capabilities.supports_zero_copy)
}

/// Whether candidate `i` is compatible and on the preferred backend.
pub open spec fn is_preferred(
    request: OperatorRequest,
    capabilities: Seq<OperatorCapabilities>,
    i: int,
) -> bool {
    &&& 0 <= i < capabilities.len()
    &&& is_compatible(request, capabilities[i])
    &&& request.preferred_backend == Some(capabilities[i].backend)
}

/// Whether candidate `i` is the first compatible one on the preferred backend or, where there is
/// none, the first compatible one.
pub open spec fn is_first_choice(
    request: OperatorRequest,
    capabilities: Seq<OperatorCapabilities>,
    i: int,
) -> bool {
    &&& 0 <= i < capabilities.len()
    &&& is_compatible(request, capabilities[i])
    &&& if exists|j: int| is_preferred(request, capabilities, j) {
        &&& is_preferred(request, capabilities, i)
        &&& forall|j: int| 0 <= j < i ==> !is_preferred(request, capabilities, j)
    } else {
        forall|j: int|
            #![trigger capabilities[j]]
            0 <= j < i ==> !is_compatible(request, capabilities[j])
    }
}

/// Selects the first compatible operator on the preferred backend or, where there is none, the
/// first compatible one in the order of registration.
#[derive(Debug)]
pub struct FirstCompatible;

impl Default for FirstCompatible {
    fn default() -> (r: Self)
        ensures
            r == FirstCompatible,
    {
        FirstCompatible
    }
}

/// Whether `capabilities` can be what the operators say of themselves.
pub open spec fn can_declare<O: Operator + ?Sized>(
    operators: Seq<Arc<O>>,
    capabilities: Seq<OperatorCapabilities>,
) -> bool {
    &&& capabilities.len() == operators.len()
    &&& forall|i: int|
        #![trigger capabilities[i]]
        0 <= i < capabilities.len() ==> can_answer(operators[i], capabilities[i])
}

/// Whether an operator that is asked for its capabilities can answer `capabilities`. It is asked
/// anew each time, and may answer anew.
pub open spec fn can_answer<O: Operator + ?Sized>(
    operator: Arc<O>,
    capabilities: OperatorCapabilities,
) -> bool {
    call_ensures(O::capabilities, (&*operator,), capabilities)
}

/// Whether an operator can be found compatible or, where `compatible` is false, incompatible.
pub open spec fn can_be_found<O: Operator + ?Sized>(
    request: OperatorRequest,
    operator: Arc<O>,
    compatible: bool,
) -> bool {
    exists|asked: OperatorCapabilities| #[trigger]
        can_answer(operator, asked) && is_compatible(request, asked) == compatible
}

/// Whether an operator can answer that it is on `backend` or, where `there` is false, on another.
pub open spec fn can_be_placed<O: Operator + ?Sized>(
    backend: BackendKind,
    operator: Arc<O>,
    there: bool,
) -> bool {
    exists|asked: OperatorCapabilities| #[trigger]
        can_answer(operator, asked) && (asked.backend == backend) == there
}

/// Whether candidate `i` can be the first that is found compatible and on `backend`.
pub open spec fn can_be_first_on<O: Operator + ?Sized>(
    request: OperatorRequest,
    backend: BackendKind,
    candidates: Seq<Arc<O>>,
    i: int,
) -> bool {
    &&& can_be_found(request, candidates[i], true)
    &&& can_be_placed(backend, candidates[i], true)
    &&& can_pass_over_on(request, backend, candidates, i)
}

/// Whether each of the first `n` candidates can be found incompatible or on another backend.
pub open spec fn can_pass_over_on<O: Operator + ?Sized>(
    request: OperatorRequest,
    backend: BackendKind,
    candidates: Seq<Arc<O>>,
    n: int,
) -> bool {
    forall|j: int|
        #![trigger candidates[j]]
        0 <= j < n ==> can_be_found(request, candidates[j], false) || (can_be_found(
            request,
            candidates[j],
            true,
        ) && can_be_placed(backend, candidates[j], false))
}

/// Whether each of the first `n` candidates can be found incompatible.
pub open spec fn can_pass_over<O: Operator + ?Sized>(
    request: OperatorRequest,
    candidates: Seq<Arc<O>>,
    n: int,
) -> bool {
    forall|j: int|
        #![trigger candidates[j]]
        0 <= j < n ==> can_be_found(request, candidates[j], false)
}

/// Whether the search for the preferred backend can end without a candidate.
pub open spec fn can_lack_preferred<O: Operator + ?Sized>(
    request: OperatorRequest,
    candidates: Seq<Arc<O>>,
) -> bool {
    match request.preferred_backend {
        Some(backend) => can_pass_over_on(
            request,
            backend,
            candidates,
            candidates.len() as int,
        ),
        None => true,
    }
}

/// Whether candidate `i` can be selected: as the first on the preferred backend or, where none was
/// found there, as the first that is compatible when all are asked again.
pub open spec fn can_be_selected<O: Operator + ?Sized>(
    request: OperatorRequest,
    candidates: Seq<Arc<O>>,
    i: int,
) -> bool {
    &&& 0 <= i < candidates.len()
    &&& {
        ||| request.preferred_backend is Some && can_be_first_on(
            request,
            request.preferred_backend->0,
            candidates,
            i,
        )
        ||| can_lack_preferred(request, candidates) && can_be_found(
            request,
            candidates[i],
            true,
        ) && can_pass_over(request, candidates, i)
    }
}

/// The first candidate that is found compatible and then on `backend`.
fn first_on<O: Operator + ?Sized>(
    request: &OperatorRequest,
    backend: BackendKind,
    candidates: &[Arc<O>],
) -> (r: Option<usize>)
    ensures
        match r {
            Some(i) => i < candidates@.len() && can_be_first_on(
                *request,
                backend,
                candidates@,
                i as int,
            ),
            None => can_pass_over_on(
                *request,
                backend,
                candidates@,
                candidates@.len() as int,
            ),
        },
{
    let mut i: usize = 0;
    while i < candidates.len()
        invariant
            i <= candidates@.len(),
            can_pass_over_on(*request, backend, candidates@, i as int),
        decreases candidates@.len() - i,
    {
        let asked = candidates[i].capabilities();
        assert(can_answer(candidates@[i as int], asked));
        if can_serve(request, &asked) {
            let named = candidates[i].capabilities();
            assert(can_answer(candidates@[i as int], named));
            if named.backend == backend {
                return Some(i);
            }
        }
        i = i + 1;
    }
    None
}

/// The first candidate that is found compatible.
fn first_compatible<O: Operator + ?Sized>(
    request: &OperatorRequest,
    candidates: &[Arc<O>],
) -> (r: Option<usize>)
    ensures
        match r {
            Some(i) => {
                &&& i < candidates@.len()
                &&& can_be_found(*request, candidates@[i as int], true)
                &&& can_pass_over(*request, candidates@, i as int)
            },
            None => can_pass_over(*request, candidates@, candidates@.len() as int),
        },
{
    let mut i: usize = 0;
    while i < candidates.len()
        invariant
            i <= candidates@.len(),
            can_pass_over(*request, candidates@, i as int),
        decreases candidates@.len() - i,
    {
        let asked = candidates[i].capabilities();
        assert(can_answer(candidates@[i as int], asked));
        if can_serve(request, &asked) {
            return Some(i);
        }
        i = i + 1;
    }
    None
}

impl<O: Operator + ?Sized> OperatorSelectionPolicy<O> for FirstCompatible {
    fn select(&self, request: &OperatorRequest, candidates: &[Arc<O>]) -> (r: Option<Arc<O>>)
        ensures
            match r {
                Some(operator) => exists|i: int| #[trigger]
                    can_be_selected(*request, candidates@, i) && operator == candidates@[i],
                None => {
                    &&& can_lack_preferred(*request, candidates@)
                    &&& can_pass_over(*request, candidates@, candidates@.len() as int)
                },
            },
    {
        match request.preferred_backend {
            Some(backend) => {
                match first_on(request, backend, candidates) {
                    Some(i) => {
                        assert(can_be_selected(*request, candidates@, i as int));
                        return Some(candidates[i].clone());
                    },
                    None => {},
                }
            },
            None => {},
        }
        match first_compatible(request, candidates) {
            Some(i) => {
                assert(can_be_selected(*request, candidates@, i as int));
                Some(candidates[i].clone())
            },
            None => None,
        }
    }
}

/// The registered operators by their kind, each kind in the order of registration.
pub struct OperatorRegistry<O: Operator + ?Sized, P: OperatorSelectionPolicy<O> + ?Sized> {
    operators: OrderedMap<OperatorKind, Vec<Arc<O>>>,
    policy: Arc<P>,
}

impl<O: Operator + ?Sized, P: OperatorSelectionPolicy<O> + ?Sized> OperatorRegistry<O, P> {
    pub closed spec fn entries(&self) -> Seq<(OperatorKind, Vec<Arc<O>>)> {
        self.operators@
    }

    pub closed spec fn policy(&self) -> Arc<P> {
        self.policy
    }

    /// Each kind stands once, and only where it has an operator.
    pub open spec fn wf(&self) -> bool {
        &&& ordered_map::keys_increase(self.entries())
        &&& forall|i: int|
            #![trigger self.entries()[i]]
            0 <= i < self.entries().len() ==> self.entries()[i].1@.len() > 0
    }

    /// The operators of a kind, in the order of registration.
    pub open spec fn registered(&self, kind: OperatorKind) -> Seq<Arc<O>> {
        match ordered_map::value_of(self.entries(), kind) {
            Some(operators) => operators@,
            None => Seq::empty(),
        }
    }

    #[must_use]
    pub fn new(policy: Arc<P>) -> (r: Self)
        ensures
            r.wf(),
            r.entries().len() == 0,
            ordered_map::item_count(r.entries()) == 0,
            r.policy() == policy,
    {
        OperatorRegistry { operators: OrderedMap::new(), policy }
    }

    /// Registers `operator` behind the others of `kind`.
    pub fn register_as(&mut self, kind: OperatorKind, operator: Arc<O>)
        requires
            old(self).wf(),
        ensures
            final(self).wf(),
            final(self).policy() == old(self).policy(),
            final(self).registered(kind) == old(self).registered(kind).push(operator),
            ordered_map::item_count(final(self).entries()) == ordered_map::item_count(
                old(self).entries(),
            ) + 1,
            forall|other: OperatorKind|
                #![trigger final(self).registered(other)]
                other != kind ==> final(self).registered(other) == old(self).registered(other),
    {
        let ghost before = self.entries();
        match self.operators.find(&kind) {
            Some(i) => {
                let operators = self.operators.value_at_mut(i);
                operators.push(operator);
                proof {
                    let now = self.entries()[i as int].1;
                    let key = before[i as int].0;
                    assert(self.entries() == before.update(i as int, (key, now)));
                    ordered_map::lemma_position(before, i as int);
                    ordered_map::lemma_update(before, i as int, now);
                    ordered_map::lemma_count_of_update(before, i as int, (key, now));
                    assert forall|other: OperatorKind| #[trigger]
                        self.registered(other) == if other == kind {
                            old(self).registered(kind).push(operator)
                        } else {
                            old(self).registered(other)
                        } by {
                        ordered_map::insertion_changes_one_key(
                            before,
                            key,
                            now,
                            self.entries(),
                            other,
                        );
                    }
                    assert(self.registered(kind) == old(self).registered(kind).push(operator));
                }
            },
            None => {
                let mut operators: Vec<Arc<O>> = Vec::new();
                operators.push(operator);
                self.operators.insert(kind, operators);
                proof {
                    assert(operators@ =~= Seq::<Arc<O>>::empty().push(operator));
                    assert forall|other: OperatorKind| #[trigger]
                        self.registered(other) == if other == kind {
                            old(self).registered(kind).push(operator)
                        } else {
                            old(self).registered(other)
                        } by {
                        ordered_map::insertion_changes_one_key(
                            before,
                            kind,
                            operators,
                            self.entries(),
                            other,
                        );
                    }
                    assert(self.registered(kind) == old(self).registered(kind).push(operator));
                    let k = choose|k: int|
                        0 <= k <= before.len() && self.entries() == #[trigger] before.insert(
                            k,
                            (kind, operators),
                        );
                    ordered_map::lemma_count_of_insert(before, k, (kind, operators));
                    assert forall|i: int|
                        #![trigger self.entries()[i]]
                        0 <= i < self.entries().len() implies self.entries()[i].1@.len() > 0 by {
                        if i != k {
                            assert(self.entries()[i] == before[if i < k { i } else { i - 1 }]);
                        }
                    }
                }
            },
        }
    }

    /// Registers an operator under the kind that it declares.
    pub fn register(&mut self, operator: Arc<O>)
        requires
            old(self).wf(),
        ensures
            final(self).wf(),
            final(self).policy() == old(self).policy(),
            ordered_map::item_count(final(self).entries()) == ordered_map::item_count(
                old(self).entries(),
            ) + 1,
            exists|capabilities: OperatorCapabilities|
                {
                    let kind = capabilities.kind;
                    &&& #[trigger] call_ensures(O::capabilities, (&*operator,), capabilities)
                    &&& final(self).registered(kind) == old(self).registered(kind).push(operator)
                    &&& forall|other: OperatorKind|
                        #![trigger final(self).registered(other)]
                        other != kind ==> final(self).registered(other) == old(self).registered(
                            other,
                        )
                },
    {
        let capabilities = operator.capabilities();
        self.register_as(capabilities.kind, operator);
        assert(call_ensures(O::capabilities, (&*operator,), capabilities));
    }

    /// Lets the policy select one of the operators of the requested kind and runs it. Fails where
    /// none is selected.
    pub fn execute(&self, request: &OperatorRequest, invocation: OperatorInvocation<'_>) -> (r:
        Result<OperatorOutput, OperatorError>)
        requires
            self.wf(),
        ensures
            exists|candidates: &[Arc<O>], selected: Option<Arc<O>>|
                {
                    &&& candidates@ == self.registered(request.kind)
                    &&& #[trigger] call_ensures(
                        P::select,
                        (&*self.policy(), request, candidates),
                        selected,
                    )
                    &&& match selected {
                        Some(operator) => call_ensures(O::execute, (&*operator, invocation), r),
                        None => r == Err::<OperatorOutput, _>(
                            OperatorError::NoCompatibleOperator(request.kind),
                        ),
                    }
                },
    {
        let nothing: Vec<Arc<O>> = Vec::new();
        let candidates: &[Arc<O>] = match self.operators.get(&request.kind) {
            Some(operators) => operators.as_slice(),
            None => nothing.as_slice(),
        };
        assert(candidates@ =~= self.registered(request.kind));
        let selected = self.policy.select(request, candidates);
        assert(call_ensures(P::select, (&*self.policy(), request, candidates), selected));
        match selected {
            Some(operator) => operator.execute(invocation),
            None => Err(OperatorError::NoCompatibleOperator(request.kind)),
        }
    }

    #[must_use]
    pub fn len(&self) -> (r: usize)
        requires
            ordered_map::item_count(self.entries()) <= usize::MAX,
        ensures
            r == ordered_map::item_count(self.entries()),
    {
        let mut count: usize = 0;
        let mut i: usize = 0;
        while i < self.operators.len()
            invariant
                i <= self.entries().len(),
                self.entries() == self.operators@,
                count == ordered_map::item_count(self.entries().take(i as int)),
                ordered_map::item_count(self.entries()) <= usize::MAX,
            decreases self.entries().len() - i,
        {
            proof {
                ordered_map::lemma_count_of_prefix(self.entries(), i + 1);
                assert(self.entries().take(i + 1).drop_last() =~= self.entries().take(i as int));
            }
            count = count + self.operators.value_at(i).len();
            i = i + 1;
        }
        assert(self.entries().take(i as int) =~= self.entries());
        count
    }

    #[must_use]
    pub fn is_empty(&self) -> (r: bool)
        ensures
            r == (self.entries().len() == 0),
    {
        self.operators.len() == 0
    }
}

/// A registry is empty where it holds no operator, and nowhere else.
pub proof fn empty_means_no_operators<O: Operator + ?Sized, P: OperatorSelectionPolicy<O> + ?Sized>(
    registry: OperatorRegistry<O, P>,
)
    requires
        registry.wf(),
    ensures
        registry.entries().len() == 0 <==> ordered_map::item_count(registry.entries()) == 0,
{
    let entries = registry.entries();
    if entries.len() > 0 {
        assert(entries[entries.len() - 1].1@.len() > 0);
    }
}

/// Whether each operator answers the same whenever it is asked: its own among `capabilities`.
pub open spec fn are_settled<O: Operator + ?Sized>(
    operators: Seq<Arc<O>>,
    capabilities: Seq<OperatorCapabilities>,
) -> bool {
    &&& capabilities.len() == operators.len()
    &&& forall|i: int, answer: OperatorCapabilities|
        #![trigger can_answer(operators[i], answer)]
        0 <= i < operators.len() && can_answer(operators[i], answer) ==> answer == capabilities[i]
}

/// A settled operator is found to be what it declares.
proof fn lemma_settled<O: Operator + ?Sized>(
    request: OperatorRequest,
    candidates: Seq<Arc<O>>,
    capabilities: Seq<OperatorCapabilities>,
    j: int,
)
    requires
        are_settled(candidates, capabilities),
        0 <= j < candidates.len(),
    ensures
        forall|wanted: bool| #[trigger]
            can_be_found(request, candidates[j], wanted) ==> is_compatible(
                request,
                capabilities[j],
            ) == wanted,
        forall|backend: BackendKind, there: bool| #[trigger]
            can_be_placed(backend, candidates[j], there) ==> (capabilities[j].backend == backend)
                == there,
{
}

/// Operators that do not change their answers are selected by them: the first compatible one on
/// the preferred backend or, where there is none, the first compatible one.
pub proof fn settled_operators_are_selected_by_their_capabilities<O: Operator + ?Sized>(
    request: OperatorRequest,
    candidates: Seq<Arc<O>>,
    capabilities: Seq<OperatorCapabilities>,
    i: int,
)
    requires
        are_settled(candidates, capabilities),
        can_be_selected(request, candidates, i),
    ensures
        is_first_choice(request, capabilities, i),
{
    lemma_settled(request, candidates, capabilities, i);
    assert forall|j: int|
        #![trigger capabilities[j]]
        0 <= j < i && can_pass_over(request, candidates, i) implies !is_compatible(
        request,
        capabilities[j],
    ) by {
        lemma_settled(request, candidates, capabilities, j);
        assert(can_be_found(request, candidates[j], false));
    }
    let on_preferred = request.preferred_backend is Some && can_be_first_on(
        request,
        request.preferred_backend->0,
        candidates,
        i,
    );
    let n = if on_preferred {
        i
    } else {
        candidates.len() as int
    };
    assert forall|j: int| 0 <= j < n implies !is_preferred(request, capabilities, j) by {
        lemma_settled(request, candidates, capabilities, j);
        let candidate = candidates[j];
    }
    if on_preferred {
        assert(is_preferred(request, capabilities, i));
    } else {
        assert forall|j: int| !is_preferred(request, capabilities, j) by {
            if 0 <= j < n {
                assert(!is_preferred(request, capabilities, j));
            }
        }
    }
}

/// Operators that do not change their answers are refused only where none is compatible.
pub proof fn settled_operators_are_refused_by_their_capabilities<O: Operator + ?Sized>(
    request: OperatorRequest,
    candidates: Seq<Arc<O>>,
    capabilities: Seq<OperatorCapabilities>,
    i: int,
)
    requires
        are_settled(candidates, capabilities),
        can_pass_over(request, candidates, candidates.len() as int),
        0 <= i < candidates.len(),
    ensures
        !is_compatible(request, capabilities[i]),
{
    lemma_settled(request, candidates, capabilities, i);
    let candidate = candidates[i];
}

/// What is selected has answered that it is of the kind asked for, and zero-copy where that is
/// required.
pub proof fn a_choice_meets_the_request<O: Operator + ?Sized>(
    request: OperatorRequest,
    candidates: Seq<Arc<O>>,
    i: int,
)
    requires
        can_be_selected(request, candidates, i),
    ensures
        exists|asked: OperatorCapabilities|
            {
                &&& #[trigger] can_answer(candidates[i], asked)
                &&& asked.kind == request.kind
                &&& request.requires_zero_copy ==> asked.supports_zero_copy
            },
{
}

/// An operator that is registered later displaces no earlier one, unless it alone is on the
/// preferred backend.
pub proof fn later_operators_do_not_displace_earlier_ones(
    request: OperatorRequest,
    capabilities: Seq<OperatorCapabilities>,
    later: OperatorCapabilities,
    i: int,
)
    requires
        is_first_choice(request, capabilities, i),
    ensures
        is_first_choice(request, capabilities.push(later), i) || (is_first_choice(
            request,
            capabilities.push(later),
            capabilities.len() as int,
        ) && request.preferred_backend == Some(later.backend)
            && request.preferred_backend != Some(capabilities[i].backend)),
{
    let more = capabilities.push(later);
    let n = capabilities.len() as int;
    assert forall|j: int| 0 <= j < n implies is_preferred(request, more, j) == is_preferred(
        request,
        capabilities,
        j,
    ) by {
        assert(more[j] == capabilities[j]);
    }
    assert(more[i] == capabilities[i]);
    if exists|j: int| is_preferred(request, capabilities, j) {
        let j = choose|j: int| is_preferred(request, capabilities, j);
        assert(is_preferred(request, more, j));
    } else if is_preferred(request, more, n) {
        assert forall|j: int| 0 <= j < n implies !is_preferred(request, more, j) by {
            assert(!is_preferred(request, capabilities, j));
        }
        assert(!is_preferred(request, capabilities, i));
    } else {
        assert forall|j: int| !is_preferred(request, more, j) by {
            if 0 <= j < n {
                assert(!is_preferred(request, capabilities, j));
            }
        }
        assert forall|j: int| #![trigger more[j]] 0 <= j < i implies !is_compatible(
            request,
            more[j],
        ) by {
            assert(more[j] == capabilities[j]);
        }
    }
}

/// Operators that do not change their answers, by the fields of what they declare: the one that is
/// selected is of the kind asked for and zero-copy where that is required. No other one that is so
/// comes before it, unless the selected one is on the preferred backend and the other is not; and
/// no other one that is so and on the preferred backend is passed over for one that is not on it.
pub proof fn the_selected_operator_by_its_fields<O: Operator + ?Sized>(
    request: OperatorRequest,
    candidates: Seq<Arc<O>>,
    capabilities: Seq<OperatorCapabilities>,
    i: int,
    j: int,
)
    requires
        are_settled(candidates, capabilities),
        can_be_selected(request, candidates, i),
        0 <= j < candidates.len(),
        capabilities[j].kind == request.kind,
        !request.requires_zero_copy || capabilities[j].supports_zero_copy,
    ensures
        0 <= i < candidates.len(),
        capabilities[i].kind == request.kind,
        !request.requires_zero_copy || capabilities[i].supports_zero_copy,
        request.preferred_backend is None ==> i <= j,
        request.preferred_backend is Some ==> {
            let wanted = request.preferred_backend->0;
            &&& capabilities[j].backend == wanted ==> capabilities[i].backend == wanted && i <= j
            &&& capabilities[j].backend != wanted && capabilities[i].backend != wanted ==> i <= j
        },
{
    settled_operators_are_selected_by_their_capabilities(request, candidates, capabilities, i);
    let other = capabilities[j];
    if request.preferred_backend == Some(other.backend) {
        assert(is_preferred(request, capabilities, j));
    }
    if exists|l: int| is_preferred(request, capabilities, l) {
        assert(is_preferred(request, capabilities, i));
        if j < i {
            assert(!is_preferred(request, capabilities, j));
        }
    }
}

/// Operators that do not change their answers are refused only where each of them is of another
/// kind, or is not zero-copy though that is required.
pub proof fn a_refusal_by_the_fields<O: Operator + ?Sized>(
    request: OperatorRequest,
    candidates: Seq<Arc<O>>,
    capabilities: Seq<OperatorCapabilities>,
    i: int,
)
    requires
        are_settled(candidates, capabilities),
        can_pass_over(request, candidates, candidates.len() as int),
        0 <= i < candidates.len(),
    ensures
        capabilities[i].kind != request.kind || request.requires_zero_copy
            && !capabilities[i].supports_zero_copy,
{
    settled_operators_are_refused_by_their_capabilities(request, candidates, capabilities, i);
}

/// An operator meets a request if and only if it is of its kind and, where that is required,
/// zero-copy. The backend is a preference and refuses nothing.
pub proof fn what_an_operator_must_be(
    request: OperatorRequest,
    capabilities: OperatorCapabilities,
    backend: BackendKind,
)
    ensures
        is_compatible(request, capabilities) <==> capabilities.kind == request.kind && (
        !request.requires_zero_copy || capabilities.supports_zero_copy),
        is_compatible(request, capabilities) == is_compatible(
            request,
            OperatorCapabilities { backend, ..capabilities },
        ),
{
}

} // verus!
