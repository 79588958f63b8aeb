//! Routing of whole workloads, which accounts for the cost of changing backends.
//!
//! A kernel that is fastest by itself does not win where getting to its backend and back makes the
//! whole chain slower.

use crate::backend;
use crate::backend::{BackendId, BackendKind, BackendProbe, RouteRequest};
use crate::float;
use crate::float::Float64;
use crate::ordered_map;
use crate::ordered_map::{OrderedKey, OrderedMap};
use crate::performance;
use crate::performance::{PerformanceRecord, PerformanceTable};
use crate::text;
use vstd::prelude::*;
use vstd::string::*;

verus! {

/// The end points of a change of backend.
#[derive(Debug)]
pub struct BackendPair {
    pub from: BackendId,
    pub to: BackendId,
}

impl Clone for BackendPair {
    fn clone(&self) -> (r: Self)
        ensures
            r == *self,
    {
        BackendPair { from: self.from.clone(), to: self.to.clone() }
    }
}

impl View for BackendPair {
    type V = (Seq<char>, Seq<char>);

    open spec fn view(&self) -> (Seq<char>, Seq<char>) {
        (self.from@, self.to@)
    }
}

impl OrderedKey for BackendPair {
    open spec fn before(a: (Seq<char>, Seq<char>), b: (Seq<char>, Seq<char>)) -> bool {
        text::text_before(a.0, b.0) || a.0 == b.0 && text::text_before(a.1, b.1)
    }

    proof fn before_is_asymmetric(a: (Seq<char>, Seq<char>), b: (Seq<char>, Seq<char>)) {
        text::text_before_is_asymmetric(a.0, b.0);
        text::text_before_is_asymmetric(a.1, b.1);
    }

    proof fn before_is_transitive(
        a: (Seq<char>, Seq<char>),
        b: (Seq<char>, Seq<char>),
        c: (Seq<char>, Seq<char>),
    ) {
        if text::text_before(a.0, b.0) && text::text_before(b.0, c.0) {
            text::text_before_is_transitive(a.0, b.0, c.0);
        }
        if text::text_before(a.1, b.1) && text::text_before(b.1, c.1) {
            text::text_before_is_transitive(a.1, b.1, c.1);
        }
    }

    proof fn before_is_total(a: (Seq<char>, Seq<char>), b: (Seq<char>, Seq<char>)) {
        text::text_before_is_total(a.0, b.0);
        text::text_before_is_total(a.1, b.1);
    }

    fn is_before(&self, other: &Self) -> (r: bool) {
        self.from.is_before(&other.from) || self.from.is_same(&other.from) && self.to.is_before(
            &other.to,
        )
    }
}

#[derive(Debug, Clone, PartialEq)]
pub enum ExecutionPlanError {
    NoCompatibleBackend { step: usize },
    InvalidCost { name: &'static str, value: Float64 },
}

impl ExecutionPlanError {
    /// The number that the error quotes, where it quotes one that is not an integer.
    pub open spec fn quoted(&self) -> Option<Float64> {
        match self {
            ExecutionPlanError::InvalidCost { value, .. } => Some(*value),
            _ => None,
        }
    }

    pub fn number(&self) -> (r: Option<Float64>)
        ensures
            r == self.quoted(),
    {
        match self {
            ExecutionPlanError::InvalidCost { value, .. } => Some(*value),
            _ => None,
        }
    }

    /// The text of the error, with `number` for the number that it quotes.
    pub open spec fn text(&self, number: Seq<char>) -> Seq<char> {
        match self {
            ExecutionPlanError::NoCompatibleBackend { step } => {
                "no compatible backend exists for execution-plan step "@
                    + text::decimal(step as nat)
            },
            ExecutionPlanError::InvalidCost { name, .. } => {
                "invalid "@ + name@ + " cost "@ + number
            },
        }
    }

    /// The text of the error. `number` is how the number that it quotes is written: giving a
    /// floating-point number its decimal digits is left to the caller.
    pub fn message(&self, number: &str) -> (r: String)
        ensures
            r@ == self.text(number@),
    {
        match self {
            ExecutionPlanError::NoCompatibleBackend { step } => {
                let mut r = "no compatible backend exists for execution-plan step ".to_owned();
                text::append_decimal(&mut r, *step as u64);
                r
            },
            ExecutionPlanError::InvalidCost { name, .. } => {
                let mut r = "invalid ".to_owned();
                r.append(name);
                r.append(" cost ");
                r.append(number);
                r
            },
        }
    }
}

/// Whether `error` says that the cost called `name` cannot be used.
pub open spec fn is_invalid_cost(error: ExecutionPlanError, name: Seq<char>, value: Float64) -> bool {
    error matches ExecutionPlanError::InvalidCost { name: n, value: v } && n@ == name && v == value
}

fn validate_cost(name: &'static str, value: Float64) -> (r: Result<(), ExecutionPlanError>)
    ensures
        match r {
            Ok(_) => value.is_cost(),
            Err(error) => !value.is_cost() && is_invalid_cost(error, name@, value),
        },
{
    if !value.is_finite_non_negative() {
        return Err(ExecutionPlanError::InvalidCost { name, value });
    }
    Ok(())
}

/// Measured costs of changes of backend.
#[derive(Debug)]
pub struct TransitionCostTable {
    costs_us: OrderedMap<BackendPair, Float64>,
}

impl Clone for TransitionCostTable {
    fn clone(&self) -> (r: Self)
        ensures
            r@ == self@,
    {
        let r = TransitionCostTable { costs_us: self.costs_us.clone() };
        assert(r@ =~= self@);
        r
    }
}

impl View for TransitionCostTable {
    type V = Seq<(BackendPair, Float64)>;

    closed spec fn view(&self) -> Seq<(BackendPair, Float64)> {
        self.costs_us@
    }
}

impl Default for TransitionCostTable {
    fn default() -> (r: Self)
        ensures
            r.wf(),
            r@ == Seq::<(BackendPair, Float64)>::empty(),
    {
        TransitionCostTable { costs_us: OrderedMap::new() }
    }
}

impl TransitionCostTable {
    /// Pairs stand in order, each once, and every cost is finite and not negative.
    pub open spec fn wf(&self) -> bool {
        &&& ordered_map::keys_increase(self@)
        &&& forall|i: int| #![trigger self@[i]] 0 <= i < self@.len() ==> self@[i].1.is_cost()
    }

    /// Records the cost of a change, in the place of one recorded before. Refuses one that is not
    /// finite or is negative.
    pub fn record(&mut self, from: BackendId, to: BackendId, microseconds: Float64) -> (r: Result<
        (),
        ExecutionPlanError,
    >)
        requires
            old(self).wf(),
        ensures
            final(self).wf(),
            match r {
                Ok(_) => {
                    &&& microseconds.is_cost()
                    &&& ordered_map::inserted(
                        old(self)@,
                        (BackendPair { from, to }),
                        microseconds,
                        final(self)@,
                    )
                },
                Err(error) => {
                    &&& !microseconds.is_cost()
                    &&& is_invalid_cost(error, "transition"@, microseconds)
                    &&& final(self)@ == old(self)@
                },
            },
    {
        match validate_cost("transition", microseconds) {
            Ok(_) => {},
            Err(error) => {
                return Err(error);
            },
        }
        let ghost before = self@;
        let pair = BackendPair { from, to };
        self.costs_us.insert(pair, microseconds);
        proof {
            assert forall|i: int| #![trigger self@[i]] 0 <= i < self@.len() implies self@[
                i
            ].1.is_cost() by {
                if ordered_map::has_key(before, pair@) {
                    let k = ordered_map::position_of(before, pair@);
                    if i != k {
                        assert(self@[i] == before[i]);
                    }
                } else {
                    let k = choose|k: int|
                        0 <= k <= before.len() && self@ == #[trigger] before.insert(
                            k,
                            (pair, microseconds),
                        );
                    if i != k {
                        assert(self@[i] == before[if i < k { i } else { i - 1 }]);
                    }
                }
            }
        }
        Ok(())
    }

    #[must_use]
    pub fn get(&self, from: &BackendId, to: &BackendId) -> (r: Option<Float64>)
        requires
            self.wf(),
        ensures
            r == ordered_map::value_of(self@, (from@, to@)),
    {
        let pair = BackendPair { from: from.clone(), to: to.clone() };
        match self.costs_us.get(&pair) {
            Some(cost) => Some(*cost),
            None => None,
        }
    }
}

#[derive(Debug, Clone, Copy, PartialEq)]
pub struct PlannerConfig {
    pub unmeasured_operator_us: Float64,
    pub default_transition_us: Float64,
    pub bootstrap_rank_penalty_us: Float64,
}

impl Default for PlannerConfig {
    /// A thousand microseconds for an operation that was never measured, fifty for a change of
    /// backend and ten for each place that a kind of backend stands behind the preferred one.
    fn default() -> (r: Self)
        ensures
            r == (PlannerConfig {
                unmeasured_operator_us: Float64 { bits: 0x408f_4000_0000_0000 },
                default_transition_us: Float64 { bits: 0x4049_0000_0000_0000 },
                bootstrap_rank_penalty_us: Float64 { bits: 0x4024_0000_0000_0000 },
            }),
    {
        PlannerConfig {
            unmeasured_operator_us: Float64 { bits: 0x408f_4000_0000_0000 },
            default_transition_us: Float64 { bits: 0x4049_0000_0000_0000 },
            bootstrap_rank_penalty_us: Float64 { bits: 0x4024_0000_0000_0000 },
        }
    }
}

impl PlannerConfig {
    pub open spec fn wf(self) -> bool {
        &&& self.unmeasured_operator_us.is_cost()
        &&& self.default_transition_us.is_cost()
        &&& self.bootstrap_rank_penalty_us.is_cost()
    }
}

/// Zero microseconds.
pub open spec fn zero_us() -> Float64 {
    Float64 { bits: 0 }
}

#[derive(Debug, PartialEq)]
pub struct ExecutionStep {
    pub request: RouteRequest,
    pub backend: BackendId,
    pub operator_us: Float64,
    pub transition_us: Float64,
    pub cumulative_us: Float64,
}

impl Clone for ExecutionStep {
    fn clone(&self) -> (r: Self)
        ensures
            r == *self,
    {
        ExecutionStep {
            request: self.request,
            backend: self.backend.clone(),
            operator_us: self.operator_us,
            transition_us: self.transition_us,
            cumulative_us: self.cumulative_us,
        }
    }
}

#[derive(Debug, Clone, PartialEq)]
pub struct ExecutionPlan {
    pub steps: Vec<ExecutionStep>,
    pub estimated_total_us: Float64,
}

impl Default for ExecutionPlan {
    fn default() -> (r: Self)
        ensures
            r.steps@ == Seq::<ExecutionStep>::empty(),
            r.estimated_total_us == zero_us(),
    {
        ExecutionPlan { steps: Vec::new(), estimated_total_us: Float64 { bits: 0 } }
    }
}

/// The rank of a kind of backend as a number.
pub open spec fn rank_number(kind: BackendKind) -> Float64 {
    match kind {
        BackendKind::Hip => Float64 { bits: 0 },
        BackendKind::Vulkan => Float64 { bits: 0x3ff0_0000_0000_0000 },
        BackendKind::Hybrid => Float64 { bits: 0x4000_0000_0000_0000 },
        BackendKind::Plugin => Float64 { bits: 0x4008_0000_0000_0000 },
        BackendKind::Cpu => Float64 { bits: 0x4010_0000_0000_0000 },
    }
}

fn bootstrap_rank_number(kind: BackendKind) -> (r: Float64)
    ensures
        r == rank_number(kind),
{
    let bits: u64 = match backend::bootstrap_rank(kind) {
        0 => 0,
        1 => 0x3ff0_0000_0000_0000,
        2 => 0x4000_0000_0000_0000,
        3 => 0x4008_0000_0000_0000,
        _ => 0x4010_0000_0000_0000,
    };
    Float64 { bits }
}

/// What a plan is made for: the chain of requests, what the backends say of themselves, what was
/// measured, and the planner's own costs.
pub struct Workload {
    pub requests: Seq<RouteRequest>,
    pub probes: Seq<BackendProbe>,
    pub records: Seq<PerformanceRecord>,
    pub config: PlannerConfig,
    pub transitions: Seq<(BackendPair, Float64)>,
}

impl Workload {
    pub open spec fn wf(self) -> bool {
        &&& self.config.wf()
        &&& ordered_map::keys_increase(self.transitions)
        &&& forall|i: int|
            #![trigger self.transitions[i]]
            0 <= i < self.transitions.len() ==> self.transitions[i].1.is_cost()
    }

    /// Whether probe `k` is of a backend called `id` that can serve step `i`.
    pub open spec fn offers(self, i: int, id: Seq<char>, k: int) -> bool {
        self.probes[k].id@ == id && self.probes[k].is_compatible(self.requests[i])
    }

    /// The last of the first `n` probes that offers step `i` under the name `id`, or minus one.
    pub open spec fn last_offer(self, i: int, id: Seq<char>, n: int) -> int
        decreases n,
    {
        if n <= 0 {
            -1
        } else if self.offers(i, id, n - 1) {
            n - 1
        } else {
            self.last_offer(i, id, n - 1)
        }
    }

    /// Whether some backend called `id` can serve step `i`.
    pub open spec fn is_offered(self, i: int, id: Seq<char>) -> bool {
        self.last_offer(i, id, self.probes.len() as int) >= 0
    }

    /// What step `i` costs on the backend of probe `k`: what was measured, or else the cost of
    /// something unmeasured and a penalty for the kind of backend.
    pub open spec fn operator_cost(self, i: int, k: int) -> Float64 {
        let request = self.requests[i];
        match performance::usable_median_of(
            self.records,
            self.probes[k].id@,
            request.operation,
            request.data_type,
        ) {
            Some(measured) => measured,
            None => self.config.unmeasured_operator_us.add_spec(
                self.config.bootstrap_rank_penalty_us.mul_spec(rank_number(self.probes[k].kind)),
            ),
        }
    }

    /// What step `i` costs on the backend called `id`.
    pub open spec fn step_cost(self, i: int, id: Seq<char>) -> Float64 {
        self.operator_cost(i, self.last_offer(i, id, self.probes.len() as int))
    }

    /// What changing from one backend to another costs.
    pub open spec fn transition_cost(self, from: Seq<char>, to: Seq<char>) -> Float64 {
        if from == to {
            zero_us()
        } else {
            match ordered_map::value_of(self.transitions, (from, to)) {
                Some(cost) => cost,
                None => self.config.default_transition_us,
            }
        }
    }

    /// What the steps up to `i` cost where step `i` costs `operator_us` on `id`, the step before it
    /// ran on `previous`, and `before` says what it costs to get that far.
    pub open spec fn cost_after(
        self,
        before: spec_fn(Seq<char>) -> Float64,
        id: Seq<char>,
        operator_us: Float64,
        previous: Seq<char>,
    ) -> Float64 {
        before(previous).add_spec(self.transition_cost(previous, id)).add_spec(operator_us)
    }

    /// Whether `previous` is the cheapest backend to come from, the first by name of several.
    pub open spec fn is_best_after(
        self,
        i: nat,
        before: spec_fn(Seq<char>) -> Float64,
        id: Seq<char>,
        operator_us: Float64,
        previous: Seq<char>,
    ) -> bool {
        &&& self.is_offered(i - 1, previous)
        &&& forall|other: Seq<char>|
            #![trigger self.is_offered(i - 1, other)]
            self.is_offered(i - 1, other) ==> {
                let here = self.cost_after(before, id, operator_us, previous).total_rank();
                let there = self.cost_after(before, id, operator_us, other).total_rank();
                here <= there && (text::text_before(other, previous) ==> here < there)
            }
    }

    /// What the steps up to `i` cost at least where step `i` costs `operator_us` on `id` and
    /// `before` says what it costs to get to the step before it.
    pub open spec fn least_cost_after(
        self,
        i: nat,
        before: spec_fn(Seq<char>) -> Float64,
        id: Seq<char>,
        operator_us: Float64,
    ) -> Float64 {
        if i == 0 {
            operator_us
        } else {
            self.cost_after(
                before,
                id,
                operator_us,
                choose|previous: Seq<char>|
                    self.is_best_after(i, before, id, operator_us, previous),
            )
        }
    }

    /// What the steps up to `i` cost at least, by the backend that step `i` runs on.
    #[verifier::opaque]
    pub open spec fn best_costs(self, i: nat) -> spec_fn(Seq<char>) -> Float64
        decreases i,
    {
        let before = if i == 0 {
            |id: Seq<char>| zero_us()
        } else {
            self.best_costs((i - 1) as nat)
        };
        |id: Seq<char>| self.least_cost_after(i, before, id, self.step_cost(i as int, id))
    }

    /// What the steps up to `i` cost at least where step `i` runs on `id`.
    pub open spec fn best_cost(self, i: nat, id: Seq<char>) -> Float64 {
        (self.best_costs(i))(id)
    }

    /// What the steps up to `i` cost where step `i` costs `operator_us` on `id` and the step
    /// before it ran on `previous`, reached as cheaply as can be.
    pub open spec fn cost_through(
        self,
        i: nat,
        id: Seq<char>,
        operator_us: Float64,
        previous: Seq<char>,
    ) -> Float64 {
        self.cost_after(self.best_costs((i - 1) as nat), id, operator_us, previous)
    }

    /// Whether `previous` is the cheapest backend to come from for step `i`.
    pub open spec fn is_best_previous(
        self,
        i: nat,
        id: Seq<char>,
        operator_us: Float64,
        previous: Seq<char>,
    ) -> bool {
        self.is_best_after(i, self.best_costs((i - 1) as nat), id, operator_us, previous)
    }

    /// What the steps up to `i` cost at least where step `i` costs `operator_us` on `id`.
    pub open spec fn cost_with(self, i: nat, id: Seq<char>, operator_us: Float64) -> Float64 {
        self.least_cost_after(i, self.best_costs((i - 1) as nat), id, operator_us)
    }

    /// Whether step `i` can run nowhere.
    pub open spec fn is_stuck(self, i: int) -> bool {
        forall|k: int|
            #![trigger self.probes[k]]
            0 <= k < self.probes.len() ==> !self.probes[k].is_compatible(self.requests[i])
    }

    /// Whether the last step is best run on `id`, the first by name of several that are as good.
    pub open spec fn is_best_end(self, id: Seq<char>) -> bool {
        let last = (self.requests.len() - 1) as nat;
        &&& self.is_offered(last as int, id)
        &&& forall|other: Seq<char>|
            #![trigger self.is_offered(last as int, other)]
            self.is_offered(last as int, other) ==> {
                let here = self.best_cost(last, id).total_rank();
                let there = self.best_cost(last, other).total_rank();
                here <= there && (text::text_before(other, id) ==> here < there)
            }
    }

    /// What `step` says where it is step `i`.
    pub open spec fn is_step(self, i: int, step: ExecutionStep) -> bool {
        &&& step.request == self.requests[i]
        &&& self.is_offered(i, step.backend@)
        &&& step.operator_us == self.step_cost(i, step.backend@)
        &&& step.cumulative_us == self.best_cost(i as nat, step.backend@)
    }

    /// Whether `plan` is the plan for the workload: from its cheapest end back over the cheapest
    /// backends to come from.
    pub open spec fn is_plan(self, plan: ExecutionPlan) -> bool {
        let steps = plan.steps@;
        &&& steps.len() == self.requests.len()
        &&& forall|i: int|
            #![trigger steps[i]]
            0 <= i < steps.len() ==> self.is_step(i, steps[i])
        &&& steps[0].transition_us == zero_us()
        &&& forall|i: int, j: int|
            #![trigger steps[i], steps[j]]
            0 <= j && i == j + 1 && i < steps.len() ==> {
                &&& steps[i].transition_us == self.transition_cost(
                    steps[j].backend@,
                    steps[i].backend@,
                )
                &&& self.is_best_previous(
                    i as nat,
                    steps[i].backend@,
                    steps[i].operator_us,
                    steps[j].backend@,
                )
            }
        &&& self.is_best_end(steps.last().backend@)
        &&& plan.estimated_total_us == steps.last().cumulative_us
    }

    /// What a chain of backends costs up to step `i`.
    pub open spec fn chain_cost(self, chain: Seq<Seq<char>>, i: nat) -> Float64
        decreases i,
    {
        if i == 0 {
            self.step_cost(0, chain[0])
        } else {
            self.chain_cost(chain, (i - 1) as nat).add_spec(
                self.transition_cost(chain[i - 1], chain[i as int]),
            ).add_spec(self.step_cost(i as int, chain[i as int]))
        }
    }

    /// A chain that names, for every step, a backend that can serve it.
    pub open spec fn is_chain(self, chain: Seq<Seq<char>>) -> bool {
        &&& chain.len() == self.requests.len()
        &&& forall|i: int|
            #![trigger chain[i]]
            0 <= i < chain.len() ==> self.is_offered(i, chain[i])
    }
}

/// At most one backend is the best one to come from.
proof fn lemma_best_previous_is_unique(
    w: Workload,
    i: nat,
    id: Seq<char>,
    operator_us: Float64,
    a: Seq<char>,
    b: Seq<char>,
)
    requires
        i > 0,
        w.is_best_previous(i, id, operator_us, a),
        w.is_best_previous(i, id, operator_us, b),
    ensures
        a == b,
{
    text::text_before_is_total(a, b);
}

/// The cost with a given operator cost, through the best backend to come from.
proof fn lemma_cost_with(
    w: Workload,
    i: nat,
    id: Seq<char>,
    operator_us: Float64,
    previous: Seq<char>,
)
    requires
        i > 0,
        w.is_best_previous(i, id, operator_us, previous),
    ensures
        w.cost_with(i, id, operator_us) == w.cost_through(i, id, operator_us, previous),
{
    let before = w.best_costs((i - 1) as nat);
    let chosen = choose|previous: Seq<char>|
        w.is_best_after(i, before, id, operator_us, previous);
    assert(w.is_best_after(i, before, id, operator_us, previous));
    lemma_best_previous_is_unique(w, i, id, operator_us, previous, chosen);
}

/// The cheapest entry of a complete layer, the first of several, is the best one to come from.
proof fn lemma_reached(
    w: Workload,
    i: nat,
    before: Seq<(BackendId, State)>,
    id: Seq<char>,
    operator_us: Float64,
    best: int,
)
    requires
        i > 0,
        is_layer(w, (i - 1) as nat, before, w.probes.len() as int),
        0 <= best < before.len(),
        w.is_offered(i - 1, before[best].0@),
        forall|o: int|
            #![trigger before[o]]
            0 <= o < before.len() ==> {
                let here = w.cost_through(i, id, operator_us, before[best].0@).total_rank();
                let there = w.cost_through(i, id, operator_us, before[o].0@).total_rank();
                here <= there && (o < best ==> here < there)
            },
    ensures
        w.is_best_previous(i, id, operator_us, before[best].0@),
{
    let previous = before[best].0@;
    assert forall|other: Seq<char>|
        #![trigger w.is_offered(i - 1, other)]
        w.is_offered(i - 1, other) implies {
        let here = w.cost_through(i, id, operator_us, previous).total_rank();
        let there = w.cost_through(i, id, operator_us, other).total_rank();
        here <= there && (text::text_before(other, previous) ==> here < there)
    } by {
        let o = lemma_offered_entry(w, (i - 1) as nat, before, other);
        assert(before[o].0@ == other);
        if text::text_before(other, previous) && o >= best {
            text::text_before_is_asymmetric(other, previous);
        }
    }
}

/// The least cost of a step is that with the cost that the step itself has.
proof fn lemma_best_cost(w: Workload, i: nat, id: Seq<char>)
    ensures
        w.best_cost(i, id) == w.cost_with(i, id, w.step_cost(i as int, id)),
{
    reveal_with_fuel(Workload::best_costs, 1);
}

proof fn lemma_last_offer(w: Workload, i: int, id: Seq<char>, n: int)
    requires
        0 <= n <= w.probes.len(),
    ensures
        -1 <= w.last_offer(i, id, n) < n,
        w.last_offer(i, id, n) >= 0 ==> w.offers(i, id, w.last_offer(i, id, n)),
        w.last_offer(i, id, n) < 0 ==> forall|k: int| 0 <= k < n ==> !w.offers(i, id, k),
    decreases n,
{
    if n > 0 {
        lemma_last_offer(w, i, id, n - 1);
    }
}

/// What the planner knows of reaching one backend.
#[derive(Debug, Clone)]
struct State {
    total_us: Float64,
    operator_us: Float64,
    transition_us: Float64,
    previous: Option<BackendId>,
}

/// What a state says of step `i` on `id` where the step costs what it does on probe `k`.
spec fn is_state(w: Workload, i: nat, id: Seq<char>, state: State, k: int) -> bool {
    &&& state.operator_us == w.operator_cost(i as int, k)
    &&& state.total_us == w.cost_with(i, id, state.operator_us)
    &&& if i == 0 {
        state.previous is None && state.transition_us == zero_us()
    } else {
        &&& state.previous is Some
        &&& w.is_best_previous(i, id, state.operator_us, state.previous->0@)
        &&& state.transition_us == w.transition_cost(state.previous->0@, id)
    }
}

/// What a layer holds after the first `n` probes.
#[verifier::opaque]
spec fn is_layer(w: Workload, i: nat, layer: Seq<(BackendId, State)>, n: int) -> bool {
    &&& ordered_map::keys_increase(layer)
    &&& forall|id: Seq<char>|
        #![trigger ordered_map::value_of(layer, id)]
        #![trigger w.last_offer(i as int, id, n)]
        {
            let k = w.last_offer(i as int, id, n);
            match ordered_map::value_of(layer, id) {
                Some(state) => k >= 0 && is_state(w, i, id, state, k),
                None => k < 0,
            }
        }
}

/// Plans chains of operations by their whole cost.
pub struct CostAwarePlanner {
    config: PlannerConfig,
    transitions: TransitionCostTable,
}

impl CostAwarePlanner {
    pub closed spec fn config(&self) -> PlannerConfig {
        self.config
    }

    pub closed spec fn transitions(&self) -> Seq<(BackendPair, Float64)> {
        self.transitions@
    }

    pub closed spec fn wf(&self) -> bool {
        self.config.wf() && self.transitions.wf()
    }

    /// What the planner plans.
    pub open spec fn workload(
        &self,
        requests: Seq<RouteRequest>,
        probes: Seq<BackendProbe>,
        performance: PerformanceTable,
    ) -> Workload {
        Workload {
            requests,
            probes,
            records: performance.records@,
            config: self.config(),
            transitions: self.transitions(),
        }
    }

    /// What a planner in order plans is in order.
    pub proof fn a_planner_plans_in_order(
        &self,
        requests: Seq<RouteRequest>,
        probes: Seq<BackendProbe>,
        performance: PerformanceTable,
    )
        requires
            self.wf(),
        ensures
            self.workload(requests, probes, performance).wf(),
    {
    }

    /// A planner with these costs. Refuses one that is not finite or is negative.
    pub fn new(config: PlannerConfig, transitions: TransitionCostTable) -> (r: Result<
        Self,
        ExecutionPlanError,
    >)
        requires
            transitions.wf(),
        ensures
            match r {
                Ok(planner) => {
                    &&& config.wf()
                    &&& planner.wf()
                    &&& planner.config() == config
                    &&& planner.transitions() == transitions@
                },
                Err(error) => if !config.unmeasured_operator_us.is_cost() {
                    is_invalid_cost(error, "unmeasured operator"@, config.unmeasured_operator_us)
                } else if !config.default_transition_us.is_cost() {
                    is_invalid_cost(error, "default transition"@, config.default_transition_us)
                } else {
                    &&& !config.bootstrap_rank_penalty_us.is_cost()
                    &&& is_invalid_cost(
                        error,
                        "bootstrap rank penalty"@,
                        config.bootstrap_rank_penalty_us,
                    )
                },
            },
    {
        match validate_cost("unmeasured operator", config.unmeasured_operator_us) {
            Ok(_) => {},
            Err(error) => {
                return Err(error);
            },
        }
        match validate_cost("default transition", config.default_transition_us) {
            Ok(_) => {},
            Err(error) => {
                return Err(error);
            },
        }
        match validate_cost("bootstrap rank penalty", config.bootstrap_rank_penalty_us) {
            Ok(_) => {},
            Err(error) => {
                return Err(error);
            },
        }
        Ok(CostAwarePlanner { config, transitions })
    }

    fn operator_cost(
        &self,
        probe: &BackendProbe,
        request: RouteRequest,
        performance: &PerformanceTable,
        Ghost(w): Ghost<Workload>,
        Ghost(i): Ghost<int>,
        Ghost(k): Ghost<int>,
    ) -> (r: Float64)
        requires
            w.config == self.config,
            w.records == performance.records@,
            w.requests[i] == request,
            w.probes[k] == *probe,
        ensures
            r == w.operator_cost(i, k),
    {
        match performance.usable_median_us(&probe.id, request.operation, request.data_type) {
            Some(measured) => measured,
            None => self.config.unmeasured_operator_us.plus(
                self.config.bootstrap_rank_penalty_us.times(bootstrap_rank_number(probe.kind)),
            ),
        }
    }

    fn transition_cost(&self, from: &BackendId, to: &BackendId, Ghost(w): Ghost<Workload>) -> (r:
        Float64)
        requires
            self.wf(),
            w.config == self.config,
            w.transitions == self.transitions@,
        ensures
            r == w.transition_cost(from@, to@),
    {
        if from.is_same(to) {
            Float64 { bits: 0 }
        } else {
            match self.transitions.get(from, to) {
                Some(cost) => cost,
                None => self.config.default_transition_us,
            }
        }
    }

    /// The cheapest way to reach `id` with a step that costs `operator_us`.
    fn reach(
        &self,
        id: &BackendId,
        operator_us: Float64,
        before: &OrderedMap<BackendId, State>,
        Ghost(w): Ghost<Workload>,
        Ghost(i): Ghost<nat>,
        Ghost(k): Ghost<int>,
    ) -> (r: State)
        requires
            self.wf(),
            w.config == self.config,
            w.transitions == self.transitions@,
            i > 0,
            is_layer(w, (i - 1) as nat, before@, w.probes.len() as int),
            before@.len() > 0,
            operator_us == w.operator_cost(i as int, k),
        ensures
            is_state(w, i, id@, r, k),
    {
        let mut best: usize = 0;
        let mut best_transition: Float64 = self.transition_cost(before.key_at(0), id, Ghost(w));
        let mut best_total: Float64 = before.value_at(0).total_us.plus(best_transition).plus(
            operator_us,
        );
        proof {
            lemma_entry(w, (i - 1) as nat, before@, 0);
        }
        let mut j: usize = 1;
        while j < before.len()
            invariant
                self.wf(),
                w.config == self.config,
                w.transitions == self.transitions@,
                i > 0,
                is_layer(w, (i - 1) as nat, before@, w.probes.len() as int),
                best < j <= before@.len(),
                best_transition == w.transition_cost(before@[best as int].0@, id@),
                best_total == w.cost_through(i, id@, operator_us, before@[best as int].0@),
                forall|o: int|
                    #![trigger before@[o]]
                    0 <= o < j ==> {
                        let there = w.cost_through(
                            i,
                            id@,
                            operator_us,
                            before@[o].0@,
                        ).total_rank();
                        best_total.total_rank() <= there && (o < best ==> best_total.total_rank()
                            < there)
                    },
            decreases before@.len() - j,
        {
            proof {
                lemma_entry(w, (i - 1) as nat, before@, j as int);
            }
            let transition: Float64 = self.transition_cost(before.key_at(j), id, Ghost(w));
            let total: Float64 = before.value_at(j).total_us.plus(transition).plus(operator_us);
            assert(total == w.cost_through(i, id@, operator_us, before@[j as int].0@));
            if total.is_totally_before(best_total) {
                best = j;
                best_transition = transition;
                best_total = total;
            }
            j = j + 1;
        }
        let previous = before.key_at(best).clone();
        proof {
            lemma_entry(w, (i - 1) as nat, before@, best as int);
            lemma_reached(w, i, before@, id@, operator_us, best as int);
            lemma_cost_with(w, i, id@, operator_us, previous@);
        }
        State {
            total_us: best_total,
            operator_us,
            transition_us: best_transition,
            previous: Some(previous),
        }
    }

    /// Everything that is known of step `i`, by the backend it runs on. Nothing where it can run
    /// nowhere.
    fn layer(
        &self,
        requests: &[RouteRequest],
        probes: &[BackendProbe],
        performance: &PerformanceTable,
        i: usize,
        layers: &Vec<OrderedMap<BackendId, State>>,
    ) -> (r: OrderedMap<BackendId, State>)
        requires
            self.wf(),
            i < requests@.len(),
            i == layers@.len(),
            i > 0 ==> layers@[i - 1]@.len() > 0 && is_layer(
                self.workload(requests@, probes@, *performance),
                (i - 1) as nat,
                layers@[i - 1]@,
                probes@.len() as int,
            ),
        ensures
            is_layer(
                self.workload(requests@, probes@, *performance),
                i as nat,
                r@,
                probes@.len() as int,
            ),
            r@.len() == 0 <==> self.workload(requests@, probes@, *performance).is_stuck(i as int),
    {
        let ghost w = self.workload(requests@, probes@, *performance);
        let mut layer: OrderedMap<BackendId, State> = OrderedMap::new();
        let mut n: usize = 0;
        proof {
            assert(is_layer(w, i as nat, layer@, 0)) by {
                reveal(is_layer);
            }
        }
        while n < probes.len()
            invariant
                self.wf(),
                w == self.workload(requests@, probes@, *performance),
                i < requests@.len(),
                i == layers@.len(),
                i > 0 ==> layers@[i - 1]@.len() > 0 && is_layer(
                    w,
                    (i - 1) as nat,
                    layers@[i - 1]@,
                    probes@.len() as int,
                ),
                n <= probes@.len(),
                is_layer(w, i as nat, layer@, n as int),
                layer@.len() == 0 <==> forall|k: int|
                    #![trigger w.probes[k]]
                    0 <= k < n ==> !w.probes[k].is_compatible(w.requests[i as int]),
            decreases probes@.len() - n,
        {
            let probe = &probes[n];
            assert(w.probes[n as int] == *probe);
            if probe.can_serve(&requests[i]) {
                let operator_us: Float64 = self.operator_cost(
                    probe,
                    requests[i],
                    performance,
                    Ghost(w),
                    Ghost(i as int),
                    Ghost(n as int),
                );
                let state = if i == 0 {
                    State {
                        total_us: operator_us,
                        operator_us,
                        transition_us: Float64 { bits: 0 },
                        previous: None,
                    }
                } else {
                    self.reach(
                        &probe.id,
                        operator_us,
                        &layers[i - 1],
                        Ghost(w),
                        Ghost(i as nat),
                        Ghost(n as int),
                    )
                };
                let ghost before = layer@;
                let id = probe.id.clone();
                assert(layer.wf()) by {
                    reveal(is_layer);
                }
                layer.insert(id, state);
                proof {
                    reveal(is_layer);
                    assert(w.offers(i as int, id@, n as int));
                    assert forall|other: Seq<char>|
                        #![trigger ordered_map::value_of(layer@, other)]
                        #![trigger w.last_offer(i as int, other, n + 1)]
                        {
                            let k = w.last_offer(i as int, other, n + 1);
                            match ordered_map::value_of(layer@, other) {
                                Some(state) => k >= 0 && is_state(w, i as nat, other, state, k),
                                None => k < 0,
                            }
                        } by {
                        ordered_map::insertion_changes_one_key(before, id, state, layer@, other);
                        let was = w.last_offer(i as int, other, n as int);
                        let had = ordered_map::value_of(before, other);
                    }
                    ordered_map::insertion_changes_one_key(before, id, state, layer@, id@);
                    assert(layer@.len() > 0);
                }
            } else {
                proof {
                    reveal(is_layer);
                    assert forall|other: Seq<char>|
                        #![trigger ordered_map::value_of(layer@, other)]
                        #![trigger w.last_offer(i as int, other, n + 1)]
                        {
                            let k = w.last_offer(i as int, other, n + 1);
                            match ordered_map::value_of(layer@, other) {
                                Some(state) => k >= 0 && is_state(w, i as nat, other, state, k),
                                None => k < 0,
                            }
                        } by {
                        let was = w.last_offer(i as int, other, n as int);
                    }
                }
            }
            n = n + 1;
        }
        layer
    }

    /// The cheapest backend to end on.
    fn best_end(
        last: &OrderedMap<BackendId, State>,
        Ghost(w): Ghost<Workload>,
    ) -> (r: usize)
        requires
            w.requests.len() > 0,
            last@.len() > 0,
            is_layer(w, (w.requests.len() - 1) as nat, last@, w.probes.len() as int),
        ensures
            r < last@.len(),
            w.is_best_end(last@[r as int].0@),
    {
        let ghost i = (w.requests.len() - 1) as nat;
        proof {
            lemma_entry(w, i, last@, 0);
        }
        let mut best: usize = 0;
        let mut j: usize = 1;
        while j < last.len()
            invariant
                i == w.requests.len() - 1,
                is_layer(w, i, last@, w.probes.len() as int),
                best < j <= last@.len(),
                last@[best as int].1.total_us == w.best_cost(i, last@[best as int].0@),
                forall|o: int|
                    #![trigger last@[o]]
                    0 <= o < j ==> {
                        let here = last@[best as int].1.total_us.total_rank();
                        let there = w.best_cost(i, last@[o].0@).total_rank();
                        here <= there && (o < best ==> here < there)
                    },
            decreases last@.len() - j,
        {
            proof {
                lemma_entry(w, i, last@, j as int);
            }
            if last.value_at(j).total_us.is_totally_before(last.value_at(best).total_us) {
                best = j;
            }
            j = j + 1;
        }
        proof {
            lemma_entry(w, i, last@, best as int);
            let id = last@[best as int].0@;
            assert(w.is_best_end(id)) by {
                assert forall|other: Seq<char>|
                    #![trigger w.is_offered(i as int, other)]
                    w.is_offered(i as int, other) implies {
                    let here = w.best_cost(i, id).total_rank();
                    let there = w.best_cost(i, other).total_rank();
                    here <= there && (text::text_before(other, id) ==> here < there)
                } by {
                    let o = lemma_offered_entry(w, i, last@, other);
                    if text::text_before(other, id) && o >= best {
                        text::text_before_is_asymmetric(other, id);
                    }
                }
            }
        }
        best
    }

    /// The steps that lead to `end`, found from the last one back to the first.
    fn trace(
        requests: &[RouteRequest],
        end: BackendId,
        layers: &Vec<OrderedMap<BackendId, State>>,
        Ghost(w): Ghost<Workload>,
    ) -> (r: Vec<ExecutionStep>)
        requires
            requests@.len() > 0,
            w.requests == requests@,
            layers@.len() == requests@.len(),
            forall|l: int|
                #![trigger layers@[l]]
                0 <= l < layers@.len() ==> is_layer(
                    w,
                    l as nat,
                    layers@[l]@,
                    w.probes.len() as int,
                ),
            w.is_offered(requests@.len() - 1, end@),
        ensures
            is_trace(w, r@, end@),
    {
        let last: usize = requests.len() - 1;
        let ghost end_id = end@;
        let mut current = end;
        let mut reversed: Vec<ExecutionStep> = Vec::new();
        let mut index: usize = requests.len();
        while index > 0
            invariant
                w.requests == requests@,
                index <= requests@.len(),
                layers@.len() == requests@.len(),
                last == requests@.len() - 1,
                forall|l: int|
                    #![trigger layers@[l]]
                    0 <= l < layers@.len() ==> is_layer(
                        w,
                        l as nat,
                        layers@[l]@,
                        w.probes.len() as int,
                    ),
                is_partial_trace(w, reversed@, index as int, current@, end_id),
            decreases index,
        {
            index = index - 1;
            let ghost before = reversed@;
            let ghost was = current@;
            let (step, previous) = Self::step_at(requests, &current, index, layers, Ghost(w));
            reversed.push(step);
            match previous {
                Some(previous) => {
                    current = previous;
                },
                None => {},
            }
            proof {
                lemma_trace_step(w, before, index as int, was, end_id, step, current@);
            }
        }
        turned_round(reversed, Ghost(w), Ghost(current@), Ghost(end_id))
    }

    /// Step `index` on `current`, and the backend that the step before it runs on.
    fn step_at(
        requests: &[RouteRequest],
        current: &BackendId,
        index: usize,
        layers: &Vec<OrderedMap<BackendId, State>>,
        Ghost(w): Ghost<Workload>,
    ) -> (r: (ExecutionStep, Option<BackendId>))
        requires
            index < requests@.len(),
            w.requests == requests@,
            layers@.len() == requests@.len(),
            is_layer(w, index as nat, layers@[index as int]@, w.probes.len() as int),
            w.is_offered(index as int, current@),
        ensures
            w.is_step(index as int, r.0),
            r.0.backend@ == current@,
            index > 0 <==> r.1 is Some,
            index == 0 ==> step_follows(w, 0, r.0, current@),
            index > 0 ==> step_follows(w, index as int, r.0, r.1->0@),
    {
        let ghost layer = layers@[index as int]@;
        proof {
            let o = lemma_offered_entry(w, index as nat, layer, current@);
            lemma_entry(w, index as nat, layer, o);
        }
        let position: usize = match layers[index].find(current) {
            Some(position) => position,
            None => 0,
        };
        let state = layers[index].value_at(position);
        let step = ExecutionStep {
            request: requests[index],
            backend: current.clone(),
            operator_us: state.operator_us,
            transition_us: state.transition_us,
            cumulative_us: state.total_us,
        };
        let previous = match &state.previous {
            Some(previous) => Some(previous.clone()),
            None => None,
        };
        (step, previous)
    }

    /// The cheapest way to run the requests in order. Fails at the first step that no backend can
    /// serve.
    pub fn plan(
        &self,
        requests: &[RouteRequest],
        probes: &[BackendProbe],
        performance: &PerformanceTable,
    ) -> (r: Result<ExecutionPlan, ExecutionPlanError>)
        requires
            self.wf(),
        ensures
            ({
                let w = self.workload(requests@, probes@, *performance);
                match r {
                    Ok(plan) => {
                        &&& forall|i: int|
                            #![trigger w.is_stuck(i)]
                            0 <= i < requests@.len() ==> !w.is_stuck(i)
                        &&& if requests@.len() == 0 {
                            plan.steps@.len() == 0 && plan.estimated_total_us == zero_us()
                        } else {
                            w.is_plan(plan)
                        }
                    },
                    Err(error) => {
                        &&& error matches ExecutionPlanError::NoCompatibleBackend { step }
                        &&& step < requests@.len()
                        &&& w.is_stuck(step as int)
                        &&& forall|i: int| #![trigger w.is_stuck(i)] 0 <= i < step ==> !w.is_stuck(i)
                    },
                }
            }),
    {
        if requests.len() == 0 {
            return Ok(ExecutionPlan::default());
        }
        let ghost w = self.workload(requests@, probes@, *performance);
        let mut layers: Vec<OrderedMap<BackendId, State>> = Vec::new();
        let mut i: usize = 0;
        while i < requests.len()
            invariant
                self.wf(),
                w == self.workload(requests@, probes@, *performance),
                i <= requests@.len(),
                layers@.len() == i,
                forall|l: int|
                    #![trigger layers@[l]]
                    0 <= l < i ==> layers@[l]@.len() > 0 && is_layer(
                        w,
                        l as nat,
                        layers@[l]@,
                        probes@.len() as int,
                    ),
                forall|l: int| #![trigger w.is_stuck(l)] 0 <= l < i ==> !w.is_stuck(l),
            decreases requests@.len() - i,
        {
            let layer = self.layer(requests, probes, performance, i, &layers);
            if layer.len() == 0 {
                return Err(ExecutionPlanError::NoCompatibleBackend { step: i });
            }
            layers.push(layer);
            i = i + 1;
        }
        let last: usize = requests.len() - 1;
        let end: usize = Self::best_end(&layers[last], Ghost(w));
        let estimated_total_us: Float64 = layers[last].value_at(end).total_us;
        let current = layers[last].key_at(end).clone();
        let ghost end_id = current@;
        proof {
            lemma_entry(w, last as nat, layers@[last as int]@, end as int);
        }
        let steps = Self::trace(requests, current, &layers, Ghost(w));
        let plan = ExecutionPlan { steps, estimated_total_us };
        proof {
            lemma_trace_is_plan(w, plan, end_id);
        }
        Ok(plan)
    }
}

/// Steps that lead to `end`: each reaches the next one as cheaply as can be.
spec fn is_trace(w: Workload, steps: Seq<ExecutionStep>, end: Seq<char>) -> bool {
    &&& steps.len() == w.requests.len()
    &&& steps.last().backend@ == end
    &&& forall|i: int| #![trigger steps[i]] 0 <= i < steps.len() ==> w.is_step(i, steps[i])
    &&& step_follows(w, 0, steps[0], end)
    &&& forall|i: int, j: int|
        #![trigger steps[i], steps[j]]
        0 <= j && i == j + 1 && i < steps.len() ==> step_follows(
            w,
            i,
            steps[i],
            steps[j].backend@,
        )
}

/// The last steps in reverse order, down to step `index`, with `current` as the backend of the
/// step before them.
spec fn is_partial_trace(
    w: Workload,
    reversed: Seq<ExecutionStep>,
    index: int,
    current: Seq<char>,
    end: Seq<char>,
) -> bool {
    let n = w.requests.len();
    &&& 0 <= index <= n
    &&& reversed.len() == n - index
    &&& index > 0 ==> w.is_offered(index - 1, current)
    &&& if index == n {
        current == end
    } else {
        &&& reversed[0].backend@ == end
        &&& step_follows(w, index, reversed.last(), current)
    }
    &&& forall|k: int|
        #![trigger reversed[k]]
        0 <= k < reversed.len() ==> w.is_step(n - 1 - k, reversed[k])
    &&& forall|k: int, l: int|
        #![trigger reversed[k], reversed[l]]
        0 <= k && l == k + 1 && l < reversed.len() ==> step_follows(
            w,
            n - 1 - k,
            reversed[k],
            reversed[l].backend@,
        )
}

proof fn lemma_trace_step(
    w: Workload,
    reversed: Seq<ExecutionStep>,
    index: int,
    current: Seq<char>,
    end: Seq<char>,
    step: ExecutionStep,
    previous: Seq<char>,
)
    requires
        0 <= index,
        is_partial_trace(w, reversed, index + 1, current, end),
        w.is_step(index, step),
        step.backend@ == current,
        step_follows(w, index, step, previous),
    ensures
        is_partial_trace(w, reversed.push(step), index, previous, end),
{
    let more = reversed.push(step);
    let n = w.requests.len();
    assert forall|k: int| #![trigger more[k]] 0 <= k < more.len() implies w.is_step(
        n - 1 - k,
        more[k],
    ) by {
        if k < reversed.len() {
            assert(more[k] == reversed[k]);
        }
    }
    assert forall|k: int, l: int|
        #![trigger more[k], more[l]]
        0 <= k && l == k + 1 && l < more.len() implies step_follows(
        w,
        n - 1 - k,
        more[k],
        more[l].backend@,
    ) by {
        assert(more[k] == reversed[k]);
        if l < reversed.len() {
            assert(more[l] == reversed[l]);
        } else {
            assert(reversed.last() == reversed[k]);
        }
    }
    if reversed.len() > 0 {
        assert(more[0] == reversed[0]);
    }
}

/// The steps of a complete trace in their own order.
fn turned_round(
    reversed: Vec<ExecutionStep>,
    Ghost(w): Ghost<Workload>,
    Ghost(current): Ghost<Seq<char>>,
    Ghost(end): Ghost<Seq<char>>,
) -> (r: Vec<ExecutionStep>)
    requires
        w.requests.len() > 0,
        is_partial_trace(w, reversed@, 0, current, end),
    ensures
        is_trace(w, r@, end),
{
    let ghost backwards = reversed@;
    let mut reversed = reversed;
    let mut steps: Vec<ExecutionStep> = Vec::new();
    while reversed.len() > 0
        invariant
            reversed@.len() + steps@.len() == backwards.len(),
            reversed@ == backwards.take(reversed@.len() as int),
            forall|k: int|
                #![trigger steps@[k]]
                0 <= k < steps@.len() ==> steps@[k] == backwards[backwards.len() - 1 - k],
        decreases reversed@.len(),
    {
        match reversed.pop() {
            Some(step) => {
                steps.push(step);
            },
            None => {},
        }
    }
    proof {
        let s = steps@;
        let n = s.len();
        assert(s[0] == backwards[n - 1]);
        assert(s.last() == backwards[0]);
        assert forall|i: int| #![trigger s[i]] 0 <= i < s.len() implies w.is_step(i, s[i]) by {
            assert(s[i] == backwards[n - 1 - i]);
        }
        assert forall|i: int, j: int|
            #![trigger s[i], s[j]]
            0 <= j && i == j + 1 && i < s.len() implies step_follows(w, i, s[i], s[j].backend@) by {
            let k = n - 1 - i;
            assert(s[i] == backwards[k]);
            assert(s[j] == backwards[k + 1]);
        }
    }
    steps
}

proof fn lemma_trace_is_plan(w: Workload, plan: ExecutionPlan, end: Seq<char>)
    requires
        w.requests.len() > 0,
        is_trace(w, plan.steps@, end),
        w.is_best_end(end),
        plan.estimated_total_us == w.best_cost((w.requests.len() - 1) as nat, end),
    ensures
        w.is_plan(plan),
{
    let s = plan.steps@;
    let last = s.len() - 1;
    assert(w.is_step(last, s[last]));
    assert forall|i: int, j: int|
        #![trigger s[i], s[j]]
        0 <= j && i == j + 1 && i < s.len() implies {
        &&& s[i].transition_us == w.transition_cost(s[j].backend@, s[i].backend@)
        &&& w.is_best_previous(i as nat, s[i].backend@, s[i].operator_us, s[j].backend@)
    } by {
        assert(step_follows(w, i, s[i], s[j].backend@));
    }
}

/// What a step says of the one before it.
spec fn step_follows(w: Workload, i: int, step: ExecutionStep, previous: Seq<char>) -> bool {
    if i == 0 {
        step.transition_us == zero_us()
    } else {
        &&& step.transition_us == w.transition_cost(previous, step.backend@)
        &&& w.is_best_previous(i as nat, step.backend@, step.operator_us, previous)
    }
}

/// An entry of a complete layer is what is known of an offered backend.
proof fn lemma_entry(w: Workload, i: nat, layer: Seq<(BackendId, State)>, j: int)
    requires
        is_layer(w, i, layer, w.probes.len() as int),
        0 <= j < layer.len(),
    ensures
        w.is_offered(i as int, layer[j].0@),
        is_state(
            w,
            i,
            layer[j].0@,
            layer[j].1,
            w.last_offer(i as int, layer[j].0@, w.probes.len() as int),
        ),
        layer[j].1.operator_us == w.step_cost(i as int, layer[j].0@),
        layer[j].1.total_us == w.best_cost(i, layer[j].0@),
{
    reveal(is_layer);
    ordered_map::lemma_position(layer, j);
    let k = w.last_offer(i as int, layer[j].0@, w.probes.len() as int);
    lemma_best_cost(w, i, layer[j].0@);
}

/// An offered backend has an entry in a complete layer.
proof fn lemma_offered_entry(
    w: Workload,
    i: nat,
    layer: Seq<(BackendId, State)>,
    id: Seq<char>,
) -> (j: int)
    requires
        is_layer(w, i, layer, w.probes.len() as int),
        w.is_offered(i as int, id),
    ensures
        0 <= j < layer.len(),
        layer[j].0@ == id,
        ordered_map::has_key(layer, id),
        ordered_map::position_of(layer, id) == j,
        ordered_map::keys_increase(layer),
{
    reveal(is_layer);
    let k = w.last_offer(i as int, id, w.probes.len() as int);
    assert(ordered_map::value_of(layer, id) is Some);
    ordered_map::position_of(layer, id)
}

/// A cost that is not negative; a sum may have become infinite.
spec fn is_amount(x: Float64) -> bool {
    float::is_non_negative(float::binary64(), x.bits)
}

proof fn lemma_sum_is_amount(a: Float64, b: Float64)
    requires
        is_amount(a),
        is_amount(b),
    ensures
        is_amount(a.add_spec(b)),
{
    float::the_formats_are_formats();
    float::adding_keeps_the_order(float::binary64(), a.bits, a.bits, b.bits);
}

proof fn lemma_adding_keeps_order(a: Float64, b: Float64, c: Float64)
    requires
        is_amount(a),
        is_amount(b),
        is_amount(c),
        a.total_rank() <= b.total_rank(),
    ensures
        a.add_spec(c).total_rank() <= b.add_spec(c).total_rank(),
{
    float::the_formats_are_formats();
    float::adding_keeps_the_order(float::binary64(), a.bits, b.bits, c.bits);
}

proof fn lemma_step_cost_is_amount(w: Workload, i: int, id: Seq<char>)
    requires
        w.wf(),
    ensures
        is_amount(w.step_cost(i, id)),
{
    let k = w.last_offer(i, id, w.probes.len() as int);
    let penalty = w.config.bootstrap_rank_penalty_us;
    let number = rank_number(w.probes[k].kind);
    float::the_formats_are_formats();
    float::multiplying_stays_non_negative(float::binary64(), penalty.bits, number.bits);
    lemma_sum_is_amount(w.config.unmeasured_operator_us, penalty.mul_spec(number));
}

proof fn lemma_transition_cost_is_amount(w: Workload, from: Seq<char>, to: Seq<char>)
    requires
        w.wf(),
    ensures
        is_amount(w.transition_cost(from, to)),
{
    if ordered_map::has_key(w.transitions, (from, to)) {
        let p = ordered_map::position_of(w.transitions, (from, to));
        assert(w.transitions[p].1.is_cost());
    }
}

proof fn lemma_best_cost_is_amount(w: Workload, i: nat, id: Seq<char>)
    requires
        w.wf(),
    ensures
        is_amount(w.best_cost(i, id)),
    decreases i,
{
    lemma_best_cost(w, i, id);
    let step = w.step_cost(i as int, id);
    lemma_step_cost_is_amount(w, i as int, id);
    if i > 0 {
        let before = w.best_costs((i - 1) as nat);
        let p = choose|previous: Seq<char>| w.is_best_after(i, before, id, step, previous);
        lemma_best_cost_is_amount(w, (i - 1) as nat, p);
        lemma_transition_cost_is_amount(w, p, id);
        lemma_sum_is_amount(w.best_cost((i - 1) as nat, p), w.transition_cost(p, id));
        lemma_sum_is_amount(
            w.best_cost((i - 1) as nat, p).add_spec(w.transition_cost(p, id)),
            step,
        );
    }
}

/// Of the backends that the first `n` probes offer for a step, the best one to come from.
proof fn lemma_best_of_some(
    w: Workload,
    i: nat,
    id: Seq<char>,
    operator_us: Float64,
    n: int,
    one: int,
) -> (best: Seq<char>)
    requires
        i > 0,
        0 <= one < n <= w.probes.len(),
        w.probes[one].is_compatible(w.requests[i - 1]),
    ensures
        exists|k: int| 0 <= k < n && #[trigger] w.offers(i - 1, best, k),
        forall|k: int|
            #![trigger w.probes[k]]
            0 <= k < n && w.probes[k].is_compatible(w.requests[i - 1]) ==> {
                let other = w.probes[k].id@;
                let here = w.cost_through(i, id, operator_us, best).total_rank();
                let there = w.cost_through(i, id, operator_us, other).total_rank();
                here <= there && (text::text_before(other, best) ==> here < there)
            },
    decreases n,
{
    let k = n - 1;
    let last = w.probes[k].id@;
    if exists|o: int| #![trigger w.probes[o]]
        0 <= o < k && w.probes[o].is_compatible(w.requests[i - 1]) {
        let o = choose|o: int| #![trigger w.probes[o]]
            0 <= o < k && w.probes[o].is_compatible(w.requests[i - 1]);
        let best = lemma_best_of_some(w, i, id, operator_us, k, o);
        let here = w.cost_through(i, id, operator_us, last).total_rank();
        let there = w.cost_through(i, id, operator_us, best).total_rank();
        text::text_before_is_total(last, best);
        if w.probes[k].is_compatible(w.requests[i - 1]) && (here < there || here == there
            && text::text_before(last, best)) {
            assert(w.offers(i - 1, last, k));
            assert forall|m: int|
                #![trigger w.probes[m]]
                0 <= m < n && w.probes[m].is_compatible(w.requests[i - 1]) implies {
                let other = w.probes[m].id@;
                let mine = w.cost_through(i, id, operator_us, last).total_rank();
                let its = w.cost_through(i, id, operator_us, other).total_rank();
                mine <= its && (text::text_before(other, last) ==> mine < its)
            } by {
                let other = w.probes[m].id@;
                if text::text_before(other, last) {
                    text::text_before_is_asymmetric(other, last);
                    if here == there {
                        text::text_before_is_transitive(other, last, best);
                    }
                }
            }
            last
        } else {
            text::text_before_is_asymmetric(last, best);
            best
        }
    } else {
        assert(one == k);
        assert(w.offers(i - 1, last, k));
        text::text_before_is_asymmetric(last, last);
        last
    }
}

/// Where some backend can serve the step before, there is a best one to come from.
proof fn lemma_best_previous_exists(
    w: Workload,
    i: nat,
    id: Seq<char>,
    operator_us: Float64,
    some: Seq<char>,
)
    requires
        i > 0,
        w.is_offered(i - 1, some),
    ensures
        exists|p: Seq<char>| w.is_best_previous(i, id, operator_us, p),
{
    let n = w.probes.len() as int;
    lemma_last_offer(w, i - 1, some, n);
    let best = lemma_best_of_some(w, i, id, operator_us, n, w.last_offer(i - 1, some, n));
    lemma_last_offer(w, i - 1, best, n);
    assert forall|other: Seq<char>|
        #![trigger w.is_offered(i - 1, other)]
        w.is_offered(i - 1, other) implies {
        let here = w.cost_through(i, id, operator_us, best).total_rank();
        let there = w.cost_through(i, id, operator_us, other).total_rank();
        here <= there && (text::text_before(other, best) ==> here < there)
    } by {
        lemma_last_offer(w, i - 1, other, n);
        let k = w.last_offer(i - 1, other, n);
        assert(w.probes[k].id@ == other);
    }
    assert(w.is_best_previous(i, id, operator_us, best));
}

/// No chain gets to a step for less than the least cost.
proof fn lemma_least_cost_is_least(w: Workload, chain: Seq<Seq<char>>, i: nat)
    requires
        w.wf(),
        w.is_chain(chain),
        i < chain.len(),
    ensures
        is_amount(w.chain_cost(chain, i)),
        w.best_cost(i, chain[i as int]).total_rank() <= w.chain_cost(chain, i).total_rank(),
    decreases i,
{
    let id = chain[i as int];
    let step = w.step_cost(i as int, id);
    lemma_step_cost_is_amount(w, i as int, id);
    lemma_best_cost(w, i, id);
    if i > 0 {
        let j = (i - 1) as nat;
        let q = chain[i - 1];
        assert(w.is_offered(i - 1, q));
        lemma_least_cost_is_least(w, chain, j);
        lemma_best_previous_exists(w, i, id, step, q);
        let p = choose|p: Seq<char>| w.is_best_previous(i, id, step, p);
        lemma_cost_with(w, i, id, step, p);
        lemma_best_cost_is_amount(w, j, q);
        lemma_transition_cost_is_amount(w, q, id);
        let change = w.transition_cost(q, id);
        lemma_adding_keeps_order(w.best_cost(j, q), w.chain_cost(chain, j), change);
        lemma_sum_is_amount(w.best_cost(j, q), change);
        lemma_sum_is_amount(w.chain_cost(chain, j), change);
        lemma_adding_keeps_order(
            w.best_cost(j, q).add_spec(change),
            w.chain_cost(chain, j).add_spec(change),
            step,
        );
        lemma_sum_is_amount(w.chain_cost(chain, j).add_spec(change), step);
    }
}

/// A plan is the cheapest there is: no chain of backends that can serve the requests costs less.
pub proof fn the_plan_is_the_cheapest(w: Workload, plan: ExecutionPlan, chain: Seq<Seq<char>>)
    requires
        w.wf(),
        w.requests.len() > 0,
        w.is_plan(plan),
        w.is_chain(chain),
    ensures
        plan.estimated_total_us.total_rank() <= w.chain_cost(
            chain,
            (w.requests.len() - 1) as nat,
        ).total_rank(),
{
    let last = (w.requests.len() - 1) as nat;
    lemma_least_cost_is_least(w, chain, last);
    assert(w.is_offered(last as int, chain[last as int]));
    let steps = plan.steps@;
    assert(w.is_step(last as int, steps[last as int]));
}

/// The backends of a plan, in order.
pub open spec fn chain_of(plan: ExecutionPlan) -> Seq<Seq<char>> {
    Seq::new(plan.steps@.len(), |i: int| plan.steps@[i].backend@)
}

/// A plan costs what it says: its backends can serve the requests, and going through them costs,
/// step by step, what the plan has accumulated.
pub proof fn the_plan_costs_what_it_says(w: Workload, plan: ExecutionPlan, i: nat)
    requires
        w.requests.len() > 0,
        w.is_plan(plan),
        i < w.requests.len(),
    ensures
        w.is_chain(chain_of(plan)),
        w.chain_cost(chain_of(plan), i) == plan.steps@[i as int].cumulative_us,
    decreases i,
{
    let steps = plan.steps@;
    let chain = chain_of(plan);
    assert forall|j: int| #![trigger chain[j]] 0 <= j < chain.len() implies w.is_offered(
        j,
        chain[j],
    ) by {
        assert(w.is_step(j, steps[j]));
    }
    assert(w.is_step(i as int, steps[i as int]));
    let id = chain[i as int];
    lemma_best_cost(w, i, id);
    if i > 0 {
        the_plan_costs_what_it_says(w, plan, (i - 1) as nat);
        assert(w.is_step(i - 1, steps[i - 1]));
        assert(w.is_best_previous(i, id, steps[i as int].operator_us, chain[i - 1]));
        lemma_cost_with(w, i, id, steps[i as int].operator_us, chain[i - 1]);
    }
}

/// A cost that was recorded is what is looked up, and what was recorded of other changes stays.
pub proof fn a_recorded_cost_is_found(
    before: Seq<(BackendPair, Float64)>,
    pair: BackendPair,
    cost: Float64,
    after: Seq<(BackendPair, Float64)>,
    other: (Seq<char>, Seq<char>),
)
    requires
        ordered_map::keys_increase(before),
        ordered_map::keys_increase(after),
        ordered_map::inserted(before, pair, cost, after),
    ensures
        ordered_map::value_of(after, pair@) == Some(cost),
        other != pair@ ==> ordered_map::value_of(after, other) == ordered_map::value_of(
            before,
            other,
        ),
{
    ordered_map::insertion_changes_one_key(before, pair, cost, after, pair@);
    ordered_map::insertion_changes_one_key(before, pair, cost, after, other);
}

/// Staying on a backend costs nothing, whatever was recorded.
pub proof fn staying_is_free(w: Workload, id: Seq<char>)
    ensures
        w.transition_cost(id, id) == zero_us(),
{
}

/// Whether probe `k` is the last one of its name that can serve the request, by what it says of
/// itself: it is available and covers the request, and no later one of its name does.
pub open spec fn is_last_word(probes: Seq<BackendProbe>, request: RouteRequest, k: int) -> bool {
    &&& 0 <= k < probes.len()
    &&& probes[k].available
    &&& probes[k].capabilities.covers(request)
    &&& forall|j: int|
        #![trigger probes[j]]
        k < j < probes.len() && probes[j].id@ == probes[k].id@ ==> !probes[j].available
            || !probes[j].capabilities.covers(request)
}

/// The last probe of a name that can serve a step is the one by which the step is costed.
proof fn lemma_last_word(w: Workload, i: int, k: int, n: int)
    requires
        is_last_word(w.probes, w.requests[i], k),
        k < n <= w.probes.len(),
    ensures
        w.last_offer(i, w.probes[k].id@, n) == k,
    decreases n,
{
    if n - 1 > k {
        assert(w.probes[n - 1] == w.probes[n - 1]);
        lemma_last_word(w, i, k, n - 1);
    }
}

/// What nothing was measured of costs, in a plan, what the planner takes for something unmeasured
/// and its penalty as many times as the kind of backend is away from the best: not at all for HIP,
/// once for Vulkan, twice for a hybrid, three times for a plugin and four times for the processor.
pub proof fn an_unmeasured_step_is_penalized_by_its_kind(
    w: Workload,
    plan: ExecutionPlan,
    i: int,
    k: int,
    unmeasured: int,
    penalty: int,
)
    requires
        w.is_plan(plan),
        0 <= i < w.requests.len(),
        is_last_word(w.probes, w.requests[i], k),
        plan.steps@[i].backend@ == w.probes[k].id@,
        forall|r: int|
            #![trigger w.records[r]]
            0 <= r < w.records.len() ==> w.records[r].backend@ != w.probes[k].id@
                || w.records[r].operation != w.requests[i].operation || w.records[r].data_type
                != w.requests[i].data_type,
        w.config.unmeasured_operator_us.is_integer(unmeasured),
        w.config.bootstrap_rank_penalty_us.is_integer(penalty),
        0 <= unmeasured,
        0 <= penalty,
        unmeasured + 4 * penalty <= 0x20_0000_0000_0000,
    ensures
        plan.steps@[i].operator_us.is_integer(
            unmeasured + penalty * match w.probes[k].kind {
                BackendKind::Hip => 0int,
                BackendKind::Vulkan => 1,
                BackendKind::Hybrid => 2,
                BackendKind::Plugin => 3,
                BackendKind::Cpu => 4,
            },
        ),
{
    assert(w.is_step(i, plan.steps@[i]));
    lemma_last_word(w, i, k, w.probes.len() as int);
    lemma_unmeasured_cost(w, i, k, unmeasured, penalty);
}

proof fn lemma_unmeasured_cost(w: Workload, i: int, k: int, unmeasured: int, penalty: int)
    requires
        forall|r: int|
            #![trigger w.records[r]]
            0 <= r < w.records.len() ==> w.records[r].backend@ != w.probes[k].id@
                || w.records[r].operation != w.requests[i].operation || w.records[r].data_type
                != w.requests[i].data_type,
        w.config.unmeasured_operator_us.is_integer(unmeasured),
        w.config.bootstrap_rank_penalty_us.is_integer(penalty),
        0 <= unmeasured,
        0 <= penalty,
        unmeasured + 4 * penalty <= 0x20_0000_0000_0000,
    ensures
        w.operator_cost(i, k).is_integer(
            unmeasured + penalty * match w.probes[k].kind {
                BackendKind::Hip => 0int,
                BackendKind::Vulkan => 1,
                BackendKind::Hybrid => 2,
                BackendKind::Plugin => 3,
                BackendKind::Cpu => 4,
            },
        ),
{
    let kind = w.probes[k].kind;
    let place = match kind {
        BackendKind::Hip => 0int,
        BackendKind::Vulkan => 1,
        BackendKind::Hybrid => 2,
        BackendKind::Plugin => 3,
        BackendKind::Cpu => 4,
    };
    performance::a_lookup_passes_over_the_rest(
        w.records,
        w.probes[k].id@,
        w.requests[i].operation,
        w.requests[i].data_type,
    );
    Float64::zero_to_four();
    let p = w.config.bootstrap_rank_penalty_us;
    assert(0 <= penalty * place <= 4 * penalty) by (nonlinear_arith)
        requires
            0 <= place <= 4,
            0 <= penalty,
    ;
    Float64::integers_are_exact(p, rank_number(kind), penalty, place);
    Float64::integers_are_exact(
        w.config.unmeasured_operator_us,
        p.mul_spec(rank_number(kind)),
        unmeasured,
        penalty * place,
    );
}

/// The same of all costs, rounded or not: an unmeasured step costs the sum of what the planner
/// takes for something unmeasured and the product of its penalty and the place of the kind.
pub proof fn an_unmeasured_step_costs_its_penalty(
    w: Workload,
    plan: ExecutionPlan,
    i: int,
    k: int,
    place: Float64,
)
    requires
        w.is_plan(plan),
        0 <= i < w.requests.len(),
        is_last_word(w.probes, w.requests[i], k),
        plan.steps@[i].backend@ == w.probes[k].id@,
        forall|r: int|
            #![trigger w.records[r]]
            0 <= r < w.records.len() ==> w.records[r].backend@ != w.probes[k].id@
                || w.records[r].operation != w.requests[i].operation || w.records[r].data_type
                != w.requests[i].data_type,
        place.is_integer(
            match w.probes[k].kind {
                BackendKind::Hip => 0int,
                BackendKind::Vulkan => 1,
                BackendKind::Hybrid => 2,
                BackendKind::Plugin => 3,
                BackendKind::Cpu => 4,
            },
        ),
        place.bits < 0x8000_0000_0000_0000,
    ensures
        plan.steps@[i].operator_us == w.config.unmeasured_operator_us.add_spec(
            w.config.bootstrap_rank_penalty_us.mul_spec(place),
        ),
{
    assert(w.is_step(i, plan.steps@[i]));
    lemma_last_word(w, i, k, w.probes.len() as int);
    performance::a_lookup_passes_over_the_rest(
        w.records,
        w.probes[k].id@,
        w.requests[i].operation,
        w.requests[i].data_type,
    );
    Float64::zero_to_four();
    let other = rank_number(w.probes[k].kind);
    let n = match w.probes[k].kind {
        BackendKind::Hip => 0int,
        BackendKind::Vulkan => 1,
        BackendKind::Hybrid => 2,
        BackendKind::Plugin => 3,
        BackendKind::Cpu => 4,
    };
    if place.bits < other.bits {
        float::magnitude_increases(52, place.bits as nat, other.bits as nat);
    }
    if other.bits < place.bits {
        float::magnitude_increases(52, other.bits as nat, place.bits as nat);
    }
    assert(place == other);
}

/// What was measured costs, in a plan, what the first record about the backend, the operation and
/// the data type says.
pub proof fn a_measured_step_costs_what_was_measured(
    w: Workload,
    plan: ExecutionPlan,
    i: int,
    r: int,
)
    requires
        w.is_plan(plan),
        0 <= i < w.requests.len(),
        0 <= r < w.records.len(),
        w.records[r].backend@ == plan.steps@[i].backend@,
        w.records[r].operation == w.requests[i].operation,
        w.records[r].data_type == w.requests[i].data_type,
        w.records[r].median_microseconds.bits < 0x7ff0_0000_0000_0000,
        forall|s: int|
            #![trigger w.records[s]]
            0 <= s < r ==> w.records[s].backend@ != plan.steps@[i].backend@
                || w.records[s].operation != w.requests[i].operation || w.records[s].data_type
                != w.requests[i].data_type,
    ensures
        plan.steps@[i].operator_us == w.records[r].median_microseconds,
{
    let id = plan.steps@[i].backend@;
    assert(w.is_step(i, plan.steps@[i]));
    lemma_last_offer(w, i, id, w.probes.len() as int);
    performance::a_lookup_reads_the_first_record_of_its_kind(
        w.records,
        id,
        w.requests[i].operation,
        w.requests[i].data_type,
        r,
    );
}

/// A step of a plan answers its own request, on a backend that some probe names, says is available
/// and says covers the request.
pub proof fn a_step_runs_where_it_can(w: Workload, plan: ExecutionPlan, i: int) -> (k: int)
    requires
        w.is_plan(plan),
        0 <= i < w.requests.len(),
    ensures
        plan.steps@.len() == w.requests.len(),
        plan.steps@[i].request == w.requests[i],
        0 <= k < w.probes.len(),
        w.probes[k].id@ == plan.steps@[i].backend@,
        w.probes[k].available,
        w.probes[k].capabilities.covers(w.requests[i]),
        is_last_word(w.probes, w.requests[i], k),
{
    let id = plan.steps@[i].backend@;
    let n = w.probes.len() as int;
    assert(w.is_step(i, plan.steps@[i]));
    lemma_last_offer(w, i, id, n);
    let k = w.last_offer(i, id, n);
    lemma_none_after(w, i, id, n);
    assert forall|j: int|
        #![trigger w.probes[j]]
        k < j < n && w.probes[j].id@ == id implies !w.probes[j].available
        || !w.probes[j].capabilities.covers(w.requests[i]) by {
        assert(!w.offers(i, id, j));
    }
    k
}

proof fn lemma_none_after(w: Workload, i: int, id: Seq<char>, n: int)
    requires
        n <= w.probes.len(),
    ensures
        forall|j: int|
            #![trigger w.offers(i, id, j)]
            w.last_offer(i, id, n) < j < n ==> !w.offers(i, id, j),
    decreases n,
{
    if n > 0 {
        lemma_none_after(w, i, id, n - 1);
    }
}

/// The costs in a plan add up: each step has accumulated what the step before it had, the change
/// of backend between them and its own cost, in this order, and the last has the total.
pub proof fn the_costs_of_a_plan_add_up(w: Workload, plan: ExecutionPlan, i: int)
    requires
        w.is_plan(plan),
        0 <= i < w.requests.len(),
    ensures
        ({
            let step = plan.steps@[i];
            &&& i == 0 ==> step.cumulative_us == step.operator_us && step.transition_us.bits == 0
            &&& i > 0 ==> step.cumulative_us == plan.steps@[i - 1].cumulative_us.add_spec(
                step.transition_us,
            ).add_spec(step.operator_us)
            &&& i == w.requests.len() - 1 ==> plan.estimated_total_us == step.cumulative_us
        }),
{
    let steps = plan.steps@;
    assert(w.is_step(i, steps[i]));
    lemma_best_cost(w, i as nat, steps[i].backend@);
    if i > 0 {
        assert(w.is_step(i - 1, steps[i - 1]));
        assert(w.is_best_previous(
            i as nat,
            steps[i].backend@,
            steps[i].operator_us,
            steps[i - 1].backend@,
        ));
        lemma_cost_with(
            w,
            i as nat,
            steps[i].backend@,
            steps[i].operator_us,
            steps[i - 1].backend@,
        );
    }
}

/// A change of backend costs, in a plan, what the table has for just these two ends, in this
/// direction, or the default where it has nothing. No change costs nothing.
pub proof fn a_change_costs_what_the_table_says(w: Workload, plan: ExecutionPlan, i: int, t: int)
    requires
        w.wf(),
        w.is_plan(plan),
        0 < i < w.requests.len(),
    ensures
        ({
            let from = plan.steps@[i - 1].backend@;
            let to = plan.steps@[i].backend@;
            let cost = plan.steps@[i].transition_us;
            &&& from == to ==> cost.bits == 0
            &&& from != to && 0 <= t < w.transitions.len() && w.transitions[t].0.from@ == from
                && w.transitions[t].0.to@ == to ==> cost == w.transitions[t].1
            &&& from != to && (forall|s: int|
                #![trigger w.transitions[s]]
                0 <= s < w.transitions.len() ==> w.transitions[s].0.from@ != from
                    || w.transitions[s].0.to@ != to) ==> cost == w.config.default_transition_us
        }),
{
    let steps = plan.steps@;
    let from = steps[i - 1].backend@;
    let to = steps[i].backend@;
    assert(steps[i].transition_us == w.transition_cost(from, to));
    if 0 <= t < w.transitions.len() && w.transitions[t].0@ == (from, to) {
        ordered_map::lemma_position(w.transitions, t);
    }
    if ordered_map::has_key(w.transitions, (from, to)) {
        let s = ordered_map::position_of(w.transitions, (from, to));
        assert(w.transitions[s].0@ == (from, to));
    }
}

/// Where nothing was measured of what is asked, a plan of one step never takes a backend of a worse
/// kind than one that can serve: HIP before Vulkan, before hybrids, before plugins, before the
/// processor. Of several of one kind it takes the first by name.
pub proof fn an_unmeasured_plan_takes_the_best_kind(
    w: Workload,
    plan: ExecutionPlan,
    k: int,
    j: int,
    unmeasured: int,
    penalty: int,
)
    requires
        w.requests.len() == 1,
        w.is_plan(plan),
        is_last_word(w.probes, w.requests[0], k),
        is_last_word(w.probes, w.requests[0], j),
        plan.steps@[0].backend@ == w.probes[k].id@,
        forall|r: int|
            #![trigger w.records[r]]
            0 <= r < w.records.len() ==> w.records[r].operation != w.requests[0].operation
                || w.records[r].data_type != w.requests[0].data_type,
        w.config.unmeasured_operator_us.is_integer(unmeasured),
        w.config.bootstrap_rank_penalty_us.is_integer(penalty),
        0 <= unmeasured,
        0 < penalty,
        unmeasured + 4 * penalty <= 0x20_0000_0000_0000,
    ensures
        ({
            let place = |kind: BackendKind|
                match kind {
                    BackendKind::Hip => 0int,
                    BackendKind::Vulkan => 1,
                    BackendKind::Hybrid => 2,
                    BackendKind::Plugin => 3,
                    BackendKind::Cpu => 4,
                };
            &&& place(w.probes[k].kind) <= place(w.probes[j].kind)
            &&& w.probes[k].kind == w.probes[j].kind ==> !text::text_before(
                w.probes[j].id@,
                w.probes[k].id@,
            )
        }),
{
    let place = |kind: BackendKind|
        match kind {
            BackendKind::Hip => 0int,
            BackendKind::Vulkan => 1,
            BackendKind::Hybrid => 2,
            BackendKind::Plugin => 3,
            BackendKind::Cpu => 4,
        };
    let n = w.probes.len() as int;
    let here = w.probes[k].id@;
    let there = w.probes[j].id@;
    lemma_last_word(w, 0, k, n);
    lemma_last_word(w, 0, j, n);
    lemma_unmeasured_cost(w, 0, k, unmeasured, penalty);
    lemma_unmeasured_cost(w, 0, j, unmeasured, penalty);
    lemma_best_cost(w, 0, here);
    lemma_best_cost(w, 0, there);
    assert(w.is_offered(0, there));
    assert(w.is_best_end(here));
    let a = place(w.probes[k].kind);
    let b = place(w.probes[j].kind);
    assert(b < a ==> penalty * b < penalty * a) by (nonlinear_arith)
        requires
            penalty > 0,
    ;
    Float64::integers_are_exact(
        w.operator_cost(0, j),
        w.operator_cost(0, k),
        unmeasured + penalty * b,
        unmeasured + penalty * a,
    );
    if w.probes[k].kind == w.probes[j].kind {
        performance::a_lookup_passes_over_the_rest(
            w.records,
            here,
            w.requests[0].operation,
            w.requests[0].data_type,
        );
        performance::a_lookup_passes_over_the_rest(
            w.records,
            there,
            w.requests[0].operation,
            w.requests[0].data_type,
        );
    }
}

/// Two backends of which nothing was measured and whose kinds differ cost differently: the one of
/// the better kind costs less, by the penalty for each kind between.
pub proof fn a_worse_kind_costs_more(
    w: Workload,
    i: int,
    k: int,
    j: int,
    unmeasured: int,
    penalty: int,
)
    requires
        is_last_word(w.probes, w.requests[i], k),
        is_last_word(w.probes, w.requests[i], j),
        forall|r: int|
            #![trigger w.records[r]]
            0 <= r < w.records.len() ==> w.records[r].operation != w.requests[i].operation
                || w.records[r].data_type != w.requests[i].data_type,
        w.config.unmeasured_operator_us.is_integer(unmeasured),
        w.config.bootstrap_rank_penalty_us.is_integer(penalty),
        0 <= unmeasured,
        0 < penalty,
        unmeasured + 4 * penalty <= 0x20_0000_0000_0000,
        backend::bootstrap_rank_of(w.probes[k].kind) < backend::bootstrap_rank_of(
            w.probes[j].kind,
        ),
    ensures
        w.step_cost(i, w.probes[k].id@).is_integer(
            unmeasured + penalty * backend::bootstrap_rank_of(w.probes[k].kind),
        ),
        w.step_cost(i, w.probes[j].id@).is_integer(
            unmeasured + penalty * backend::bootstrap_rank_of(w.probes[j].kind),
        ),
        w.step_cost(i, w.probes[k].id@).total_rank() < w.step_cost(
            i,
            w.probes[j].id@,
        ).total_rank(),
{
    let n = w.probes.len() as int;
    lemma_last_word(w, i, k, n);
    lemma_last_word(w, i, j, n);
    lemma_unmeasured_cost(w, i, k, unmeasured, penalty);
    lemma_unmeasured_cost(w, i, j, unmeasured, penalty);
    let a = backend::bootstrap_rank_of(w.probes[k].kind) as int;
    let b = backend::bootstrap_rank_of(w.probes[j].kind) as int;
    assert(penalty * a < penalty * b) by (nonlinear_arith)
        requires
            penalty > 0,
            a < b,
    ;
    Float64::integers_are_exact(
        w.operator_cost(i, k),
        w.operator_cost(i, j),
        unmeasured + penalty * a,
        unmeasured + penalty * b,
    );
}

/// A planner plans what it is given: these requests on these probes, by all that was measured.
pub proof fn a_planner_plans_what_it_is_given(
    planner: CostAwarePlanner,
    requests: Seq<RouteRequest>,
    probes: Seq<BackendProbe>,
    performance: PerformanceTable,
)
    ensures
        ({
            let w = planner.workload(requests, probes, performance);
            &&& w.requests == requests
            &&& w.probes == probes
            &&& w.records == performance.records@
            &&& w.config.unmeasured_operator_us == planner.config().unmeasured_operator_us
            &&& w.config.default_transition_us == planner.config().default_transition_us
            &&& w.config.bootstrap_rank_penalty_us == planner.config().bootstrap_rank_penalty_us
            &&& w.transitions == planner.transitions()
        }),
{
}

/// A step can run nowhere if and only if no probe is available and covers its request.
pub proof fn a_stuck_step_has_no_backend(w: Workload, i: int)
    ensures
        w.is_stuck(i) <==> forall|k: int|
            #![trigger w.probes[k]]
            0 <= k < w.probes.len() ==> !w.probes[k].available
                || !w.probes[k].capabilities.covers(w.requests[i]),
{
}

/// A measurement that is not a cost counts for nothing: where the first record about the backend,
/// the operation and the data type is negative, infinite or no number, the step costs what an
/// unmeasured one does, whatever later records say.
pub proof fn an_unusable_measurement_counts_for_nothing(
    w: Workload,
    plan: ExecutionPlan,
    i: int,
    k: int,
    r: int,
    unmeasured: int,
    penalty: int,
)
    requires
        w.is_plan(plan),
        0 <= i < w.requests.len(),
        is_last_word(w.probes, w.requests[i], k),
        plan.steps@[i].backend@ == w.probes[k].id@,
        0 <= r < w.records.len(),
        w.records[r].backend@ == w.probes[k].id@,
        w.records[r].operation == w.requests[i].operation,
        w.records[r].data_type == w.requests[i].data_type,
        w.records[r].median_microseconds.bits >= 0x7ff0_0000_0000_0000,
        w.records[r].median_microseconds.bits != 0x8000_0000_0000_0000,
        forall|s: int|
            #![trigger w.records[s]]
            0 <= s < r ==> w.records[s].backend@ != w.probes[k].id@ || w.records[s].operation
                != w.requests[i].operation || w.records[s].data_type != w.requests[i].data_type,
        w.config.unmeasured_operator_us.is_integer(unmeasured),
        w.config.bootstrap_rank_penalty_us.is_integer(penalty),
        0 <= unmeasured <= 0x4_0000_0000_0000,
        0 <= penalty <= 0x4_0000_0000_0000,
    ensures
        plan.steps@[i].operator_us.is_integer(
            unmeasured + penalty * match w.probes[k].kind {
                BackendKind::Hip => 0int,
                BackendKind::Vulkan => 1,
                BackendKind::Hybrid => 2,
                BackendKind::Plugin => 3,
                BackendKind::Cpu => 4,
            },
        ),
{
    assert(w.is_step(i, plan.steps@[i]));
    lemma_last_word(w, i, k, w.probes.len() as int);
    performance::a_lookup_reads_the_first_record_of_its_kind(
        w.records,
        w.probes[k].id@,
        w.requests[i].operation,
        w.requests[i].data_type,
        r,
    );
    Float64::zero_to_four();
    let place = match w.probes[k].kind {
        BackendKind::Hip => 0int,
        BackendKind::Vulkan => 1,
        BackendKind::Hybrid => 2,
        BackendKind::Plugin => 3,
        BackendKind::Cpu => 4,
    };
    let number = rank_number(w.probes[k].kind);
    assert(0 <= penalty * place <= 4 * penalty) by (nonlinear_arith)
        requires
            0 <= penalty,
            0 <= place <= 4,
    ;
    Float64::integers_are_exact(w.config.bootstrap_rank_penalty_us, number, penalty, place);
    Float64::integers_are_exact(
        w.config.unmeasured_operator_us,
        w.config.bootstrap_rank_penalty_us.mul_spec(number),
        unmeasured,
        penalty * place,
    );
}

/// Of plans that cost the same, the one whose last backend comes first by name is taken.
pub proof fn a_plan_ends_on_the_first_name(w: Workload, plan: ExecutionPlan, chain: Seq<Seq<char>>)
    requires
        w.wf(),
        w.requests.len() > 0,
        w.is_plan(plan),
        w.is_chain(chain),
        w.chain_cost(chain, (w.requests.len() - 1) as nat).total_rank()
            == plan.estimated_total_us.total_rank(),
    ensures
        !text::text_before(chain.last(), plan.steps@.last().backend@),
{
    let last = (w.requests.len() - 1) as nat;
    lemma_least_cost_is_least(w, chain, last);
    assert(w.is_offered(last as int, chain[last as int]));
    assert(w.is_step(last as int, plan.steps@[last as int]));
}

/// The same of the backends to come from: where a plan could have gone to a step from another
/// backend at the same cost, that backend does not come first by name.
pub proof fn a_plan_comes_from_the_first_name(
    w: Workload,
    plan: ExecutionPlan,
    chain: Seq<Seq<char>>,
    i: nat,
)
    requires
        w.wf(),
        w.is_plan(plan),
        w.is_chain(chain),
        0 < i < w.requests.len(),
        chain[i as int] == plan.steps@[i as int].backend@,
        w.chain_cost(chain, (i - 1) as nat) == w.best_cost((i - 1) as nat, chain[i - 1]),
        w.chain_cost(chain, i).total_rank() == plan.steps@[i as int].cumulative_us.total_rank(),
    ensures
        !text::text_before(chain[i - 1], plan.steps@[i - 1].backend@),
{
    let steps = plan.steps@;
    let id = chain[i as int];
    assert(w.is_step(i as int, steps[i as int]));
    assert(w.is_step(i - 1, steps[i - 1]));
    lemma_best_cost(w, i, id);
    let previous = steps[i - 1].backend@;
    assert(w.is_best_previous(i, id, steps[i as int].operator_us, previous));
    lemma_cost_with(w, i, id, steps[i as int].operator_us, previous);
    assert(w.is_offered(i - 1, chain[i - 1]));
}

} // verus!
