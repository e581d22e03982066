//! The kinds of failure that a repair answers.

use vstd::prelude::*;
use vstd::std_specs::cmp::PartialEqSpecImpl;
use crate::float_bits::Float64;

verus! {

/// A structured failure: what broke, with the details of the break.
#[derive(Clone, Debug)]
pub enum BreakType {
    TestFailure { test_name: String, error: String },
    BuildError { file: String, line: u32, error: String },
    RuntimePanic { message: String, backtrace: String },
    ConservationViolation { expected: Float64, actual: Float64 },
    Deadlock { thread: String, held_lock: String },
    Timeout { operation: String, limit_ms: u64 },
    ModelError { provider: String, code: u32, message: String },
    AgentCrash { agent_id: String, last_state: String },
    CircuitBreak { circuit_id: String, value: Float64, threshold: Float64 },
    Custom { category: String, message: String },
}

impl BreakType {
    /// The category of a break: the variant's name, or for a custom break
    /// the category that it carries.
    pub open spec fn category_view(self) -> Seq<char> {
        match self {
            BreakType::TestFailure { .. } => "TestFailure"@,
            BreakType::BuildError { .. } => "BuildError"@,
            BreakType::RuntimePanic { .. } => "RuntimePanic"@,
            BreakType::ConservationViolation { .. } => "ConservationViolation"@,
            BreakType::Deadlock { .. } => "Deadlock"@,
            BreakType::Timeout { .. } => "Timeout"@,
            BreakType::ModelError { .. } => "ModelError"@,
            BreakType::AgentCrash { .. } => "AgentCrash"@,
            BreakType::CircuitBreak { .. } => "CircuitBreak"@,
            BreakType::Custom { category, .. } => category@,
        }
    }

    /// Two breaks are equal when they are of one variant with equal fields;
    /// floating-point fields compare as binary64 values.
    pub open spec fn same_break(self, other: BreakType) -> bool {
        match (self, other) {
            (BreakType::TestFailure { test_name: a, error: b }, BreakType::TestFailure { test_name: c, error: d }) =>
                a@ == c@ && b@ == d@,
            (BreakType::BuildError { file: a, line: l, error: b }, BreakType::BuildError { file: c, line: m, error: d }) =>
                a@ == c@ && l == m && b@ == d@,
            (BreakType::RuntimePanic { message: a, backtrace: b }, BreakType::RuntimePanic { message: c, backtrace: d }) =>
                a@ == c@ && b@ == d@,
            (BreakType::ConservationViolation { expected: a, actual: b }, BreakType::ConservationViolation { expected: c, actual: d }) =>
                a.same_value(c) && b.same_value(d),
            (BreakType::Deadlock { thread: a, held_lock: b }, BreakType::Deadlock { thread: c, held_lock: d }) =>
                a@ == c@ && b@ == d@,
            (BreakType::Timeout { operation: a, limit_ms: l }, BreakType::Timeout { operation: c, limit_ms: m }) =>
                a@ == c@ && l == m,
            (BreakType::ModelError { provider: a, code: l, message: b }, BreakType::ModelError { provider: c, code: m, message: d }) =>
                a@ == c@ && l == m && b@ == d@,
            (BreakType::AgentCrash { agent_id: a, last_state: b }, BreakType::AgentCrash { agent_id: c, last_state: d }) =>
                a@ == c@ && b@ == d@,
            (BreakType::CircuitBreak { circuit_id: a, value: v, threshold: t }, BreakType::CircuitBreak { circuit_id: c, value: w, threshold: u }) =>
                a@ == c@ && v.same_value(w) && t.same_value(u),
            (BreakType::Custom { category: a, message: b }, BreakType::Custom { category: c, message: d }) =>
                a@ == c@ && b@ == d@,
            _ => false,
        }
    }

    /// The category of this break.
    pub fn category(&self) -> (r: &str)
        ensures
            r@ == self.category_view(),
    {
        match self {
            BreakType::TestFailure { .. } => "TestFailure",
            BreakType::BuildError { .. } => "BuildError",
            BreakType::RuntimePanic { .. } => "RuntimePanic",
            BreakType::ConservationViolation { .. } => "ConservationViolation",
            BreakType::Deadlock { .. } => "Deadlock",
            BreakType::Timeout { .. } => "Timeout",
            BreakType::ModelError { .. } => "ModelError",
            BreakType::AgentCrash { .. } => "AgentCrash",
            BreakType::CircuitBreak { .. } => "CircuitBreak",
            BreakType::Custom { category, .. } => category.as_str(),
        }
    }
}

impl BreakType {
    /// The position of the break's variant in the declaration.
    pub open spec fn variant_index(self) -> int {
        match self {
            BreakType::TestFailure { .. } => 0,
            BreakType::BuildError { .. } => 1,
            BreakType::RuntimePanic { .. } => 2,
            BreakType::ConservationViolation { .. } => 3,
            BreakType::Deadlock { .. } => 4,
            BreakType::Timeout { .. } => 5,
            BreakType::ModelError { .. } => 6,
            BreakType::AgentCrash { .. } => 7,
            BreakType::CircuitBreak { .. } => 8,
            BreakType::Custom { .. } => 9,
        }
    }

    /// The break's text fields, in declaration order.
    pub open spec fn text_fields(self) -> Seq<Seq<char>> {
        match self {
            BreakType::TestFailure { test_name, error } => seq![test_name@, error@],
            BreakType::BuildError { file, error, .. } => seq![file@, error@],
            BreakType::RuntimePanic { message, backtrace } => seq![message@, backtrace@],
            BreakType::ConservationViolation { .. } => seq![],
            BreakType::Deadlock { thread, held_lock } => seq![thread@, held_lock@],
            BreakType::Timeout { operation, .. } => seq![operation@],
            BreakType::ModelError { provider, message, .. } => seq![provider@, message@],
            BreakType::AgentCrash { agent_id, last_state } => seq![agent_id@, last_state@],
            BreakType::CircuitBreak { circuit_id, .. } => seq![circuit_id@],
            BreakType::Custom { category, message } => seq![category@, message@],
        }
    }

    /// The break's integer fields, in declaration order.
    pub open spec fn integer_fields(self) -> Seq<int> {
        match self {
            BreakType::BuildError { line, .. } => seq![line as int],
            BreakType::Timeout { limit_ms, .. } => seq![limit_ms as int],
            BreakType::ModelError { code, .. } => seq![code as int],
            _ => seq![],
        }
    }

    /// The break's floating-point fields, in declaration order.
    pub open spec fn float_fields(self) -> Seq<Float64> {
        match self {
            BreakType::ConservationViolation { expected, actual } => seq![expected, actual],
            BreakType::CircuitBreak { value, threshold, .. } => seq![value, threshold],
            _ => seq![],
        }
    }
}

/// Law: break equality is field-wise. Two breaks are equal exactly when they
/// are of the same variant, their text fields are equal, their integer fields
/// are equal, and their floating-point fields are equal as binary64 values.
pub proof fn lemma_break_equality_is_fieldwise(x: BreakType, y: BreakType)
    ensures
        x.same_break(y) <==> {
            &&& x.variant_index() == y.variant_index()
            &&& x.text_fields() == y.text_fields()
            &&& x.integer_fields() == y.integer_fields()
            &&& x.float_fields().len() == y.float_fields().len()
            &&& forall|i: int| 0 <= i < x.float_fields().len() ==>
                (#[trigger] x.float_fields()[i]).same_value(y.float_fields()[i])
        },
{
    match (x, y) {
        (BreakType::TestFailure { test_name: a, error: b }, BreakType::TestFailure { test_name: c, error: d }) => {
            lemma_pair_eq(a@, b@, c@, d@);
        },
        (BreakType::BuildError { file: a, line: l, error: b }, BreakType::BuildError { file: c, line: m, error: d }) => {
            lemma_pair_eq(a@, b@, c@, d@);
            lemma_single_eq(l as int, m as int);
        },
        (BreakType::RuntimePanic { message: a, backtrace: b }, BreakType::RuntimePanic { message: c, backtrace: d }) => {
            lemma_pair_eq(a@, b@, c@, d@);
        },
        (BreakType::ConservationViolation { .. }, BreakType::ConservationViolation { .. }) => {
            assert(x.text_fields() =~= y.text_fields());
            assert(x.integer_fields() =~= y.integer_fields());
        },
        (BreakType::Deadlock { thread: a, held_lock: b }, BreakType::Deadlock { thread: c, held_lock: d }) => {
            lemma_pair_eq(a@, b@, c@, d@);
        },
        (BreakType::Timeout { operation: a, limit_ms: l }, BreakType::Timeout { operation: c, limit_ms: m }) => {
            lemma_single_eq(a@, c@);
            lemma_single_eq(l as int, m as int);
        },
        (BreakType::ModelError { provider: a, code: l, message: b }, BreakType::ModelError { provider: c, code: m, message: d }) => {
            lemma_pair_eq(a@, b@, c@, d@);
            lemma_single_eq(l as int, m as int);
        },
        (BreakType::AgentCrash { agent_id: a, last_state: b }, BreakType::AgentCrash { agent_id: c, last_state: d }) => {
            lemma_pair_eq(a@, b@, c@, d@);
        },
        (BreakType::CircuitBreak { circuit_id: a, .. }, BreakType::CircuitBreak { circuit_id: c, .. }) => {
            lemma_single_eq(a@, c@);
            assert(x.integer_fields() =~= y.integer_fields());
        },
        (BreakType::Custom { category: a, message: b }, BreakType::Custom { category: c, message: d }) => {
            lemma_pair_eq(a@, b@, c@, d@);
        },
        _ => {},
    }
}

proof fn lemma_pair_eq<A>(a: A, b: A, c: A, d: A)
    ensures
        seq![a, b] == seq![c, d] <==> a == c && b == d,
{
    if a == c && b == d {
        assert(seq![a, b] =~= seq![c, d]);
    }
    if seq![a, b] == seq![c, d] {
        assert(seq![a, b][0] == seq![c, d][0]);
        assert(seq![a, b][1] == seq![c, d][1]);
    }
}

proof fn lemma_single_eq<A>(a: A, c: A)
    ensures
        seq![a] == seq![c] <==> a == c,
{
    if a == c {
        assert(seq![a] =~= seq![c]);
    }
    if seq![a] == seq![c] {
        assert(seq![a][0] == seq![c][0]);
    }
}

impl PartialEq for BreakType {
    fn eq(&self, other: &Self) -> (r: bool) {
        match (self, other) {
            (BreakType::TestFailure { test_name: a, error: b }, BreakType::TestFailure { test_name: c, error: d }) =>
                *a == *c && *b == *d,
            (BreakType::BuildError { file: a, line: l, error: b }, BreakType::BuildError { file: c, line: m, error: d }) =>
                *a == *c && *l == *m && *b == *d,
            (BreakType::RuntimePanic { message: a, backtrace: b }, BreakType::RuntimePanic { message: c, backtrace: d }) =>
                *a == *c && *b == *d,
            (BreakType::ConservationViolation { expected: a, actual: b }, BreakType::ConservationViolation { expected: c, actual: d }) =>
                a.value_eq(c) && b.value_eq(d),
            (BreakType::Deadlock { thread: a, held_lock: b }, BreakType::Deadlock { thread: c, held_lock: d }) =>
                *a == *c && *b == *d,
            (BreakType::Timeout { operation: a, limit_ms: l }, BreakType::Timeout { operation: c, limit_ms: m }) =>
                *a == *c && *l == *m,
            (BreakType::ModelError { provider: a, code: l, message: b }, BreakType::ModelError { provider: c, code: m, message: d }) =>
                *a == *c && *l == *m && *b == *d,
            (BreakType::AgentCrash { agent_id: a, last_state: b }, BreakType::AgentCrash { agent_id: c, last_state: d }) =>
                *a == *c && *b == *d,
            (BreakType::CircuitBreak { circuit_id: a, value: v, threshold: t }, BreakType::CircuitBreak { circuit_id: c, value: w, threshold: u }) =>
                *a == *c && v.value_eq(w) && t.value_eq(u),
            (BreakType::Custom { category: a, message: b }, BreakType::Custom { category: c, message: d }) =>
                *a == *c && *b == *d,
            _ => false,
        }
    }
}

impl PartialEqSpecImpl for BreakType {
    open spec fn obeys_eq_spec() -> bool {
        true
    }

    open spec fn eq_spec(&self, other: &Self) -> bool {
        self.same_break(*other)
    }
}

} // verus!
