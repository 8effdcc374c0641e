//! The statement itself: the shape of the trace, the transition constraint
//! and the two boundary assertions.

use crate::field::{is_element, modulus, Felt};
use crate::inputs::PublicInputs;
use crate::shape::{is_power_of_two, TraceShape};
use vstd::arithmetic::div_mod::{
    lemma_add_mod_noop, lemma_mod_equivalence, lemma_small_mod, lemma_sub_mod_noop_right,
};
use vstd::arithmetic::power::pow;
use vstd::arithmetic::power2::{lemma_pow2_pos, pow2};
use vstd::prelude::*;
use winterfell::ProofOptions;

verus! {

/// Number of columns in the trace.
pub const TRACE_WIDTH: usize = 1;

/// The exponent of the transition rule, which is also the algebraic degree
/// of the transition constraint.
pub const TRANSITION_DEGREE: usize = 3;

/// The constant that the transition rule adds.
pub const TRANSITION_OFFSET: u8 = 42;

/// Number of boundary assertions.
pub const NUM_ASSERTIONS: usize = 2;

/// The state that follows `current` in the trace: its cube plus the offset.
pub open spec fn next_state(current: int) -> int {
    (current * current * current + TRANSITION_OFFSET as int) % modulus()
}

/// What the transition constraint evaluates to on two consecutive states.
pub open spec fn transition_residual(current: int, next: int) -> int {
    (next - (current * current * current + TRANSITION_OFFSET as int)) % modulus()
}

/// The transition constraint evaluates to zero on a pair of states exactly
/// when the second follows from the first by the rule; on every other pair
/// it evaluates to something else.
pub proof fn lemma_residual_is_zero_iff_rule_holds(current: int, next: int)
    requires
        is_element(next),
    ensures
        transition_residual(current, next) == 0 <==> next == next_state(current),
{
    let exact = current * current * current + TRANSITION_OFFSET as int;
    lemma_mod_equivalence(next, exact, modulus());
    lemma_small_mod(next as nat, modulus() as nat);
}

/// winterfell's proof options. The statement carries them and never looks
/// inside.
#[verifier::external_type_specification]
#[verifier::external_body]
pub struct ExProofOptions(winterfell::ProofOptions);

/// Model of a trace context.
pub struct ContextModel {
    pub trace_width: nat,
    pub trace_length: nat,
    pub degrees: Seq<usize>,
    pub num_assertions: nat,
    pub options: ProofOptions,
}

/// What the proving engine needs to size a proof of the statement: the
/// shape of the trace, the degree of each transition constraint, how many
/// assertions will be made, and the proof options.
pub struct TraceContext {
    shape: TraceShape,
    degrees: Vec<usize>,
    num_assertions: usize,
    options: ProofOptions,
}

impl View for TraceContext {
    type V = ContextModel;

    closed spec fn view(&self) -> ContextModel {
        ContextModel {
            trace_width: self.shape@.width,
            trace_length: self.shape@.length,
            degrees: self.degrees@,
            num_assertions: self.num_assertions as nat,
            options: self.options,
        }
    }
}

impl TraceContext {
    #[verifier::type_invariant]
    spec fn well_formed(self) -> bool {
        &&& self.shape@.width == TRACE_WIDTH
        &&& self.degrees@ == seq![TRANSITION_DEGREE]
        &&& self.num_assertions == NUM_ASSERTIONS
    }

    /// Number of columns in the trace: always one.
    pub fn trace_width(&self) -> (width: usize)
        ensures
            width == self@.trace_width,
            width == TRACE_WIDTH,
    {
        proof {
            use_type_invariant(self);
        }
        self.shape.width()
    }

    /// Number of steps in the trace, a power of two.
    pub fn trace_length(&self) -> (length: usize)
        ensures
            length == self@.trace_length,
            is_power_of_two(length as int),
    {
        self.shape.length()
    }

    /// The declared degree of each transition constraint: one constraint,
    /// of the degree of the transition rule.
    pub fn degrees(&self) -> (degrees: &Vec<usize>)
        ensures
            degrees@ == self@.degrees,
            degrees@ == seq![TRANSITION_DEGREE],
    {
        proof {
            use_type_invariant(self);
        }
        &self.degrees
    }

    /// The declared number of assertions: always two.
    pub fn num_assertions(&self) -> (count: usize)
        ensures
            count == self@.num_assertions,
            count == NUM_ASSERTIONS,
    {
        proof {
            use_type_invariant(self);
        }
        self.num_assertions
    }

    /// The proof options the context was made with.
    pub fn options(&self) -> (options: &ProofOptions)
        ensures
            *options == self@.options,
    {
        &self.options
    }
}

/// A boundary assertion: the cell of the trace in `column` at `step` holds
/// `value`.
#[derive(Clone, Copy, Debug, PartialEq, Eq, Structural)]
pub struct Assertion {
    pub column: usize,
    pub step: usize,
    pub value: Felt,
}

impl Assertion {
    /// An assertion against a single cell of the trace.
    pub fn single(column: usize, step: usize, value: Felt) -> (assertion: Assertion)
        ensures
            assertion.pins(column as int, step as int, value@),
    {
        Assertion { column, step, value }
    }

    /// Whether this assertion says that the cell in `column` at `step`
    /// holds the element with representative `value`.
    pub open spec fn pins(&self, column: int, step: int, value: int) -> bool {
        &&& self.column == column
        &&& self.step == step
        &&& self.value@ == value
    }
}

/// Two consecutive rows of the trace, as the transition constraint sees
/// them.
pub struct EvaluationFrame {
    current: Vec<Felt>,
    next: Vec<Felt>,
}

impl EvaluationFrame {
    #[verifier::type_invariant]
    spec fn well_formed(self) -> bool {
        &&& self.current@.len() >= 1
        &&& self.current@.len() == self.next@.len()
    }

    /// The current row.
    pub closed spec fn spec_current(&self) -> Seq<Felt> {
        self.current@
    }

    /// The next row.
    pub closed spec fn spec_next(&self) -> Seq<Felt> {
        self.next@
    }

    /// A frame over the two given rows.
    pub fn from_rows(current: Vec<Felt>, next: Vec<Felt>) -> (frame: EvaluationFrame)
        requires
            current@.len() >= 1,
            current@.len() == next@.len(),
        ensures
            frame.spec_current() == current@,
            frame.spec_next() == next@,
    {
        EvaluationFrame { current, next }
    }

    /// The current row: never empty.
    pub fn current(&self) -> (row: &[Felt])
        ensures
            row@ == self.spec_current(),
            row@.len() >= 1,
    {
        proof {
            use_type_invariant(self);
        }
        self.current.as_slice()
    }

    /// The next row: as wide as the current one.
    pub fn next(&self) -> (row: &[Felt])
        ensures
            row@ == self.spec_next(),
            row@.len() == self.spec_current().len(),
    {
        proof {
            use_type_invariant(self);
        }
        self.next.as_slice()
    }
}

/// What the statement claims: there is a trace of `trace_length` steps that
/// starts at `start`, follows the transition rule, and ends at `result`.
pub struct Statement {
    pub trace_length: nat,
    pub start: int,
    pub result: int,
}

/// The statement, with the context that sizes its proofs.
pub struct WorkAir {
    context: TraceContext,
    start: Felt,
    result: Felt,
}

impl View for WorkAir {
    type V = Statement;

    closed spec fn view(&self) -> Statement {
        Statement {
            trace_length: self.context@.trace_length,
            start: self.start@,
            result: self.result@,
        }
    }
}

/// Applies the transition rule to one state.
pub fn apply_rule(current: Felt) -> (next: Felt)
    ensures
        next@ == next_state(current@),
{
    let cubed = current.exp(TRANSITION_DEGREE as u128);
    let offset = Felt::new(TRANSITION_OFFSET as u128);
    let next = cubed.add(offset);
    proof {
        let c = current@;
        assert(pow(c, 3) == c * c * c) by {
            reveal_with_fuel(pow, 4);
            assert(c * (c * (c * 1)) == c * c * c) by (nonlinear_arith);
        }
        lemma_add_mod_noop(c * c * c, TRANSITION_OFFSET as int, modulus());
        lemma_small_mod(TRANSITION_OFFSET as nat, modulus() as nat);
    }
    next
}

impl WorkAir {
    /// The context, for use in contracts.
    pub closed spec fn spec_context(&self) -> TraceContext {
        self.context
    }

    /// The statement over a trace of the given shape, with the given
    /// public inputs. The trace must have exactly one column.
    pub fn new(shape: TraceShape, pub_inputs: PublicInputs, options: ProofOptions) -> (air:
        WorkAir)
        requires
            shape@.width == TRACE_WIDTH,
        ensures
            air@ == (Statement {
                trace_length: shape@.length,
                start: pub_inputs.start@,
                result: pub_inputs.result@,
            }),
            air.spec_context()@ == (ContextModel {
                trace_width: TRACE_WIDTH as nat,
                trace_length: shape@.length,
                degrees: seq![TRANSITION_DEGREE],
                num_assertions: NUM_ASSERTIONS as nat,
                options: options,
            }),
    {
        let mut degrees: Vec<usize> = Vec::new();
        degrees.push(TRANSITION_DEGREE);
        assert(degrees@ == seq![TRANSITION_DEGREE]);
        WorkAir {
            context: TraceContext { shape, degrees, num_assertions: NUM_ASSERTIONS, options },
            start: pub_inputs.start,
            result: pub_inputs.result,
        }
    }

    /// The context of the statement.
    pub fn context(&self) -> (context: &TraceContext)
        ensures
            *context == self.spec_context(),
            context@.trace_length == self@.trace_length,
    {
        &self.context
    }

    /// Number of steps in the trace, a power of two.
    pub fn trace_length(&self) -> (length: usize)
        ensures
            length == self@.trace_length,
            is_power_of_two(length as int),
    {
        self.context.trace_length()
    }

    /// Evaluates the transition constraint on a frame and stores the
    /// outcome in the first cell of `result`. The outcome is zero exactly
    /// when the next state follows from the current one by the rule. The
    /// other cells of `result`, and the periodic values, play no part.
    pub fn evaluate_transition(
        &self,
        frame: &EvaluationFrame,
        _periodic_values: &[Felt],
        result: &mut [Felt],
    )
        requires
            old(result)@.len() >= 1,
        ensures
            final(result)@.len() == old(result)@.len(),
            final(result)@[0]@ == transition_residual(
                frame.spec_current()[0]@,
                frame.spec_next()[0]@,
            ),
            final(result)@[0]@ == 0 <==> frame.spec_next()[0]@ == next_state(
                frame.spec_current()[0]@,
            ),
            forall|i: int| 1 <= i < old(result)@.len() ==> final(result)@[i] == old(result)@[i],
    {
        let current_state = frame.current()[0];
        let next_state = frame.next()[0];
        let expected = apply_rule(current_state);
        let residual = next_state.sub(expected);
        proof {
            let c = current_state@;
            lemma_sub_mod_noop_right(
                next_state@,
                c * c * c + TRANSITION_OFFSET as int,
                modulus(),
            );
            next_state.lemma_view_is_element();
            lemma_residual_is_zero_iff_rule_holds(c, next_state@);
        }
        result[0] = residual;
    }

    /// The boundary assertions of the statement: the first step of the
    /// only column holds `start`, its last step holds `result`.
    pub fn get_assertions(&self) -> (assertions: Vec<Assertion>)
        ensures
            assertions@.len() == NUM_ASSERTIONS,
            assertions@[0].pins(0, 0, self@.start),
            assertions@[1].pins(0, self@.trace_length - 1, self@.result),
    {
        let length = self.trace_length();
        proof {
            assert forall|k: nat| 0 != pow2(k) by {
                lemma_pow2_pos(k);
            }
        }
        let last_step = length - 1;
        let mut assertions: Vec<Assertion> = Vec::new();
        assertions.push(Assertion::single(0, 0, self.start));
        assertions.push(Assertion::single(0, last_step, self.result));
        assertions
    }
}

} // verus!
