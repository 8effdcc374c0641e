//! What the statement says of traces: which traces satisfy it, and that the
//! trace made by the transition rule is the only one that does.

use crate::air::{
    lemma_residual_is_zero_iff_rule_holds, next_state, transition_residual, Statement,
    TRANSITION_OFFSET,
};
use crate::field::{is_element, modulus};
use vstd::arithmetic::div_mod::lemma_mod_bound;
use vstd::prelude::*;

verus! {

/// The state reached from `start` after `steps` applications of the
/// transition rule.
pub open spec fn state_at(start: int, steps: nat) -> int
    decreases steps,
{
    if steps == 0 {
        start
    } else {
        next_state(state_at(start, (steps - 1) as nat))
    }
}

/// The trace of `length` steps that the transition rule makes from `start`.
pub open spec fn honest_trace(start: int, length: nat) -> Seq<int> {
    Seq::new(length, |i: int| state_at(start, i as nat))
}

/// Whether a single-column trace satisfies the statement: it has the
/// claimed length, holds field elements, meets the transition constraint
/// at every step but the last, and meets both boundary assertions.
pub open spec fn satisfies(trace: Seq<int>, statement: Statement) -> bool {
    &&& trace.len() == statement.trace_length
    &&& trace.len() >= 1
    &&& forall|i: int| 0 <= i < trace.len() ==> is_element(#[trigger] trace[i])
    &&& forall|i: int|
        #![trigger trace[i]]
        0 <= i < trace.len() - 1 ==> transition_residual(trace[i], trace[i + 1]) == 0
    &&& trace[0] == statement.start
    &&& trace[trace.len() - 1] == statement.result
}

/// Every state that the rule reaches from a field element is a field
/// element.
pub proof fn lemma_state_is_element(start: int, steps: nat)
    requires
        is_element(start),
    ensures
        is_element(state_at(start, steps)),
{
    if steps > 0 {
        let previous = state_at(start, (steps - 1) as nat);
        lemma_mod_bound(previous * previous * previous + TRANSITION_OFFSET as int, modulus());
    }
}

/// The trace that the rule makes from `start` satisfies the statement
/// whose inputs are `start` and the last state of that trace.
pub proof fn lemma_honest_trace_satisfies(start: int, length: nat)
    requires
        is_element(start),
        length >= 1,
    ensures
        satisfies(
            honest_trace(start, length),
            Statement {
                trace_length: length,
                start: start,
                result: state_at(start, (length - 1) as nat),
            },
        ),
{
    let trace = honest_trace(start, length);
    assert forall|i: int| 0 <= i < trace.len() implies is_element(#[trigger] trace[i]) by {
        lemma_state_is_element(start, i as nat);
    }
    assert forall|i: int|
        #![trigger trace[i]]
        0 <= i < trace.len() - 1 implies transition_residual(trace[i], trace[i + 1]) == 0 by {
        lemma_state_is_element(start, (i + 1) as nat);
        lemma_residual_is_zero_iff_rule_holds(trace[i], trace[i + 1]);
    }
}

/// In a trace that satisfies a statement, every state is the one that the
/// rule reaches from the statement's `start`.
pub proof fn lemma_satisfying_trace_is_honest(trace: Seq<int>, statement: Statement, step: nat)
    requires
        satisfies(trace, statement),
        step < trace.len(),
    ensures
        trace[step as int] == state_at(statement.start, step),
    decreases step,
{
    if step > 0 {
        let before = step - 1;
        lemma_satisfying_trace_is_honest(trace, statement, before as nat);
        assert(transition_residual(trace[before], trace[before + 1]) == 0);
        lemma_residual_is_zero_iff_rule_holds(trace[before], trace[before + 1]);
    }
}

/// A statement that some trace satisfies has as its `result` the last state
/// that the rule reaches from its `start`: with any other `result`, no
/// trace satisfies it.
pub proof fn lemma_statement_fixes_result(trace: Seq<int>, statement: Statement)
    requires
        satisfies(trace, statement),
    ensures
        statement.result == state_at(statement.start, (statement.trace_length - 1) as nat),
        trace == honest_trace(statement.start, statement.trace_length),
{
    lemma_satisfying_trace_is_honest(trace, statement, (statement.trace_length - 1) as nat);
    let honest = honest_trace(statement.start, statement.trace_length);
    assert forall|i: int| 0 <= i < trace.len() implies trace[i] == honest[i] by {
        lemma_satisfying_trace_is_honest(trace, statement, i as nat);
    }
    assert(trace =~= honest);
}

} // verus!
