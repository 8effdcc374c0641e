//! The decisions taken when a proof is checked.
//!
//! Decoding a proof and checking it against the statement are the proving
//! engine's work. What is decided here is what follows each of its answers:
//! the caller has the bytes decoded, asks [`Incrementer::verify`] what to
//! do, has the engine check where it says so, and hands the engine's answer
//! to [`Incrementer::conclude`].

use crate::inputs::PublicInputs;
use vstd::prelude::*;

verus! {

/// How the check of a proof ended.
#[derive(Clone, Copy, Debug, PartialEq, Eq, Structural)]
pub enum Verdict {
    /// The engine accepted the proof.
    Accepted,
    /// The proof was decoded and the engine rejected it.
    Rejected,
    /// The bytes were not the encoding of a proof.
    Malformed,
}

/// What the caller is to do next.
pub enum Action<P> {
    /// Nothing: the check has ended with the given verdict.
    Finish(Verdict),
    /// Have the engine check `proof` against the statement with `inputs`.
    Check { proof: P, inputs: PublicInputs },
}

/// The contract that checks proofs. It holds nothing between calls.
pub struct Incrementer {}

impl Incrementer {
    /// A new contract.
    pub fn default() -> (contract: Incrementer) {
        Incrementer {  }
    }

    /// Decides what follows the decoding of a proof, given the decoder's
    /// answer. Where the bytes did not decode, the check ends at once and
    /// nothing else is done. Otherwise the engine is to check the decoded
    /// proof against the inputs that the two raw values widen to.
    pub fn verify<P, E>(
        &self,
        raw_start: u8,
        raw_result: u8,
        decoded: Result<P, E>,
    ) -> (action: Action<P>)
        ensures
            decoded is Err ==> action == Action::<P>::Finish(Verdict::Malformed),
            decoded matches Ok(decoded_proof) ==> {
                &&& action matches Action::Check { proof, inputs }
                &&& proof == decoded_proof
                &&& inputs.start@ == raw_start as int
                &&& inputs.result@ == raw_result as int
            },
    {
        match decoded {
            Err(_) => Action::Finish(Verdict::Malformed),
            Ok(proof) => {
                let inputs = PublicInputs::from_raw(raw_start, raw_result);
                Action::Check { proof, inputs }
            },
        }
    }

    /// The verdict that follows the engine's answer on a decoded proof:
    /// accepted where the engine found no fault, rejected where it found
    /// one, whatever the fault.
    pub fn conclude<E>(&self, answer: Result<(), E>) -> (verdict: Verdict)
        ensures
            answer is Ok ==> verdict == Verdict::Accepted,
            answer is Err ==> verdict == Verdict::Rejected,
    {
        match answer {
            Ok(_) => Verdict::Accepted,
            Err(_) => Verdict::Rejected,
        }
    }
}

} // verus!
