//! The public inputs of the statement and their canonical encoding.

use crate::field::{
    element_bytes, is_element, lemma_low_bytes_are_injective, lemma_low_bytes_length, Felt,
    ELEMENT_BYTES,
};
use vstd::arithmetic::power::pow;
use vstd::prelude::*;

verus! {

/// Number of bytes in the encoding of the public inputs.
pub const PUBLIC_INPUT_BYTES: usize = 32;

/// The claimed first and last values of the trace.
#[derive(Clone, Copy, Debug, PartialEq, Eq, Structural)]
pub struct PublicInputs {
    pub start: Felt,
    pub result: Felt,
}

/// The encoding of a pair of canonical representatives: `start`, then
/// `result`, each at its fixed width, with nothing before, between or after.
pub open spec fn encoding(start: int, result: int) -> Seq<u8> {
    element_bytes(start) + element_bytes(result)
}

impl PublicInputs {
    /// The encoding of these inputs.
    pub open spec fn encoding(&self) -> Seq<u8> {
        encoding(self.start@, self.result@)
    }

    /// Widens the caller's narrow values into field elements. Each value
    /// is below the characteristic, so it is its own representative.
    pub fn from_raw(raw_start: u8, raw_result: u8) -> (inputs: PublicInputs)
        ensures
            inputs.start@ == raw_start as int,
            inputs.result@ == raw_result as int,
    {
        PublicInputs { start: Felt::new(raw_start as u128), result: Felt::new(raw_result as u128) }
    }

    /// Appends the encoding of these inputs to `target`.
    pub fn write_into(&self, target: &mut Vec<u8>)
        ensures
            final(target)@ == old(target)@ + self.encoding(),
    {
        self.start.write_into(target);
        self.result.write_into(target);
        assert(target@ == old(target)@ + self.encoding());
    }

    /// The encoding of these inputs.
    pub fn to_bytes(&self) -> (bytes: Vec<u8>)
        ensures
            bytes@ == self.encoding(),
            bytes@.len() == PUBLIC_INPUT_BYTES,
    {
        let mut bytes: Vec<u8> = Vec::new();
        self.write_into(&mut bytes);
        proof {
            lemma_encoding_length(self.start@, self.result@);
            assert(bytes@ == self.encoding());
        }
        bytes
    }
}

/// The encoding always has the same length, twice the width of an element.
pub proof fn lemma_encoding_length(start: int, result: int)
    ensures
        encoding(start, result).len() == PUBLIC_INPUT_BYTES,
        element_bytes(start).len() == ELEMENT_BYTES,
{
    lemma_low_bytes_length(start as nat, ELEMENT_BYTES as nat);
    lemma_low_bytes_length(result as nat, ELEMENT_BYTES as nat);
}

/// Two pairs of canonical representatives with the same encoding are the
/// same pair: the encoding binds both values, in their order.
pub proof fn lemma_encoding_is_injective(start: int, result: int, other_start: int, other_result: int)
    requires
        is_element(start),
        is_element(result),
        is_element(other_start),
        is_element(other_result),
        encoding(start, result) == encoding(other_start, other_result),
    ensures
        start == other_start,
        result == other_result,
{
    let width = ELEMENT_BYTES as int;
    let left = encoding(start, result);
    let right = encoding(other_start, other_result);
    lemma_encoding_length(start, result);
    lemma_encoding_length(other_start, other_result);
    assert(left.subrange(0, width) == element_bytes(start));
    assert(right.subrange(0, width) == element_bytes(other_start));
    assert(left.subrange(width, 2 * width) == element_bytes(result));
    assert(right.subrange(width, 2 * width) == element_bytes(other_result));
    assert(pow(256, 16) == 0x1_0000_0000_0000_0000_0000_0000_0000_0000) by {
        reveal_with_fuel(pow, 17);
    }
    lemma_low_bytes_are_injective(start as nat, other_start as nat, ELEMENT_BYTES as nat);
    lemma_low_bytes_are_injective(result as nat, other_result as nat, ELEMENT_BYTES as nat);
}

} // verus!
