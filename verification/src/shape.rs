//! The shape of an execution trace.

use vstd::arithmetic::power::lemma_pow0;
use vstd::arithmetic::power2::{lemma_pow2_pos, lemma_pow2_unfold, pow2};
use vstd::prelude::*;

verus! {

/// Whether `n` is a power of two.
pub open spec fn is_power_of_two(n: int) -> bool {
    exists|k: nat| n == pow2(k)
}

/// Two to the power zero is one.
proof fn lemma_pow2_of_zero()
    ensures
        pow2(0) == 1,
{
    reveal(pow2);
    lemma_pow0(2);
}

/// Halving an even number neither makes nor unmakes a power of two.
proof fn lemma_power_of_two_halves(n: int)
    requires
        n >= 2,
        n % 2 == 0,
    ensures
        is_power_of_two(n) <==> is_power_of_two(n / 2),
{
    if is_power_of_two(n) {
        let k = choose|k: nat| n == pow2(k);
        if k == 0 {
            lemma_pow2_of_zero();
        }
        lemma_pow2_unfold(k);
        assert(n / 2 == pow2((k - 1) as nat));
    }
    if is_power_of_two(n / 2) {
        let k = choose|k: nat| n / 2 == pow2(k);
        lemma_pow2_unfold(k + 1);
        assert(n == pow2(k + 1));
    }
}

/// The only odd power of two is one.
proof fn lemma_odd_power_of_two(n: int)
    requires
        n % 2 == 1,
    ensures
        is_power_of_two(n) <==> n == 1,
{
    lemma_pow2_of_zero();
    if is_power_of_two(n) {
        let k = choose|k: nat| n == pow2(k);
        if k > 0 {
            lemma_pow2_unfold(k);
        }
    }
}

/// What a shape is: a number of columns and a number of steps.
pub struct Shape {
    pub width: nat,
    pub length: nat,
}

/// The shape of an execution trace: how many columns, how many steps.
#[derive(Clone, Copy, Debug, PartialEq, Eq, Structural)]
pub struct TraceShape {
    width: usize,
    length: usize,
}

impl View for TraceShape {
    type V = Shape;

    closed spec fn view(&self) -> Shape {
        Shape { width: self.width as nat, length: self.length as nat }
    }
}

impl TraceShape {
    #[verifier::type_invariant]
    spec fn well_formed(self) -> bool {
        is_power_of_two(self.length as int)
    }

    /// A shape of the given width and length, if the length is a power of
    /// two.
    pub fn new(width: usize, length: usize) -> (shape: Option<TraceShape>)
        ensures
            shape is Some <==> is_power_of_two(length as int),
            shape matches Some(s) ==> s@ == (Shape { width: width as nat, length: length as nat }),
    {
        if length == 0 {
            proof {
                assert forall|k: nat| 0 != pow2(k) by {
                    lemma_pow2_pos(k);
                }
            }
            return None;
        }
        let mut rest: usize = length;
        while rest % 2 == 0
            invariant
                rest >= 1,
                is_power_of_two(length as int) <==> is_power_of_two(rest as int),
            decreases rest,
        {
            proof {
                lemma_power_of_two_halves(rest as int);
            }
            rest = rest / 2;
        }
        proof {
            lemma_odd_power_of_two(rest as int);
        }
        if rest == 1 {
            Some(TraceShape { width, length })
        } else {
            None
        }
    }

    /// Number of columns.
    pub fn width(&self) -> (width: usize)
        ensures
            width == self@.width,
    {
        self.width
    }

    /// Number of steps, a power of two.
    pub fn length(&self) -> (length: usize)
        ensures
            length == self@.length,
            is_power_of_two(length as int),
    {
        proof {
            use_type_invariant(self);
        }
        self.length
    }
}

} // verus!
