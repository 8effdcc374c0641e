//! The 128-bit prime field the statement is written over.
//!
//! An element is held as its canonical representative, an integer below the
//! characteristic. Each operation is stated over the integers, as the
//! remainder of the exact result, and proved against that statement.

use vstd::arithmetic::div_mod::{
    lemma_add_mod_noop, lemma_fundamental_div_mod_converse, lemma_mod_bound, lemma_mul_mod_noop,
    lemma_mul_mod_noop_left, lemma_small_mod,
};
use vstd::arithmetic::power::{
    lemma_pow0, lemma_pow1, lemma_pow_adds, lemma_pow_mod_noop, lemma_pow_multiplies,
    lemma_square_is_pow2, pow,
};
use vstd::prelude::*;

verus! {

/// The field's characteristic, `2^128 - 45 * 2^40 + 1`.
pub const MODULUS: u128 = 340282366920938463463374557953744961537;

/// Number of bytes in the encoding of one element.
pub const ELEMENT_BYTES: usize = 16;

/// The characteristic as an integer.
pub open spec fn modulus() -> int {
    MODULUS as int
}

/// Whether `value` is a canonical representative: an integer from zero up
/// to, but not including, the characteristic.
pub open spec fn is_element(value: int) -> bool {
    0 <= value < modulus()
}

/// The sum of two integers as a field element.
pub open spec fn field_add(a: int, b: int) -> int {
    (a + b) % modulus()
}

/// The difference of two integers as a field element.
pub open spec fn field_sub(a: int, b: int) -> int {
    (a - b) % modulus()
}

/// The product of two integers as a field element.
pub open spec fn field_mul(a: int, b: int) -> int {
    (a * b) % modulus()
}

/// An integer raised to a power, as a field element.
pub open spec fn field_pow(a: int, e: nat) -> int {
    pow(a, e) % modulus()
}

/// The `width` lowest bytes of a natural number, least significant first.
pub open spec fn low_bytes(value: nat, width: nat) -> Seq<u8>
    decreases width,
{
    if width == 0 {
        Seq::empty()
    } else {
        seq![(value % 256) as u8] + low_bytes(value / 256, (width - 1) as nat)
    }
}

/// The fixed-width encoding of a canonical representative: its sixteen
/// bytes, least significant first.
pub open spec fn element_bytes(value: int) -> Seq<u8> {
    low_bytes(value as nat, ELEMENT_BYTES as nat)
}

/// There are as many low bytes as were asked for.
pub proof fn lemma_low_bytes_length(value: nat, width: nat)
    ensures
        low_bytes(value, width).len() == width,
    decreases width,
{
    if width > 0 {
        lemma_low_bytes_length(value / 256, (width - 1) as nat);
    }
}

/// Two numbers that fit in `width` bytes and have the same low bytes are
/// the same number.
pub proof fn lemma_low_bytes_are_injective(a: nat, b: nat, width: nat)
    requires
        a < pow(256, width),
        b < pow(256, width),
        low_bytes(a, width) == low_bytes(b, width),
    ensures
        a == b,
    decreases width,
{
    reveal(pow);
    if width > 0 {
        let rest = (width - 1) as nat;
        let head_a = seq![(a % 256) as u8];
        let head_b = seq![(b % 256) as u8];
        let tail_a = low_bytes(a / 256, rest);
        let tail_b = low_bytes(b / 256, rest);
        assert((head_a + tail_a)[0] == (head_b + tail_b)[0]);
        assert(tail_a == tail_b) by {
            assert((head_a + tail_a).subrange(1, 1 + tail_a.len() as int) == tail_a);
            assert((head_b + tail_b).subrange(1, 1 + tail_b.len() as int) == tail_b);
            lemma_low_bytes_length(a / 256, rest);
            lemma_low_bytes_length(b / 256, rest);
        }
        assert(a / 256 < pow(256, rest) && b / 256 < pow(256, rest)) by (nonlinear_arith)
            requires
                a < 256 * pow(256, rest),
                b < 256 * pow(256, rest),
        ;
        lemma_low_bytes_are_injective(a / 256, b / 256, rest);
    }
}

/// A value that differs from `x` by a multiple of the characteristic and lies
/// below it is the remainder of `x`.
proof fn lemma_remainder(x: int, multiple: int, r: int)
    requires
        0 <= r < modulus(),
        x == multiple * modulus() + r,
    ensures
        x % modulus() == r,
{
    lemma_fundamental_div_mod_converse(x, modulus(), multiple, r);
}

/// One round of multiplying by doubling: the low bit of `rest` decides
/// whether the addend joins the sum, then the addend doubles and `rest`
/// halves. The value `acc + addend * rest` keeps its remainder.
proof fn lemma_doubling_round(acc: int, addend: int, rest: int, m: int)
    requires
        m > 0,
        rest >= 0,
    ensures
        ({
            let next_acc = if rest % 2 == 1 {
                (acc + addend) % m
            } else {
                acc
            };
            (next_acc + ((addend + addend) % m) * (rest / 2)) % m == (acc + addend * rest) % m
        }),
{
    let half = rest / 2;
    let bit = rest % 2;
    let taken = if bit == 1 {
        acc + addend
    } else {
        acc
    };
    let next_acc = if bit == 1 {
        (acc + addend) % m
    } else {
        acc
    };
    let doubled = addend + addend;
    assert(next_acc % m == taken % m) by {
        if bit == 1 {
            lemma_small_mod((taken % m) as nat, m as nat);
        }
    }
    assert(((doubled % m) * half) % m == (doubled * half) % m) by {
        lemma_mul_mod_noop_left(doubled, half, m);
    }
    assert(taken + doubled * half == acc + addend * rest) by (nonlinear_arith)
        requires
            rest == 2 * half + bit,
            doubled == addend + addend,
            taken == if bit == 1 {
                acc + addend
            } else {
                acc
            },
            bit == 0 || bit == 1,
    ;
    lemma_add_mod_noop(next_acc, (doubled % m) * half, m);
    lemma_add_mod_noop(taken, doubled * half, m);
}

/// One round of raising to a power by squaring: the low bit of `rest`
/// decides whether the base joins the product, then the base is squared and
/// `rest` halves. The value `acc * base^rest` keeps its remainder.
proof fn lemma_squaring_round(acc: int, base: int, rest: nat, m: int)
    requires
        m > 0,
    ensures
        ({
            let next_acc = if rest % 2 == 1 {
                (acc * base) % m
            } else {
                acc
            };
            (next_acc * pow((base * base) % m, rest / 2)) % m == (acc * pow(base, rest)) % m
        }),
{
    let half = rest / 2;
    let bit = rest % 2;
    let taken = if bit == 1 {
        acc * base
    } else {
        acc
    };
    let next_acc = if bit == 1 {
        (acc * base) % m
    } else {
        acc
    };
    let squares = pow(base * base, half);
    assert(next_acc % m == taken % m) by {
        if bit == 1 {
            lemma_small_mod((taken % m) as nat, m as nat);
        }
    }
    assert(pow((base * base) % m, half) % m == squares % m) by {
        lemma_pow_mod_noop(base * base, half, m);
    }
    assert(squares == pow(base, 2 * half)) by {
        lemma_square_is_pow2(base);
        lemma_pow_multiplies(base, 2, half);
    }
    assert(pow(base, rest) == squares * pow(base, bit)) by {
        lemma_pow_adds(base, 2 * half, bit);
    }
    assert(taken * squares == acc * pow(base, rest)) by {
        if bit == 1 {
            lemma_pow1(base);
            assert(acc * base * squares == acc * (squares * base)) by (nonlinear_arith);
        } else {
            lemma_pow0(base);
            assert(acc * squares == acc * (squares * 1)) by (nonlinear_arith);
        }
    }
    lemma_mul_mod_noop(next_acc, pow((base * base) % m, half), m);
    lemma_mul_mod_noop(taken, squares, m);
}

/// An element of the base field.
#[derive(Clone, Copy, Debug, PartialEq, Eq, Structural)]
pub struct Felt {
    value: u128,
}

impl View for Felt {
    type V = int;

    /// The canonical representative.
    closed spec fn view(&self) -> int {
        self.value as int % modulus()
    }
}

impl Felt {
    #[verifier::type_invariant]
    spec fn canonical(self) -> bool {
        self.value < MODULUS
    }

    /// The view of an element is a canonical representative.
    pub proof fn lemma_view_is_element(self)
        ensures
            is_element(self@),
    {
        lemma_mod_bound(self.value as int, modulus());
    }

    /// An element that holds a value below the characteristic has that
    /// value as its view.
    proof fn lemma_view_of_canonical(self)
        requires
            self.value < MODULUS,
        ensures
            self@ == self.value as int,
    {
        lemma_small_mod(self.value as nat, modulus() as nat);
    }

    /// The element that `value` stands for; a value at or above the
    /// characteristic is reduced.
    pub fn new(value: u128) -> (e: Felt)
        ensures
            e@ == value as int % modulus(),
            value < MODULUS ==> e@ == value as int,
    {
        let e = if value < MODULUS {
            Felt { value }
        } else {
            Felt { value: value - MODULUS }
        };
        proof {
            e.lemma_view_of_canonical();
            let wraps: int = if value < MODULUS {
                0
            } else {
                1
            };
            lemma_remainder(value as int, wraps, e.value as int);
        }
        e
    }

    /// The canonical representative, always below the characteristic.
    pub fn as_int(&self) -> (value: u128)
        ensures
            value as int == self@,
            is_element(self@),
    {
        proof {
            use_type_invariant(self);
            self.lemma_view_of_canonical();
        }
        self.value
    }

    /// Field addition.
    pub fn add(self, rhs: Felt) -> (sum: Felt)
        ensures
            sum@ == field_add(self@, rhs@),
    {
        proof {
            use_type_invariant(self);
            use_type_invariant(rhs);
            self.lemma_view_of_canonical();
            rhs.lemma_view_of_canonical();
        }
        let gap: u128 = MODULUS - rhs.value;
        let sum = if self.value < gap {
            Felt { value: self.value + rhs.value }
        } else {
            Felt { value: self.value - gap }
        };
        proof {
            sum.lemma_view_of_canonical();
            let wraps: int = if self.value < gap {
                0
            } else {
                1
            };
            lemma_remainder(self@ + rhs@, wraps, sum.value as int);
        }
        sum
    }

    /// Field subtraction.
    pub fn sub(self, rhs: Felt) -> (difference: Felt)
        ensures
            difference@ == field_sub(self@, rhs@),
    {
        proof {
            use_type_invariant(self);
            use_type_invariant(rhs);
            self.lemma_view_of_canonical();
            rhs.lemma_view_of_canonical();
        }
        let difference = if self.value < rhs.value {
            Felt { value: MODULUS - rhs.value + self.value }
        } else {
            Felt { value: self.value - rhs.value }
        };
        proof {
            difference.lemma_view_of_canonical();
            let wraps: int = if self.value < rhs.value {
                -1
            } else {
                0
            };
            lemma_remainder(self@ - rhs@, wraps, difference.value as int);
        }
        difference
    }

    /// Field multiplication, by doubling.
    pub fn mul(self, rhs: Felt) -> (product: Felt)
        ensures
            product@ == field_mul(self@, rhs@),
    {
        proof {
            use_type_invariant(rhs);
            rhs.lemma_view_of_canonical();
        }
        let mut acc = Felt::new(0);
        let mut addend = self;
        let mut rest: u128 = rhs.value;
        while rest > 0
            invariant
                (acc@ + addend@ * rest) % modulus() == (self@ * rhs@) % modulus(),
            decreases rest,
        {
            proof {
                lemma_doubling_round(acc@, addend@, rest as int, modulus());
            }
            if rest % 2 == 1 {
                acc = acc.add(addend);
            }
            addend = addend.add(addend);
            rest = rest / 2;
        }
        proof {
            acc.lemma_view_is_element();
            lemma_small_mod(acc@ as nat, modulus() as nat);
        }
        acc
    }

    /// Field exponentiation, by squaring. Any element to the power zero is
    /// one.
    pub fn exp(self, power: u128) -> (result: Felt)
        ensures
            result@ == field_pow(self@, power as nat),
    {
        let mut acc = Felt::new(1);
        let mut base = self;
        let mut rest: u128 = power;
        while rest > 0
            invariant
                (acc@ * pow(base@, rest as nat)) % modulus() == pow(self@, power as nat)
                    % modulus(),
            decreases rest,
        {
            proof {
                lemma_squaring_round(acc@, base@, rest as nat, modulus());
            }
            if rest % 2 == 1 {
                acc = acc.mul(base);
            }
            base = base.mul(base);
            rest = rest / 2;
        }
        proof {
            acc.lemma_view_is_element();
            lemma_pow0(base@);
            lemma_small_mod(acc@ as nat, modulus() as nat);
        }
        acc
    }

    /// Appends the element's fixed-width encoding to `target`.
    pub fn write_into(&self, target: &mut Vec<u8>)
        ensures
            final(target)@ == old(target)@ + element_bytes(self@),
    {
        proof {
            use_type_invariant(self);
            self.lemma_view_of_canonical();
        }
        let mut rest: u128 = self.value;
        let mut written: usize = 0;
        while written < ELEMENT_BYTES
            invariant
                written <= ELEMENT_BYTES,
                target@ + low_bytes(rest as nat, (ELEMENT_BYTES - written) as nat) == old(
                    target,
                )@ + element_bytes(self@),
            decreases ELEMENT_BYTES - written,
        {
            let byte = (rest % 256) as u8;
            proof {
                let left = (ELEMENT_BYTES - written - 1) as nat;
                let tail = low_bytes(rest as nat / 256, left);
                assert(target@.push(byte) + tail == target@ + (seq![byte] + tail));
            }
            target.push(byte);
            rest = rest / 256;
            written = written + 1;
        }
        assert(target@ + Seq::<u8>::empty() == target@);
    }
}

} // verus!
