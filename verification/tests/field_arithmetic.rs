use incrementer::field::{Felt, ELEMENT_BYTES, MODULUS};
use winterfell::math::fields::f128::BaseElement;
use winterfell::math::{FieldElement, StarkField};
use winterfell::Serializable;

const SAMPLE: u128 = 12345678901234567890123456789012345678;

#[test]
fn modulus_is_the_engine_modulus() {
    assert_eq!(MODULUS, 340282366920938463463374557953744961537);
    assert_eq!(MODULUS, BaseElement::MODULUS);
    assert_eq!(MODULUS, (1u128 << 127) - 45 * (1u128 << 40) + (1u128 << 127) + 1);
}

#[test]
fn new_keeps_canonical_values() {
    assert_eq!(Felt::new(0).as_int(), 0);
    assert_eq!(Felt::new(42).as_int(), 42);
    assert_eq!(Felt::new(MODULUS - 1).as_int(), MODULUS - 1);
}

#[test]
fn new_reduces_values_at_or_above_the_modulus() {
    assert_eq!(Felt::new(MODULUS).as_int(), 0);
    assert_eq!(Felt::new(MODULUS + 7).as_int(), 7);
    assert_eq!(Felt::new(u128::MAX).as_int(), 49478023249918);
    assert_eq!(Felt::new(u128::MAX).as_int(), BaseElement::new(u128::MAX).as_int());
}

#[test]
fn addition_of_small_values() {
    assert_eq!(Felt::new(3).add(Felt::new(4)).as_int(), 7);
    assert_eq!(Felt::new(0).add(Felt::new(0)).as_int(), 0);
}

#[test]
fn addition_wraps_at_the_modulus() {
    let a = Felt::new(MODULUS - 1);
    assert_eq!(a.add(Felt::new(1)).as_int(), 0);
    assert_eq!(a.add(Felt::new(5)).as_int(), 4);
    assert_eq!(a.add(a).as_int(), MODULUS - 2);
}

#[test]
fn subtraction_wraps_below_zero() {
    assert_eq!(Felt::new(7).sub(Felt::new(5)).as_int(), 2);
    assert_eq!(Felt::new(5).sub(Felt::new(7)).as_int(), 340282366920938463463374557953744961535);
    assert_eq!(Felt::new(0).sub(Felt::new(MODULUS - 1)).as_int(), 1);
    assert_eq!(Felt::new(9).sub(Felt::new(9)).as_int(), 0);
}

#[test]
fn multiplication_reduces_the_product() {
    assert_eq!(Felt::new(6).mul(Felt::new(7)).as_int(), 42);
    assert_eq!(Felt::new(SAMPLE).mul(Felt::new(0)).as_int(), 0);
    assert_eq!(Felt::new(SAMPLE).mul(Felt::new(1)).as_int(), SAMPLE);
    let minus_one = Felt::new(MODULUS - 1);
    assert_eq!(minus_one.mul(minus_one).as_int(), 1);
    assert_eq!(
        Felt::new(SAMPLE).mul(Felt::new(SAMPLE)).as_int(),
        75343432840449872220682348310751576645
    );
}

#[test]
fn exponentiation_reduces_the_power() {
    assert_eq!(Felt::new(3).exp(3).as_int(), 27);
    assert_eq!(Felt::new(2).exp(200).as_int(), 233653358634062520917389465169690624);
    assert_eq!(
        Felt::new(123456789012345678901234567890).exp(3).as_int(),
        128392089442153848390516711770898383391
    );
}

#[test]
fn exponentiation_edge_powers() {
    assert_eq!(Felt::new(0).exp(0).as_int(), 1);
    assert_eq!(Felt::new(SAMPLE).exp(0).as_int(), 1);
    assert_eq!(Felt::new(SAMPLE).exp(1).as_int(), SAMPLE);
    assert_eq!(Felt::new(0).exp(5).as_int(), 0);
    assert_eq!(Felt::new(SAMPLE).exp(MODULUS - 1).as_int(), 1);
}

#[test]
fn arithmetic_agrees_with_the_engine_field() {
    let values = [0u128, 1, 2, 42, SAMPLE, MODULUS - 2, MODULUS - 1, 1u128 << 64, (1u128 << 127) + 12345];
    for &a in values.iter() {
        for &b in values.iter() {
            let (x, y) = (Felt::new(a), Felt::new(b));
            let (ex, ey) = (BaseElement::new(a), BaseElement::new(b));
            assert_eq!(x.add(y).as_int(), (ex + ey).as_int());
            assert_eq!(x.sub(y).as_int(), (ex - ey).as_int());
            assert_eq!(x.mul(y).as_int(), (ex * ey).as_int());
        }
        for &power in [0u128, 1, 2, 3, 77, u128::MAX].iter() {
            assert_eq!(Felt::new(a).exp(power).as_int(), BaseElement::new(a).exp(power).as_int());
        }
    }
}

#[test]
fn element_is_written_least_significant_byte_first() {
    let mut target = vec![0xaa, 0xbb];
    Felt::new(0x0102030405060708090a0b0c0d0e0f10).write_into(&mut target);
    assert_eq!(
        target,
        vec![0xaa, 0xbb, 16, 15, 14, 13, 12, 11, 10, 9, 8, 7, 6, 5, 4, 3, 2, 1]
    );
    assert_eq!(target.len(), 2 + ELEMENT_BYTES);
}

#[test]
fn element_bytes_agree_with_the_engine_field() {
    for &value in [0u128, 3, SAMPLE, MODULUS - 1].iter() {
        let mut target = Vec::new();
        Felt::new(value).write_into(&mut target);
        assert_eq!(target, BaseElement::new(value).to_bytes());
    }
}
