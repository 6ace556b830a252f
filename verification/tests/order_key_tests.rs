use shooter_compute::order_key::{difference_is_zero, is_nan, key_eq, key_le, key_lt};
use shooter_compute::order_key::{bits_of_key, key_of_bits, minus_one_key, MINUS_ONE_BITS};

#[test]
fn key_of_positive_one() {
    assert_eq!(key_of_bits(1.0f32.to_bits()), 0x3F80_0000);
}

#[test]
fn key_of_minus_one() {
    assert_eq!(key_of_bits((-1.0f32).to_bits()), -0x3F80_0000);
    assert_eq!(minus_one_key(), -0x3F80_0000);
    assert_eq!(MINUS_ONE_BITS, (-1.0f32).to_bits());
}

#[test]
fn both_zeros_have_key_zero() {
    assert_eq!(key_of_bits(0.0f32.to_bits()), 0);
    assert_eq!(key_of_bits((-0.0f32).to_bits()), 0);
}

#[test]
fn keys_order_as_floats() {
    let values = [-1.0e30f32, -3.5, -1.0, -0.25, 0.0, 1.0e-30, 0.5, 2.0, 7.25, 1.0e30];
    for i in 0..values.len() {
        for j in 0..values.len() {
            let a = key_of_bits(values[i].to_bits());
            let b = key_of_bits(values[j].to_bits());
            assert_eq!(a < b, values[i] < values[j]);
            assert_eq!(a == b, values[i] == values[j]);
        }
    }
}

#[test]
fn keys_turn_back_into_the_same_float() {
    for v in [-123.5f32, -1.0, 0.0, 0.125, 42.0, f32::MAX, f32::MIN, f32::INFINITY] {
        let key = key_of_bits(v.to_bits());
        assert_eq!(f32::from_bits(bits_of_key(key)), v);
    }
}

#[test]
fn negative_zero_comes_back_positive() {
    let key = key_of_bits((-0.0f32).to_bits());
    assert_eq!(bits_of_key(key), 0);
}

#[test]
fn sequences_of_keys() {
    let values = [0.0f32, -2.5, 10.0];
    let bits: Vec<u32> = values.iter().map(|v| v.to_bits()).collect();
    let keys = shooter_compute::order_key::keys_of_bits(&bits);
    assert_eq!(keys, vec![0, -0x4020_0000, 0x4120_0000]);
    let back = shooter_compute::order_key::bits_of_keys(&keys);
    assert_eq!(back, bits);
}

#[test]
fn empty_sequences() {
    assert!(shooter_compute::order_key::keys_of_bits(&vec![]).is_empty());
    assert!(shooter_compute::order_key::bits_of_keys(&vec![]).is_empty());
}

#[test]
fn comparisons_follow_floats() {
    let values = [f32::NEG_INFINITY, -3.5, -0.0, 0.0, 1.0e-30, 2.0, f32::INFINITY, f32::NAN, -f32::NAN];
    for a in values {
        for b in values {
            let (ka, kb) = (key_of_bits(a.to_bits()), key_of_bits(b.to_bits()));
            assert_eq!(key_lt(ka, kb), a < b, "{} < {}", a, b);
            assert_eq!(key_le(ka, kb), a <= b, "{} <= {}", a, b);
            assert_eq!(key_eq(ka, kb), a == b, "{} == {}", a, b);
            assert_eq!(difference_is_zero(ka, kb), a - b == 0.0, "{} - {}", a, b);
        }
        assert_eq!(is_nan(key_of_bits(a.to_bits())), a.is_nan());
    }
}
