//! Order keys: integers that stand for `f32` values.
//!
//! The key of a float is taken from its IEEE-754 bit pattern read as a
//! sign-magnitude number: the magnitude bits give the size and the sign bit
//! the sign. For every float that is not NaN, keys order as the floats do,
//! and both zeros have the key `0`. A NaN has a key of magnitude above that
//! of the infinities; the comparisons below treat such keys as the float
//! comparisons treat NaN: every comparison with one is false.
use vstd::prelude::*;

verus! {

/// The largest magnitude part of a bit pattern.
pub const MAGNITUDE_MAX: i64 = 0x7FFF_FFFF;

/// The magnitude of the keys of the infinities.
pub const INFINITY_MAGNITUDE: i64 = 0x7F80_0000;

/// The bit pattern of the `f32` value `-1.0`.
pub const MINUS_ONE_BITS: u32 = 0xBF80_0000;

/// The key of the bit pattern `bits`.
pub open spec fn spec_key_of_bits(bits: u32) -> int {
    if bits >= 0x8000_0000 {
        -(bits - 0x8000_0000)
    } else {
        bits as int
    }
}

/// A value that is the key of some bit pattern.
pub open spec fn is_key(key: int) -> bool {
    -MAGNITUDE_MAX <= key <= MAGNITUDE_MAX
}

/// The key of a NaN.
pub open spec fn spec_is_nan(key: i64) -> bool {
    key > INFINITY_MAGNITUDE || key < -INFINITY_MAGNITUDE
}

/// The key of a finite float.
pub open spec fn spec_is_finite(key: i64) -> bool {
    -INFINITY_MAGNITUDE < key < INFINITY_MAGNITUDE
}

/// `a < b` of the floats with keys `a` and `b`.
pub open spec fn spec_lt(a: i64, b: i64) -> bool {
    !spec_is_nan(a) && !spec_is_nan(b) && a < b
}

/// `a <= b` of the floats with keys `a` and `b`.
pub open spec fn spec_le(a: i64, b: i64) -> bool {
    !spec_is_nan(a) && !spec_is_nan(b) && a <= b
}

/// `a == b` of the floats with keys `a` and `b`.
pub open spec fn spec_eq(a: i64, b: i64) -> bool {
    !spec_is_nan(a) && !spec_is_nan(b) && a == b
}

/// `a - b == 0` of the floats with keys `a` and `b`: the floats are equal and
/// finite (the difference of two equal infinities is NaN).
pub open spec fn spec_difference_is_zero(a: i64, b: i64) -> bool {
    spec_is_finite(a) && a == b
}

/// Whether `key` is the key of a NaN.
pub fn is_nan(key: i64) -> (r: bool)
    ensures
        r == spec_is_nan(key),
{
    key > INFINITY_MAGNITUDE || key < -INFINITY_MAGNITUDE
}

/// Compares two floats, given by their keys, as `<` does.
pub fn key_lt(a: i64, b: i64) -> (r: bool)
    ensures
        r == spec_lt(a, b),
{
    !is_nan(a) && !is_nan(b) && a < b
}

/// Compares two floats, given by their keys, as `<=` does.
pub fn key_le(a: i64, b: i64) -> (r: bool)
    ensures
        r == spec_le(a, b),
{
    !is_nan(a) && !is_nan(b) && a <= b
}

/// Compares two floats, given by their keys, as `==` does.
pub fn key_eq(a: i64, b: i64) -> (r: bool)
    ensures
        r == spec_eq(a, b),
{
    !is_nan(a) && !is_nan(b) && a == b
}

/// Whether the difference of two floats, given by their keys, is zero.
pub fn difference_is_zero(a: i64, b: i64) -> (r: bool)
    ensures
        r == spec_difference_is_zero(a, b),
{
    -INFINITY_MAGNITUDE < a && a < INFINITY_MAGNITUDE && a == b
}

/// The bit pattern that a key is turned back into: the positive zero for `0`.
pub open spec fn spec_bits_of_key(key: int) -> int {
    if key < 0 {
        0x8000_0000 - key
    } else {
        key
    }
}

/// Reads the bit pattern of a float as its order key.
pub fn key_of_bits(bits: u32) -> (key: i64)
    ensures
        key == spec_key_of_bits(bits),
        is_key(key as int),
{
    if bits >= 0x8000_0000 {
        let magnitude: u32 = bits - 0x8000_0000;
        -(magnitude as i64)
    } else {
        bits as i64
    }
}

/// Turns an order key back into a bit pattern.
pub fn bits_of_key(key: i64) -> (bits: u32)
    requires
        is_key(key as int),
    ensures
        bits == spec_bits_of_key(key as int),
{
    if key < 0 {
        let magnitude: i64 = -key;
        0x8000_0000u32 + (magnitude as u32)
    } else {
        key as u32
    }
}

/// Reads a sequence of bit patterns as order keys.
pub fn keys_of_bits(bits: &Vec<u32>) -> (keys: Vec<i64>)
    ensures
        keys@.len() == bits@.len(),
        forall|i: int| 0 <= i < bits@.len() ==> keys@[i] == spec_key_of_bits(#[trigger] bits@[i]),
{
    let mut keys: Vec<i64> = Vec::new();
    let mut i: usize = 0;
    while i < bits.len()
        invariant
            0 <= i <= bits@.len(),
            keys@.len() == i,
            forall|k: int| 0 <= k < i ==> keys@[k] == spec_key_of_bits(#[trigger] bits@[k]),
        decreases bits@.len() - i,
    {
        keys.push(key_of_bits(bits[i]));
        i = i + 1;
    }
    keys
}

/// Turns a sequence of order keys back into bit patterns.
pub fn bits_of_keys(keys: &Vec<i64>) -> (bits: Vec<u32>)
    requires
        forall|i: int| 0 <= i < keys@.len() ==> is_key(#[trigger] keys@[i] as int),
    ensures
        bits@.len() == keys@.len(),
        forall|i: int| 0 <= i < keys@.len() ==> bits@[i] == spec_bits_of_key(#[trigger] keys@[i] as int),
{
    let mut bits: Vec<u32> = Vec::new();
    let mut i: usize = 0;
    while i < keys.len()
        invariant
            0 <= i <= keys@.len(),
            bits@.len() == i,
            forall|k: int| 0 <= k < keys@.len() ==> is_key(#[trigger] keys@[k] as int),
            forall|k: int| 0 <= k < i ==> bits@[k] == spec_bits_of_key(#[trigger] keys@[k] as int),
        decreases keys@.len() - i,
    {
        bits.push(bits_of_key(keys[i]));
        i = i + 1;
    }
    bits
}

/// The key of `-1.0`.
pub fn minus_one_key() -> (key: i64)
    ensures
        key == spec_key_of_bits(MINUS_ONE_BITS),
        key == -0x3F80_0000,
{
    key_of_bits(MINUS_ONE_BITS)
}

/// A key turned back into bits reads as the same key.
pub proof fn lemma_key_round_trip(key: int)
    requires
        is_key(key),
    ensures
        0 <= spec_bits_of_key(key) <= u32::MAX,
        spec_key_of_bits(spec_bits_of_key(key) as u32) == key,
{
}

/// A bit pattern read as a key and turned back gives the same bits, except the
/// negative zero, which comes back as the positive zero.
pub proof fn lemma_bits_round_trip(bits: u32)
    ensures
        bits != 0x8000_0000u32 ==> spec_bits_of_key(spec_key_of_bits(bits)) == bits,
        bits == 0x8000_0000u32 ==> spec_bits_of_key(spec_key_of_bits(bits)) == 0,
{
}

/// The keys of two bit patterns are equal exactly when the patterns are, or when
/// both are zeros.
pub proof fn lemma_key_equality(a: u32, b: u32)
    ensures
        (spec_key_of_bits(a) == spec_key_of_bits(b)) <==> (a == b || (a % 0x8000_0000 == 0
            && b % 0x8000_0000 == 0)),
{
}

/// The magnitude bits of a bit pattern.
pub open spec fn magnitude(bits: u32) -> int {
    if bits >= 0x8000_0000 {
        bits - 0x8000_0000
    } else {
        bits as int
    }
}

/// The sign bit of a bit pattern.
pub open spec fn negative(bits: u32) -> bool {
    bits >= 0x8000_0000
}

/// The bit pattern of a NaN: all exponent bits set and a fraction.
pub open spec fn bits_are_nan(bits: u32) -> bool {
    magnitude(bits) > 0x7F80_0000
}

/// The IEEE-754 `<` on two bit patterns: NaN is below and above nothing,
/// positive patterns order by their bits, negative ones the other way round,
/// every negative number lies below every positive one, and the two zeros
/// are not below one another.
pub open spec fn ieee_lt(a: u32, b: u32) -> bool {
    if bits_are_nan(a) || bits_are_nan(b) {
        false
    } else if !negative(a) && !negative(b) {
        a < b
    } else if negative(a) && negative(b) {
        magnitude(a) > magnitude(b)
    } else if negative(a) {
        !(magnitude(a) == 0 && magnitude(b) == 0)
    } else {
        false
    }
}

/// The IEEE-754 `==` on two bit patterns: NaN equals nothing, the two zeros
/// are equal, and otherwise the patterns must be the same.
pub open spec fn ieee_eq(a: u32, b: u32) -> bool {
    !bits_are_nan(a) && !bits_are_nan(b) && (a == b || (magnitude(a) == 0 && magnitude(b) == 0))
}

/// The key comparisons are the float comparisons of the bit patterns.
pub proof fn lemma_key_comparisons_are_float_comparisons(a: u32, b: u32)
    ensures
        spec_lt(spec_key_of_bits(a) as i64, spec_key_of_bits(b) as i64) == ieee_lt(a, b),
        spec_eq(spec_key_of_bits(a) as i64, spec_key_of_bits(b) as i64) == ieee_eq(a, b),
        spec_le(spec_key_of_bits(a) as i64, spec_key_of_bits(b) as i64) == (ieee_lt(a, b)
            || ieee_eq(a, b)),
        spec_is_nan(spec_key_of_bits(a) as i64) == bits_are_nan(a),
{
}

} // verus!
