//! Reading a stored speed answer: the text of the `rpm` column, parsed as a
//! decimal `i32` by the rules of the standard library's integer parsing.
use vstd::prelude::*;
use vstd::string::StringSliceAdditionalSpecFns;

verus! {

/// Why a text is not a decimal `i32`.
#[derive(Clone, Copy, Debug, PartialEq, Eq, Structural)]
pub enum IntParseError {
    /// The text is empty.
    Empty,
    /// A character is not a decimal digit, or there is a sign and no digit.
    InvalidDigit,
    /// The number is larger than `i32::MAX`.
    PosOverflow,
    /// The number is smaller than `i32::MIN`.
    NegOverflow,
}

/// Why no speed was read for a distance.
#[derive(Clone, Copy, Debug, PartialEq, Eq, Structural)]
pub enum DistanceLookupError {
    /// No row was stored for the distance.
    NoData,
    /// The stored text is not a decimal `i32`.
    InvalidRpm(IntParseError),
}

/// An ASCII decimal digit.
pub open spec fn is_digit(b: u8) -> bool {
    0x30 <= b <= 0x39
}

/// Reads the digits `ds` from left to right, the value growing away from zero:
/// upwards, or downwards when `negative`. The first character that is not a
/// digit, or the first digit that takes the value out of the `i32` range,
/// decides the error.
pub open spec fn spec_accumulate(ds: Seq<u8>, negative: bool) -> Result<i32, IntParseError>
    decreases ds.len(),
{
    if ds.len() == 0 {
        Ok(0i32)
    } else {
        match spec_accumulate(ds.drop_last(), negative) {
            Err(e) => Err(e),
            Ok(v) => {
                if !is_digit(ds.last()) {
                    Err(IntParseError::InvalidDigit)
                } else {
                    let d = ds.last() - 0x30;
                    if negative {
                        let w = v * 10 - d;
                        if w < i32::MIN {
                            Err(IntParseError::NegOverflow)
                        } else {
                            Ok(w as i32)
                        }
                    } else {
                        let w = v * 10 + d;
                        if w > i32::MAX {
                            Err(IntParseError::PosOverflow)
                        } else {
                            Ok(w as i32)
                        }
                    }
                }
            },
        }
    }
}

/// The decimal `i32` written by `bytes`: an optional `+` or `-` and then at
/// least one digit.
pub open spec fn spec_parse_i32(bytes: Seq<u8>) -> Result<i32, IntParseError> {
    if bytes.len() == 0 {
        Err(IntParseError::Empty)
    } else if bytes.len() == 1 && (bytes[0] == 0x2B || bytes[0] == 0x2D) {
        Err(IntParseError::InvalidDigit)
    } else if bytes[0] == 0x2B {
        spec_accumulate(bytes.drop_first(), false)
    } else if bytes[0] == 0x2D {
        spec_accumulate(bytes.drop_first(), true)
    } else {
        spec_accumulate(bytes, false)
    }
}

/// An error met on a prefix of the digits stays the error of the whole.
proof fn lemma_error_persists(ds: Seq<u8>, k: int, negative: bool)
    requires
        0 <= k <= ds.len(),
        spec_accumulate(ds.take(k), negative) is Err,
    ensures
        spec_accumulate(ds, negative) == spec_accumulate(ds.take(k), negative),
    decreases ds.len() - k,
{
    if k < ds.len() {
        assert(ds.take(k + 1).drop_last() =~= ds.take(k));
        lemma_error_persists(ds, k + 1, negative);
    } else {
        assert(ds.take(k) =~= ds);
    }
}

/// Ten to the power `n`.
pub open spec fn pow10(n: nat) -> nat
    decreases n,
{
    if n == 0 {
        1
    } else {
        10 * pow10((n - 1) as nat)
    }
}

/// Every byte of `ds` is a decimal digit.
pub open spec fn all_digits(ds: Seq<u8>) -> bool {
    forall|k: int| 0 <= k < ds.len() ==> is_digit(#[trigger] ds[k])
}

/// The number that the digits `ds` write: the sum of each digit times ten to
/// the power of the number of digits after it.
pub open spec fn decimal_value(ds: Seq<u8>) -> int
    decreases ds.len(),
{
    if ds.len() == 0 {
        0
    } else {
        (ds[0] - 0x30) * pow10((ds.len() - 1) as nat) + decimal_value(ds.drop_first())
    }
}

proof fn lemma_decimal_value_nonnegative(ds: Seq<u8>)
    requires
        all_digits(ds),
    ensures
        decimal_value(ds) >= 0,
    decreases ds.len(),
{
    if ds.len() > 0 {
        assert(is_digit(ds[0]));
        assert(all_digits(ds.drop_first())) by {
            assert forall|k: int| 0 <= k < ds.drop_first().len() implies is_digit(
                #[trigger] ds.drop_first()[k],
            ) by {
                assert(ds.drop_first()[k] == ds[k + 1]);
            }
        }
        lemma_decimal_value_nonnegative(ds.drop_first());
        let p = pow10((ds.len() - 1) as nat);
        let d = ds[0] - 0x30;
        assert(d * p >= 0) by (nonlinear_arith)
            requires
                d >= 0,
                p >= 0,
        ;
    }
}

/// Writing one more digit after a number multiplies it by ten and adds the digit.
pub proof fn lemma_decimal_value_push(ds: Seq<u8>, c: u8)
    ensures
        decimal_value(ds.push(c)) == 10 * decimal_value(ds) + (c - 0x30),
    decreases ds.len(),
{
    let e = ds.push(c);
    if ds.len() == 0 {
        assert(e.drop_first() =~= Seq::<u8>::empty());
        assert(decimal_value(Seq::<u8>::empty()) == 0);
        assert(pow10(0) == 1);
        assert(e[0] == c);
        assert(decimal_value(e) == (c - 0x30) * pow10(0) + decimal_value(e.drop_first()));
    } else {
        let n = ds.len();
        assert(e.drop_first() =~= ds.drop_first().push(c));
        lemma_decimal_value_push(ds.drop_first(), c);
        let d = ds[0] - 0x30;
        let p = pow10((n - 1) as nat);
        assert(pow10(n as nat) == 10 * p);
        assert(d * (10 * p) == 10 * (d * p)) by (nonlinear_arith);
        assert(e[0] == ds[0]);
        assert(decimal_value(e) == d * pow10(n as nat) + decimal_value(e.drop_first()));
        assert(decimal_value(ds) == d * p + decimal_value(ds.drop_first()));
    }
}

/// The digits `ds` read from left to right give their decimal value, or the
/// overflow error when that value does not fit in an `i32`; read as the digits
/// of a negative number, they give the negated value, or the negative
/// overflow error.
pub proof fn lemma_accumulate_digits(ds: Seq<u8>)
    requires
        all_digits(ds),
    ensures
        spec_accumulate(ds, false) == (if decimal_value(ds) <= i32::MAX {
            Ok::<i32, IntParseError>(decimal_value(ds) as i32)
        } else {
            Err::<i32, IntParseError>(IntParseError::PosOverflow)
        }),
        spec_accumulate(ds, true) == (if -decimal_value(ds) >= i32::MIN {
            Ok::<i32, IntParseError>((-decimal_value(ds)) as i32)
        } else {
            Err::<i32, IntParseError>(IntParseError::NegOverflow)
        }),
    decreases ds.len(),
{
    if ds.len() > 0 {
        let p = ds.drop_last();
        let c = ds.last();
        assert(all_digits(p)) by {
            assert forall|k: int| 0 <= k < p.len() implies is_digit(#[trigger] p[k]) by {
                assert(p[k] == ds[k]);
            }
        }
        assert(is_digit(c));
        lemma_accumulate_digits(p);
        lemma_decimal_value_nonnegative(p);
        assert(p.push(c) =~= ds);
        lemma_decimal_value_push(p, c);
    }
}

/// A digit text parses to its decimal value, with or without a `+`, and to the
/// negated value after a `-`; values out of the `i32` range give the overflow
/// error of their sign.
pub proof fn lemma_parse_decimal(ds: Seq<u8>)
    requires
        ds.len() > 0,
        all_digits(ds),
    ensures
        spec_parse_i32(ds) == (if decimal_value(ds) <= i32::MAX {
            Ok::<i32, IntParseError>(decimal_value(ds) as i32)
        } else {
            Err::<i32, IntParseError>(IntParseError::PosOverflow)
        }),
        spec_parse_i32(seq![0x2Bu8] + ds) == spec_parse_i32(ds),
        spec_parse_i32(seq![0x2Du8] + ds) == (if -decimal_value(ds) >= i32::MIN {
            Ok::<i32, IntParseError>((-decimal_value(ds)) as i32)
        } else {
            Err::<i32, IntParseError>(IntParseError::NegOverflow)
        }),
{
    lemma_accumulate_digits(ds);
    assert(is_digit(ds[0]));
    assert((seq![0x2Bu8] + ds).drop_first() =~= ds);
    assert((seq![0x2Du8] + ds).drop_first() =~= ds);
    assert((seq![0x2Bu8] + ds)[0] == 0x2B);
    assert((seq![0x2Du8] + ds)[0] == 0x2D);
}

/// A text with a byte that is not a digit after its sign parses to no number.
pub proof fn lemma_non_digit_fails(ds: Seq<u8>, negative: bool, k: int)
    requires
        0 <= k < ds.len(),
        !is_digit(ds[k]),
    ensures
        spec_accumulate(ds, negative) is Err,
    decreases ds.len(),
{
    if k == ds.len() - 1 {
    } else {
        assert(ds.drop_last()[k] == ds[k]);
        lemma_non_digit_fails(ds.drop_last(), negative, k);
    }
}

/// Parses the digits `bytes[start..]`.
fn accumulate(bytes: &[u8], start: usize, negative: bool) -> (r: Result<i32, IntParseError>)
    requires
        start <= bytes@.len(),
    ensures
        r == spec_accumulate(bytes@.subrange(start as int, bytes@.len() as int), negative),
{
    let n = bytes.len();
    let ghost ds = bytes@.subrange(start as int, n as int);
    let mut value: i32 = 0;
    let mut i: usize = start;
    while i < n
        invariant
            n == bytes@.len(),
            start <= i <= n,
            ds == bytes@.subrange(start as int, n as int),
            spec_accumulate(ds.take(i - start), negative) == Ok::<i32, IntParseError>(value),
            negative ==> value <= 0,
            !negative ==> value >= 0,
        decreases n - i,
    {
        let b = bytes[i];
        assert(ds.take(i + 1 - start).drop_last() =~= ds.take(i - start));
        assert(ds.take(i + 1 - start).last() == b);
        if b < 0x30 || b > 0x39 {
            proof {
                lemma_error_persists(ds, i + 1 - start, negative);
            }
            return Err(IntParseError::InvalidDigit);
        }
        let digit: i64 = (b - 0x30) as i64;
        let wide: i64 = value as i64;
        if negative {
            let w: i64 = wide * 10 - digit;
            if w < i32::MIN as i64 {
                proof {
                    lemma_error_persists(ds, i + 1 - start, negative);
                }
                return Err(IntParseError::NegOverflow);
            }
            value = w as i32;
        } else {
            let w: i64 = wide * 10 + digit;
            if w > i32::MAX as i64 {
                proof {
                    lemma_error_persists(ds, i + 1 - start, negative);
                }
                return Err(IntParseError::PosOverflow);
            }
            value = w as i32;
        }
        i = i + 1;
    }
    assert(ds.take(n - start) =~= ds);
    Ok(value)
}

/// Parses `text` as a decimal `i32`, as `str::parse::<i32>` does.
pub fn parse_rpm(text: &str) -> (r: Result<i32, IntParseError>)
    ensures
        r == spec_parse_i32(text.spec_bytes()),
{
    let bytes = text.as_bytes();
    let n = bytes.len();
    if n == 0 {
        return Err(IntParseError::Empty);
    }
    let first = bytes[0];
    if n == 1 && (first == 0x2B || first == 0x2D) {
        return Err(IntParseError::InvalidDigit);
    }
    if first == 0x2B {
        assert(bytes@.subrange(1, n as int) =~= bytes@.drop_first());
        accumulate(bytes, 1, false)
    } else if first == 0x2D {
        assert(bytes@.subrange(1, n as int) =~= bytes@.drop_first());
        accumulate(bytes, 1, true)
    } else {
        assert(bytes@.subrange(0, n as int) =~= bytes@);
        accumulate(bytes, 0, false)
    }
}

/// The speed stored for a distance, from the `rpm` text of the row found, if
/// any: `NoData` when no row was found, and the parse error when the text is
/// not a decimal `i32`.
pub fn rpm_from_response(rpm: Option<&str>) -> (r: Result<i32, DistanceLookupError>)
    ensures
        match rpm {
            None => r == Err::<i32, DistanceLookupError>(DistanceLookupError::NoData),
            Some(text) => match spec_parse_i32(text.spec_bytes()) {
                Ok(v) => r == Ok::<i32, DistanceLookupError>(v),
                Err(e) => r == Err::<i32, DistanceLookupError>(DistanceLookupError::InvalidRpm(e)),
            },
        },
{
    match rpm {
        None => Err(DistanceLookupError::NoData),
        Some(text) => match parse_rpm(text) {
            Ok(v) => Ok(v),
            Err(e) => Err(DistanceLookupError::InvalidRpm(e)),
        },
    }
}

} // verus!
