use lb_quote::errors::QuoteError;
use lb_quote::math::{
    div_rem_u256, mul_u256, safe_mul_div_cast, safe_mul_shr_cast, safe_shl_div_cast, Rounding,
};
use lb_quote::price::get_price_from_id;

const ONE: u128 = 1u128 << 64;

#[test]
fn mul_u256_squares_a_wide_value() {
    let a = ONE + 1;
    let p = mul_u256(a, a);
    // (2^64 + 1)^2 == 2^128 + 2^65 + 1
    assert_eq!(p.hi, 1);
    assert_eq!(p.lo, (1u128 << 65) + 1);
}

#[test]
fn mul_u256_small_values() {
    let p = mul_u256(12345, 6789);
    assert_eq!(p.hi, 0);
    assert_eq!(p.lo, 12345 * 6789);
}

#[test]
fn div_rem_u256_splits_quotient_and_remainder() {
    let v = mul_u256(ONE + 1, ONE + 1);
    let (q, rem) = div_rem_u256(v, 2).unwrap();
    // (2^128 + 2^65 + 1) / 2
    assert_eq!(q, (1u128 << 127) + (1u128 << 64));
    assert_eq!(rem, 1);
}

#[test]
fn div_rem_u256_rejects_zero_divisor() {
    let v = mul_u256(5, 5);
    assert_eq!(div_rem_u256(v, 0), Err(QuoteError::MathDomain));
}

#[test]
fn div_rem_u256_rejects_wide_quotient() {
    let v = mul_u256(u128::MAX, u128::MAX);
    assert_eq!(div_rem_u256(v, 2), Err(QuoteError::Overflow));
}

#[test]
fn safe_mul_shr_cast_rounds_both_ways() {
    assert_eq!(safe_mul_shr_cast(3, ONE, 64, Rounding::Down), Ok(3));
    assert_eq!(safe_mul_shr_cast(1, ONE + 1, 64, Rounding::Down), Ok(1));
    assert_eq!(safe_mul_shr_cast(1, ONE + 1, 64, Rounding::Up), Ok(2));
    assert_eq!(
        safe_mul_shr_cast(u128::MAX, u128::MAX, 0, Rounding::Down),
        Err(QuoteError::Overflow)
    );
}

#[test]
fn safe_shl_div_cast_rounds_both_ways() {
    assert_eq!(safe_shl_div_cast(10, 3, 0, Rounding::Down), Ok(3));
    assert_eq!(safe_shl_div_cast(10, 3, 0, Rounding::Up), Ok(4));
    assert_eq!(safe_shl_div_cast(5, 5 * ONE, 64, Rounding::Down), Ok(1));
    assert_eq!(safe_shl_div_cast(1, 0, 0, Rounding::Down), Err(QuoteError::MathDomain));
}

#[test]
fn safe_mul_div_cast_rounds_both_ways() {
    assert_eq!(safe_mul_div_cast(6, 7, 2, Rounding::Down), Ok(21));
    assert_eq!(safe_mul_div_cast(7, 3, 2, Rounding::Down), Ok(10));
    assert_eq!(safe_mul_div_cast(7, 3, 2, Rounding::Up), Ok(11));
    assert_eq!(safe_mul_div_cast(1, 1, 0, Rounding::Up), Err(QuoteError::MathDomain));
}

#[test]
fn price_of_bin_zero_is_one() {
    assert_eq!(get_price_from_id(0, 10).unwrap(), ONE);
    assert_eq!(get_price_from_id(0, 0).unwrap(), ONE);
}

#[test]
fn price_is_monotone_around_zero() {
    let p_minus_2 = get_price_from_id(-2, 10).unwrap();
    let p_minus_1 = get_price_from_id(-1, 10).unwrap();
    let p0 = get_price_from_id(0, 10).unwrap();
    let p1 = get_price_from_id(1, 10).unwrap();
    let p2 = get_price_from_id(2, 10).unwrap();
    assert!(p_minus_2 < p_minus_1);
    assert!(p_minus_1 < p0);
    assert!(p0 < p1);
    assert!(p1 < p2);
}

#[test]
fn price_reciprocal_pairs_multiply_to_two_pow_128() {
    for id in [1i32, 5, 100, 4000] {
        let p = get_price_from_id(id, 10).unwrap();
        let p_inv = get_price_from_id(-id, 10).unwrap();
        let expected = u128::MAX / p;
        let diff = if p_inv > expected { p_inv - expected } else { expected - p_inv };
        assert!(diff <= 2, "id {}: diff {}", id, diff);
    }
}

#[test]
fn price_is_deterministic() {
    let a = get_price_from_id(1234, 25).unwrap();
    let b = get_price_from_id(1234, 25).unwrap();
    assert_eq!(a, b);
}

#[test]
fn price_rejects_out_of_range_exponent() {
    assert_eq!(get_price_from_id(0x100000, 1), Err(QuoteError::Overflow));
    assert_eq!(get_price_from_id(i32::MIN, 1), Err(QuoteError::Overflow));
}
