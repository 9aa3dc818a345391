use nexusview::fixed::{clamp_i128, isqrt_u128, tdiv_i128};

#[test]
fn integer_square_roots_exact() {
    assert_eq!(isqrt_u128(0), 0);
    assert_eq!(isqrt_u128(1), 1);
    assert_eq!(isqrt_u128(3), 1);
    assert_eq!(isqrt_u128(4), 2);
    assert_eq!(isqrt_u128(144), 12);
    assert_eq!(isqrt_u128(145), 12);
    assert_eq!(isqrt_u128(1_000_000_000_000), 1_000_000);
    assert_eq!(isqrt_u128(u64::MAX as u128), u32::MAX as u128);
}

#[test]
fn truncating_division_rounds_toward_zero() {
    assert_eq!(tdiv_i128(7, 2), 3);
    assert_eq!(tdiv_i128(-7, 2), -3);
    assert_eq!(tdiv_i128(0, 5), 0);
    assert_eq!(tdiv_i128(-1, 1000), 0);
    assert_eq!(tdiv_i128(999, 1000), 0);
    assert_eq!(tdiv_i128(-1000, 1000), -1);
}

#[test]
fn clamping() {
    assert_eq!(clamp_i128(5, -3, 3), 3);
    assert_eq!(clamp_i128(-5, -3, 3), -3);
    assert_eq!(clamp_i128(2, -3, 3), 2);
}
