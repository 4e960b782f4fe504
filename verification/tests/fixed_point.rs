use ink_trails::fixed::div_toward_zero;
use ink_trails::fixed::isqrt;
use ink_trails::fixed::narrow;

#[test]
fn isqrt_of_small_numbers() {
    assert_eq!(isqrt(0), 0);
    assert_eq!(isqrt(1), 1);
    assert_eq!(isqrt(2), 1);
    assert_eq!(isqrt(3), 1);
    assert_eq!(isqrt(4), 2);
    assert_eq!(isqrt(99), 9);
    assert_eq!(isqrt(100), 10);
    assert_eq!(isqrt(101), 10);
}

#[test]
fn isqrt_brackets_every_number_up_to_ten_thousand() {
    for n in 0u128..10_000 {
        let r = isqrt(n) as u128;
        assert!(r * r <= n && n < (r + 1) * (r + 1));
    }
}

#[test]
fn isqrt_at_the_top_of_the_range() {
    assert_eq!(isqrt(u128::MAX), u64::MAX);
    assert_eq!(isqrt(1u128 << 64), 1u64 << 32);
    assert_eq!(isqrt((1u128 << 64) - 1), (1u64 << 32) - 1);
}

#[test]
fn division_rounds_toward_zero_on_both_sides() {
    assert_eq!(div_toward_zero(7, 2), 3);
    assert_eq!(div_toward_zero(-7, 2), -3);
    assert_eq!(div_toward_zero(6, 2), 3);
    assert_eq!(div_toward_zero(-6, 2), -3);
    assert_eq!(div_toward_zero(0, 5), 0);
    assert_eq!(div_toward_zero(-1, 1000), 0);
    assert_eq!(div_toward_zero(999, 1000), 0);
}

#[test]
fn narrow_holds_to_the_32_bit_range() {
    assert_eq!(narrow(0), 0);
    assert_eq!(narrow(-5), -5);
    assert_eq!(narrow(i32::MAX as i128), i32::MAX);
    assert_eq!(narrow(i32::MAX as i128 + 1), i32::MAX);
    assert_eq!(narrow(i32::MIN as i128), i32::MIN);
    assert_eq!(narrow(i32::MIN as i128 - 1), i32::MIN);
    assert_eq!(narrow(i128::MAX), i32::MAX);
    assert_eq!(narrow(i128::MIN), i32::MIN);
}
