use space_drift::arith::{isqrt, magnitude, product};
use space_drift::vector::{to_pixel, v2_length, V2};

#[test]
fn isqrt_of_small_numbers() {
    assert_eq!(isqrt(0), 0);
    assert_eq!(isqrt(1), 1);
    assert_eq!(isqrt(2), 1);
    assert_eq!(isqrt(3), 1);
    assert_eq!(isqrt(4), 2);
    assert_eq!(isqrt(15), 3);
    assert_eq!(isqrt(16), 4);
    assert_eq!(isqrt(17), 4);
    assert_eq!(isqrt(1_000_000_000_000), 1_000_000);
    assert_eq!(isqrt(999_999_999_999), 999_999);
}

#[test]
fn isqrt_of_the_largest_number() {
    assert_eq!(isqrt(u128::MAX), u64::MAX);
    let r = u64::MAX as u128;
    assert_eq!(isqrt(r * r), u64::MAX);
    assert_eq!(isqrt(r * r - 1), u64::MAX - 1);
}

#[test]
fn isqrt_brackets_its_argument() {
    let mut n: u128 = 1;
    for _ in 0..120 {
        let r = isqrt(n) as u128;
        assert!(r * r <= n);
        assert!((r + 1) * (r + 1) > n);
        n = n * 2 + 1;
    }
}

#[test]
fn length_of_a_vector() {
    assert_eq!(v2_length(V2 { x: 3000, y: 4000 }), 5000);
    assert_eq!(v2_length(V2 { x: -3000, y: 4000 }), 5000);
    assert_eq!(v2_length(V2 { x: 0, y: 0 }), 0);
    assert_eq!(v2_length(V2 { x: 1, y: 1 }), 1);
    assert_eq!(v2_length(V2 { x: 1000, y: 1000 }), 1414);
    assert_eq!(v2_length(V2 { x: 0, y: -7 }), 7);
}

#[test]
fn length_of_the_longest_vector() {
    assert_eq!(v2_length(V2 { x: i64::MIN, y: i64::MIN }), 13_043_817_825_332_782_212);
    assert_eq!(v2_length(V2 { x: i64::MIN, y: 0 }), 9_223_372_036_854_775_808);
}

#[test]
fn vectors_add_and_subtract() {
    let a = V2 { x: 1500, y: -250 };
    let b = V2 { x: 500, y: 1000 };
    assert_eq!(a + b, V2 { x: 2000, y: 750 });
    assert_eq!(a - b, V2 { x: 1000, y: -1250 });
}

#[test]
fn coordinates_drop_their_fraction_toward_zero() {
    assert_eq!(to_pixel(0), 0);
    assert_eq!(to_pixel(999), 0);
    assert_eq!(to_pixel(1000), 1);
    assert_eq!(to_pixel(1999), 1);
    assert_eq!(to_pixel(-1), 0);
    assert_eq!(to_pixel(-999), 0);
    assert_eq!(to_pixel(-1000), -1);
    assert_eq!(to_pixel(-7500), -7);
    assert_eq!(to_pixel(-8000), -8);
}

#[test]
fn coordinates_beyond_pixel_range_are_held() {
    assert_eq!(to_pixel(i64::MAX as i128), i32::MAX);
    assert_eq!(to_pixel(i64::MIN as i128), i32::MIN);
    assert_eq!(to_pixel(2_147_483_647_999), i32::MAX);
    assert_eq!(to_pixel(2_147_483_646_999), i32::MAX - 1);
    assert_eq!(to_pixel(-2_147_483_648_000), i32::MIN);
    assert_eq!(to_pixel(-2_147_483_647_999), i32::MIN + 1);
}

#[test]
fn magnitude_and_product() {
    assert_eq!(magnitude(5), 5);
    assert_eq!(magnitude(-5), 5);
    assert_eq!(magnitude(i64::MIN), 9_223_372_036_854_775_808);
    assert_eq!(product(i32::MIN, i32::MIN), 4_611_686_018_427_387_904);
    assert_eq!(product(-3, 7), -21);
}
