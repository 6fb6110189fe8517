use wasm_harness::workload::{busy, busy_sum_rayon, busy_sum_serial, fib, sum_to};

#[test]
fn test_fib_base() {
    assert_eq!(fib(0), 0);
    assert_eq!(fib(1), 1);
}

#[test]
fn test_fib_10() {
    assert_eq!(fib(10), 55);
}

#[test]
fn test_sum_to_100() {
    assert_eq!(sum_to(100), 4950);
}

#[test]
fn fib_follows_the_recurrence() {
    assert_eq!(fib(2), 1);
    assert_eq!(fib(15), 610);
    assert_eq!(fib(25), fib(24) + fib(23));
}

#[test]
fn sum_to_small_and_large() {
    assert_eq!(sum_to(0), 0);
    assert_eq!(sum_to(1), 0);
    assert_eq!(sum_to(1000), 499_500);
    assert_eq!(sum_to(1_000_000), 499_999_500_000);
}

#[test]
fn busy_runs_two_hundred_rounds() {
    for x in [0u32, 1, 2, 12345, u32::MAX] {
        let modulus: u128 = 1 << 64;
        let mut acc: u128 = (x as u128) ^ 0xdead_beef_cafe_d00d;
        let mut round = 0;
        while round < 200 {
            acc = (acc * 6_364_136_223_846_793_005 + (x as u128 | 1)) % modulus;
            round += 1;
        }
        assert_eq!(busy(x) as u128, acc);
    }
    assert_eq!(busy(0), BUSY_ZERO);
    assert_eq!(busy(7), BUSY_SEVEN);
}

const BUSY_ZERO: u64 = 12088629324357568197;
const BUSY_SEVEN: u64 = 1029083025996389618;

#[test]
fn serial_sum_wraps() {
    assert_eq!(busy_sum_serial(0), 0);
    assert_eq!(busy_sum_serial(1), busy(0));
    assert_eq!(
        busy_sum_serial(3),
        busy(0).wrapping_add(busy(1)).wrapping_add(busy(2))
    );
    assert_eq!(busy_sum_serial(100), 9733613668835291398);
}

#[test]
fn parallel_sum_matches_serial_sum() {
    for n in [0u32, 1, 2, 3, 7, 100, 1000, 10_000] {
        assert_eq!(busy_sum_rayon(n), busy_sum_serial(n));
    }
    assert_eq!(busy_sum_rayon(100), 9733613668835291398);
}
