use organization::engine::{integer_sqrt, vote_rule};
use organization::errors::ContractError;

#[test]
fn sqrt_small_values() {
    assert_eq!(integer_sqrt(0), 0);
    assert_eq!(integer_sqrt(1), 1);
    assert_eq!(integer_sqrt(8), 2);
    assert_eq!(integer_sqrt(9), 3);
}

#[test]
fn sqrt_rounds_toward_zero() {
    assert_eq!(integer_sqrt(2), 1);
    assert_eq!(integer_sqrt(3), 1);
    assert_eq!(integer_sqrt(15), 3);
    assert_eq!(integer_sqrt(16), 4);
    assert_eq!(integer_sqrt(24), 4);
    assert_eq!(integer_sqrt(25), 5);
    assert_eq!(integer_sqrt(99), 9);
    assert_eq!(integer_sqrt(100), 10);
}

#[test]
fn sqrt_largest_inputs() {
    assert_eq!(integer_sqrt(u32::MAX), 65535);
    assert_eq!(integer_sqrt(65535 * 65535), 65535);
    assert_eq!(integer_sqrt(65535 * 65535 - 1), 65534);
}

#[test]
fn sqrt_monotonic_non_decreasing() {
    let mut previous: u32 = 0;
    let mut n: u32 = 0;
    while n < 2000 {
        let r = integer_sqrt(n);
        assert!(r >= previous);
        previous = r;
        n += 1;
    }
}

#[test]
fn vote_rule_floors_at_one() {
    // combined tally below 1 always yields the floor
    assert_eq!(vote_rule(9, 0, 0), Ok(1));
    assert_eq!(vote_rule(9, 0, -5), Ok(1));
    assert_eq!(vote_rule(9, -3, 2), Ok(1));
    assert_eq!(vote_rule(0, 4, -4), Ok(1));
    assert_eq!(vote_rule(u32::MAX, i32::MIN, i32::MIN), Ok(1));
}

#[test]
fn vote_rule_weights_by_voter_root() {
    // combined tally of 1, voter reputation 4: 1 * 2
    assert_eq!(vote_rule(4, 0, 1), Ok(2));
    // combined tally of 1, voter reputation 9: 1 * 3
    assert_eq!(vote_rule(9, 0, 1), Ok(3));
    // combined tally of 5, voter reputation 10: 5 * 3
    assert_eq!(vote_rule(10, 2, 3), Ok(15));
    // a voter with no reputation carries no weight
    assert_eq!(vote_rule(0, 0, 1), Ok(0));
}

#[test]
fn vote_rule_overflow_is_hard_failure() {
    // 70_000 * integer_sqrt(u32::MAX) = 70_000 * 65_535 exceeds u32::MAX
    assert_eq!(vote_rule(u32::MAX, 0, 70_000), Err(ContractError::ArithmeticOverflow));
    assert_eq!(vote_rule(u32::MAX, i32::MAX, i32::MAX), Err(ContractError::ArithmeticOverflow));
    // the same combined tally is fine under a light voter
    assert_eq!(vote_rule(1, 0, 70_000), Ok(70_000));
}
