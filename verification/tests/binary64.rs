use myelin_environment::binary64::{integer_to_binary64_of, nearest};

#[test]
fn one_third_rounds_down() {
    // 2^54 / 3 = 6004799503160661.33...
    assert_eq!((6004799503160661, 54), nearest(1, 3));
}

#[test]
fn two_thirds_rounds_up() {
    // 2^53 * 2 / 3 = 6004799503160661.33... at scale 53; 2^54 * 2 / 3 = 12009599006321322.67
    assert_eq!((6004799503160661, 53), nearest(2, 3));
    assert_eq!(2.0f64 / 3.0, 6004799503160661.0 / 9007199254740992.0);
}

#[test]
fn large_values_round_to_even_significands() {
    let above = (1u128 << 53) + 1;
    assert_eq!((1u128 << 52, -1), nearest(above, 1));
    assert_eq!(1u64 << 53, integer_to_binary64_of((1u64 << 53) + 1) as u64);
    assert_eq!(((1u64 << 53) + 1) as f64 as u64, integer_to_binary64_of((1u64 << 53) + 1) as u64);
    assert_eq!(((1u64 << 53) + 3) as f64 as u64, integer_to_binary64_of((1u64 << 53) + 3) as u64);
    assert_eq!(u64::MAX as f64 as u128, integer_to_binary64_of(u64::MAX));
}

#[test]
fn small_integers_are_exact() {
    assert_eq!(12345, integer_to_binary64_of(12345));
    assert_eq!((0, 0), nearest(0, 7));
}
