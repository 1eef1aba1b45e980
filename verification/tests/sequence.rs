use number_games::error::GameError;
use number_games::sequence::{checked_fibonacci, fibonacci, LAST_EXACT_INDEX};

#[test]
fn first_terms() {
    assert_eq!(fibonacci(0), 1);
    assert_eq!(fibonacci(1), 1);
    assert_eq!(fibonacci(2), 2);
    assert_eq!(fibonacci(3), 3);
    assert_eq!(fibonacci(4), 5);
    assert_eq!(fibonacci(5), 8);
    assert_eq!(fibonacci(9), 55);
}

#[test]
fn index_zero_is_one_not_zero() {
    assert_eq!(fibonacci(0), 1);
    assert_eq!(checked_fibonacci(0), Ok(1));
}

#[test]
fn each_term_is_the_sum_of_the_two_before() {
    for n in 1..LAST_EXACT_INDEX {
        assert_eq!(fibonacci(n + 1), fibonacci(n) + fibonacci(n - 1));
    }
}

#[test]
fn wrapped_terms_obey_the_recurrence_with_a_wrapping_sum() {
    for n in 1..200u32 {
        assert_eq!(
            fibonacci(n + 1),
            fibonacci(n).wrapping_add(fibonacci(n - 1))
        );
    }
}

#[test]
fn the_sum_is_plain_wherever_it_stays_within_32_bits() {
    let limit: u64 = 1 << 32;
    for n in 1..500u32 {
        let sum = fibonacci(n) as u64 + fibonacci(n - 1) as u64;
        if sum < limit {
            assert_eq!(fibonacci(n + 1) as u64, sum);
        } else {
            assert_eq!(fibonacci(n + 1) as u64, sum - limit);
        }
    }
    assert_eq!(fibonacci(46) as u64 + fibonacci(45) as u64, 4_807_526_976);
    assert_eq!(fibonacci(48), fibonacci(47) + fibonacci(46));
}

#[test]
fn last_exact_term() {
    assert_eq!(LAST_EXACT_INDEX, 46);
    assert_eq!(fibonacci(46), 2_971_215_073);
    assert_eq!(checked_fibonacci(46), Ok(2_971_215_073));
}

#[test]
fn first_term_that_does_not_fit_wraps() {
    let exact: u64 = 4_807_526_976;
    assert_eq!(fibonacci(47) as u64, exact - (1u64 << 32));
    assert_eq!(fibonacci(47), 512_559_680);
}

#[test]
fn first_term_that_does_not_fit_is_refused() {
    assert_eq!(checked_fibonacci(47), Err(GameError::Overflow));
    assert_eq!(checked_fibonacci(48), Err(GameError::Overflow));
    assert_eq!(checked_fibonacci(u32::MAX), Err(GameError::Overflow));
}

#[test]
fn wrapped_terms_are_the_exact_terms_modulo_two_to_the_32() {
    let mut total: u128 = 0;
    let mut next: u128 = 1;
    for n in 0..150u32 {
        let prev = total;
        total += next;
        next = prev;
        assert_eq!(fibonacci(n) as u128, total % (1u128 << 32));
    }
}

#[test]
fn both_policies_agree_where_the_term_fits() {
    for n in 0..=LAST_EXACT_INDEX {
        assert_eq!(checked_fibonacci(n), Ok(fibonacci(n)));
    }
}

#[test]
fn same_index_same_term() {
    for n in [0u32, 1, 7, 46, 47, 1000] {
        let first = fibonacci(n);
        let second = fibonacci(n);
        let third = fibonacci(n);
        assert_eq!(first, second);
        assert_eq!(second, third);
        assert_eq!(checked_fibonacci(n), checked_fibonacci(n));
    }
}

#[test]
fn a_large_index_still_returns() {
    let value = fibonacci(1_000_000);
    assert_eq!(value, fibonacci(999_999).wrapping_add(fibonacci(999_998)));
}
