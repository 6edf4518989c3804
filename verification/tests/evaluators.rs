use num::BigUint;
use minsum::cycle;
use minsum::initial;
use minsum::linear;

#[test]
fn cycle_m_test_10() {
    assert_eq!(cycle::m(10), 432256955usize.into());
}

#[test]
fn cycle_m_test_10000() {
    assert_eq!(cycle::m(10000), 3264567774119usize.into());
}

#[test]
fn cycle_m_test_2000000000() {
    assert_eq!(cycle::m(2000000000), 7435327983715286168usize.into());
}

#[test]
fn linear_m_test_10() {
    assert_eq!(linear::m(10), 432256955usize.into());
}

#[test]
fn linear_m_test_10000() {
    assert_eq!(linear::m(10000), 3264567774119usize.into());
}

#[test]
fn test_m_10() {
    assert_eq!(initial::m(10), 432256955usize.into());
}

#[test]
fn m_of_one_is_first_derived_value() {
    let expected = (290797u64 * 290797) % 50515093;
    assert_eq!(cycle::m(1), BigUint::from(expected));
    assert_eq!(linear::m(1), BigUint::from(expected));
    assert_eq!(initial::m(1), BigUint::from(expected));
}

#[test]
fn evaluators_agree_on_small_inputs() {
    for n in 1..=25usize {
        let brute = initial::m(n);
        assert_eq!(linear::m(n), brute);
        assert_eq!(cycle::m(n), brute);
    }
}

#[test]
fn linear_and_cycle_agree_on_medium_inputs() {
    for n in [100usize, 1000, 5000, 9999] {
        assert_eq!(linear::m(n), cycle::m(n));
    }
}

#[test]
fn m_is_monotone() {
    let mut prev = cycle::m(1);
    for n in 2..=60usize {
        let cur = cycle::m(n);
        assert!(prev <= cur);
        prev = cur;
    }
}

#[test]
fn m_of_zero_elements_is_zero() {
    assert_eq!(initial::m(0), BigUint::from(0u64));
}
