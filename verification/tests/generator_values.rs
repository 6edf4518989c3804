use num::BigUint;
use minsum::generator::Generator;
use minsum::initial::{a, s};

#[test]
fn seed_is_position_zero() {
    assert_eq!(s(0), 290797);
}

#[test]
fn first_positions_follow_the_recurrence() {
    let mut expected: u64 = 290797;
    for o in 1..=6usize {
        expected = expected * expected % 50515093;
        assert_eq!(s(o) as u64, expected);
    }
}

#[test]
fn generator_matches_direct_iteration() {
    let mut gen = Generator::new(290797, 50515093);
    for o in 1..=10usize {
        assert_eq!(gen.next() as usize, s(o));
    }
}

#[test]
fn two_generators_produce_identical_streams() {
    let mut g1 = Generator::new(290797, 50515093);
    let mut g2 = Generator::new(290797, 50515093);
    for _ in 0..20 {
        assert_eq!(g1.next(), g2.next());
    }
}

#[test]
fn window_minimum_of_single_position() {
    assert_eq!(a(1, 1), BigUint::from(s(1)));
}

#[test]
fn window_minimum_of_first_three_positions() {
    let expected = s(1).min(s(2)).min(s(3));
    assert_eq!(a(1, 3), BigUint::from(expected));
}
