use robotrace_sim::rng::DeterministicRng;

#[test]
fn seeded_rng_is_repeatable() {
    let mut a = DeterministicRng::new(42);
    let mut b = DeterministicRng::new(42);
    for _ in 0..8 {
        assert_eq!(a.next_u64(), b.next_u64());
    }
}

#[test]
fn first_draws_from_seed_42_are_xorshift64_star() {
    let mut r = DeterministicRng::new(42);
    assert_eq!(r.next_u64(), 6255019084209693600);
    assert_eq!(r.next_u64(), 14430073426741505498);
    assert_eq!(r.next_u64(), 14575455857230217846);
}

#[test]
fn zero_seed_uses_the_fixed_state() {
    let mut zero = DeterministicRng::new(0);
    let mut fixed = DeterministicRng::new(0x9E37_79B9_7F4A_7C15);
    assert_eq!(zero.next_u64(), 973819730272012410);
    assert_eq!(fixed.next_u64(), 973819730272012410);
    for _ in 0..16 {
        assert_eq!(zero.next_u64(), fixed.next_u64());
    }
}

#[test]
fn different_seeds_give_different_first_draws() {
    let mut a = DeterministicRng::new(1);
    let mut b = DeterministicRng::new(2);
    assert_ne!(a.next_u64(), b.next_u64());
}

#[test]
fn generator_never_returns_to_zero_state_output() {
    // A zero state would make every later draw zero.
    let mut r = DeterministicRng::new(7);
    let mut all_zero = true;
    for _ in 0..1000 {
        if r.next_u64() != 0 {
            all_zero = false;
        }
    }
    assert!(!all_zero);
}
