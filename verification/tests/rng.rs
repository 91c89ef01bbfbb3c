use mivi::rng::{SplitMix64, XorShift64Star, FALLBACK_RNG_SEED};

#[test]
fn splitmix_reference_values_for_seed_zero() {
    let mut r = SplitMix64::new(0);
    assert_eq!(r.next_u64(), 0xe220a8397b1dcdaf);
    assert_eq!(r.next_u64(), 0x6e789e6aa1b965f4);
}

#[test]
fn splitmix_is_deterministic_and_u32_is_the_high_half() {
    let mut a = SplitMix64::new(12345);
    let mut b = SplitMix64::new(12345);
    let x = a.next_u64();
    assert_eq!(b.next_u32(), (x >> 32) as u32);
    assert_eq!(a.next_u64(), b.next_u64());
}

#[test]
fn xorshift_draws_exact_bits_from_seed_one() {
    let mut r = XorShift64Star::new(1);
    assert_eq!(r.next_bits(), 0x47e4ce);
    assert_eq!(r.next_bits(), 0xabcfa6);
}

#[test]
fn xorshift_zero_seed_is_not_absorbing() {
    let mut zero = XorShift64Star::new(0);
    let mut fallback = XorShift64Star::new(FALLBACK_RNG_SEED);
    let a = zero.next_bits();
    assert_eq!(a, 0xf672ec);
    assert_eq!(a, fallback.next_bits());
    assert_ne!(a, 0);
    assert_ne!(a, zero.next_bits());
}

#[test]
fn xorshift_same_seed_same_draws_and_reseeding() {
    let mut s1 = XorShift64Star::new(12345);
    let mut s2 = XorShift64Star::new(12345);
    assert_eq!(s1.next_bits(), s2.next_bits());
    assert_eq!(s1.next_bits(), s2.next_bits());
    s1.set_seed(0);
    let mut s3 = XorShift64Star::new(0);
    assert_eq!(s1.next_bits(), s3.next_bits());
}
