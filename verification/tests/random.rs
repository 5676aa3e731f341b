//! Behavior of the range reduction over raw entropy words.

use snake::random::{Random, RngError};

#[test]
fn raw_words_come_from_the_back() {
    let mut r = Random::new(vec![1, 2, 3]);
    assert_eq!(r.random_u32(), Ok(3));
    assert_eq!(r.random_u32(), Ok(2));
    assert_eq!(r.random_u32(), Ok(1));
    assert_eq!(r.random_u32(), Err(RngError::Exhausted));
}

#[test]
fn small_range_masks_and_shifts() {
    // For [10, 12) the mask keeps one bit: 3 masks to 1, which is below
    // 10 and is shifted up by the lower bound.
    let mut r = Random::new(vec![3]);
    assert_eq!(r.random_range(10, 12), Ok(11));
}

#[test]
fn small_range_rejects_oversized_masked_words() {
    // For [1, 47) the mask keeps six bits; 60 masks to 60 and is
    // rejected, the next word 30 is accepted.
    let mut r = Random::new(vec![30, 60]);
    assert_eq!(r.random_range(1, 47), Ok(30));
    assert_eq!(r.entropy_len(), 0);
}

#[test]
fn empty_store_reports_exhausted() {
    let mut r = Random::new(vec![]);
    assert_eq!(r.random_range(1, 3), Err(RngError::Exhausted));
}

#[test]
fn zero_based_range_chokes_on_span_value() {
    // The historical arithmetic has no slot for a masked word equal to
    // the span when the range starts at zero: the device build halted
    // here, this build reports it.
    let mut r = Random::new(vec![5]);
    assert_eq!(r.random_range(0, 5), Err(RngError::Unmappable));
}

#[test]
fn full_range_passes_words_through() {
    let mut r = Random::new(vec![7]);
    assert_eq!(r.random_range(0, u32::MAX), Ok(7));
}

#[test]
fn wide_range_shifts_low_words_up() {
    // For [1, u32::MAX) the span is above half the word range: 0 lies
    // below the lower bound and is shifted up by it.
    let mut r = Random::new(vec![0]);
    assert_eq!(r.random_range(1, u32::MAX), Ok(1));
}

#[test]
fn wide_range_chokes_on_upper_bound() {
    // A word equal to the upper bound has no slot in the wide-range
    // arithmetic either.
    let mut r = Random::new(vec![u32::MAX - 1]);
    assert_eq!(r.random_range(1, u32::MAX - 1), Err(RngError::Unmappable));
}

#[test]
fn half_range_halves_the_word() {
    let mut r = Random::new(vec![11]);
    assert_eq!(r.random_range(0, 0x8000_0000), Ok(5));
}

#[test]
fn retry_consumes_until_in_range() {
    // For [40, 46) the first word masks to 6, shifts up to 46 and lands
    // just past the range, so the reduction retries; the next word masks
    // to 2 and shifts to 42.
    let mut r = Random::new(vec![2, 6]);
    assert_eq!(r.random_range(40, 46), Ok(42));
    assert_eq!(r.entropy_len(), 0);
}

#[test]
fn test_me_consumes_and_returns_the_generator() {
    let r = Random::new(vec![7; 16]);
    let r = Random::test_me(r, 0);
    // The fixed ladder takes one word per rung.
    assert_eq!(r.entropy_len(), 12);
}

#[test]
fn test_me_survives_exhaustion() {
    let r = Random::new(vec![7, 7]);
    let r = Random::test_me(r, 3);
    assert_eq!(r.entropy_len(), 0);
}

#[test]
fn disable_consumes_the_generator() {
    let r = Random::new(vec![1]);
    r.disable();
}
