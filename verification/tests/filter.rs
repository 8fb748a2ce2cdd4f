use ghostty_voice_core::filter::{pcm_duration, should_discard};
use ghostty_voice_core::time::Duration;

fn min() -> Duration {
    Duration::from_millis(300)
}

fn ok() -> Duration {
    Duration::from_secs(3)
}

#[test]
fn empty_or_whitespace_is_discarded() {
    assert!(should_discard("", ok(), min()));
    assert!(should_discard("   \n ", ok(), min()));
}

#[test]
fn known_hallucinations_are_discarded_case_insensitively() {
    assert!(should_discard("[BLANK_AUDIO]", ok(), min()));
    assert!(should_discard("Thank you.", ok(), min()));
    assert!(should_discard("thanks for watching", ok(), min()));
}

#[test]
fn sub_minimum_duration_is_discarded_even_with_text() {
    assert!(should_discard(
        "rebase onto main",
        Duration::from_millis(100),
        min()
    ));
}

#[test]
fn real_speech_of_adequate_length_is_kept() {
    assert!(!should_discard("rebase onto main", ok(), min()));
}

#[test]
fn pcm_duration_one_second_is_16k_samples() {
    assert_eq!(pcm_duration(32_000), Duration::from_secs(1));
}

#[test]
fn pcm_duration_below_min_flags_discard() {
    let dur = pcm_duration(6_400);
    assert!(dur < min());
    assert!(should_discard("a real word", dur, min()));
}

#[test]
fn pcm_duration_empty_is_zero() {
    assert_eq!(pcm_duration(0), Duration::zero());
}

#[test]
fn pcm_duration_drops_an_odd_trailing_byte() {
    assert_eq!(pcm_duration(32_001), Duration::from_secs(1));
    assert_eq!(pcm_duration(3), Duration::from_nanos(62_500));
}

#[test]
fn a_hallucination_with_surrounding_whitespace_is_discarded() {
    assert!(should_discard("  You \n", ok(), min()));
    assert!(!should_discard("you know", ok(), min()));
}

#[test]
fn exactly_the_minimum_duration_is_kept() {
    assert!(!should_discard("hello", min(), min()));
}
