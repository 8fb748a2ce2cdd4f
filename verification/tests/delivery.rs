use ghostty_voice_core::delivery::{decide, Delivery};
use ghostty_voice_core::time::Duration;

fn window() -> Duration {
    Duration::from_secs(900)
}

#[test]
fn fresh_transcript_is_auto_typed() {
    assert_eq!(decide(Duration::from_secs(3), window()), Delivery::AutoType);
}

#[test]
fn at_the_boundary_is_still_auto_typed() {
    assert_eq!(decide(window(), window()), Delivery::AutoType);
}

#[test]
fn stale_transcript_is_held() {
    assert_eq!(
        decide(window().add(Duration::from_secs(1)), window()),
        Delivery::HoldForReplay,
    );
}
