use ghostty_voice_core::download::{hex_lower, DownloadDigest, PercentThrottle, Progress};

#[test]
fn progress_percent_is_none_without_a_total() {
    let p = Progress {
        received: 10,
        total: None,
    };
    assert_eq!(p.percent(), None);
}

#[test]
fn progress_percent_is_whole_capped_and_unknown_for_a_zero_total() {
    assert_eq!(Progress { received: 0, total: Some(200) }.percent(), Some(0));
    assert_eq!(Progress { received: 199, total: Some(200) }.percent(), Some(99));
    assert_eq!(Progress { received: 500, total: Some(200) }.percent(), Some(100));
    assert_eq!(Progress { received: 5, total: Some(0) }.percent(), None);
    assert_eq!(Progress { received: u64::MAX, total: Some(u64::MAX) }.percent(), Some(1));
}

#[test]
fn throttle_emits_only_on_a_new_whole_percent() {
    let mut throttle = PercentThrottle::new();
    assert_eq!(
        throttle.update(Some(0)),
        Some(0),
        "first percent is emitted"
    );
    assert_eq!(throttle.update(Some(0)), None, "same percent is suppressed");
    assert_eq!(throttle.update(Some(1)), Some(1), "advancing emits");
    assert_eq!(throttle.update(Some(1)), None);
    assert_eq!(
        throttle.update(Some(42)),
        Some(42),
        "a jump still emits once"
    );
    assert_eq!(throttle.update(Some(42)), None);
}

#[test]
fn throttle_passes_through_the_percent_unknown_phase() {
    let mut throttle = PercentThrottle::new();
    assert_eq!(throttle.update(None), None);
    assert_eq!(throttle.update(None), None);
    assert_eq!(throttle.update(Some(3)), Some(3));
}

#[test]
fn hex_lower_encodes_two_lowercase_digits_per_byte() {
    assert_eq!(hex_lower(&[0x00, 0x0f, 0xab, 0xff]), "000fabff");
    assert_eq!(hex_lower(&[]), "");
}

#[test]
fn the_digest_is_the_sha256_of_the_fed_bytes() {
    let empty = DownloadDigest::new();
    assert_eq!(
        empty.finish(),
        "e3b0c44298fc1c149afbf4c8996fb92427ae41e4649b934ca495991b7852b855"
    );
    let mut d = DownloadDigest::new();
    d.absorb(b"a");
    d.absorb(b"");
    d.absorb(b"bc");
    assert_eq!(
        d.finish(),
        "ba7816bf8f01cfea414140de5dae2223b00361a396177a9cb410ff61f20015ad"
    );
}

#[test]
fn the_digest_is_checked_against_the_pinned_hash_ignoring_case() {
    let mut d = DownloadDigest::new();
    d.absorb(b"abc");
    let (hex, ok) =
        d.finish_and_verify("BA7816BF8F01CFEA414140DE5DAE2223B00361A396177A9CB410FF61F20015AD");
    assert!(ok);
    assert_eq!(hex, "ba7816bf8f01cfea414140de5dae2223b00361a396177a9cb410ff61f20015ad");
    let mut d = DownloadDigest::new();
    d.absorb(b"abd");
    assert!(!d.finish_and_verify("ba7816bf8f01cfea414140de5dae2223b00361a396177a9cb410ff61f20015ad").1);
    let mut d = DownloadDigest::new();
    d.absorb(b"anything");
    assert!(d.finish_and_verify("").1);
}
