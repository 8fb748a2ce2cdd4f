use ghostty_voice_core::model::{
    classify, needs_download, verify_download, ModelStatus, GGML_LARGE_V3_SHA256, GGML_LARGE_V3_URL,
};

const EXPECTED: &str = "abc123";

#[test]
fn absent_file_is_missing_and_needs_download() {
    let status = classify(false, None, EXPECTED);
    assert_eq!(status, ModelStatus::Missing);
    assert!(needs_download(&status));
}

#[test]
fn present_with_matching_sha_is_healthy_and_skips_download() {
    let status = classify(true, Some("abc123"), EXPECTED);
    assert_eq!(status, ModelStatus::Healthy);
    assert!(!needs_download(&status));
}

#[test]
fn present_with_mismatched_sha_is_corrupt_and_needs_redownload() {
    let status = classify(true, Some("deadbeef"), EXPECTED);
    assert_eq!(
        status,
        ModelStatus::Corrupt {
            found: "deadbeef".to_owned()
        }
    );
    assert!(needs_download(&status));
}

#[test]
fn sha_comparison_ignores_hex_casing() {
    assert_eq!(
        classify(true, Some("ABC123"), "abc123"),
        ModelStatus::Healthy
    );
    assert!(verify_download("ABC123", "abc123"));
}

#[test]
fn present_but_unhashed_is_healthy_by_presence() {
    assert_eq!(classify(true, None, EXPECTED), ModelStatus::Healthy);
}

#[test]
fn verify_download_accepts_a_match_and_rejects_a_mismatch() {
    assert!(verify_download("abc123", "abc123"));
    assert!(!verify_download("deadbeef", "abc123"));
}

#[test]
fn an_empty_expected_hash_disables_the_sha_gate() {
    assert_eq!(classify(true, Some("whatever"), ""), ModelStatus::Healthy);
    assert!(verify_download("whatever", ""));
}

#[test]
fn the_pinned_hash_is_either_unset_or_lowercase_64_hex() {
    let h = GGML_LARGE_V3_SHA256;
    assert!(
        h.is_empty()
            || (h.len() == 64
                && h.chars()
                    .all(|c| c.is_ascii_hexdigit() && !c.is_ascii_uppercase())),
        "pinned hash must be empty or a lowercase 64-hex string, got {h:?}"
    );
}

#[test]
fn the_download_url_points_at_the_large_v3_lfs_object() {
    assert!(GGML_LARGE_V3_URL.ends_with("ggml-large-v3.bin"));
    assert!(GGML_LARGE_V3_URL.starts_with("https://huggingface.co/"));
}
