use ghostty_voice_core::window::window_range;

const SEC: u64 = 32_000;

#[test]
fn a_capture_longer_than_the_window_decodes_only_the_trailing_window() {
    let (start, len) = window_range(10 * SEC, 0, 2 * SEC);
    assert_eq!(start, 8 * SEC);
    assert_eq!(len, 2 * SEC);
    assert!(len <= 2 * SEC, "per-decode length is bounded by the window");
}

#[test]
fn a_capture_shorter_than_the_window_decodes_the_whole_file() {
    let (start, len) = window_range(SEC / 2, 0, 2 * SEC);
    assert_eq!(start, 0);
    assert_eq!(len, SEC / 2);
}

#[test]
fn committed_audio_drops_out_so_the_stable_prefix_is_never_re_decoded() {
    let (start, len) = window_range(3 * SEC, SEC, 5 * SEC);
    assert_eq!(start, SEC, "window starts at the committed offset");
    assert_eq!(len, 2 * SEC, "only the uncommitted tail is decoded");
}

#[test]
fn the_committed_offset_and_the_window_bound_compose() {
    let (start, len) = window_range(200_000, 10_000, 64_000);
    assert_eq!(start, 136_000);
    assert_eq!(len, 64_000);
}

#[test]
fn the_window_never_starts_before_the_committed_offset() {
    let (start, len) = window_range(100_000, 40_000, 10 * SEC);
    assert_eq!(start, 40_000);
    assert_eq!(len, 60_000);
}

#[test]
fn the_start_is_aligned_to_a_sample_boundary() {
    let (start, _len) = window_range(100_001, 0, 50_001);
    assert_eq!(start % 2, 0, "start must land on a whole s16 sample");
}

#[test]
fn a_committed_offset_past_the_end_clamps_to_the_end() {
    let (start, len) = window_range(1000, 5000, 2 * SEC);
    assert_eq!(start, 1000);
    assert_eq!(len, 0);
}

#[test]
fn an_odd_trailing_start_rounds_up_so_the_window_stays_within_its_bound() {
    let (start, len) = window_range(100_001, 0, 50_000);
    assert_eq!(start, 50_002);
    assert_eq!(len, 49_999);
    assert!(len <= 50_000);
}

#[test]
fn an_odd_committed_offset_rounds_up_so_committed_audio_stays_out() {
    let (start, len) = window_range(100_000, 40_001, 320_000);
    assert_eq!(start, 40_002);
    assert_eq!(len, 59_998);
}

#[test]
fn an_odd_capture_whose_window_is_empty_keeps_its_last_byte() {
    let (start, len) = window_range(1001, 5000, 0);
    assert_eq!(start, 1000);
    assert_eq!(len, 1);
}
