use ghostty_voice_core::pipeline::finalize_transcript;
use ghostty_voice_core::time::Duration;

fn min() -> Duration {
    Duration::from_millis(300)
}

fn ok() -> Duration {
    Duration::from_secs(3)
}

fn table(pairs: &[(&str, &str)]) -> Vec<(String, String)> {
    pairs
        .iter()
        .map(|(k, v)| ((*k).to_owned(), (*v).to_owned()))
        .collect()
}

#[test]
fn corrects_jargon_in_a_kept_transcript() {
    let out = finalize_transcript(
        "run why do tool on ghosty",
        ok(),
        min(),
        &table(&[("why do tool", "ydotool"), ("ghosty", "Ghostty")]),
    );
    assert_eq!(out.as_deref(), Some("run ydotool on Ghostty"));
}

#[test]
fn discards_empty_audio() {
    assert_eq!(finalize_transcript("", ok(), min(), &[]), None);
}

#[test]
fn discards_a_known_hallucination() {
    assert_eq!(finalize_transcript("Thank you.", ok(), min(), &[]), None);
}

#[test]
fn discards_sub_min_duration_even_with_real_words() {
    assert_eq!(
        finalize_transcript("rebase onto main", Duration::from_millis(100), min(), &[]),
        None
    );
}

#[test]
fn keeps_real_speech_without_corrections_unchanged() {
    assert_eq!(
        finalize_transcript("rebase onto main", ok(), min(), &[]).as_deref(),
        Some("rebase onto main"),
    );
}

#[test]
fn a_phrase_rule_wins_over_its_substring_whatever_the_table_order() {
    let out = finalize_transcript(
        "git stash now",
        ok(),
        min(),
        &table(&[("git", "GIT"), ("git stash", "stash-changes")]),
    );
    assert_eq!(out.as_deref(), Some("stash-changes now"));
}
