use ghostty_voice_core::transcript::normalize_transcript;

#[test]
fn normalizing_trims_a_leading_whisper_space() {
    assert_eq!(normalize_transcript(" Rebase onto main."), "Rebase onto main.");
}

#[test]
fn normalizing_collapses_newlines_and_runs_of_spaces() {
    assert_eq!(normalize_transcript("line one\nline two"), "line one line two");
    assert_eq!(normalize_transcript("a \t  b\r\nc"), "a b c");
}

#[test]
fn normalizing_whitespace_only_text_gives_empty() {
    assert_eq!(normalize_transcript("  \n "), "");
}
