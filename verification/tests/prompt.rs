use ghostty_voice_core::prompt::build_initial_prompt;

fn vocab(terms: &[&str]) -> Vec<String> {
    terms.iter().map(|t| (*t).to_owned()).collect()
}

const PREFIX: &str = "Transcript of technical instructions.";

#[test]
fn includes_all_vocab_under_the_cap() {
    let p = build_initial_prompt(PREFIX, &vocab(&["ydotool", "Ghostty", "kubectl"]), 50);
    assert!(!p.truncated);
    assert!(p.text.contains("ydotool"));
    assert!(p.text.contains("kubectl"));
    assert!(p.text.starts_with(PREFIX));
}

#[test]
fn truncates_and_flags_when_over_the_cap() {
    let p = build_initial_prompt(PREFIX, &vocab(&["ydotool", "Ghostty", "kubectl"]), 6);
    assert!(p.truncated);
    assert!(p.text.contains("ydotool"));
    assert!(!p.text.contains("Ghostty"));
    assert!(!p.text.ends_with(','));
}

#[test]
fn empty_vocab_yields_just_the_prefix() {
    let p = build_initial_prompt(PREFIX, &[], 50);
    assert_eq!(p.text, PREFIX);
    assert!(!p.truncated);
}

#[test]
fn the_full_prompt_lists_terms_comma_separated_without_a_trailing_comma() {
    let p = build_initial_prompt(PREFIX, &vocab(&["ydotool", "Ghostty"]), 50);
    assert_eq!(
        p.text,
        "Transcript of technical instructions. Vocabulary: ydotool, Ghostty"
    );
}

#[test]
fn a_term_that_does_not_fit_stops_the_list() {
    // The prefix is 4 chunks and "Vocabulary:" a fifth; each term adds one.
    let p = build_initial_prompt(PREFIX, &vocab(&["a", "b", "c"]), 6);
    assert_eq!(p.text, "Transcript of technical instructions. Vocabulary: a");
    assert!(p.truncated);
}
