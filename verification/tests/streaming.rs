use ghostty_voice_core::streaming::{CommitEngine, LiveEdit};

/// Drive a sequence of hypotheses and collect the live edits.
fn run(decodes: &[&[&str]]) -> Vec<LiveEdit> {
    let mut engine = CommitEngine::new();
    decodes.iter().map(|h| engine.observe(h)).collect()
}

#[test]
fn a_word_commits_one_decode_after_two_passes_agree() {
    // "rebase onto main" arrives word by word; each word is committed exactly
    // one decode after it first appears and is re-confirmed.
    let edits = run(&[
        &["rebase"],
        &["rebase", "onto"],
        &["rebase", "onto", "main"],
        &["rebase", "onto", "main"],
    ]);
    // First sighting: nothing committed yet, the word is the unstable tail.
    assert_eq!(
        edits[0],
        LiveEdit {
            committed: String::new(),
            tail: "rebase".to_owned()
        }
    );
    // "rebase" now agrees twice ⇒ committed; "onto" is the new tail.
    assert_eq!(
        edits[1],
        LiveEdit {
            committed: "rebase".to_owned(),
            tail: " onto".to_owned()
        }
    );
    // "onto" confirmed ⇒ committed (leading space); "main" is the tail.
    assert_eq!(
        edits[2],
        LiveEdit {
            committed: " onto".to_owned(),
            tail: " main".to_owned()
        }
    );
    // "main" confirmed ⇒ committed; tail empties.
    assert_eq!(
        edits[3],
        LiveEdit {
            committed: " main".to_owned(),
            tail: String::new()
        }
    );
}

#[test]
fn the_committed_prefix_grows_monotonically_and_never_retracts() {
    let mut engine = CommitEngine::new();
    engine.observe(&["rebase"]);
    engine.observe(&["rebase", "onto"]);
    assert_eq!(engine.committed_text(), "rebase");
    engine.observe(&["rebase", "onto", "main"]);
    assert_eq!(engine.committed_text(), "rebase onto");
    // A later decode can never shrink the committed prefix.
    engine.observe(&["rebase", "onto", "main", "branch"]);
    assert_eq!(engine.committed_text(), "rebase onto main");
    assert!(engine.committed_len() >= 3);
}

#[test]
fn a_tail_revision_before_commit_does_not_pollute_the_stable_prefix() {
    // Whisper first mishears the tail ("auto"), then corrects it ("onto").
    // Because the two decodes disagreed on that word, it was never committed,
    // so the correction lands cleanly and the stable prefix stays right.
    let mut engine = CommitEngine::new();
    let e0 = engine.observe(&["rebase", "auto"]);
    assert_eq!(e0.committed, "");
    assert_eq!(e0.tail, "rebase auto");
    let e1 = engine.observe(&["rebase", "onto"]);
    // "rebase" agreed across both decodes ⇒ committed; the revised word is the
    // new tail — no "auto" ever leaked into the committed prefix.
    assert_eq!(e1.committed, "rebase");
    assert_eq!(e1.tail, " onto");
    assert_eq!(engine.committed_text(), "rebase");
}

#[test]
fn re_observing_an_unchanged_hypothesis_is_idempotent() {
    let mut engine = CommitEngine::new();
    engine.observe(&["alpha", "beta"]);
    // Second identical decode confirms both words (two passes agree).
    let second = engine.observe(&["alpha", "beta"]);
    assert_eq!(second.committed, "alpha beta");
    assert_eq!(second.tail, "");
    // A third identical decode has nothing new to commit and an empty tail —
    // idempotent re-emit.
    let third = engine.observe(&["alpha", "beta"]);
    assert_eq!(
        third,
        LiveEdit {
            committed: String::new(),
            tail: String::new()
        }
    );
    assert_eq!(engine.committed_text(), "alpha beta");
}

#[test]
fn an_empty_decode_commits_nothing() {
    let mut engine = CommitEngine::new();
    let e = engine.observe(&[]);
    assert_eq!(e, LiveEdit::default());
    assert_eq!(engine.committed_len(), 0);
}

#[test]
fn the_first_committed_word_has_no_leading_space_but_later_ones_do() {
    // Rendering discipline: the very first committed word starts the prompt
    // text (no leading space); every later committed chunk and the tail join
    // with a single separating space.
    let edits = run(&[&["one"], &["one", "two"], &["one", "two", "three"]]);
    assert_eq!(edits[0].tail, "one"); // starts the line
    assert_eq!(edits[1].committed, "one"); // first commit, no leading space
    assert_eq!(edits[1].tail, " two"); // tail joins committed
    assert_eq!(edits[2].committed, " two"); // later commit, leading space
}

#[test]
fn the_preview_always_shows_the_hypothesis() {
    let mut e = CommitEngine::new();
    for h in [
        vec!["rebase"],
        vec!["rebase", "auto"],
        vec!["rebase", "onto", "main"],
        vec!["rebase", "onto", "main", "now"],
        vec!["rebase", "onto", "main", "now"],
    ] {
        let before = e.committed_text();
        let ed = e.observe(&h);
        assert_eq!(e.committed_text(), format!("{}{}", before, ed.committed));
        assert_eq!(format!("{}{}{}", before, ed.committed, ed.tail), h.join(" "));
    }
}
