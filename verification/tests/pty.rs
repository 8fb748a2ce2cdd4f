use ghostty_voice_core::pty::{codepoint_len, edit_bytes, injection_bytes, split_command, PreviewCursor, PtyError};

fn owned(parts: &[&str]) -> Vec<String> {
    parts.iter().map(|s| (*s).to_owned()).collect()
}

#[test]
fn split_command_takes_the_first_arg_as_the_program() {
    let args = owned(&["aider"]);
    let (program, rest) = split_command(&args).unwrap();
    assert_eq!(program, "aider");
    assert!(rest.is_empty());
}

#[test]
fn split_command_passes_ssh_args_through_verbatim() {
    // SSH is just a command: `talk-to ssh host aider` wraps ssh.
    let args = owned(&["ssh", "host", "aider"]);
    let (program, rest) = split_command(&args).unwrap();
    assert_eq!(program, "ssh");
    assert_eq!(rest, &owned(&["host", "aider"])[..]);
}

#[test]
fn split_command_rejects_an_empty_invocation() {
    assert_eq!(split_command(&[]), Err(PtyError::EmptyCommand));
}

#[test]
fn injection_never_carries_a_trailing_newline() {
    // Review-before-Enter: a trailing newline would submit the line.
    for raw in ["hello", "hello\n", "hello\r\n", "hello\n\n"] {
        let bytes = injection_bytes(raw);
        assert!(
            !bytes.ends_with(b"\n") && !bytes.ends_with(b"\r"),
            "injection of {raw:?} must not end in CR/LF",
        );
        assert_eq!(bytes, b"hello");
    }
}

#[test]
fn injection_preserves_internal_spacing_and_trailing_spaces() {
    assert_eq!(injection_bytes("write a function  "), b"write a function  ");
    assert_eq!(injection_bytes("a b\tc"), b"a b\tc");
}

// ---- streaming live-preview edit bytes ------------------------------

/// A stand-in for the wrapped composer's line editor: a buffer of logical
/// chars where the ERASE byte (`0x7f`) deletes one char from the end and every
/// other byte is UTF-8 text appended. Independent of how `edit_bytes` is built
/// — it models *only* "DEL deletes one logical char" — so driving the real
/// edit bytes through it proves they reproduce the intended preview (the same
/// shape as a readline/bash line editor; the real agent composer is the
/// human's one-time manual smoke-test).
#[derive(Default)]
struct LineEditor {
    chars: Vec<char>,
}

impl LineEditor {
    fn apply(&mut self, bytes: &[u8]) {
        // Split the byte stream into ERASE controls and UTF-8 text runs.
        let mut i = 0;
        while i < bytes.len() {
            if bytes[i] == 0x7f {
                self.chars.pop();
                i += 1;
            } else {
                let start = i;
                while i < bytes.len() && bytes[i] != 0x7f {
                    i += 1;
                }
                let text = std::str::from_utf8(&bytes[start..i]).unwrap();
                self.chars.extend(text.chars());
            }
        }
    }

    fn text(&self) -> String {
        self.chars.iter().collect()
    }
}

#[test]
fn edit_bytes_erase_the_old_tail_then_type_committed_and_new_tail() {
    // Erase 4 logical chars, then type the committed chunk and the new tail.
    let bytes = edit_bytes(4, " onto", " main");
    assert_eq!(&bytes[..4], &[0x7f, 0x7f, 0x7f, 0x7f]);
    assert_eq!(&bytes[4..], b" onto main");
}

#[test]
fn deletes_count_unicode_codepoints_not_bytes() {
    // A 3-char tail of multi-byte chars is erased with 3 DELs, not 6+ — the
    // composer deletes logical characters.
    assert_eq!(codepoint_len("café"), 4);
    assert_eq!(codepoint_len("→ x"), 3);
    let bytes = edit_bytes(codepoint_len("café"), "", "");
    assert_eq!(bytes, vec![0x7f, 0x7f, 0x7f, 0x7f]);
}

#[test]
fn a_monotonic_dictation_only_appends_and_never_flickers_the_stable_prefix() {
    // "rebase onto main" arrives word by word; once a word commits it is never
    // erased again. Driving the edits through the stand-in line editor must
    // reproduce the growing prompt with no stable-prefix churn.
    let mut cursor = PreviewCursor::new();
    let mut editor = LineEditor::default();

    // (committed, tail) as the commit engine renders them, decode by decode.
    let edits = [
        ("", "rebase"),
        ("rebase", " onto"),
        (" onto", " main"),
        (" main", ""),
    ];
    let expect = [
        "rebase",
        "rebase onto",
        "rebase onto main",
        "rebase onto main",
    ];
    for ((committed, tail), want) in edits.into_iter().zip(expect) {
        editor.apply(&cursor.apply_edit(committed, tail));
        assert_eq!(editor.text(), want);
    }
    // The settled words are all there; the stable prefix never lost a char.
    assert_eq!(editor.text(), "rebase onto main");
}

#[test]
fn a_tail_revision_rewrites_only_the_tail_leaving_the_stable_prefix_intact() {
    // Whisper mishears the tail ("auto") then corrects it ("onto"); only the
    // tail region is erased and rewritten — "rebase" (committed) is untouched.
    let mut cursor = PreviewCursor::new();
    let mut editor = LineEditor::default();

    editor.apply(&cursor.apply_edit("", "rebase auto"));
    assert_eq!(editor.text(), "rebase auto");
    // "rebase" commits, "auto" → "onto" in the tail.
    let edit = cursor.apply_edit("rebase", " onto");
    // Only the 11-char old tail "rebase auto" is erased (not into the prefix).
    assert_eq!(edit.iter().filter(|&&b| b == 0x7f).count(), 11);
    editor.apply(&edit);
    assert_eq!(editor.text(), "rebase onto");
}

#[test]
fn finalize_erases_the_whole_preview_and_types_the_reconciled_transcript() {
    // The rough preview "run why do tool" is replaced wholesale by the
    // batch-accurate, newline-stripped Transcript — no double-typing.
    let mut cursor = PreviewCursor::new();
    let mut editor = LineEditor::default();
    editor.apply(&cursor.apply_edit("", "run why do tool"));
    assert_eq!(editor.text(), "run why do tool");
    assert_eq!(cursor.preview_len(), 15);

    editor.apply(&cursor.finalize("run ydotool\n"));
    assert_eq!(
        editor.text(),
        "run ydotool",
        "preview replaced, no trailing Enter"
    );
    assert_eq!(cursor.preview_len(), 0, "cursor resets after finalize");
}

#[test]
fn cancel_erases_the_whole_preview_and_types_nothing() {
    // `cancel` during a dictation delivers an empty finalize: the whole rough
    // preview is backspaced and nothing is typed in its place — the prompt is
    // left clean and nothing is delivered.
    let mut cursor = PreviewCursor::new();
    let mut editor = LineEditor::default();
    editor.apply(&cursor.apply_edit("", "rebase onto"));
    assert_eq!(editor.text(), "rebase onto");

    let erase = cursor.finalize("");
    assert_eq!(
        erase,
        vec![0x7f; 11],
        "erases the 11-char preview, types nothing"
    );
    editor.apply(&erase);
    assert_eq!(editor.text(), "", "the streaming buffer is erased");
    assert_eq!(cursor.preview_len(), 0);
}

#[test]
fn reset_clears_the_cursor_between_dictations() {
    let mut cursor = PreviewCursor::new();
    cursor.apply_edit("", "leftover tail");
    assert!(cursor.preview_len() > 0);
    cursor.reset();
    assert_eq!(cursor.preview_len(), 0);
    // A fresh dictation starts from an empty preview (no stray backspaces).
    let bytes = cursor.apply_edit("", "fresh");
    assert!(!bytes.contains(&0x7f));
}
