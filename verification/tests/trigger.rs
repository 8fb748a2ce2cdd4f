use ghostty_voice_core::trigger::{route_keyboard, scan, KeyboardAction, Segment, Trigger};

#[test]
fn shift_f10_alone_is_a_toggle_trigger_and_is_consumed() {
    assert_eq!(scan(b"\x1b[21;2~"), vec![Segment::Trigger(Trigger::Toggle)]);
}

#[test]
fn shift_f9_alone_is_a_vad_trigger_and_is_consumed() {
    assert_eq!(scan(b"\x1b[20;2~"), vec![Segment::Trigger(Trigger::Vad)]);
}

#[test]
fn the_triggers_map_to_their_wire_command_words() {
    assert_eq!(Trigger::Toggle.command_word(), "toggle");
    assert_eq!(Trigger::Vad.command_word(), "vad");
}

#[test]
fn ordinary_text_passes_through_untouched() {
    assert_eq!(scan(b"ls -la\n"), vec![Segment::Forward(b"ls -la\n")]);
}

#[test]
fn an_empty_buffer_yields_nothing() {
    assert_eq!(scan(b""), Vec::<Segment>::new());
}

#[test]
fn bare_f9_and_f10_pass_through_untouched() {
    // Unshifted function keys (`ESC [ 20 ~` / `ESC [ 21 ~`) are NOT triggers;
    // they must reach the wrapped agent verbatim.
    assert_eq!(scan(b"\x1b[20~"), vec![Segment::Forward(b"\x1b[20~")]);
    assert_eq!(scan(b"\x1b[21~"), vec![Segment::Forward(b"\x1b[21~")]);
}

#[test]
fn the_f12_debug_key_passes_through_untouched() {
    // F12 (`ESC [ 24 ~`) is talk-to's separate debug aid — not a trigger here.
    assert_eq!(scan(b"\x1b[24~"), vec![Segment::Forward(b"\x1b[24~")]);
}

#[test]
fn a_trigger_embedded_in_text_splits_around_it() {
    // A trigger that lands in the same read as ordinary bytes is extracted,
    // and the surrounding bytes still forward in order.
    assert_eq!(
        scan(b"ab\x1b[21;2~cd"),
        vec![
            Segment::Forward(b"ab"),
            Segment::Trigger(Trigger::Toggle),
            Segment::Forward(b"cd"),
        ],
    );
}

#[test]
fn two_triggers_back_to_back_both_resolve() {
    assert_eq!(
        scan(b"\x1b[21;2~\x1b[20;2~"),
        vec![
            Segment::Trigger(Trigger::Toggle),
            Segment::Trigger(Trigger::Vad),
        ],
    );
}

#[test]
fn a_lone_escape_is_forwarded_not_swallowed() {
    // A bare ESC (e.g. the user pressing Escape) must not be eaten while
    // looking for a trigger sequence.
    assert_eq!(scan(b"\x1b"), vec![Segment::Forward(b"\x1b")]);
}

#[test]
fn keyboard_input_is_forwarded_and_triggers_are_sent() {
    let acts = route_keyboard(b"ab\x1b[21;2~cd", false);
    assert_eq!(acts.len(), 3);
    assert!(matches!(&acts[0], KeyboardAction::Write(b) if b.as_slice() == b"ab"));
    assert!(matches!(&acts[1], KeyboardAction::Send(Trigger::Toggle)));
    assert!(matches!(&acts[2], KeyboardAction::Write(b) if b.as_slice() == b"cd"));
}

#[test]
fn the_debug_key_injects_the_fixed_sentence() {
    let acts = route_keyboard(b"\x1b[24~", false);
    assert_eq!(acts.len(), 1);
    assert!(matches!(&acts[0], KeyboardAction::Write(b)
        if b.as_slice() == b"create a function that reverses a string"));
}

#[test]
fn while_streaming_only_triggers_get_through() {
    let acts = route_keyboard(b"typing\x1b[20;2~more\x1b[24~", true);
    assert_eq!(acts.len(), 1);
    assert!(matches!(&acts[0], KeyboardAction::Send(Trigger::Vad)));
}
