use ghostty_voice_core::gesture::{Button, ButtonEvent};
use ghostty_voice_core::input::{KeyTracker, RawKeyEvent};
use ghostty_voice_core::key_combo::codes;
use ghostty_voice_core::key_combo::KeyCombo;
use ghostty_voice_core::time::Duration;
use ghostty_voice_core::gesture::command_for;
use ghostty_voice_core::protocol::{Command, State};

fn ms(n: u64) -> Duration {
    Duration::from_millis(n)
}

/// A default Shift+F10 / Shift+F9 tracker, as the shipped config binds.
fn tracker() -> KeyTracker {
    KeyTracker::new(
        KeyCombo::parse("Shift+F10").unwrap(),
        KeyCombo::parse("Shift+F9").unwrap(),
    )
}

#[test]
fn shift_then_start_key_emits_a_down() {
    let mut t = tracker();
    // Shift is a modifier — no event of its own.
    assert_eq!(t.feed(RawKeyEvent::down(codes::KEY_LEFTSHIFT, ms(0))), None);
    assert_eq!(
        t.feed(RawKeyEvent::down(codes::KEY_F10, ms(10))),
        Some(ButtonEvent::Down(Button::Start)),
    );
}

#[test]
fn a_full_press_release_emits_down_then_up_with_held_duration() {
    let mut t = tracker();
    t.feed(RawKeyEvent::down(codes::KEY_LEFTSHIFT, ms(0)));
    assert_eq!(
        t.feed(RawKeyEvent::down(codes::KEY_F10, ms(100))),
        Some(ButtonEvent::Down(Button::Start)),
    );
    assert_eq!(
        t.feed(RawKeyEvent::up(codes::KEY_F10, ms(180))),
        Some(ButtonEvent::Up { button: Button::Start, held: ms(80) }),
    );
}

#[test]
fn start_key_without_shift_is_not_the_start_combo() {
    // No modifier held → Shift+F10 must not fire (avoids a bare-F10 misfire).
    let mut t = tracker();
    assert_eq!(t.feed(RawKeyEvent::down(codes::KEY_F10, ms(0))), None);
    assert_eq!(t.feed(RawKeyEvent::up(codes::KEY_F10, ms(50))), None);
}

#[test]
fn releasing_shift_before_the_key_still_resolves_the_button() {
    // Push-to-talk: the held duration, not the modifier, classifies release.
    // Real users often lift Shift a beat before the main key.
    let mut t = tracker();
    t.feed(RawKeyEvent::down(codes::KEY_LEFTSHIFT, ms(0)));
    assert_eq!(
        t.feed(RawKeyEvent::down(codes::KEY_F10, ms(5))),
        Some(ButtonEvent::Down(Button::Start)),
    );
    // Shift up first — no button event.
    assert_eq!(t.feed(RawKeyEvent::up(codes::KEY_LEFTSHIFT, ms(400))), None);
    // Then the key up — still resolves Start, with the full hold.
    assert_eq!(
        t.feed(RawKeyEvent::up(codes::KEY_F10, ms(420))),
        Some(ButtonEvent::Up { button: Button::Start, held: ms(415) }),
    );
}

#[test]
fn stop_combo_is_tracked_independently() {
    let mut t = tracker();
    t.feed(RawKeyEvent::down(codes::KEY_RIGHTSHIFT, ms(0)));
    assert_eq!(
        t.feed(RawKeyEvent::down(codes::KEY_F9, ms(10))),
        Some(ButtonEvent::Down(Button::Stop)),
    );
    assert_eq!(
        t.feed(RawKeyEvent::up(codes::KEY_F9, ms(600))),
        Some(ButtonEvent::Up { button: Button::Stop, held: ms(590) }),
    );
}

#[test]
fn autorepeat_down_does_not_re_emit_while_held() {
    // evdev autorepeat (value 2) can arrive as extra downs; a second down
    // while already latched must not emit another Down.
    let mut t = tracker();
    t.feed(RawKeyEvent::down(codes::KEY_LEFTSHIFT, ms(0)));
    assert_eq!(
        t.feed(RawKeyEvent::down(codes::KEY_F10, ms(10))),
        Some(ButtonEvent::Down(Button::Start)),
    );
    assert_eq!(t.feed(RawKeyEvent::down(codes::KEY_F10, ms(40))), None);
    assert_eq!(t.feed(RawKeyEvent::down(codes::KEY_F10, ms(70))), None);
    // The eventual release still resolves once, measured from the FIRST down.
    assert_eq!(
        t.feed(RawKeyEvent::up(codes::KEY_F10, ms(110))),
        Some(ButtonEvent::Up { button: Button::Start, held: ms(100) }),
    );
}

#[test]
fn an_unrelated_key_is_ignored_entirely() {
    // Security: only the configured combos produce events; other keys
    // (here 'A') pass through silently — never tracked, never emitted.
    let mut t = tracker();
    t.feed(RawKeyEvent::down(codes::KEY_LEFTSHIFT, ms(0)));
    assert_eq!(
        t.feed(RawKeyEvent::down(ghostty_voice_core::key_combo::key_code("A").unwrap(), ms(10))),
        None,
    );
    assert_eq!(
        t.feed(RawKeyEvent::up(ghostty_voice_core::key_combo::key_code("A").unwrap(), ms(60))),
        None,
    );
}

#[test]
fn a_release_with_no_prior_press_is_ignored() {
    // A key-up for a key we never saw go down (e.g. held across daemon
    // start) must not synthesize a phantom Up.
    let mut t = tracker();
    t.feed(RawKeyEvent::down(codes::KEY_LEFTSHIFT, ms(0)));
    assert_eq!(t.feed(RawKeyEvent::up(codes::KEY_F10, ms(10))), None);
}

#[test]
fn the_full_tap_sequence_drives_a_latch_then_a_stop_tap() {
    // End-to-end through the gesture mapper: a Start tap latches recording
    // (no stop), and a later Stop tap stops it. This is the headline flow.
    let threshold = ms(250);

    let mut t = tracker();
    let mut state = State::Idle;

    // Start tap: down begins recording, quick up latches (no command).
    t.feed(RawKeyEvent::down(codes::KEY_LEFTSHIFT, ms(0)));
    let down = t.feed(RawKeyEvent::down(codes::KEY_F10, ms(10))).unwrap();
    if let Some(c) = command_for(state, down, threshold) {
        assert_eq!(c, Command::Toggle);
        state = State::Recording;
    }
    let up = t.feed(RawKeyEvent::up(codes::KEY_F10, ms(90))).unwrap();
    assert_eq!(command_for(state, up, threshold), None, "tap latches");
    assert_eq!(state, State::Recording);

    // Stop tap: a quick Stop press/release stops the latched recording.
    t.feed(RawKeyEvent::down(codes::KEY_LEFTSHIFT, ms(1000)));
    t.feed(RawKeyEvent::down(codes::KEY_F9, ms(1010)));
    let stop_up = t.feed(RawKeyEvent::up(codes::KEY_F9, ms(1080))).unwrap();
    assert_eq!(command_for(state, stop_up, threshold), Some(Command::Toggle));
}

#[test]
fn button_events_alternate_under_autorepeat_and_stray_releases() {
    let mut t = tracker();
    let mut evs = Vec::new();
    evs.push(t.feed(RawKeyEvent::up(codes::KEY_F10, ms(0))));
    evs.push(t.feed(RawKeyEvent::down(codes::KEY_LEFTSHIFT, ms(1))));
    evs.push(t.feed(RawKeyEvent::down(codes::KEY_F10, ms(2))));
    evs.push(t.feed(RawKeyEvent::down(codes::KEY_F10, ms(3))));
    evs.push(t.feed(RawKeyEvent::up(codes::KEY_F10, ms(10))));
    evs.push(t.feed(RawKeyEvent::up(codes::KEY_F10, ms(11))));
    evs.push(t.feed(RawKeyEvent::down(codes::KEY_F10, ms(12))));
    let events: Vec<ButtonEvent> = evs.into_iter().flatten().collect();
    assert_eq!(events.len(), 3);
    assert_eq!(events[0], ButtonEvent::Down(Button::Start));
    assert!(matches!(events[1], ButtonEvent::Up { button: Button::Start, .. }));
    assert_eq!(events[2], ButtonEvent::Down(Button::Start));
}
