use ghostty_voice_core::gesture::{command_for, Button, ButtonEvent};
use ghostty_voice_core::protocol::{Command, State};
use ghostty_voice_core::time::Duration;

fn threshold() -> Duration {
    Duration::from_millis(250)
}
fn short() -> Duration {
    Duration::from_millis(80)
}
fn long() -> Duration {
    Duration::from_millis(600)
}

fn down(b: Button) -> ButtonEvent {
    ButtonEvent::Down(b)
}
fn up(b: Button, held: Duration) -> ButtonEvent {
    ButtonEvent::Up { button: b, held }
}

#[test]
fn start_down_begins_recording_when_idle() {
    assert_eq!(
        command_for(State::Idle, down(Button::Start), threshold()),
        Some(Command::Toggle),
    );
}

#[test]
fn start_down_is_ignored_when_already_recording() {
    assert_eq!(
        command_for(State::Recording, down(Button::Start), threshold()),
        None
    );
}

#[test]
fn start_tap_release_latches_no_command() {
    assert_eq!(
        command_for(State::Recording, up(Button::Start, short()), threshold()),
        None,
    );
}

#[test]
fn start_hold_release_is_push_to_talk_stop() {
    assert_eq!(
        command_for(State::Recording, up(Button::Start, long()), threshold()),
        Some(Command::Toggle),
    );
}

#[test]
fn stop_tap_stops_a_latched_recording() {
    assert_eq!(
        command_for(State::Recording, up(Button::Stop, short()), threshold()),
        Some(Command::Toggle),
    );
}

#[test]
fn stop_tap_is_ignored_when_idle() {
    assert_eq!(
        command_for(State::Idle, up(Button::Stop, short()), threshold()),
        None
    );
}

#[test]
fn stop_hold_starts_vad_when_idle() {
    assert_eq!(
        command_for(State::Idle, up(Button::Stop, long()), threshold()),
        Some(Command::Vad),
    );
}

#[test]
fn stop_hold_is_ignored_while_recording() {
    assert_eq!(
        command_for(State::Recording, up(Button::Stop, long()), threshold()),
        None
    );
}

#[test]
fn stop_down_is_a_noop() {
    assert_eq!(
        command_for(State::Idle, down(Button::Stop), threshold()),
        None
    );
}
