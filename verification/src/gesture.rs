//! Button-gesture mapping: the two bound buttons (Start and Stop) turned into daemon
//! commands with tap-versus-hold semantics. Start down begins recording at once; a held
//! Start release is push-to-talk stop while a tap latches; a Stop tap stops a latched
//! recording and a held Stop starts a VAD recording.

use vstd::prelude::*;
use crate::protocol::{Command, State};
use crate::time::Duration;

verus! {

/// The two bound buttons.
#[derive(Debug, Clone, Copy, PartialEq, Eq, Structural)]
pub enum Button {
    Start,
    Stop,
}

/// A button press, or a release carrying how long the button was held.
#[derive(Debug, Clone, Copy, PartialEq, Eq, Structural)]
pub enum ButtonEvent {
    Down(Button),
    Up { button: Button, held: Duration },
}

/// The command a gesture issues in `state`, if any.
pub open spec fn gesture_command(state: State, event: ButtonEvent, hold: nat) -> Option<Command> {
    match event {
        ButtonEvent::Down(Button::Start) => if state == State::Idle {
            Some(Command::Toggle)
        } else {
            None
        },
        ButtonEvent::Down(Button::Stop) => None,
        ButtonEvent::Up { button: Button::Start, held } => if held@ >= hold && state
            == State::Recording {
            Some(Command::Toggle)
        } else {
            None
        },
        ButtonEvent::Up { button: Button::Stop, held } => if held@ < hold {
            if state == State::Recording {
                Some(Command::Toggle)
            } else {
                None
            }
        } else if state == State::Idle {
            Some(Command::Vad)
        } else {
            None
        },
    }
}

/// The daemon command a gesture should issue, given the current state, or `None`.
pub fn command_for(state: State, event: ButtonEvent, hold_threshold: Duration) -> (c: Option<Command>)
    ensures
        c == gesture_command(state, event, hold_threshold@),
{
    match event {
        ButtonEvent::Down(Button::Start) => if state == State::Idle {
            Some(Command::Toggle)
        } else {
            None
        },
        ButtonEvent::Down(Button::Stop) => None,
        ButtonEvent::Up { button: Button::Start, held } => if !held.shorter_than(&hold_threshold)
            && state == State::Recording {
            Some(Command::Toggle)
        } else {
            None
        },
        ButtonEvent::Up { button: Button::Stop, held } => {
            if held.shorter_than(&hold_threshold) {
                if state == State::Recording {
                    Some(Command::Toggle)
                } else {
                    None
                }
            } else if state == State::Idle {
                Some(Command::Vad)
            } else {
                None
            }
        },
    }
}

} // verus!
