use ghostty_voice_core::link::{classify_first_line, LinkState, Registration};
use ghostty_voice_core::protocol::{Frame, State};

#[test]
fn link_state_tokens_are_distinct_per_failure_mode() {
    assert_eq!(LinkState::Unreachable.token(), "unreachable");
    assert_eq!(LinkState::Rejected.token(), "rejected");
    assert_eq!(LinkState::Incompatible.token(), "incompatible");
    assert_eq!(LinkState::Dropped.token(), "dropped");
    let tokens = [
        LinkState::Unreachable.token(),
        LinkState::Rejected.token(),
        LinkState::Incompatible.token(),
        LinkState::Dropped.token(),
    ];
    let unique: std::collections::HashSet<_> = tokens.iter().collect();
    assert_eq!(unique.len(), 4, "every link state needs a distinct token");
}

#[test]
fn a_pushed_state_frame_means_we_are_registered() {
    let first = format!("{}\n", Frame::State(State::Idle).encode());
    assert_eq!(classify_first_line(&first), Registration::Registered);
}

#[test]
fn a_pushed_transcript_frame_means_we_are_registered() {
    let first = format!("{}\n", Frame::Transcript("hello world".to_owned()).encode());
    assert_eq!(classify_first_line(&first), Registration::Registered);
}

#[test]
fn an_old_daemons_unknown_command_error_is_an_incompatible_version() {
    assert_eq!(
        classify_first_line("err unknown command: register-sink 1"),
        Registration::Incompatible,
    );
}

#[test]
fn an_explicit_incompatible_error_is_an_incompatible_version() {
    assert_eq!(
        classify_first_line(
            "err incompatible protocol version (daemon speaks 1, client sent 2)"
        ),
        Registration::Incompatible,
    );
}

#[test]
fn another_error_reply_is_a_plain_rejection() {
    assert_eq!(
        classify_first_line("err ydotoold unreachable"),
        Registration::Rejected,
    );
}

#[test]
fn a_one_shot_ok_reply_is_not_a_registration() {
    assert_eq!(classify_first_line("ok idle"), Registration::Rejected);
}

#[test]
fn garbage_is_treated_as_rejected_not_registered() {
    assert_eq!(classify_first_line("\u{fffd}@#$"), Registration::Rejected);
}

#[test]
fn an_error_message_may_be_padded_before_the_reason() {
    assert_eq!(
        classify_first_line("  err    incompatible version \n"),
        Registration::Incompatible,
    );
}
