use ghostty_voice_core::protocol::{
    version_compatible, Command, Frame, ProtocolError, Response, State, StatusReport,
    PROTOCOL_VERSION,
};

#[test]
fn parses_each_command() {
    assert_eq!(Command::parse("toggle").unwrap(), Command::Toggle);
    assert_eq!(Command::parse("vad").unwrap(), Command::Vad);
    assert_eq!(Command::parse("streaming").unwrap(), Command::Streaming);
    assert_eq!(Command::parse("continuous").unwrap(), Command::Continuous);
    assert_eq!(Command::parse("cancel").unwrap(), Command::Cancel);
    assert_eq!(Command::parse("status").unwrap(), Command::Status);
    assert_eq!(Command::parse("reload").unwrap(), Command::Reload);
    assert_eq!(Command::parse("replay-last").unwrap(), Command::ReplayLast);
}

#[test]
fn parsing_trims_and_ignores_case() {
    assert_eq!(Command::parse("  Toggle\n").unwrap(), Command::Toggle);
}

#[test]
fn unknown_command_is_an_error() {
    assert_eq!(
        Command::parse("frobnicate"),
        Err(ProtocolError::UnknownCommand("frobnicate".to_owned())),
    );
}

#[test]
fn states_render_as_wire_tokens() {
    assert_eq!(State::Downloading(None).encode_token(), "downloading");
    assert_eq!(
        State::Downloading(Some(42)).encode_token(),
        "downloading 42"
    );
    assert_eq!(State::Loading.encode_token(), "loading");
    assert_eq!(State::Idle.encode_token(), "idle");
    assert_eq!(State::Recording.encode_token(), "recording");
    assert_eq!(State::Transcribing.encode_token(), "transcribing");
    assert_eq!(State::Streaming.encode_token(), "streaming");
}

#[test]
fn downloading_token_round_trips_with_and_without_a_percent() {
    // The percent is folded into the Downloading state, so a `downloading 42`
    // token reconstructs the exact percent and a bare `downloading` is the
    // percent-unknown (no Content-Length yet) phase.
    for state in [
        State::Downloading(None),
        State::Downloading(Some(0)),
        State::Downloading(Some(42)),
        State::Downloading(Some(100)),
    ] {
        assert_eq!(State::parse(&state.encode_token()), Some(state));
    }
}

#[test]
fn a_bare_downloading_token_is_backward_compatible() {
    // An older daemon emits a bare `downloading` with no percent; the richer
    // parser must still accept it as the percent-unknown phase.
    assert_eq!(State::parse("downloading"), Some(State::Downloading(None)));
}

#[test]
fn a_downloading_token_with_a_bogus_percent_does_not_parse() {
    assert_eq!(
        State::parse("downloading 101"),
        None,
        "over 100% is malformed"
    );
    assert_eq!(State::parse("downloading huge"), None);
    assert_eq!(State::parse("downloading 42 extra"), None);
}

#[test]
fn states_render_human_labels_including_the_percent_form() {
    assert_eq!(State::Downloading(Some(42)).label(), "downloading 42%");
    assert_eq!(State::Downloading(None).label(), "downloading");
    assert_eq!(State::Loading.label(), "loading");
    assert_eq!(State::Idle.label(), "idle");
    assert_eq!(State::Recording.label(), "recording");
    assert_eq!(State::Transcribing.label(), "transcribing");
    assert_eq!(State::Streaming.label(), "streaming");
}

#[test]
fn encodes_ok_and_err_responses() {
    assert_eq!(Response::Accepted(State::Idle).encode(), "ok idle");
    assert_eq!(
        Response::Rejected("whisper-server unreachable".to_owned()).encode(),
        "err whisper-server unreachable",
    );
}

// ---- push-sink protocol -----------------------------------

#[test]
fn parses_a_bare_register_sink_as_a_legacy_no_version_registration() {
    assert_eq!(
        Command::parse("register-sink").unwrap(),
        Command::RegisterSink(None)
    );
    assert_eq!(
        Command::parse(" REGISTER-SINK \n").unwrap(),
        Command::RegisterSink(None)
    );
}

#[test]
fn parses_register_sink_with_a_protocol_version() {
    assert_eq!(
        Command::parse("register-sink 1").unwrap(),
        Command::RegisterSink(Some(1)),
    );
    assert_eq!(
        Command::parse(&format!("register-sink {PROTOCOL_VERSION}")).unwrap(),
        Command::RegisterSink(Some(PROTOCOL_VERSION)),
    );
}

#[test]
fn register_sink_with_a_non_numeric_version_is_an_error() {
    assert!(Command::parse("register-sink twelve").is_err());
}

#[test]
fn version_compatibility_requires_an_exact_match() {
    assert!(version_compatible(PROTOCOL_VERSION, PROTOCOL_VERSION));
    assert!(version_compatible(1, 1));
    assert!(!version_compatible(0, 1), "an older client is incompatible");
    assert!(!version_compatible(2, 1), "a newer client is incompatible");
}

#[test]
fn states_round_trip_through_their_wire_token() {
    for state in [
        State::Downloading(None),
        State::Downloading(Some(7)),
        State::Loading,
        State::Idle,
        State::Recording,
        State::Transcribing,
        State::Streaming,
    ] {
        assert_eq!(State::parse(&state.encode_token()), Some(state));
    }
    assert_eq!(State::parse("bogus"), None);
}

#[test]
fn transcript_frame_round_trips_preserving_internal_spacing() {
    let frame = Frame::Transcript("create a function  that reverses a string".to_owned());
    assert_eq!(
        frame.encode(),
        "transcript create a function  that reverses a string"
    );
    assert_eq!(Frame::parse(&frame.encode()), Ok(frame));
}

#[test]
fn state_frame_round_trips_for_each_state() {
    for state in [
        State::Idle,
        State::Recording,
        State::Transcribing,
        State::Downloading(None),
        State::Downloading(Some(42)),
    ] {
        let frame = Frame::State(state);
        assert_eq!(Frame::parse(&frame.encode()), Ok(frame));
    }
}

#[test]
fn a_pushed_downloading_percent_frame_encodes_and_parses() {
    // The wrapper-sink strip learns the download percent through the same
    // `state` frame mechanism as every other State — `downloading 42` on the
    // wire, two tokens after `state`.
    let frame = Frame::State(State::Downloading(Some(42)));
    assert_eq!(frame.encode(), "state downloading 42");
    assert_eq!(Frame::parse("state downloading 42"), Ok(frame));
    assert_eq!(
        Frame::parse("state downloading"),
        Ok(Frame::State(State::Downloading(None))),
    );
}

#[test]
fn live_edit_frame_round_trips_both_fields_preserving_spacing() {
    // The two space-bearing fields survive the round trip exactly, so the
    // wrapper erases and types precisely what the commit engine rendered.
    let frame = Frame::LiveEdit {
        committed: " onto".to_owned(),
        tail: " main branch".to_owned(),
    };
    assert_eq!(Frame::parse(&frame.encode()), Ok(frame));
}

#[test]
fn live_edit_frame_round_trips_with_empty_fields() {
    // No new commit this decode (empty committed), or an empty tail once the
    // utterance settles — both must round-trip.
    for frame in [
        Frame::LiveEdit {
            committed: String::new(),
            tail: "rebase".to_owned(),
        },
        Frame::LiveEdit {
            committed: " main".to_owned(),
            tail: String::new(),
        },
        Frame::LiveEdit {
            committed: String::new(),
            tail: String::new(),
        },
    ] {
        assert_eq!(Frame::parse(&frame.encode()), Ok(frame));
    }
}

#[test]
fn finalize_frame_round_trips_preserving_internal_spacing() {
    // The reconcile replaces the preview with the batch Transcript; its exact
    // spacing must survive so the typed text matches what was transcribed.
    let frame = Frame::Finalize("run ydotool  on Ghostty".to_owned());
    assert_eq!(frame.encode(), "finalize run ydotool  on Ghostty");
    assert_eq!(Frame::parse(&frame.encode()), Ok(frame));
}

#[test]
fn a_transcript_whose_text_begins_with_finalize_stays_a_transcript() {
    // The `transcript ` prefix is checked before `finalize `.
    let frame = Frame::Transcript("finalize the refactor".to_owned());
    assert_eq!(Frame::parse(&frame.encode()), Ok(frame));
}

#[test]
fn a_transcript_whose_text_begins_with_live_stays_a_transcript() {
    // The `transcript ` prefix is checked before `live-edit `, so a Transcript
    // that happens to begin with "live-edit" is not mis-parsed.
    let frame = Frame::Transcript("live-edit the handler".to_owned());
    assert_eq!(Frame::parse(&frame.encode()), Ok(frame));
}

#[test]
fn a_transcript_whose_text_begins_with_state_stays_a_transcript() {
    // The `transcript ` prefix is checked first, so a transcript that happens
    // to start with the word "state" is not mis-parsed as a state frame.
    let frame = Frame::Transcript("state of the art design".to_owned());
    assert_eq!(Frame::parse(&frame.encode()), Ok(frame));
}

#[test]
fn frame_parse_strips_only_the_trailing_newline() {
    assert_eq!(
        Frame::parse("transcript hello world\n"),
        Ok(Frame::Transcript("hello world".to_owned())),
    );
    assert_eq!(
        Frame::parse("state recording\r\n"),
        Ok(Frame::State(State::Recording)),
    );
}

#[test]
fn frame_parse_rejects_an_unknown_line() {
    assert!(Frame::parse("frobnicate now").is_err());
}

// ---- status report: wrapper count -----

#[test]
fn status_report_encodes_state_and_wrapper_count() {
    let report = StatusReport {
        state: State::Idle,
        wrapper_count: 0,
    };
    assert_eq!(report.encode(), "ok idle wrappers=0");

    let report = StatusReport {
        state: State::Recording,
        wrapper_count: 2,
    };
    assert_eq!(report.encode(), "ok recording wrappers=2");
}

#[test]
fn status_report_round_trips_through_encode_parse() {
    for report in [
        StatusReport {
            state: State::Idle,
            wrapper_count: 0,
        },
        StatusReport {
            state: State::Transcribing,
            wrapper_count: 3,
        },
    ] {
        assert_eq!(StatusReport::parse(&report.encode()), Some(report));
    }
}

#[test]
fn status_report_carries_a_downloading_percent_alongside_the_wrapper_count() {
    // The two-token `downloading 42` state must round-trip next to the
    // `wrappers=` field — the parser isolates the state substring (tokens
    // after `ok` up to the first `wrappers=`).
    let report = StatusReport {
        state: State::Downloading(Some(42)),
        wrapper_count: 1,
    };
    assert_eq!(report.encode(), "ok downloading 42 wrappers=1");
    assert_eq!(StatusReport::parse(&report.encode()), Some(report));

    // The percent-unknown phase is a single state token.
    let report = StatusReport {
        state: State::Downloading(None),
        wrapper_count: 0,
    };
    assert_eq!(report.encode(), "ok downloading wrappers=0");
    assert_eq!(StatusReport::parse(&report.encode()), Some(report));
}

#[test]
fn status_report_parse_accepts_a_bare_ok_downloading_percent() {
    // A pre-wrappers daemon could answer `ok downloading 42` with no suffix;
    // the richer parse still isolates the two-token state and defaults the
    // wrapper count.
    assert_eq!(
        StatusReport::parse("ok downloading 42"),
        Some(StatusReport {
            state: State::Downloading(Some(42)),
            wrapper_count: 0,
        }),
    );
}

#[test]
fn status_report_parse_is_backward_compatible_with_a_bare_ok_state() {
    // An older daemon answers `ok idle` with no suffix. The richer parse must
    // still succeed, defaulting to 0 wrappers rather than failing.
    assert_eq!(
        StatusReport::parse("ok idle"),
        Some(StatusReport {
            state: State::Idle,
            wrapper_count: 0,
        }),
    );
}

#[test]
fn status_report_parse_rejects_a_non_ok_or_unknown_state_line() {
    assert_eq!(StatusReport::parse("err something broke"), None);
    assert_eq!(StatusReport::parse("ok bogus-state"), None);
    assert_eq!(StatusReport::parse("garbage"), None);
}


#[test]
fn a_live_edit_frame_puts_the_unit_separator_between_its_fields() {
    let frame = Frame::LiveEdit {
        committed: " onto".to_owned(),
        tail: " main".to_owned(),
    };
    assert_eq!(frame.encode(), "live-edit  onto\u{1f} main");
}

#[test]
fn register_sink_rejects_a_version_that_does_not_fit() {
    assert!(Command::parse("register-sink 4294967296").is_err());
    assert_eq!(
        Command::parse("register-sink 4294967295").unwrap(),
        Command::RegisterSink(Some(4_294_967_295)),
    );
}
