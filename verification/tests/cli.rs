use ghostty_voice_core::cli::Cmd;

#[test]
fn vad_maps_to_the_vad_wire_word() {
    assert_eq!(Cmd::Vad.word(), Some("vad"));
}

#[test]
fn doctor_is_a_local_only_subcommand() {
    assert_eq!(Cmd::Doctor.word(), None);
}

#[test]
fn continuous_maps_to_the_continuous_wire_word() {
    assert_eq!(Cmd::Continuous.word(), Some("continuous"));
}

#[test]
fn every_socket_command_has_its_wire_word() {
    assert_eq!(Cmd::Toggle.word(), Some("toggle"));
    assert_eq!(Cmd::Cancel.word(), Some("cancel"));
    assert_eq!(Cmd::Status.word(), Some("status"));
    assert_eq!(Cmd::Reload.word(), Some("reload"));
    assert_eq!(Cmd::ReplayLast.word(), Some("replay-last"));
}
