use ghostty_voice_core::cue::{resolve, CueSource};

#[test]
fn empty_is_disabled() {
    assert_eq!(resolve(""), CueSource::Disabled);
    assert_eq!(resolve("   "), CueSource::Disabled);
}

#[test]
fn an_absolute_or_relative_path_is_a_file() {
    assert_eq!(
        resolve("/usr/share/ghostty-voice/start.oga"),
        CueSource::File("/usr/share/ghostty-voice/start.oga".to_owned())
    );
    assert_eq!(
        resolve("~/sounds/stop.wav"),
        CueSource::File("~/sounds/stop.wav".to_owned())
    );
}

#[test]
fn a_theme_prefixed_value_is_a_theme_event() {
    assert_eq!(
        resolve("theme:message-new-instant"),
        CueSource::ThemeEvent("message-new-instant".to_owned())
    );
    assert_eq!(
        resolve("theme: bell"),
        CueSource::ThemeEvent("bell".to_owned())
    );
}

#[test]
fn a_bare_token_defaults_to_a_theme_event() {
    assert_eq!(resolve("bell"), CueSource::ThemeEvent("bell".to_owned()));
}

#[test]
fn surrounding_whitespace_is_trimmed_before_resolving() {
    assert_eq!(resolve("  bell \n"), CueSource::ThemeEvent("bell".to_owned()));
    assert_eq!(resolve(" sounds/a.wav "), CueSource::File("sounds/a.wav".to_owned()));
}
