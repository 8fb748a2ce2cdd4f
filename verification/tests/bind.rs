use ghostty_voice_core::bind::{evaluate, looks_safe, BindProbes, WarningKind};
use ghostty_voice_core::key_combo::codes;
use ghostty_voice_core::key_combo::{KeyCombo, Modifiers};

fn probes(combo: &str) -> BindProbes {
    BindProbes {
        combo: KeyCombo::parse(combo).unwrap(),
        gsettings_bound: false,
        remapped: false,
    }
}

#[test]
fn a_spare_function_key_combo_is_clean() {
    let warnings = evaluate(&probes("Shift+F10"));
    assert!(looks_safe(&warnings), "got {warnings:?}");
}

#[test]
fn a_primary_key_is_flagged() {
    let warnings = evaluate(&probes("Shift+D"));
    assert!(warnings.iter().any(|w| w.kind == WarningKind::PrimaryKey));
}

#[test]
fn an_already_bound_accelerator_is_flagged() {
    let p = BindProbes {
        gsettings_bound: true,
        ..probes("Shift+F10")
    };
    let warnings = evaluate(&p);
    assert!(warnings.iter().any(|w| w.kind == WarningKind::AlreadyBound));
    let bound = warnings
        .iter()
        .find(|w| w.kind == WarningKind::AlreadyBound)
        .unwrap();
    assert!(bound.message.contains("Shift+F10"));
}

#[test]
fn a_remapped_key_is_flagged() {
    let p = BindProbes {
        remapped: true,
        ..probes("Shift+F10")
    };
    let warnings = evaluate(&p);
    assert!(warnings.iter().any(|w| w.kind == WarningKind::Remapped));
}

#[test]
fn multiple_problems_accumulate() {
    let p = BindProbes {
        gsettings_bound: true,
        ..probes("Shift+A")
    };
    let warnings = evaluate(&p);
    assert!(!looks_safe(&warnings));
    assert!(warnings.iter().any(|w| w.kind == WarningKind::PrimaryKey));
    assert!(warnings.iter().any(|w| w.kind == WarningKind::AlreadyBound));
}

#[test]
fn the_default_start_key_is_a_spare() {
    let p = BindProbes {
        combo: KeyCombo {
            modifiers: Modifiers {
                shift: true,
                ctrl: false,
                alt: false,
            },
            key: codes::KEY_F10,
        },
        gsettings_bound: false,
        remapped: false,
    };
    assert!(looks_safe(&evaluate(&p)));
}

#[test]
fn a_primary_key_warning_names_the_key_and_explains_the_double_fire() {
    let warnings = evaluate(&probes("Shift+D"));
    assert_eq!(warnings.len(), 1);
    assert_eq!(
        warnings[0].message,
        "D is a primary typing key — it can't be grabbed exclusively, so it will both trigger recording AND type a character. Pick a spare key (an F-key works well)."
    );
}

#[test]
fn warnings_come_in_primary_bound_remapped_order() {
    let p = BindProbes {
        gsettings_bound: true,
        remapped: true,
        ..probes("Ctrl+A")
    };
    let kinds: Vec<WarningKind> = evaluate(&p).iter().map(|w| w.kind).collect();
    assert_eq!(
        kinds,
        vec![WarningKind::PrimaryKey, WarningKind::AlreadyBound, WarningKind::Remapped]
    );
}
