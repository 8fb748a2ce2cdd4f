//! Bind-time conflict evaluation: the facts captured about a chosen key combo become a
//! list of named warnings. An empty list means the combo looks safe; the live "press
//! once" test remains the ground truth.

use vstd::prelude::*;
use crate::key_combo::{KeyCombo, combo_display, is_primary_key, key_name, name_of_code, primary_key};
use crate::text::{push_chars, push_str, chars_of, string_from_chars};

verus! {

/// Facts gathered at the boundary about a captured combo.
#[derive(Debug, Clone, Copy)]
pub struct BindProbes {
    /// The combo the user pressed.
    pub combo: KeyCombo,
    /// The combo's accelerator is already a GNOME custom keybinding.
    pub gsettings_bound: bool,
    /// The captured keycode differed from the key's label: the device remaps it.
    pub remapped: bool,
}

/// The categories of bind-time warning.
#[derive(Debug, Clone, Copy, PartialEq, Eq, Structural)]
pub enum WarningKind {
    /// A normal typing key: without an exclusive grab it both triggers and types.
    PrimaryKey,
    /// The accelerator is already bound in GNOME gsettings.
    AlreadyBound,
    /// The captured code didn't match the key's name.
    Remapped,
}

/// One actionable warning about a chosen combo.
#[derive(Debug, Clone, PartialEq, Eq)]
pub struct Warning {
    /// A stable, machine-checkable kind.
    pub kind: WarningKind,
    /// A human-facing explanation.
    pub message: String,
}

/// The name a primary-key warning uses for `code`.
pub open spec fn key_label(code: u16) -> Seq<char> {
    match name_of_code(code) {
        Some(n) => n,
        None => "that key"@,
    }
}

/// The explanation attached to a primary-key warning.
pub open spec fn primary_message(code: u16) -> Seq<char> {
    key_label(code)
        + " is a primary typing key — it can't be grabbed exclusively, so it will both trigger recording AND type a character. Pick a spare key (an F-key works well)."@
}

/// The explanation attached to an already-bound warning; it names the combo.
pub open spec fn bound_message(c: KeyCombo) -> Seq<char> {
    combo_display(c)
        + " is already a GNOME custom keybinding — pressing it would fire that too. Remove the gsettings binding or choose another key."@
}

/// The explanation attached to a remap warning.
pub open spec fn remap_message() -> Seq<char> {
    "the key emitted a different code than its printed label — your keyboard/mouse software has remapped it. Bind what it actually emits, or undo the remap."@
}

/// A warning as a kind and the characters of its message.
pub open spec fn warning_view(w: Warning) -> (WarningKind, Seq<char>) {
    (w.kind, w.message@)
}

/// The warnings a combo draws, in order: primary key, already bound, remapped.
pub open spec fn warnings_for(p: BindProbes) -> Seq<(WarningKind, Seq<char>)> {
    (if primary_key(p.combo.key) {
        seq![(WarningKind::PrimaryKey, primary_message(p.combo.key))]
    } else {
        Seq::empty()
    }) + (if p.gsettings_bound {
        seq![(WarningKind::AlreadyBound, bound_message(p.combo))]
    } else {
        Seq::empty()
    }) + (if p.remapped {
        seq![(WarningKind::Remapped, remap_message())]
    } else {
        Seq::empty()
    })
}

/// Turn probe facts into the list of warnings (empty means the combo looks safe).
pub fn evaluate(probes: &BindProbes) -> (warnings: Vec<Warning>)
    ensures
        warnings@.map_values(|w: Warning| warning_view(w)) == warnings_for(*probes),
{
    let mut warnings: Vec<Warning> = Vec::new();
    let ghost mut expect: Seq<(WarningKind, Seq<char>)> = Seq::empty();
    if is_primary_key(probes.combo.key) {
        let mut m: Vec<char> = Vec::new();
        match key_name(probes.combo.key) {
            Some(n) => push_str(&mut m, n),
            None => push_str(&mut m, "that key"),
        }
        push_str(
            &mut m,
            " is a primary typing key — it can't be grabbed exclusively, so it will both trigger recording AND type a character. Pick a spare key (an F-key works well).",
        );
        assert(m@ =~= primary_message(probes.combo.key));
        warnings.push(Warning { kind: WarningKind::PrimaryKey, message: string_from_chars(&m) });
        proof {
            expect = seq![(WarningKind::PrimaryKey, primary_message(probes.combo.key))];
        }
    }
    assert(warnings@.map_values(|w: Warning| warning_view(w)) =~= expect);
    if probes.gsettings_bound {
        let d = probes.combo.display();
        let mut m: Vec<char> = chars_of(d.as_str());
        push_str(
            &mut m,
            " is already a GNOME custom keybinding — pressing it would fire that too. Remove the gsettings binding or choose another key.",
        );
        assert(m@ =~= bound_message(probes.combo));
        warnings.push(Warning { kind: WarningKind::AlreadyBound, message: string_from_chars(&m) });
        proof {
            expect = expect.push((WarningKind::AlreadyBound, bound_message(probes.combo)));
        }
    }
    assert(warnings@.map_values(|w: Warning| warning_view(w)) =~= expect);
    if probes.remapped {
        let mut m: Vec<char> = Vec::new();
        push_str(
            &mut m,
            "the key emitted a different code than its printed label — your keyboard/mouse software has remapped it. Bind what it actually emits, or undo the remap.",
        );
        warnings.push(Warning { kind: WarningKind::Remapped, message: string_from_chars(&m) });
        proof {
            expect = expect.push((WarningKind::Remapped, remap_message()));
        }
    }
    assert(warnings@.map_values(|w: Warning| warning_view(w)) =~= expect);
    assert(expect =~= warnings_for(*probes));
    warnings
}

/// True when a combo drew no warnings.
pub fn looks_safe(warnings: &[Warning]) -> (b: bool)
    ensures
        b == (warnings@.len() == 0),
{
    warnings.len() == 0
}

} // verus!
