//! Key-combo parsing and matching (evdev input layer).
//!
//! A combo such as `Shift+F10` is a main key plus an exact set of modifiers. Parsing
//! turns the human string into evdev keycodes (the kernel's `input-event-codes.h`
//! numbers); matching asks whether a pressed keycode under the current modifier state
//! is this combo.

use vstd::prelude::*;
use crate::text::{
    chars_eq_str, split_chars, split_on, chars_of, lower_chars, lower_seq, push_chars, push_str, string_from_chars, trim, trim_chars,
    split_fold, trim_end, trim_start, lemma_split_fold_append_field, lemma_split_fold_append_plain,
};
use self::table_facts::{lemma_name_found, lemma_name_not_modifier, lemma_name_plain, lemma_names_distinct};

pub mod codes;
mod table_facts;

verus! {

/// Which modifiers a combo requires (or, derived from held keys, which are down).
#[derive(Debug, Clone, Copy, PartialEq, Eq, Default, Structural)]
pub struct Modifiers {
    pub shift: bool,
    pub ctrl: bool,
    pub alt: bool,
}

impl Modifiers {
    /// No modifier held or required.
    pub fn none() -> (m: Modifiers)
        ensures
            !m.shift && !m.ctrl && !m.alt,
    {
        Modifiers { shift: false, ctrl: false, alt: false }
    }
}

/// A parsed key combo: a main key plus the exact modifier set it needs.
#[derive(Debug, Clone, Copy, PartialEq, Eq, Structural)]
pub struct KeyCombo {
    pub modifiers: Modifiers,
    pub key: u16,
}

/// Why a combo string could not be parsed.
#[derive(Debug, Clone, PartialEq, Eq)]
pub enum ComboError {
    /// The string named no key.
    Empty,
    /// A token names neither a modifier nor a known key.
    UnknownKey(String),
    /// More than one non-modifier key was given.
    MultipleKeys,
}

/// The number of named keys.
pub open spec fn key_count() -> int {
    66
}

/// The named-key table: entry `i` is a human name and its evdev keycode. Letters and
/// digits follow QWERTY scancode order.
pub open spec fn key_table() -> Seq<(Seq<char>, u16)> {
    seq![
        (seq!['F', '1'], 59u16),
        (seq!['F', '2'], 60u16),
        (seq!['F', '3'], 61u16),
        (seq!['F', '4'], 62u16),
        (seq!['F', '5'], 63u16),
        (seq!['F', '6'], 64u16),
        (seq!['F', '7'], 65u16),
        (seq!['F', '8'], 66u16),
        (seq!['F', '9'], 67u16),
        (seq!['F', '1', '0'], 68u16),
        (seq!['F', '1', '1'], 87u16),
        (seq!['F', '1', '2'], 88u16),
        (seq!['1'], 2u16),
        (seq!['2'], 3u16),
        (seq!['3'], 4u16),
        (seq!['4'], 5u16),
        (seq!['5'], 6u16),
        (seq!['6'], 7u16),
        (seq!['7'], 8u16),
        (seq!['8'], 9u16),
        (seq!['9'], 10u16),
        (seq!['0'], 11u16),
        (seq!['Q'], 16u16),
        (seq!['W'], 17u16),
        (seq!['E'], 18u16),
        (seq!['R'], 19u16),
        (seq!['T'], 20u16),
        (seq!['Y'], 21u16),
        (seq!['U'], 22u16),
        (seq!['I'], 23u16),
        (seq!['O'], 24u16),
        (seq!['P'], 25u16),
        (seq!['A'], 30u16),
        (seq!['S'], 31u16),
        (seq!['D'], 32u16),
        (seq!['F'], 33u16),
        (seq!['G'], 34u16),
        (seq!['H'], 35u16),
        (seq!['J'], 36u16),
        (seq!['K'], 37u16),
        (seq!['L'], 38u16),
        (seq!['Z'], 44u16),
        (seq!['X'], 45u16),
        (seq!['C'], 46u16),
        (seq!['V'], 47u16),
        (seq!['B'], 48u16),
        (seq!['N'], 49u16),
        (seq!['M'], 50u16),
        (seq!['B', 'a', 'c', 'k', 's', 'p', 'a', 'c', 'e'], 14u16),
        (seq!['T', 'a', 'b'], 15u16),
        (seq!['E', 'n', 't', 'e', 'r'], 28u16),
        (seq!['S', 'p', 'a', 'c', 'e'], 57u16),
        (seq!['E', 's', 'c'], 1u16),
        (seq!['I', 'n', 's', 'e', 'r', 't'], 110u16),
        (seq!['D', 'e', 'l', 'e', 't', 'e'], 111u16),
        (seq!['H', 'o', 'm', 'e'], 102u16),
        (seq!['E', 'n', 'd'], 107u16),
        (seq!['P', 'a', 'g', 'e', 'U', 'p'], 104u16),
        (seq!['P', 'a', 'g', 'e', 'D', 'o', 'w', 'n'], 109u16),
        (seq!['U', 'p'], 103u16),
        (seq!['D', 'o', 'w', 'n'], 108u16),
        (seq!['L', 'e', 'f', 't'], 105u16),
        (seq!['R', 'i', 'g', 'h', 't'], 106u16),
        (seq!['P', 'r', 'i', 'n', 't', 'S', 'c', 'r', 'e', 'e', 'n'], 99u16),
        (seq!['S', 'c', 'r', 'o', 'l', 'l', 'L', 'o', 'c', 'k'], 70u16),
        (seq!['P', 'a', 'u', 's', 'e'], 119u16),
    ]
}

/// Entry `i` of the named-key table.
pub open spec fn key_entry(i: int) -> (Seq<char>, u16) {
    key_table()[i]
}

fn key_entry_exec(i: usize) -> (e: (&'static str, u16))
    requires
        i < key_count(),
    ensures
        e.0@ == key_entry(i as int).0,
        e.1 == key_entry(i as int).1,
{
    match i {
        0 => {
            proof {
                reveal_strlit("F1");
                assert("F1"@ =~= seq!['F', '1']);
            }
            ("F1", 59)
        },
        1 => {
            proof {
                reveal_strlit("F2");
                assert("F2"@ =~= seq!['F', '2']);
            }
            ("F2", 60)
        },
        2 => {
            proof {
                reveal_strlit("F3");
                assert("F3"@ =~= seq!['F', '3']);
            }
            ("F3", 61)
        },
        3 => {
            proof {
                reveal_strlit("F4");
                assert("F4"@ =~= seq!['F', '4']);
            }
            ("F4", 62)
        },
        4 => {
            proof {
                reveal_strlit("F5");
                assert("F5"@ =~= seq!['F', '5']);
            }
            ("F5", 63)
        },
        5 => {
            proof {
                reveal_strlit("F6");
                assert("F6"@ =~= seq!['F', '6']);
            }
            ("F6", 64)
        },
        6 => {
            proof {
                reveal_strlit("F7");
                assert("F7"@ =~= seq!['F', '7']);
            }
            ("F7", 65)
        },
        7 => {
            proof {
                reveal_strlit("F8");
                assert("F8"@ =~= seq!['F', '8']);
            }
            ("F8", 66)
        },
        8 => {
            proof {
                reveal_strlit("F9");
                assert("F9"@ =~= seq!['F', '9']);
            }
            ("F9", 67)
        },
        9 => {
            proof {
                reveal_strlit("F10");
                assert("F10"@ =~= seq!['F', '1', '0']);
            }
            ("F10", 68)
        },
        10 => {
            proof {
                reveal_strlit("F11");
                assert("F11"@ =~= seq!['F', '1', '1']);
            }
            ("F11", 87)
        },
        11 => {
            proof {
                reveal_strlit("F12");
                assert("F12"@ =~= seq!['F', '1', '2']);
            }
            ("F12", 88)
        },
        12 => {
            proof {
                reveal_strlit("1");
                assert("1"@ =~= seq!['1']);
            }
            ("1", 2)
        },
        13 => {
            proof {
                reveal_strlit("2");
                assert("2"@ =~= seq!['2']);
            }
            ("2", 3)
        },
        14 => {
            proof {
                reveal_strlit("3");
                assert("3"@ =~= seq!['3']);
            }
            ("3", 4)
        },
        15 => {
            proof {
                reveal_strlit("4");
                assert("4"@ =~= seq!['4']);
            }
            ("4", 5)
        },
        16 => {
            proof {
                reveal_strlit("5");
                assert("5"@ =~= seq!['5']);
            }
            ("5", 6)
        },
        17 => {
            proof {
                reveal_strlit("6");
                assert("6"@ =~= seq!['6']);
            }
            ("6", 7)
        },
        18 => {
            proof {
                reveal_strlit("7");
                assert("7"@ =~= seq!['7']);
            }
            ("7", 8)
        },
        19 => {
            proof {
                reveal_strlit("8");
                assert("8"@ =~= seq!['8']);
            }
            ("8", 9)
        },
        20 => {
            proof {
                reveal_strlit("9");
                assert("9"@ =~= seq!['9']);
            }
            ("9", 10)
        },
        21 => {
            proof {
                reveal_strlit("0");
                assert("0"@ =~= seq!['0']);
            }
            ("0", 11)
        },
        22 => {
            proof {
                reveal_strlit("Q");
                assert("Q"@ =~= seq!['Q']);
            }
            ("Q", 16)
        },
        23 => {
            proof {
                reveal_strlit("W");
                assert("W"@ =~= seq!['W']);
            }
            ("W", 17)
        },
        24 => {
            proof {
                reveal_strlit("E");
                assert("E"@ =~= seq!['E']);
            }
            ("E", 18)
        },
        25 => {
            proof {
                reveal_strlit("R");
                assert("R"@ =~= seq!['R']);
            }
            ("R", 19)
        },
        26 => {
            proof {
                reveal_strlit("T");
                assert("T"@ =~= seq!['T']);
            }
            ("T", 20)
        },
        27 => {
            proof {
                reveal_strlit("Y");
                assert("Y"@ =~= seq!['Y']);
            }
            ("Y", 21)
        },
        28 => {
            proof {
                reveal_strlit("U");
                assert("U"@ =~= seq!['U']);
            }
            ("U", 22)
        },
        29 => {
            proof {
                reveal_strlit("I");
                assert("I"@ =~= seq!['I']);
            }
            ("I", 23)
        },
        30 => {
            proof {
                reveal_strlit("O");
                assert("O"@ =~= seq!['O']);
            }
            ("O", 24)
        },
        31 => {
            proof {
                reveal_strlit("P");
                assert("P"@ =~= seq!['P']);
            }
            ("P", 25)
        },
        32 => {
            proof {
                reveal_strlit("A");
                assert("A"@ =~= seq!['A']);
            }
            ("A", 30)
        },
        33 => {
            proof {
                reveal_strlit("S");
                assert("S"@ =~= seq!['S']);
            }
            ("S", 31)
        },
        34 => {
            proof {
                reveal_strlit("D");
                assert("D"@ =~= seq!['D']);
            }
            ("D", 32)
        },
        35 => {
            proof {
                reveal_strlit("F");
                assert("F"@ =~= seq!['F']);
            }
            ("F", 33)
        },
        36 => {
            proof {
                reveal_strlit("G");
                assert("G"@ =~= seq!['G']);
            }
            ("G", 34)
        },
        37 => {
            proof {
                reveal_strlit("H");
                assert("H"@ =~= seq!['H']);
            }
            ("H", 35)
        },
        38 => {
            proof {
                reveal_strlit("J");
                assert("J"@ =~= seq!['J']);
            }
            ("J", 36)
        },
        39 => {
            proof {
                reveal_strlit("K");
                assert("K"@ =~= seq!['K']);
            }
            ("K", 37)
        },
        40 => {
            proof {
                reveal_strlit("L");
                assert("L"@ =~= seq!['L']);
            }
            ("L", 38)
        },
        41 => {
            proof {
                reveal_strlit("Z");
                assert("Z"@ =~= seq!['Z']);
            }
            ("Z", 44)
        },
        42 => {
            proof {
                reveal_strlit("X");
                assert("X"@ =~= seq!['X']);
            }
            ("X", 45)
        },
        43 => {
            proof {
                reveal_strlit("C");
                assert("C"@ =~= seq!['C']);
            }
            ("C", 46)
        },
        44 => {
            proof {
                reveal_strlit("V");
                assert("V"@ =~= seq!['V']);
            }
            ("V", 47)
        },
        45 => {
            proof {
                reveal_strlit("B");
                assert("B"@ =~= seq!['B']);
            }
            ("B", 48)
        },
        46 => {
            proof {
                reveal_strlit("N");
                assert("N"@ =~= seq!['N']);
            }
            ("N", 49)
        },
        47 => {
            proof {
                reveal_strlit("M");
                assert("M"@ =~= seq!['M']);
            }
            ("M", 50)
        },
        48 => {
            proof {
                reveal_strlit("Backspace");
                assert("Backspace"@ =~= seq!['B', 'a', 'c', 'k', 's', 'p', 'a', 'c', 'e']);
            }
            ("Backspace", 14)
        },
        49 => {
            proof {
                reveal_strlit("Tab");
                assert("Tab"@ =~= seq!['T', 'a', 'b']);
            }
            ("Tab", 15)
        },
        50 => {
            proof {
                reveal_strlit("Enter");
                assert("Enter"@ =~= seq!['E', 'n', 't', 'e', 'r']);
            }
            ("Enter", 28)
        },
        51 => {
            proof {
                reveal_strlit("Space");
                assert("Space"@ =~= seq!['S', 'p', 'a', 'c', 'e']);
            }
            ("Space", 57)
        },
        52 => {
            proof {
                reveal_strlit("Esc");
                assert("Esc"@ =~= seq!['E', 's', 'c']);
            }
            ("Esc", 1)
        },
        53 => {
            proof {
                reveal_strlit("Insert");
                assert("Insert"@ =~= seq!['I', 'n', 's', 'e', 'r', 't']);
            }
            ("Insert", 110)
        },
        54 => {
            proof {
                reveal_strlit("Delete");
                assert("Delete"@ =~= seq!['D', 'e', 'l', 'e', 't', 'e']);
            }
            ("Delete", 111)
        },
        55 => {
            proof {
                reveal_strlit("Home");
                assert("Home"@ =~= seq!['H', 'o', 'm', 'e']);
            }
            ("Home", 102)
        },
        56 => {
            proof {
                reveal_strlit("End");
                assert("End"@ =~= seq!['E', 'n', 'd']);
            }
            ("End", 107)
        },
        57 => {
            proof {
                reveal_strlit("PageUp");
                assert("PageUp"@ =~= seq!['P', 'a', 'g', 'e', 'U', 'p']);
            }
            ("PageUp", 104)
        },
        58 => {
            proof {
                reveal_strlit("PageDown");
                assert("PageDown"@ =~= seq!['P', 'a', 'g', 'e', 'D', 'o', 'w', 'n']);
            }
            ("PageDown", 109)
        },
        59 => {
            proof {
                reveal_strlit("Up");
                assert("Up"@ =~= seq!['U', 'p']);
            }
            ("Up", 103)
        },
        60 => {
            proof {
                reveal_strlit("Down");
                assert("Down"@ =~= seq!['D', 'o', 'w', 'n']);
            }
            ("Down", 108)
        },
        61 => {
            proof {
                reveal_strlit("Left");
                assert("Left"@ =~= seq!['L', 'e', 'f', 't']);
            }
            ("Left", 105)
        },
        62 => {
            proof {
                reveal_strlit("Right");
                assert("Right"@ =~= seq!['R', 'i', 'g', 'h', 't']);
            }
            ("Right", 106)
        },
        63 => {
            proof {
                reveal_strlit("PrintScreen");
                assert("PrintScreen"@ =~= seq!['P', 'r', 'i', 'n', 't', 'S', 'c', 'r', 'e', 'e', 'n']);
            }
            ("PrintScreen", 99)
        },
        64 => {
            proof {
                reveal_strlit("ScrollLock");
                assert("ScrollLock"@ =~= seq!['S', 'c', 'r', 'o', 'l', 'l', 'L', 'o', 'c', 'k']);
            }
            ("ScrollLock", 70)
        },
        65 => {
            proof {
                reveal_strlit("Pause");
                assert("Pause"@ =~= seq!['P', 'a', 'u', 's', 'e']);
            }
            ("Pause", 119)
        },
        _ => {
            assert(false);
            ("", 0)
        },
    }
}

/// Whether `a` and `b` are equal ignoring ASCII case.
pub open spec fn eq_ci(a: Seq<char>, b: Seq<char>) -> bool {
    lower_seq(a) == lower_seq(b)
}

/// The first table entry at or after `i` whose name matches `name` ignoring ASCII case.
pub open spec fn first_name_match(name: Seq<char>, i: int) -> Option<int>
    decreases key_count() - i,
{
    if i < 0 || i >= key_count() {
        None
    } else if eq_ci(key_entry(i).0, name) {
        Some(i)
    } else {
        first_name_match(name, i + 1)
    }
}

/// The first table entry at or after `i` with keycode `code`.
pub open spec fn first_code_match(code: u16, i: int) -> Option<int>
    decreases key_count() - i,
{
    if i < 0 || i >= key_count() {
        None
    } else if key_entry(i).1 == code {
        Some(i)
    } else {
        first_code_match(code, i + 1)
    }
}

/// The keycode a (trimmed, case-insensitive) key name denotes.
pub open spec fn code_of_name(name: Seq<char>) -> Option<u16> {
    match first_name_match(trim(name), 0) {
        Some(i) => Some(key_entry(i).1),
        None => None,
    }
}

/// The canonical name of a keycode.
pub open spec fn name_of_code(code: u16) -> Option<Seq<char>> {
    match first_code_match(code, 0) {
        Some(i) => Some(key_entry(i).0),
        None => None,
    }
}

/// The evdev keycode for a named key (trimmed, case-insensitive), or `None` if unknown.
pub fn key_code(name: &str) -> (r: Option<u16>)
    ensures
        r == code_of_name(name@),
{
    let raw = chars_of(name);
    let n = trim_chars(&raw);
    let ln = lower_chars(&n);
    let mut i: usize = 0;
    while i < 66
        invariant
            i <= key_count(),
            first_name_match(n@, 0) == first_name_match(n@, i as int),
            ln@ == lower_seq(n@),
            n@ == trim(name@),
        decreases key_count() - i,
    {
        let (k, c) = key_entry_exec(i);
        let kc = chars_of(k);
        let lk = lower_chars(&kc);
        if crate::text::chars_eq(&lk, &ln) {
            assert(eq_ci(key_entry(i as int).0, n@));
            assert(first_name_match(n@, i as int) == Some(i as int));
            return Some(c);
        }
        i += 1;
    }
    None
}

/// The canonical name for a keycode, or `None` if the table does not name it.
pub fn key_name(code: u16) -> (r: Option<&'static str>)
    ensures
        r matches Some(s) ==> name_of_code(code) == Some(s@),
        r is None ==> name_of_code(code) is None,
{
    let mut i: usize = 0;
    while i < 66
        invariant
            i <= key_count(),
            first_code_match(code, 0) == first_code_match(code, i as int),
        decreases key_count() - i,
    {
        let (k, c) = key_entry_exec(i);
        if c == code {
            return Some(k);
        }
        i += 1;
    }
    None
}

/// Whether `code` is a primary typing key: a letter, a digit, or space, enter, tab or
/// backspace.
pub open spec fn primary_key(code: u16) -> bool {
    (2 <= code <= 11) || (16 <= code <= 25) || (30 <= code <= 38) || (44 <= code <= 50) || code
        == 14 || code == 15 || code == 28 || code == 57
}

/// True if `code` is a primary typing key (binding one would double-fire as a typed
/// character).
pub fn is_primary_key(code: u16) -> (b: bool)
    ensures
        b == primary_key(code),
{
    let letters_digits = (2 <= code && code <= 11) || (16 <= code && code <= 25) || (30 <= code
        && code <= 38) || (44 <= code && code <= 50);
    let whitespace = code == 14 || code == 15 || code == 28 || code == 57;
    letters_digits || whitespace
}

#[derive(Debug, Clone, Copy)]
enum Modifier {
    Shift,
    Ctrl,
    Alt,
}

/// Which modifier flag a token names: 0 shift, 1 ctrl, 2 alt (case-insensitive;
/// `control` is accepted for ctrl).
pub open spec fn modifier_index(token: Seq<char>) -> Option<int> {
    let l = lower_seq(token);
    if l == seq!['s', 'h', 'i', 'f', 't'] {
        Some(0)
    } else if l == seq!['c', 't', 'r', 'l'] || l == seq!['c', 'o', 'n', 't', 'r', 'o', 'l'] {
        Some(1)
    } else if l == seq!['a', 'l', 't'] {
        Some(2)
    } else {
        None
    }
}

fn modifier_of(token: &[char]) -> (m: Option<Modifier>)
    ensures
        m matches Some(Modifier::Shift) <==> modifier_index(token@) == Some(0int),
        m matches Some(Modifier::Ctrl) <==> modifier_index(token@) == Some(1int),
        m matches Some(Modifier::Alt) <==> modifier_index(token@) == Some(2int),
        m is None <==> modifier_index(token@) is None,
{
    let l = lower_chars(token);
    proof {
        reveal_strlit("shift");
        reveal_strlit("ctrl");
        reveal_strlit("control");
        reveal_strlit("alt");
        assert("shift"@ =~= seq!['s', 'h', 'i', 'f', 't']);
        assert("ctrl"@ =~= seq!['c', 't', 'r', 'l']);
        assert("control"@ =~= seq!['c', 'o', 'n', 't', 'r', 'o', 'l']);
        assert("alt"@ =~= seq!['a', 'l', 't']);
    }
    if chars_eq_str(&l, "shift") {
        Some(Modifier::Shift)
    } else if chars_eq_str(&l, "ctrl") || chars_eq_str(&l, "control") {
        Some(Modifier::Ctrl)
    } else if chars_eq_str(&l, "alt") {
        Some(Modifier::Alt)
    } else {
        None
    }
}

/// Why parsing failed, abstractly.
pub ghost enum ComboErrorView {
    Empty,
    UnknownKey(Seq<char>),
    MultipleKeys,
}

impl View for ComboError {
    type V = ComboErrorView;

    open spec fn view(&self) -> ComboErrorView {
        match self {
            ComboError::Empty => ComboErrorView::Empty,
            ComboError::UnknownKey(k) => ComboErrorView::UnknownKey(k@),
            ComboError::MultipleKeys => ComboErrorView::MultipleKeys,
        }
    }
}

/// The human-readable text of a parse error.
pub open spec fn combo_error_text(e: ComboErrorView) -> Seq<char> {
    match e {
        ComboErrorView::Empty => "empty key combo"@,
        ComboErrorView::UnknownKey(k) => "unknown key: "@ + k,
        ComboErrorView::MultipleKeys => "a combo may have only one non-modifier key"@,
    }
}

impl ComboError {
    /// The error as a sentence for the user, such as `unknown key: Foo`.
    pub fn message(&self) -> (s: String)
        ensures
            s@ == combo_error_text(self@),
    {
        let mut v: Vec<char> = Vec::new();
        match self {
            ComboError::Empty => push_str(&mut v, "empty key combo"),
            ComboError::UnknownKey(k) => {
                push_str(&mut v, "unknown key: ");
                push_str(&mut v, k.as_str());
            },
            ComboError::MultipleKeys => push_str(&mut v, "a combo may have only one non-modifier key"),
        }
        string_from_chars(&v)
    }
}

/// Parsing progress after some tokens: the modifiers and key so far, or the error.
pub ghost enum ComboProgress {
    Going(Modifiers, Option<u16>),
    Failed(ComboErrorView),
}

/// Consume one `+`-separated token (trimmed; empty tokens are skipped).
pub open spec fn combo_step(st: ComboProgress, raw: Seq<char>) -> ComboProgress {
    let token = trim(raw);
    match st {
        ComboProgress::Failed(e) => st,
        ComboProgress::Going(m, k) => if token.len() == 0 {
            st
        } else {
            match modifier_index(token) {
                Some(j) => if j == 0 {
                    ComboProgress::Going(Modifiers { shift: true, ..m }, k)
                } else if j == 1 {
                    ComboProgress::Going(Modifiers { ctrl: true, ..m }, k)
                } else {
                    ComboProgress::Going(Modifiers { alt: true, ..m }, k)
                },
                None => match code_of_name(token) {
                    None => ComboProgress::Failed(ComboErrorView::UnknownKey(token)),
                    Some(code) => if k is Some {
                        ComboProgress::Failed(ComboErrorView::MultipleKeys)
                    } else {
                        ComboProgress::Going(m, Some(code))
                    },
                },
            }
        },
    }
}

/// Parsing progress after all of `tokens`.
pub open spec fn combo_fold(tokens: Seq<Seq<char>>) -> ComboProgress
    decreases tokens.len(),
{
    if tokens.len() == 0 {
        ComboProgress::Going(Modifiers { shift: false, ctrl: false, alt: false }, None)
    } else {
        combo_step(combo_fold(tokens.drop_last()), tokens.last())
    }
}

/// The combo a string denotes: `+`-separated, case-insensitive tokens; modifiers set
/// their flag, the one non-modifier token is the key.
pub open spec fn combo_of(s: Seq<char>) -> Result<KeyCombo, ComboErrorView> {
    match combo_fold(split_on(s, '+')) {
        ComboProgress::Failed(e) => Err(e),
        ComboProgress::Going(m, None) => Err(ComboErrorView::Empty),
        ComboProgress::Going(m, Some(key)) => Ok(KeyCombo { modifiers: m, key }),
    }
}

/// The canonical display of a combo: `Ctrl+Alt+Shift+Key` with absent modifiers
/// omitted and `Unknown` for an unnamed key.
pub open spec fn combo_display(c: KeyCombo) -> Seq<char> {
    (if c.modifiers.ctrl { "Ctrl+"@ } else { Seq::empty() }) + (if c.modifiers.alt {
        "Alt+"@
    } else {
        Seq::empty()
    }) + (if c.modifiers.shift { "Shift+"@ } else { Seq::empty() }) + match name_of_code(c.key) {
        Some(n) => n,
        None => "Unknown"@,
    }
}

impl KeyCombo {
    /// Parse a combo like `Shift+F10` (case-insensitive, `+`-separated, whitespace
    /// around tokens ignored).
    pub fn parse(s: &str) -> (r: Result<KeyCombo, ComboError>)
        ensures
            r matches Ok(c) ==> combo_of(s@) == Ok::<KeyCombo, ComboErrorView>(c),
            r matches Err(e) ==> combo_of(s@) == Err::<KeyCombo, ComboErrorView>(e@),
    {
        let chars = chars_of(s);
        let tokens = split_chars(&chars, '+');
        let ghost tv = split_on(s@, '+');
        let mut modifiers = Modifiers::none();
        let mut key: Option<u16> = None;
        let mut i: usize = 0;
        while i < tokens.len()
            invariant
                i <= tokens@.len() == tv.len(),
                forall|k: int| 0 <= k < tokens@.len() ==> #[trigger] tokens@[k]@ == tv[k],
                combo_fold(tv.subrange(0, i as int)) == ComboProgress::Going(modifiers, key),
                tv == split_on(s@, '+'),
            decreases tokens@.len() - i,
        {
            assert(tv.subrange(0, i + 1).drop_last() =~= tv.subrange(0, i as int));
            let token = trim_chars(&tokens[i]);
            assert(tv.subrange(0, i + 1).last() == tv[i as int]);
            assert(token@ == trim(tv[i as int]));
            if token.len() > 0 {
                match modifier_of(&token) {
                    Some(Modifier::Shift) => modifiers.shift = true,
                    Some(Modifier::Ctrl) => modifiers.ctrl = true,
                    Some(Modifier::Alt) => modifiers.alt = true,
                    None => {
                        let ts = string_from_chars(&token);
                        match key_code(ts.as_str()) {
                            None => {
                                proof {
                                    lemma_combo_failed_sticks(tv, i as int + 1);
                                    assert(tv.subrange(0, tv.len() as int) =~= tv);
                                }
                                return Err(ComboError::UnknownKey(ts));
                            },
                            Some(code) => {
                                if key.is_some() {
                                    proof {
                                        lemma_combo_failed_sticks(tv, i as int + 1);
                                        assert(tv.subrange(0, tv.len() as int) =~= tv);
                                    }
                                    return Err(ComboError::MultipleKeys);
                                }
                                key = Some(code);
                            },
                        }
                    },
                }
            }
            i += 1;
        }
        assert(tv.subrange(0, tv.len() as int) =~= tv);
        match key {
            Some(key) => Ok(KeyCombo { modifiers, key }),
            None => Err(ComboError::Empty),
        }
    }

    /// Does a press of `code` under `held` modifiers ring this combo? The modifier set
    /// must match exactly.
    pub fn matches(&self, code: u16, held: Modifiers) -> (b: bool)
        ensures
            b == (self.key == code && self.modifiers == held),
    {
        self.key == code && self.modifiers.shift == held.shift && self.modifiers.ctrl == held.ctrl
            && self.modifiers.alt == held.alt
    }

    /// Render back to canonical `Mod+Mod+Key` form (modifiers in a fixed order).
    pub fn display(&self) -> (s: String)
        ensures
            s@ == combo_display(*self),
    {
        let mut v: Vec<char> = Vec::new();
        if self.modifiers.ctrl {
            push_str(&mut v, "Ctrl+");
        }
        if self.modifiers.alt {
            push_str(&mut v, "Alt+");
        }
        if self.modifiers.shift {
            push_str(&mut v, "Shift+");
        }
        match key_name(self.key) {
            Some(n) => push_str(&mut v, n),
            None => push_str(&mut v, "Unknown"),
        }
        assert(v@ =~= combo_display(*self));
        string_from_chars(&v)
    }
}

proof fn lemma_combo_failed_sticks(tokens: Seq<Seq<char>>, i: int)
    requires
        0 <= i <= tokens.len(),
        combo_fold(tokens.subrange(0, i)) is Failed,
    ensures
        combo_fold(tokens) == combo_fold(tokens.subrange(0, i)),
    decreases tokens.len() - i,
{
    if i < tokens.len() {
        assert(tokens.subrange(0, i + 1).drop_last() =~= tokens.subrange(0, i));
        lemma_combo_failed_sticks(tokens, i + 1);
    } else {
        assert(tokens.subrange(0, i) =~= tokens);
    }
}

proof fn lemma_first_code_match_found(code: u16, lo: int)
    ensures
        first_code_match(code, lo) matches Some(i) ==> lo <= i < key_count() && key_entry(i).1
            == code,
    decreases key_count() - lo,
{
    if 0 <= lo < key_count() && key_entry(lo).1 != code {
        lemma_first_code_match_found(code, lo + 1);
    }
}

proof fn lemma_first_code_match_exists(code: u16, lo: int, i: int)
    requires
        0 <= lo <= i < key_count(),
        key_entry(i).1 == code,
    ensures
        first_code_match(code, lo) is Some,
    decreases i - lo,
{
    if lo < i && key_entry(lo).1 != code {
        lemma_first_code_match_exists(code, lo + 1, i);
    }
}

proof fn lemma_first_name_match_found(name: Seq<char>, lo: int)
    ensures
        first_name_match(name, lo) matches Some(i) ==> lo <= i < key_count() && eq_ci(
            key_entry(i).0,
            name,
        ),
    decreases key_count() - lo,
{
    if 0 <= lo < key_count() && !eq_ci(key_entry(lo).0, name) {
        lemma_first_name_match_found(name, lo + 1);
    }
}

proof fn lemma_first_name_match_exists(name: Seq<char>, lo: int, i: int)
    requires
        0 <= lo <= i < key_count(),
        eq_ci(key_entry(i).0, name),
    ensures
        first_name_match(name, lo) is Some,
    decreases i - lo,
{
    if lo < i && !eq_ci(key_entry(lo).0, name) {
        lemma_first_name_match_exists(name, lo + 1, i);
    }
}

/// No two entries of the named-key table have names equal ignoring ASCII case.
pub proof fn lemma_key_names_distinct(i: int, j: int)
    requires
        0 <= i < key_count(),
        0 <= j < key_count(),
        eq_ci(key_entry(i).0, key_entry(j).0),
    ensures
        i == j,
{
    lemma_names_distinct(i, j);
}

/// A key name looks up exactly the code of the table entry it names: `key_code` gives
/// `Some(code)` if and only if some entry whose name equals the trimmed name, ignoring
/// ASCII case, has that code (the names being distinct, there is at most one).
pub proof fn lemma_code_of_name_matches_entry(name: Seq<char>, code: u16)
    ensures
        code_of_name(name) == Some(code) <==> exists|i: int|
            0 <= i < key_count() && eq_ci(#[trigger] key_entry(i).0, trim(name)) && key_entry(i).1
                == code,
{
    let t = trim(name);
    lemma_first_name_match_found(t, 0);
    if let Some(j) = first_name_match(t, 0) {
        assert(eq_ci(key_entry(j).0, t));
        if code_of_name(name) == Some(code) {
            assert(key_entry(j).1 == code);
        }
        assert forall|i: int|
            0 <= i < key_count() && eq_ci(#[trigger] key_entry(i).0, t) implies i == j by {
            assert(eq_ci(key_entry(i).0, key_entry(j).0));
            lemma_names_distinct(i, j);
        }
    } else {
        assert forall|i: int| 0 <= i < key_count() implies !eq_ci(#[trigger] key_entry(i).0, t) by {
            if eq_ci(key_entry(i).0, t) {
                lemma_first_name_match_exists(t, 0, i);
            }
        }
    }
}

proof fn lemma_fold_key_named(tokens: Seq<Seq<char>>)
    ensures
        combo_fold(tokens) matches ComboProgress::Going(m, Some(k)) ==> first_code_match(k, 0) is Some,
    decreases tokens.len(),
{
    if tokens.len() > 0 {
        lemma_fold_key_named(tokens.drop_last());
        let name = trim(trim(tokens.last()));
        lemma_first_name_match_found(name, 0);
        if let Some(i) = first_name_match(name, 0) {
            lemma_first_code_match_exists(key_entry(i).1, 0, i);
        }
    }
}

/// A keycode's canonical name looks it up again: whenever the table names `code`,
/// `key_code` of that name gives `code` back.
pub proof fn lemma_key_name_then_code(code: u16)
    ensures
        name_of_code(code) matches Some(n) ==> code_of_name(n) == Some(code),
{
    lemma_first_code_match_found(code, 0);
    if let Some(j) = first_code_match(code, 0) {
        lemma_name_found(j);
        lemma_name_plain(j);
    }
}

/// Every combo that parsing returns has a key that the table names.
pub proof fn lemma_parsed_key_is_named(s: Seq<char>)
    ensures
        combo_of(s) matches Ok(c) ==> name_of_code(c.key) is Some,
{
    lemma_fold_key_named(split_on(s, '+'));
}

/// A modifier word followed by `+` splits off as one field and sets its flag.
proof fn lemma_modifier_words()
    ensures
        trim(seq!['C', 't', 'r', 'l']) == seq!['C', 't', 'r', 'l'],
        trim(seq!['A', 'l', 't']) == seq!['A', 'l', 't'],
        trim(seq!['S', 'h', 'i', 'f', 't']) == seq!['S', 'h', 'i', 'f', 't'],
        modifier_index(seq!['C', 't', 'r', 'l']) == Some(1int),
        modifier_index(seq!['A', 'l', 't']) == Some(2int),
        modifier_index(seq!['S', 'h', 'i', 'f', 't']) == Some(0int),
        "Ctrl+"@ == seq!['C', 't', 'r', 'l'].push('+'),
        "Alt+"@ == seq!['A', 'l', 't'].push('+'),
        "Shift+"@ == seq!['S', 'h', 'i', 'f', 't'].push('+'),
{
    let ctrl = seq!['C', 't', 'r', 'l'];
    let alt = seq!['A', 'l', 't'];
    let shift = seq!['S', 'h', 'i', 'f', 't'];
    assert(trim_start(ctrl) == ctrl && trim_end(ctrl) == ctrl);
    assert(trim_start(alt) == alt && trim_end(alt) == alt);
    assert(trim_start(shift) == shift && trim_end(shift) == shift);
    assert(lower_seq(ctrl) =~= seq!['c', 't', 'r', 'l']);
    assert(lower_seq(alt) =~= seq!['a', 'l', 't']);
    assert(lower_seq(shift) =~= seq!['s', 'h', 'i', 'f', 't']);
    reveal_strlit("Ctrl+");
    reveal_strlit("Alt+");
    reveal_strlit("Shift+");
    assert("Ctrl+"@ =~= ctrl.push('+'));
    assert("Alt+"@ =~= alt.push('+'));
    assert("Shift+"@ =~= shift.push('+'));
}

/// A combo whose key the table names displays as a string that parses back to the
/// same combo.
pub proof fn lemma_display_parses_back(c: KeyCombo)
    requires
        name_of_code(c.key) is Some,
    ensures
        combo_of(combo_display(c)) == Ok::<KeyCombo, ComboErrorView>(c),
{
    lemma_first_code_match_found(c.key, 0);
    let j = first_code_match(c.key, 0)->Some_0;
    let n = key_entry(j).0;
    lemma_name_found(j);
    lemma_name_not_modifier(j);
    lemma_name_plain(j);
    lemma_modifier_words();
    let ctrl = seq!['C', 't', 'r', 'l'];
    let alt = seq!['A', 'l', 't'];
    let shift = seq!['S', 'h', 'i', 'f', 't'];
    assert forall|k: int| 0 <= k < ctrl.len() implies ctrl[k] != '+' by {}
    assert forall|k: int| 0 <= k < alt.len() implies alt[k] != '+' by {}
    assert forall|k: int| 0 <= k < shift.len() implies shift[k] != '+' by {}
    let e = Seq::<char>::empty();
    let p1: Seq<char> = if c.modifiers.ctrl { "Ctrl+"@ } else { e };
    let p2: Seq<char> = if c.modifiers.alt { "Alt+"@ } else { e };
    let p3: Seq<char> = if c.modifiers.shift { "Shift+"@ } else { e };
    let t0 = Seq::<Seq<char>>::empty();
    let t1 = if c.modifiers.ctrl { t0.push(ctrl) } else { t0 };
    let t2 = if c.modifiers.alt { t1.push(alt) } else { t1 };
    let t3 = if c.modifiers.shift { t2.push(shift) } else { t2 };
    // Splitting the display on `+`.
    let q1 = e + p1;
    let q2 = q1 + p2;
    let q3 = q2 + p3;
    assert(split_fold(e, '+') == (t0, e));
    if c.modifiers.ctrl {
        lemma_split_fold_append_field(e, ctrl, '+');
    } else {
        assert(q1 =~= e);
    }
    assert(split_fold(q1, '+') == (t1, e));
    if c.modifiers.alt {
        lemma_split_fold_append_field(q1, alt, '+');
    } else {
        assert(q2 =~= q1);
    }
    assert(split_fold(q2, '+') == (t2, e));
    if c.modifiers.shift {
        lemma_split_fold_append_field(q2, shift, '+');
    } else {
        assert(q3 =~= q2);
    }
    assert(split_fold(q3, '+') == (t3, e));
    lemma_split_fold_append_plain(q3, n, '+');
    assert(e + n =~= n);
    assert(combo_display(c) =~= q3 + n);
    assert(split_on(combo_display(c), '+') == t3.push(n));
    // Folding the fields.
    let m0 = Modifiers { shift: false, ctrl: false, alt: false };
    let m1 = if c.modifiers.ctrl { Modifiers { ctrl: true, ..m0 } } else { m0 };
    let m2 = if c.modifiers.alt { Modifiers { alt: true, ..m1 } } else { m1 };
    let m3 = if c.modifiers.shift { Modifiers { shift: true, ..m2 } } else { m2 };
    assert(combo_fold(t0) == ComboProgress::Going(m0, None));
    assert(t0.push(ctrl).drop_last() =~= t0);
    assert(combo_fold(t1) == ComboProgress::Going(m1, None));
    assert(t1.push(alt).drop_last() =~= t1);
    assert(combo_fold(t2) == ComboProgress::Going(m2, None));
    assert(t2.push(shift).drop_last() =~= t2);
    assert(combo_fold(t3) == ComboProgress::Going(m3, None));
    assert(t3.push(n).drop_last() =~= t3);
    assert(code_of_name(n) == Some(c.key));
    assert(combo_fold(t3.push(n)) == ComboProgress::Going(m3, Some(c.key)));
    assert(m3 == c.modifiers);
}

/// Parsing is a left inverse of display on parsed combos: re-parsing the display of a
/// combo that parsing returned gives back that combo.
pub proof fn lemma_round_trips_through_display(s: Seq<char>, c: KeyCombo)
    requires
        combo_of(s) == Ok::<KeyCombo, ComboErrorView>(c),
    ensures
        combo_of(combo_display(c)) == Ok::<KeyCombo, ComboErrorView>(c),
{
    lemma_parsed_key_is_named(s);
    lemma_display_parses_back(c);
}

} // verus!
