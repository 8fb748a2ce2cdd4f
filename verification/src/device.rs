//! Choosing the one input device whose keys are read: which devices are virtual
//! injectors, how `eventN` nodes are ordered, how a name selector matches, and which
//! raw key values are press and release edges.

use vstd::prelude::*;
use crate::text::{
    chars_eq_str, chars_of, contains_chars, has_infix, has_prefix, lower_chars, lower_seq, parse_uint, parse_uint_chars,
    slice_chars, starts_with, string_from_chars, trim, trim_chars,
};

verus! {

/// Whether a device name marks a virtual or injector keyboard (ignoring ASCII case):
/// it mentions `ydotool`, `virtual` or `uinput`.
pub open spec fn virtual_name(name: Seq<char>) -> bool {
    let l = lower_seq(name);
    has_infix(l, "ydotool"@) || has_infix(l, "virtual"@) || has_infix(l, "uinput"@)
}

/// Whether a device name marks a virtual or injector keyboard, which is never read.
pub fn is_virtual_name(name: &str) -> (b: bool)
    ensures
        b == virtual_name(name@),
{
    let l = lower_chars(&chars_of(name));
    contains_chars(&l, &chars_of("ydotool")) || contains_chars(&l, &chars_of("virtual"))
        || contains_chars(&l, &chars_of("uinput"))
}

/// Whether a device name contains the selector's text, ignoring ASCII case.
pub fn name_matches(name: &str, needle: &str) -> (b: bool)
    ensures
        b == has_infix(lower_seq(name@), lower_seq(needle@)),
{
    let l = lower_chars(&chars_of(name));
    let n = lower_chars(&chars_of(needle));
    contains_chars(&l, &n)
}

/// The number of an `eventN` device node name (as `str::parse::<u32>` reads the digits
/// after `event`), or `u32::MAX` when it has none, so such nodes sort last.
pub open spec fn event_number_of(file_name: Seq<char>) -> nat {
    if has_prefix(file_name, "event"@) {
        match parse_uint(file_name.subrange(5, file_name.len() as int), 10, u32::MAX as nat) {
            Some(n) => n,
            None => u32::MAX as nat,
        }
    } else {
        u32::MAX as nat
    }
}

/// The number of an `eventN` device node name.
pub fn event_number(file_name: &str) -> (n: u32)
    ensures
        n == event_number_of(file_name@),
{
    let f = chars_of(file_name);
    let p = chars_of("event");
    if !starts_with(&f, &p) {
        return u32::MAX;
    }
    proof {
        reveal_strlit("event");
    }
    let rest = slice_chars(&f, 5, f.len());
    match parse_uint_chars(&rest, 10, 0xffff_ffff) {
        Some(v) => v as u32,
        None => u32::MAX,
    }
}

/// The edge a raw key value reports: 1 a press, 0 a release; anything else (an
/// autorepeat) is no edge.
pub fn key_edge(value: i32) -> (r: Option<bool>)
    ensures
        r == if value == 1 {
            Some(true)
        } else if value == 0 {
            Some(false)
        } else {
            None::<bool>
        },
{
    if value == 1 {
        Some(true)
    } else if value == 0 {
        Some(false)
    } else {
        None
    }
}

/// How a selector names the device to read.
pub enum DeviceSelector {
    /// `auto`: the lowest-numbered real hardware keyboard.
    Auto,
    /// `name:<text>`: a device whose name contains the text (as written after the
    /// prefix; it is trimmed when matched), preferring a real keyboard.
    Name(String),
    /// Anything else: a device node path (the selector trimmed).
    Path(String),
}

/// A selector, abstractly.
pub ghost enum SelectorView {
    Auto,
    Name(Seq<char>),
    Path(Seq<char>),
}

impl View for DeviceSelector {
    type V = SelectorView;

    open spec fn view(&self) -> SelectorView {
        match self {
            DeviceSelector::Auto => SelectorView::Auto,
            DeviceSelector::Name(n) => SelectorView::Name(n@),
            DeviceSelector::Path(p) => SelectorView::Path(p@),
        }
    }
}

/// The selector a configured string denotes: trimmed, then `name:`-prefixed, `auto`,
/// or a path.
pub open spec fn selector_of(s: Seq<char>) -> SelectorView {
    let t = trim(s);
    if has_prefix(t, "name:"@) {
        SelectorView::Name(t.subrange(5, t.len() as int))
    } else if t == "auto"@ {
        SelectorView::Auto
    } else {
        SelectorView::Path(t)
    }
}

/// Read a device selector.
pub fn parse_selector(selector: &str) -> (r: DeviceSelector)
    ensures
        r@ == selector_of(selector@),
{
    let t = trim_chars(&chars_of(selector));
    proof {
        reveal_strlit("name:");
    }
    if starts_with(&t, &chars_of("name:")) {
        let rest = slice_chars(&t, 5, t.len());
        DeviceSelector::Name(string_from_chars(&rest))
    } else if chars_eq_str(&t, "auto") {
        DeviceSelector::Auto
    } else {
        DeviceSelector::Path(string_from_chars(&t))
    }
}

/// What the choice reads of one enumerated device.
pub struct DeviceCandidate {
    /// The device's name, if it reports one.
    pub name: Option<String>,
    /// The number of its `eventN` node (`u32::MAX` when it has none).
    pub node_number: u32,
    /// Whether it emits the alpha keys and Enter.
    pub keyboard: bool,
}

/// A real hardware keyboard: keyboard-shaped and not a virtual injector.
pub open spec fn real_keyboard(c: DeviceCandidate) -> bool {
    c.keyboard && !(c.name matches Some(n) && virtual_name(n@))
}

/// Whether the device's name contains `needle` (trimmed), ignoring ASCII case.
pub open spec fn name_hit(c: DeviceCandidate, needle: Seq<char>) -> bool {
    c.name matches Some(n) && has_infix(lower_seq(n@), lower_seq(trim(needle)))
}

/// Whether a candidate passes a filter: a name match when a needle is given, and a
/// real keyboard when one is needed.
pub open spec fn eligible(c: DeviceCandidate, needle: Option<Seq<char>>, need_keyboard: bool) -> bool {
    (needle matches Some(n) ==> name_hit(c, n)) && (need_keyboard ==> real_keyboard(c))
}

/// Candidate `i` comes no later than candidate `j`: a lower node number, or the same
/// number and enumerated no later.
pub open spec fn no_later(cs: Seq<DeviceCandidate>, i: int, j: int) -> bool {
    cs[i].node_number < cs[j].node_number || (cs[i].node_number == cs[j].node_number && i <= j)
}

/// `r` is the earliest eligible candidate by node number (ties in enumeration
/// order), or `None` when none is eligible.
pub open spec fn first_eligible(
    cs: Seq<DeviceCandidate>,
    needle: Option<Seq<char>>,
    need_keyboard: bool,
    r: Option<usize>,
) -> bool {
    match r {
        Some(i) => 0 <= i < cs.len() && eligible(cs[i as int], needle, need_keyboard) && forall|j: int|
            0 <= j < cs.len() && eligible(#[trigger] cs[j], needle, need_keyboard) ==> no_later(
                cs,
                i as int,
                j,
            ),
        None => forall|j: int| 0 <= j < cs.len() ==> !eligible(#[trigger] cs[j], needle, need_keyboard),
    }
}

fn is_eligible(c: &DeviceCandidate, needle: Option<&str>, need_keyboard: bool) -> (b: bool)
    ensures
        b == eligible(
            *c,
            match needle {
                Some(n) => Some(n@),
                None => None,
            },
            need_keyboard,
        ),
{
    let hit = match needle {
        Some(n) => match &c.name {
            Some(name) => {
                let t = string_from_chars(&trim_chars(&chars_of(n)));
                name_matches(name.as_str(), t.as_str())
            },
            None => false,
        },
        None => true,
    };
    let kb = if need_keyboard {
        c.keyboard && match &c.name {
            Some(name) => !is_virtual_name(name.as_str()),
            None => true,
        }
    } else {
        true
    };
    hit && kb
}

fn find_first(cs: &[DeviceCandidate], needle: Option<&str>, need_keyboard: bool) -> (r: Option<usize>)
    ensures
        first_eligible(
            cs@,
            match needle {
                Some(n) => Some(n@),
                None => None,
            },
            need_keyboard,
            r,
        ),
{
    let ghost nv = match needle {
        Some(n) => Some(n@),
        None => None,
    };
    let mut best: Option<usize> = None;
    let mut k: usize = 0;
    while k < cs.len()
        invariant
            k <= cs@.len(),
            nv == match needle {
                Some(n) => Some(n@),
                None => None::<Seq<char>>,
            },
            first_eligible(cs@.subrange(0, k as int), nv, need_keyboard, best),
        decreases cs@.len() - k,
    {
        let ghost pre = cs@.subrange(0, k as int);
        let ghost post = cs@.subrange(0, k + 1);
        assert forall|j: int| 0 <= j < k implies #[trigger] post[j] == pre[j] by {}
        if is_eligible(&cs[k], needle, need_keyboard) {
            match best {
                Some(b) => {
                    if cs[k].node_number < cs[b].node_number {
                        best = Some(k);
                    }
                },
                None => {
                    best = Some(k);
                },
            }
        }
        k += 1;
        assert(post[k - 1] == cs@[k - 1]);
    }
    assert(cs@.subrange(0, cs@.len() as int) =~= cs@);
    best
}

/// Which enumerated candidate a selector picks, as an index into `candidates`:
/// for `auto` the earliest real keyboard; for `name:` the earliest real keyboard among
/// the name matches, else the earliest name match; `None` when nothing qualifies, and
/// always `None` for a path (which is opened directly).
pub fn pick_device(selector: &DeviceSelector, candidates: &[DeviceCandidate]) -> (r: Option<usize>)
    ensures
        match selector@ {
            SelectorView::Auto => first_eligible(candidates@, None, true, r),
            SelectorView::Name(n) => if exists|j: int|
                0 <= j < candidates@.len() && eligible(#[trigger] candidates@[j], Some(n), true) {
                first_eligible(candidates@, Some(n), true, r)
            } else {
                first_eligible(candidates@, Some(n), false, r)
            },
            SelectorView::Path(_) => r is None,
        },
{
    match selector {
        DeviceSelector::Auto => find_first(candidates, None, true),
        DeviceSelector::Name(n) => {
            let kb = find_first(candidates, Some(n.as_str()), true);
            if kb.is_some() {
                kb
            } else {
                find_first(candidates, Some(n.as_str()), false)
            }
        },
        DeviceSelector::Path(_) => None,
    }
}

} // verus!
