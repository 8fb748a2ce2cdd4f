//! Timestamped key tracker: turns raw key events into button presses and releases for
//! the two configured combos, tracking modifier state and measuring each press-to-release
//! duration. Pure given timestamps.

use vstd::prelude::*;
use crate::gesture::{Button, ButtonEvent};
use crate::key_combo::{KeyCombo, Modifiers};
use crate::key_combo::codes::{
    KEY_LEFTALT, KEY_LEFTCTRL, KEY_LEFTSHIFT, KEY_RIGHTALT, KEY_RIGHTCTRL, KEY_RIGHTSHIFT,
};
use crate::time::Duration;

verus! {

/// One raw key event: a keycode, whether it went down, and its timestamp.
#[derive(Debug, Clone, Copy, PartialEq, Eq, Structural)]
pub struct RawKeyEvent {
    pub code: u16,
    pub pressed: bool,
    pub time: Duration,
}

impl RawKeyEvent {
    /// A key press.
    pub fn down(code: u16, time: Duration) -> (e: RawKeyEvent)
        ensures
            e == (RawKeyEvent { code, pressed: true, time }),
    {
        RawKeyEvent { code, pressed: true, time }
    }

    /// A key release.
    pub fn up(code: u16, time: Duration) -> (e: RawKeyEvent)
        ensures
            e == (RawKeyEvent { code, pressed: false, time }),
    {
        RawKeyEvent { code, pressed: false, time }
    }
}

/// A button event with its held duration taken as whole nanoseconds.
pub ghost enum ButtonEventView {
    Down(Button),
    Up(Button, nat),
}

/// The abstract content of a button event.
pub open spec fn event_view(e: ButtonEvent) -> ButtonEventView {
    match e {
        ButtonEvent::Down(b) => ButtonEventView::Down(b),
        ButtonEvent::Up { button, held } => ButtonEventView::Up(button, held@),
    }
}

/// Tracks modifier state and per-button press timing for the two configured combos.
#[derive(Debug, Clone, Copy, PartialEq, Eq, Structural)]
pub struct KeyTracker {
    start: KeyCombo,
    stop: KeyCombo,
    left_shift: bool,
    right_shift: bool,
    left_ctrl: bool,
    right_ctrl: bool,
    left_alt: bool,
    right_alt: bool,
    /// When the start button's key went down, while it is down.
    start_down_at: Option<Duration>,
    /// When the stop button's key went down, while it is down.
    stop_down_at: Option<Duration>,
}

/// The tracker's state, abstractly: the two combos, which of the six modifier keys
/// are down, and when each button's main key went down while it is down.
pub ghost struct TrackerView {
    pub start: KeyCombo,
    pub stop: KeyCombo,
    pub left_shift: bool,
    pub right_shift: bool,
    pub left_ctrl: bool,
    pub right_ctrl: bool,
    pub left_alt: bool,
    pub right_alt: bool,
    pub start_down_at: Option<Duration>,
    pub stop_down_at: Option<Duration>,
}

impl View for KeyTracker {
    type V = TrackerView;

    closed spec fn view(&self) -> TrackerView {
        TrackerView {
            start: self.start,
            stop: self.stop,
            left_shift: self.left_shift,
            right_shift: self.right_shift,
            left_ctrl: self.left_ctrl,
            right_ctrl: self.right_ctrl,
            left_alt: self.left_alt,
            right_alt: self.right_alt,
            start_down_at: self.start_down_at,
            stop_down_at: self.stop_down_at,
        }
    }
}

/// Whether `code` is one of the six modifier keys.
pub open spec fn is_modifier_code(code: u16) -> bool {
    code == KEY_LEFTSHIFT || code == KEY_RIGHTSHIFT || code == KEY_LEFTCTRL || code
        == KEY_RIGHTCTRL || code == KEY_LEFTALT || code == KEY_RIGHTALT
}

/// The modifiers held: each is down while either of its two keys is down.
pub open spec fn held_modifiers(t: TrackerView) -> Modifiers {
    Modifiers {
        shift: t.left_shift || t.right_shift,
        ctrl: t.left_ctrl || t.right_ctrl,
        alt: t.left_alt || t.right_alt,
    }
}

/// The tracker after a modifier key event (the key's own flag follows the event).
pub open spec fn track_modifier_spec(t: TrackerView, ev: RawKeyEvent) -> TrackerView {
    if ev.code == KEY_LEFTSHIFT {
        TrackerView { left_shift: ev.pressed, ..t }
    } else if ev.code == KEY_RIGHTSHIFT {
        TrackerView { right_shift: ev.pressed, ..t }
    } else if ev.code == KEY_LEFTCTRL {
        TrackerView { left_ctrl: ev.pressed, ..t }
    } else if ev.code == KEY_RIGHTCTRL {
        TrackerView { right_ctrl: ev.pressed, ..t }
    } else if ev.code == KEY_LEFTALT {
        TrackerView { left_alt: ev.pressed, ..t }
    } else {
        TrackerView { right_alt: ev.pressed, ..t }
    }
}

/// `later - earlier`, or zero when the clock went backwards.
pub open spec fn elapsed(later: Duration, earlier: Duration) -> nat {
    if later@ >= earlier@ {
        (later@ - earlier@) as nat
    } else {
        0
    }
}

/// One step of the tracker: the tracker after `ev` and the button event it emits.
///
/// A modifier updates the modifier state and emits nothing. A press opens a button
/// whose combo matches the current modifiers exactly and that is not already open
/// (start is tried first); a release closes the button whose main key it is, emitting
/// how long it was held.
pub open spec fn tracker_step(t: TrackerView, ev: RawKeyEvent) -> (TrackerView, Option<ButtonEventView>) {
    if is_modifier_code(ev.code) {
        (track_modifier_spec(t, ev), None)
    } else if ev.pressed {
        let held = held_modifiers(t);
        if t.start_down_at is None && t.start.key == ev.code && t.start.modifiers == held {
            (TrackerView { start_down_at: Some(ev.time), ..t }, Some(ButtonEventView::Down(Button::Start)))
        } else if t.stop_down_at is None && t.stop.key == ev.code && t.stop.modifiers == held {
            (TrackerView { stop_down_at: Some(ev.time), ..t }, Some(ButtonEventView::Down(Button::Stop)))
        } else {
            (t, None)
        }
    } else if t.start_down_at is Some && ev.code == t.start.key {
        (TrackerView { start_down_at: None, ..t }, Some(ButtonEventView::Up(Button::Start, elapsed(ev.time, t.start_down_at.unwrap()))))
    } else if t.stop_down_at is Some && ev.code == t.stop.key {
        (TrackerView { stop_down_at: None, ..t }, Some(ButtonEventView::Up(Button::Stop, elapsed(ev.time, t.stop_down_at.unwrap()))))
    } else {
        (t, None)
    }
}

/// A fresh tracker for `start` and `stop`: no key down, no button open.
pub open spec fn fresh_tracker(start: KeyCombo, stop: KeyCombo) -> TrackerView {
    TrackerView {
        start,
        stop,
        left_shift: false,
        right_shift: false,
        left_ctrl: false,
        right_ctrl: false,
        left_alt: false,
        right_alt: false,
        start_down_at: None,
        stop_down_at: None,
    }
}

impl KeyTracker {
    /// The combos this tracker watches, as given to [`KeyTracker::new`].
    pub open spec fn combos(self) -> (KeyCombo, KeyCombo) {
        (self@.start, self@.stop)
    }

    /// Whether a button's main key is currently down: `(start, stop)`.
    pub open spec fn open_buttons(self) -> (bool, bool) {
        (self@.start_down_at is Some, self@.stop_down_at is Some)
    }

    /// Build a tracker for the `start` and `stop` combos, with no key held.
    pub fn new(start: KeyCombo, stop: KeyCombo) -> (t: KeyTracker)
        ensures
            t@ == fresh_tracker(start, stop),
    {
        KeyTracker {
            start,
            stop,
            left_shift: false,
            right_shift: false,
            left_ctrl: false,
            right_ctrl: false,
            left_alt: false,
            right_alt: false,
            start_down_at: None,
            stop_down_at: None,
        }
    }

    fn modifiers(&self) -> (m: Modifiers)
        ensures
            m == held_modifiers(self@),
    {
        Modifiers {
            shift: self.left_shift || self.right_shift,
            ctrl: self.left_ctrl || self.right_ctrl,
            alt: self.left_alt || self.right_alt,
        }
    }

    fn track_modifier(&mut self, ev: RawKeyEvent) -> (was_modifier: bool)
        ensures
            was_modifier == is_modifier_code(ev.code),
            was_modifier ==> final(self)@ == track_modifier_spec(old(self)@, ev),
            !was_modifier ==> final(self)@ == old(self)@,
    {
        if ev.code == KEY_LEFTSHIFT {
            self.left_shift = ev.pressed;
        } else if ev.code == KEY_RIGHTSHIFT {
            self.right_shift = ev.pressed;
        } else if ev.code == KEY_LEFTCTRL {
            self.left_ctrl = ev.pressed;
        } else if ev.code == KEY_RIGHTCTRL {
            self.right_ctrl = ev.pressed;
        } else if ev.code == KEY_LEFTALT {
            self.left_alt = ev.pressed;
        } else if ev.code == KEY_RIGHTALT {
            self.right_alt = ev.pressed;
        } else {
            return false;
        }
        true
    }

    /// Feed one raw key event; returns a button event if it opened or closed one of
    /// the configured buttons.
    pub fn feed(&mut self, ev: RawKeyEvent) -> (r: Option<ButtonEvent>)
        ensures
            (final(self)@, match r {
                Some(e) => Some(event_view(e)),
                None => None,
            }) == tracker_step(old(self)@, ev),
    {
        if self.track_modifier(ev) {
            return None;
        }
        if ev.pressed {
            let held = self.modifiers();
            if self.start_down_at.is_none() && self.start.matches(ev.code, held) {
                self.start_down_at = Some(ev.time);
                return Some(ButtonEvent::Down(Button::Start));
            }
            if self.stop_down_at.is_none() && self.stop.matches(ev.code, held) {
                self.stop_down_at = Some(ev.time);
                return Some(ButtonEvent::Down(Button::Stop));
            }
            None
        } else {
            if let Some(down) = self.start_down_at {
                if ev.code == self.start.key {
                    self.start_down_at = None;
                    return Some(ButtonEvent::Up { button: Button::Start, held: ev.time.saturating_sub(down) });
                }
            }
            if let Some(down) = self.stop_down_at {
                if ev.code == self.stop.key {
                    self.stop_down_at = None;
                    return Some(ButtonEvent::Up { button: Button::Stop, held: ev.time.saturating_sub(down) });
                }
            }
            None
        }
    }
}

/// A key that is neither a modifier nor either combo's main key is ignored entirely:
/// it emits nothing and leaves the tracker unchanged.
pub proof fn lemma_unrelated_key_ignored(t: TrackerView, ev: RawKeyEvent)
    requires
        !is_modifier_code(ev.code),
        ev.code != t.start.key,
        ev.code != t.stop.key,
    ensures
        tracker_step(t, ev) == (t, None::<ButtonEventView>),
{
}

/// A release is reported only for a button that was opened: with neither button open,
/// no event ever produces an `Up`.
pub proof fn lemma_no_release_without_press(t: TrackerView, ev: RawKeyEvent)
    requires
        t.start_down_at is None,
        t.stop_down_at is None,
    ensures
        !(tracker_step(t, ev).1 matches Some(ButtonEventView::Up(_, _))),
{
}

/// Key autorepeat: a further press of a button's key while that button is open never
/// emits a second press of it.
pub proof fn lemma_repeat_press_does_not_reopen(t: TrackerView, ev: RawKeyEvent)
    requires
        t.start_down_at is Some,
        ev.pressed,
    ensures
        tracker_step(t, ev).1 != Some(ButtonEventView::Down(Button::Start)),
{
}

/// Modifier keys never produce button events, and the combos never change.
pub proof fn lemma_step_keeps_combos(t: TrackerView, ev: RawKeyEvent)
    ensures
        tracker_step(t, ev).0.start == t.start,
        tracker_step(t, ev).0.stop == t.stop,
        is_modifier_code(ev.code) ==> tracker_step(t, ev).1 is None,
{
}

/// The tracker and the events emitted after feeding `evs` in order from `t`.
pub open spec fn run(t: TrackerView, evs: Seq<RawKeyEvent>) -> (TrackerView, Seq<Option<ButtonEventView>>)
    decreases evs.len(),
{
    if evs.len() == 0 {
        (t, Seq::empty())
    } else {
        let (t1, e) = tracker_step(t, evs[0]);
        let (tn, es) = run(t1, evs.drop_first());
        (tn, seq![e] + es)
    }
}

/// Whether button `b` is open in `t`.
pub open spec fn is_open(t: TrackerView, b: Button) -> bool {
    match b {
        Button::Start => t.start_down_at is Some,
        Button::Stop => t.stop_down_at is Some,
    }
}

/// Whether the events for button `b` alternate press, release, press, ..., starting
/// with a press when `open` is false and with a release when it is true.
pub open spec fn alternates(es: Seq<Option<ButtonEventView>>, b: Button, open: bool) -> bool
    decreases es.len(),
{
    if es.len() == 0 {
        true
    } else {
        match es[0] {
            Some(ButtonEventView::Down(x)) => if x == b {
                !open && alternates(es.drop_first(), b, true)
            } else {
                alternates(es.drop_first(), b, open)
            },
            Some(ButtonEventView::Up(x, _)) => if x == b {
                open && alternates(es.drop_first(), b, false)
            } else {
                alternates(es.drop_first(), b, open)
            },
            None => alternates(es.drop_first(), b, open),
        }
    }
}

/// One step keeps each button's openness in step with its events: a press of `b` is
/// emitted only when `b` is closed and opens it, a release only when it is open and
/// closes it, and a step that emits nothing for `b` leaves it as it was.
pub proof fn lemma_step_tracks_openness(t: TrackerView, ev: RawKeyEvent, b: Button)
    ensures
        ({
            let (t1, e) = tracker_step(t, ev);
            match e {
                Some(ButtonEventView::Down(x)) if x == b => !is_open(t, b) && is_open(t1, b),
                Some(ButtonEventView::Up(x, _)) if x == b => is_open(t, b) && !is_open(t1, b),
                _ => is_open(t1, b) == is_open(t, b),
            }
        }),
{
}

/// Each button's events alternate: from any tracker, over any sequence of raw events,
/// the presses and releases of a button come in turn, beginning with a press when the
/// button starts closed (no release without an open press, no second press while
/// open).
pub proof fn lemma_button_events_alternate(t: TrackerView, evs: Seq<RawKeyEvent>, b: Button)
    ensures
        alternates(run(t, evs).1, b, is_open(t, b)),
    decreases evs.len(),
{
    if evs.len() > 0 {
        let (t1, e) = tracker_step(t, evs[0]);
        lemma_step_tracks_openness(t, evs[0], b);
        lemma_button_events_alternate(t1, evs.drop_first(), b);
        let es = run(t, evs).1;
        assert(es[0] == e);
        assert(es.drop_first() =~= run(t1, evs.drop_first()).1);
    }
}

/// A fresh tracker holds no modifier.
pub proof fn lemma_fresh_tracker_holds_nothing(start: KeyCombo, stop: KeyCombo)
    ensures
        held_modifiers(fresh_tracker(start, stop)) == (Modifiers { shift: false, ctrl: false, alt: false }),
{
}

/// Pressing a modifier key holds exactly its modifier on top of those already held:
/// a Shift key holds shift, a Ctrl key ctrl, an Alt key alt; nothing is emitted and no
/// button opens or closes.
pub proof fn lemma_modifier_press_holds_its_modifier(t: TrackerView, ev: RawKeyEvent)
    requires
        is_modifier_code(ev.code),
        ev.pressed,
    ensures
        ({
            let (t1, e) = tracker_step(t, ev);
            let h = held_modifiers(t);
            &&& e is None
            &&& t1.start_down_at == t.start_down_at && t1.stop_down_at == t.stop_down_at
            &&& (ev.code == KEY_LEFTSHIFT || ev.code == KEY_RIGHTSHIFT) ==> held_modifiers(t1)
                == Modifiers { shift: true, ..h }
            &&& (ev.code == KEY_LEFTCTRL || ev.code == KEY_RIGHTCTRL) ==> held_modifiers(t1)
                == Modifiers { ctrl: true, ..h }
            &&& (ev.code == KEY_LEFTALT || ev.code == KEY_RIGHTALT) ==> held_modifiers(t1)
                == Modifiers { alt: true, ..h }
        }),
{
}

/// Releasing a modifier key keeps its modifier held only while the other key of the
/// pair (left or right) is still down, and leaves the other modifiers as they were.
pub proof fn lemma_modifier_release_drops_its_modifier(t: TrackerView, ev: RawKeyEvent)
    requires
        is_modifier_code(ev.code),
        !ev.pressed,
    ensures
        ({
            let t1 = tracker_step(t, ev).0;
            let h = held_modifiers(t);
            &&& ev.code == KEY_LEFTSHIFT ==> held_modifiers(t1) == Modifiers { shift: t.right_shift, ..h }
            &&& ev.code == KEY_RIGHTSHIFT ==> held_modifiers(t1) == Modifiers { shift: t.left_shift, ..h }
            &&& ev.code == KEY_LEFTCTRL ==> held_modifiers(t1) == Modifiers { ctrl: t.right_ctrl, ..h }
            &&& ev.code == KEY_RIGHTCTRL ==> held_modifiers(t1) == Modifiers { ctrl: t.left_ctrl, ..h }
            &&& ev.code == KEY_LEFTALT ==> held_modifiers(t1) == Modifiers { alt: t.right_alt, ..h }
            &&& ev.code == KEY_RIGHTALT ==> held_modifiers(t1) == Modifiers { alt: t.left_alt, ..h }
        }),
{
}

/// A press opens the start button exactly when its main key goes down while it is
/// closed and the held modifiers are exactly its combo's; it opens the stop button
/// exactly when the start button does not open and the same holds for stop's combo.
pub proof fn lemma_press_opens_the_matching_button(t: TrackerView, ev: RawKeyEvent)
    requires
        !is_modifier_code(ev.code),
        ev.pressed,
    ensures
        ({
            let e = tracker_step(t, ev).1;
            let opens_start = t.start_down_at is None && ev.code == t.start.key
                && t.start.modifiers == held_modifiers(t);
            let opens_stop = t.stop_down_at is None && ev.code == t.stop.key
                && t.stop.modifiers == held_modifiers(t);
            &&& e == Some(ButtonEventView::Down(Button::Start)) <==> opens_start
            &&& e == Some(ButtonEventView::Down(Button::Stop)) <==> (!opens_start && opens_stop)
            &&& e is None <==> (!opens_start && !opens_stop)
        }),
{
}

/// The key presses that spell a combo ring it: from a fresh tracker, pressing the left
/// key of each modifier the start combo needs (shift, ctrl, alt) and then its main key
/// emits the start button's press, whatever the times.
pub proof fn lemma_combo_fires_after_its_modifiers(start: KeyCombo, stop: KeyCombo, at: Duration)
    requires
        !is_modifier_code(start.key),
    ensures
        ({
            let t0 = fresh_tracker(start, stop);
            let m = start.modifiers;
            let t1 = if m.shift { tracker_step(t0, RawKeyEvent { code: KEY_LEFTSHIFT, pressed: true, time: at }).0 } else { t0 };
            let t2 = if m.ctrl { tracker_step(t1, RawKeyEvent { code: KEY_LEFTCTRL, pressed: true, time: at }).0 } else { t1 };
            let t3 = if m.alt { tracker_step(t2, RawKeyEvent { code: KEY_LEFTALT, pressed: true, time: at }).0 } else { t2 };
            tracker_step(t3, RawKeyEvent { code: start.key, pressed: true, time: at }).1 == Some(
                ButtonEventView::Down(Button::Start),
            )
        }),
{
}

/// A release of an open button's main key closes that button and reports how long it
/// was held: the release time minus the press time (zero if the clock went back).
/// The modifiers play no part in a release.
pub proof fn lemma_release_reports_the_hold(t: TrackerView, ev: RawKeyEvent)
    requires
        !is_modifier_code(ev.code),
        !ev.pressed,
    ensures
        ({
            let (t1, e) = tracker_step(t, ev);
            let ps = t.start_down_at.unwrap();
            let pt = t.stop_down_at.unwrap();
            let closes_start = t.start_down_at is Some && ev.code == t.start.key;
            let closes_stop = !closes_start && t.stop_down_at is Some && ev.code == t.stop.key;
            &&& closes_start ==> e == Some(
                ButtonEventView::Up(Button::Start, if ev.time@ >= ps@ { (ev.time@ - ps@) as nat } else { 0 }),
            ) && t1.start_down_at is None && t1.stop_down_at == t.stop_down_at
            &&& closes_stop ==> e == Some(
                ButtonEventView::Up(Button::Stop, if ev.time@ >= pt@ { (ev.time@ - pt@) as nat } else { 0 }),
            ) && t1.stop_down_at is None && t1.start_down_at == t.start_down_at
            &&& (!closes_start && !closes_stop) ==> e is None && t1 == t
            &&& held_modifiers(t1) == held_modifiers(t)
        }),
{
}

} // verus!
