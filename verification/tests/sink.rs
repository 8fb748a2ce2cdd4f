use ghostty_voice_core::sink::{Route, SinkRegistry};

#[test]
fn a_fresh_registry_has_no_active_sink() {
    let r = SinkRegistry::new();
    assert_eq!(r.active(), None);
}

#[test]
fn registering_a_wrapper_makes_it_the_active_sink() {
    let mut r = SinkRegistry::new();
    let id = r.register();
    assert_eq!(r.active(), Some(id));
    assert!(r.is_live(id));
}

#[test]
fn deregistering_the_only_wrapper_leaves_no_active_sink() {
    let mut r = SinkRegistry::new();
    let id = r.register();
    r.deregister(id);
    assert_eq!(r.active(), None);
    assert!(!r.is_live(id));
}

#[test]
fn exactly_one_sink_is_active_even_with_several_registered() {
    let mut r = SinkRegistry::new();
    let _a = r.register();
    let b = r.register();
    // The most-recently launched wrapper is the single active sink.
    assert_eq!(r.active(), Some(b));
}

#[test]
fn deregistering_a_non_active_wrapper_leaves_the_active_one_untouched() {
    let mut r = SinkRegistry::new();
    let a = r.register();
    let b = r.register(); // b is active
    r.deregister(a);
    assert_eq!(r.active(), Some(b));
    assert!(!r.is_live(a));
    assert!(r.is_live(b));
}

#[test]
fn deregistering_the_active_wrapper_hands_off_to_the_newest_live_wrapper() {
    // Multi-wrapper correctness: with several wrappers registered, closing the
    // active one hands off to the most-recently-registered still-live wrapper —
    // NOT down to *no sink*, and NOT to the oldest survivor. Three wrappers
    // prove it picks the newest survivor (b), not the oldest (a).
    let mut r = SinkRegistry::new();
    let a = r.register();
    let b = r.register();
    let c = r.register(); // c is active
    assert_eq!(r.active(), Some(c));
    r.deregister(c);
    assert_eq!(
        r.active(),
        Some(b),
        "hands off to the newest still-live wrapper, not the oldest or none",
    );
    assert!(r.is_live(a) && r.is_live(b) && !r.is_live(c));
}

#[test]
fn deregistration_falls_back_to_no_sink_only_when_the_last_wrapper_exits() {
    let mut r = SinkRegistry::new();
    let a = r.register();
    let b = r.register();
    let c = r.register();
    r.deregister(c);
    assert_eq!(r.active(), Some(b));
    r.deregister(b);
    assert_eq!(r.active(), Some(a));
    r.deregister(a);
    assert_eq!(
        r.active(),
        None,
        "the active sink becomes none only when the last wrapper exits",
    );
}

#[test]
fn deregistering_a_non_active_wrapper_never_changes_the_active_sink() {
    // Even with three wrappers, removing any non-active one leaves the active
    // sink untouched (it only changes the handoff candidates for later).
    let mut r = SinkRegistry::new();
    let a = r.register();
    let b = r.register();
    let c = r.register(); // c active
    r.deregister(a);
    assert_eq!(r.active(), Some(c));
    r.deregister(b);
    assert_eq!(r.active(), Some(c));
    // Now only c is live; closing it leaves no active sink.
    r.deregister(c);
    assert_eq!(r.active(), None);
}

#[test]
fn a_handoff_never_redirects_an_utterance_bound_to_the_now_dead_wrapper() {
    // An utterance bound to wrapper A while it was active; A then dies and the
    // registry hands off to wrapper B. The utterance must still be Held — never
    // redirected to B just because B is the active sink now.
    let mut r = SinkRegistry::new();
    let a = r.register();
    let _b = r.register(); // b is active now; bind to a explicitly
    let bound = Some(a);
    // A dies; with b still live, the active sink stays a wrapper (b), but the
    // bound utterance is for the dead a.
    r.deregister(a);
    assert!(r.active().is_some());
    assert_eq!(
        r.route(bound),
        Route::Held,
        "a dead bound wrapper Holds even when a handoff kept a wrapper active",
    );
}

#[test]
fn wrapper_count_tracks_the_number_of_live_wrappers() {
    // Surfaced by `status`: how many wrapper sinks are registered.
    let mut r = SinkRegistry::new();
    assert_eq!(r.wrapper_count(), 0);
    let a = r.register();
    let b = r.register();
    assert_eq!(r.wrapper_count(), 2);
    r.deregister(a);
    assert_eq!(r.wrapper_count(), 1);
    r.deregister(b);
    assert_eq!(r.wrapper_count(), 0);
}

#[test]
fn a_binding_to_nothing_is_held() {
    // No wrapper was active at trigger time → there is nowhere to deliver.
    let r = SinkRegistry::new();
    assert_eq!(r.route(None), Route::Held);
}

#[test]
fn a_live_wrapper_binding_routes_to_that_wrapper() {
    let mut r = SinkRegistry::new();
    let id = r.register();
    assert_eq!(r.route(Some(id)), Route::Wrapper(id));
}

#[test]
fn a_dead_wrapper_binding_is_held_not_redirected() {
    // Trigger-time binding: snapshot the active sink, then the wrapper dies.
    let mut r = SinkRegistry::new();
    let bound = r.register();
    r.deregister(bound);
    assert_eq!(r.route(Some(bound)), Route::Held);
}

#[test]
fn a_binding_is_never_silently_redirected_to_a_later_wrapper() {
    // Utterance bound to wrapper A while it was active; wrapper B launches and
    // becomes active. A is still live, so the utterance still goes to A — not
    // redirected to whatever is active now.
    let mut r = SinkRegistry::new();
    let a = r.register();
    let bound = r.active(); // Some(a)
    let b = r.register(); // B now active
    assert_eq!(r.active(), Some(b));
    assert_eq!(r.route(bound), Route::Wrapper(a));
}

#[test]
fn wrapper_ids_are_never_reused() {
    let mut r = SinkRegistry::new();
    let a = r.register();
    r.deregister(a);
    let b = r.register();
    assert_ne!(a, b);
    assert_eq!(r.active(), Some(b));
    assert!(r.is_live(b) && !r.is_live(a));
}
