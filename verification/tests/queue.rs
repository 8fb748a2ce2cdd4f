use ghostty_voice_core::queue::DeliveryQueue;

#[test]
fn empty_queue_has_nothing_to_type() {
    assert!(DeliveryQueue::new().next_to_type().is_none());
}

#[test]
fn a_later_ready_utterance_waits_for_an_earlier_pending_one() {
    let mut q = DeliveryQueue::new();
    let a = q.enqueue();
    let b = q.enqueue();
    q.set_ready(b, "second".to_owned());
    // #1 (a) is still pending -> #2 (b) must NOT jump ahead.
    assert_eq!(q.next_to_type(), None);
    q.set_ready(a, "first".to_owned());
    assert_eq!(q.next_to_type(), Some((a, "first")));
}

#[test]
fn resolving_the_head_advances_to_the_next() {
    let mut q = DeliveryQueue::new();
    let a = q.enqueue();
    let b = q.enqueue();
    q.set_ready(a, "first".to_owned());
    q.set_ready(b, "second".to_owned());
    assert_eq!(q.next_to_type(), Some((a, "first")));
    q.resolve(a);
    assert_eq!(q.next_to_type(), Some((b, "second")));
    q.resolve(b);
    assert!(q.is_empty());
}

#[test]
fn a_dropped_pending_head_unblocks_the_queue() {
    let mut q = DeliveryQueue::new();
    let a = q.enqueue();
    let b = q.enqueue();
    q.set_ready(b, "second".to_owned());
    assert_eq!(q.next_to_type(), None); // blocked on pending a
    q.resolve(a); // a dropped (e.g. empty/discarded)
    assert_eq!(q.next_to_type(), Some((b, "second")));
}

#[test]
fn sequence_numbers_are_never_reused_after_resolve() {
    let mut q = DeliveryQueue::new();
    let a = q.enqueue();
    q.resolve(a);
    let b = q.enqueue();
    let c = q.enqueue();
    assert!(a < b && b < c);
    assert!(q.next_to_type().is_none());
}
