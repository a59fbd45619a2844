use brave_proton::dispatch::DispatchQueue;

#[test]
fn repeated_events_coalesce_into_one_pass() {
    let mut q = DispatchQueue::new();
    assert!(q.enqueue("default/web".to_string()));
    assert!(!q.enqueue("default/web".to_string()));
    assert!(!q.enqueue("default/web".to_string()));
    assert_eq!(q.pending_len(), 1);
}

#[test]
fn one_identity_is_never_handed_to_two_workers() {
    let mut q = DispatchQueue::new();
    q.enqueue("default/web".to_string());
    let first = q.start();
    assert_eq!(first, Some("default/web".to_string()));
    assert_eq!(q.in_flight_len(), 1);

    // a new event while the pass runs queues a fresh pass ...
    assert!(q.enqueue("default/web".to_string()));
    // ... but nothing starts while the identity is still in flight
    assert_eq!(q.start(), None);
    assert_eq!(q.in_flight_len(), 1);

    // once the worker reports back, the queued pass may begin
    q.finish(&"default/web".to_string());
    assert_eq!(q.in_flight_len(), 0);
    assert_eq!(q.start(), Some("default/web".to_string()));
}

#[test]
fn distinct_identities_run_concurrently() {
    let mut q = DispatchQueue::new();
    q.enqueue("default/web".to_string());
    q.enqueue("default/api".to_string());
    assert_eq!(q.start(), Some("default/web".to_string()));
    assert_eq!(q.start(), Some("default/api".to_string()));
    assert_eq!(q.in_flight_len(), 2);
    assert_eq!(q.start(), None);
    q.finish(&"default/api".to_string());
    assert_eq!(q.in_flight_len(), 1);
    assert_eq!(q.pending_len(), 0);
}

#[test]
fn the_oldest_ready_identity_starts_first() {
    let mut q = DispatchQueue::new();
    q.enqueue("default/web".to_string());
    q.enqueue("default/api".to_string());
    q.enqueue("default/db".to_string());
    assert_eq!(q.start(), Some("default/web".to_string()));
    // while web runs, a re-delivered web event waits behind nothing: the
    // oldest identity not in flight is api
    q.enqueue("default/web".to_string());
    assert_eq!(q.start(), Some("default/api".to_string()));
    assert_eq!(q.start(), Some("default/db".to_string()));
    assert_eq!(q.start(), None);
    assert_eq!(q.pending_len(), 1);
}
