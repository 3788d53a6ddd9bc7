use lapsus_control::reconcile::Reconciler;

#[test]
fn edge_triggering_over_a_probe_run() {
    // Probe results once per tick: exactly two transitions fire, in order.
    let mut r = Reconciler::new(false);
    let notes = r.observe_run(&vec![false, false, true, true, false]);
    assert_eq!(notes, vec![true, false]);
    assert!(!r.current());
}

#[test]
fn unchanged_state_is_silent() {
    let mut r = Reconciler::new(true);
    let notes = r.observe_run(&vec![true, true, true]);
    assert_eq!(notes, Vec::<bool>::new());
    assert!(r.current());
}

#[test]
fn single_tick_transition() {
    let mut r = Reconciler::new(false);
    assert_eq!(r.observe(true), Some(true));
    assert_eq!(r.observe(true), None);
    assert_eq!(r.observe(false), Some(false));
}

#[test]
fn initial_state_is_recorded() {
    let r = Reconciler::new(true);
    assert!(r.current());
}
