use comet_core::safepoint::all_safe_for_safepoint;
use comet_core::safepoint::GlobalSafepoint;
use comet_core::safepoint::SafepointScope;
use comet_core::safepoint::ThreadState;

#[test]
fn one_collector_at_a_time() {
    let mut gs = GlobalSafepoint::new();
    assert!(gs.start());
    // While the winner runs, every later attempt loses.
    assert!(!gs.start());
    assert!(!gs.start());
    gs.end();
    // After the winner ends, a new start can win.
    assert!(gs.start());
    gs.end();
}

#[test]
fn collection_flag_is_observable() {
    let mut gs = GlobalSafepoint::new();
    assert!(!gs.gc_in_progress());
    assert!(gs.start());
    assert!(gs.gc_in_progress());
    gs.end();
    assert!(!gs.gc_in_progress());
}

#[test]
fn losing_start_is_a_signal_not_an_error() {
    let mut gs = GlobalSafepoint::new();
    assert!(gs.start());
    assert!(!gs.start());
    // The loser changed nothing: the winner can still end normally.
    assert!(gs.gc_in_progress());
    gs.end();
    assert!(!gs.gc_in_progress());
}

#[test]
fn scope_open_close_restores_state() {
    let mut gs = GlobalSafepoint::new();
    let scope = SafepointScope::new(&mut gs, ThreadState::Unsafe);
    assert!(scope.is_some());
    // A second initiator loses while the scope is open.
    assert!(SafepointScope::new(&mut gs, ThreadState::Unsafe).is_none());
    let restore = scope.unwrap().close(&mut gs);
    assert_eq!(restore, Some(ThreadState::Unsafe));
    assert!(!gs.gc_in_progress());
}

#[test]
fn scope_without_mutator_restores_nothing() {
    let mut gs = GlobalSafepoint::new();
    let scope = SafepointScope::new_no_mutator(&mut gs);
    assert!(gs.gc_in_progress());
    let restore = scope.close(&mut gs);
    assert_eq!(restore, None);
    assert!(!gs.gc_in_progress());
}

#[test]
fn three_scopes_in_sequence_all_succeed() {
    let mut gs = GlobalSafepoint::new();
    let mut opened: usize = 0;
    for _ in 0..3 {
        let scope = SafepointScope::new(&mut gs, ThreadState::Safe);
        assert!(scope.is_some());
        opened += 1;
        scope.unwrap().close(&mut gs);
    }
    assert_eq!(opened, 3);
}

#[test]
fn thread_states_safe_for_safepoint() {
    assert!(!ThreadState::Unsafe.safe_for_safepoint());
    assert!(ThreadState::Safe.safe_for_safepoint());
    assert!(ThreadState::Waiting.safe_for_safepoint());
    assert!(ThreadState::Parked.safe_for_safepoint());
}

#[test]
fn all_safe_scans_every_mutator() {
    let all = vec![ThreadState::Safe, ThreadState::Waiting, ThreadState::Parked];
    assert!(all_safe_for_safepoint(&all));
    let one_running = vec![ThreadState::Safe, ThreadState::Unsafe, ThreadState::Parked];
    assert!(!all_safe_for_safepoint(&one_running));
    let none: Vec<ThreadState> = Vec::new();
    assert!(all_safe_for_safepoint(&none));
}

#[test]
fn mutator_registration_counts() {
    let mut gs = GlobalSafepoint::new();
    assert_eq!(gs.n_mutators, 0);
    gs.register_mutator();
    gs.register_mutator();
    assert_eq!(gs.n_mutators, 2);
    gs.unregister_mutator();
    assert_eq!(gs.n_mutators, 1);
}
