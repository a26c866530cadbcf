use pf2::marker::Marker;
use pf2::session::{KnownThreads, SessionPhase};

#[test]
fn lifecycle_runs_once() {
    let mut phase = SessionPhase::Created;
    assert!(phase.can_start());
    assert!(!phase.can_stop());
    phase.start();
    assert_eq!(phase, SessionPhase::Running);
    assert!(!phase.can_start());
    assert!(phase.can_stop());
    phase.stop();
    assert_eq!(phase, SessionPhase::Stopped);
    assert!(!phase.can_start());
    assert!(!phase.can_stop());
}

#[test]
fn threads_are_new_only_once() {
    let mut known = KnownThreads::new();
    assert!(known.observe(11));
    assert!(known.observe(12));
    assert!(!known.observe(11));
    assert_eq!(known.known.len(), 2);
}

#[test]
fn marker_keeps_its_fields() {
    let m = Marker::new(5, "phase-1".to_owned(), 77);
    assert_eq!(m.ruby_thread, 5);
    assert_eq!(m.tag, "phase-1");
    assert_eq!(m.timestamp, 77);
    assert_eq!(m.references(), vec![5]);
}
