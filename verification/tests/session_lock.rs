use wl_lock::state::session_lock::{LockAction, LockEvent};
use wl_lock::state::State;

#[test]
fn locked_then_finished_unlocks() {
    let mut s = State::default();
    assert_eq!(s.session_lock_event(LockEvent::Locked), LockAction::Nothing);
    assert!(s.is_locked);
    assert_eq!(s.session_lock_event(LockEvent::Finished), LockAction::UnlockAndDestroy);
    assert!(!s.is_locked);
}

#[test]
fn finished_without_lock_destroys() {
    let mut s = State::default();
    assert_eq!(s.session_lock_event(LockEvent::Finished), LockAction::Destroy);
    assert!(!s.is_locked);
}

#[test]
fn configure_records_size() {
    let mut s = State::default();
    s.registry_global(10, &"wl_output".to_string(), 4);
    s.registry_global(11, &"wl_output".to_string(), 4);
    s.attach_surface(10, 100);
    s.attach_surface(11, 101);
    s.configure_surface(11, 1920, 1080);
    let o = &s.outputs[&11];
    assert!(o.configured);
    let info = o.surface_info.get();
    assert_eq!(info.surface, 101);
    assert_eq!(*info.width.get(), 1920);
    assert_eq!(*info.height.get(), 1080);
    assert!(!s.outputs[&10].configured);
    assert!(!s.outputs[&10].surface_info.get().width.is_init());
}
