use wl_lock::state::wl_registry::{BindRequest, GlobalRemoval};
use wl_lock::state::State;

fn announce(s: &mut State, name: u32, interface: &str, version: u32) -> BindRequest {
    s.registry_global(name, &interface.to_string(), version)
}

#[test]
fn compositor_version_is_capped() {
    let mut s = State::default();
    assert_eq!(announce(&mut s, 1, "wl_compositor", 4), BindRequest::Compositor { version: 4 });
    assert_eq!(announce(&mut s, 2, "wl_compositor", 8), BindRequest::Compositor { version: 6 });
    assert!(s.compositor.is_init());
    assert_eq!(*s.compositor.get(), 2);
}

#[test]
fn seat_is_recorded() {
    let mut s = State::default();
    assert_eq!(announce(&mut s, 7, "wl_seat", 5), BindRequest::Seat { version: 5 });
    assert_eq!(announce(&mut s, 8, "wl_seat", 10), BindRequest::Seat { version: 9 });
    assert_eq!(s.seats.len(), 2);
    assert!(s.has_seat(7));
    assert!(s.has_seat(8));
    assert!(s.seats[&7].capabilities.is_none());
    assert!(s.seats[&7].name.is_none());
}

#[test]
fn lock_manager_and_shm_versions_are_fixed() {
    let mut s = State::default();
    assert_eq!(announce(&mut s, 3, "ext_session_lock_manager_v1", 3), BindRequest::LockManager { version: 1 });
    assert_eq!(announce(&mut s, 4, "wl_shm", 1), BindRequest::Shm { version: 2 });
    assert_eq!(*s.lock_manager.get(), 3);
    assert_eq!(*s.shm.get(), 4);
}

#[test]
fn output_is_recorded_fresh() {
    let mut s = State::default();
    assert_eq!(announce(&mut s, 40, "wl_output", 3), BindRequest::Output { version: 3 });
    assert_eq!(announce(&mut s, 41, "wl_output", 4), BindRequest::Output { version: 4 });
    assert_eq!(announce(&mut s, 42, "wl_output", 9), BindRequest::Output { version: 4 });
    assert_eq!(s.outputs.len(), 3);
    let o = &s.outputs[&41];
    assert_eq!(o.name, 41);
    assert!(!o.configured);
    assert!(!o.surface_info.is_init());
    assert!(o.events_to_flush.is_empty());
    assert!(o.pointer_events.is_empty());
    assert_eq!(o.last_pointer_axis_event, None);
    assert!(s.has_output(42));
    assert!(!s.has_output(43));
    let mut names = s.output_names();
    names.sort();
    assert_eq!(names, vec![40, 41, 42]);
}

#[test]
fn output_announced_twice_is_replaced() {
    let mut s = State::default();
    announce(&mut s, 40, "wl_output", 4);
    s.attach_surface(40, 3);
    announce(&mut s, 40, "wl_output", 4);
    assert_eq!(s.outputs.len(), 1);
    assert!(!s.outputs[&40].surface_info.is_init());
}

#[test]
fn unknown_interface_is_ignored() {
    let mut s = State::default();
    assert_eq!(announce(&mut s, 9, "xdg_wm_base", 5), BindRequest::Ignore);
    assert_eq!(announce(&mut s, 9, "wl_compositorx", 5), BindRequest::Ignore);
    assert!(!s.compositor.is_init());
    assert!(s.seats.is_empty());
    assert!(s.outputs.is_empty());
}

#[test]
fn seat_added_then_removed_is_released() {
    let mut s = State::default();
    announce(&mut s, 5, "wl_seat", 9);
    announce(&mut s, 6, "wl_seat", 9);
    assert_eq!(s.registry_global_remove(5), GlobalRemoval::ReleaseSeat);
    assert_eq!(s.seats.len(), 1);
    assert!(!s.has_seat(5));
    assert!(s.has_seat(6));
    assert_eq!(s.exit, None);
}

#[test]
fn core_global_removed_exits_with_one() {
    let mut s = State::default();
    announce(&mut s, 1, "wl_compositor", 6);
    assert_eq!(s.registry_global_remove(1), GlobalRemoval::Shutdown);
    assert_eq!(s.exit, Some(1));
}

#[test]
fn init_done_after_compositor() {
    let mut s = State::default();
    announce(&mut s, 1, "wl_compositor", 6);
    s.finish_init();
    assert!(s.init_done);
}
